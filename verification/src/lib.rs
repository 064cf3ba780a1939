//! Lyrics acquisition and transliteration core: duration-aware selection of
//! the best candidate lyrics record, an LRC timestamp parser, a script
//! detection heuristic, and the romanization dispatch that routes text
//! through script-specific transliteration collaborators.
pub mod detect;
pub mod lrc;
pub mod matcher;
pub mod romanize;
pub mod search;
pub mod text;
