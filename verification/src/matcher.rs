//! Duration-aware selection of the best candidate lyrics record: synced
//! lyrics are preferred unconditionally; within each pool the candidate
//! whose duration lies closest to the target wins, earliest first on a tie.
use vstd::prelude::*;

verus! {

/// One candidate lyrics record, and also the shape of the final selection:
/// the `synced` and `failed` flags are meaningful only on the value that
/// `select_best` returns. Durations are in milliseconds.
#[derive(Debug, PartialEq, Eq)]
pub struct LyricsResponse {
    pub track_name: Option<String>,
    pub artist_name: Option<String>,
    pub album_name: Option<String>,
    pub duration_ms: Option<u64>,
    pub plain_lyrics: Option<String>,
    pub synced_lyrics: Option<String>,
    /// The selected record carried non-empty synced text.
    pub synced: bool,
    /// No candidate could be scored: every field of the result is default.
    pub failed: bool,
}

/// An optional text that is present and non-empty.
pub open spec fn text_present(o: Option<String>) -> bool {
    o is Some && o->0@.len() > 0
}

/// A candidate scorable for the given pool: it must carry a duration, and
/// synced candidates (non-empty synced text) never compete in the plain
/// pool.
pub open spec fn pool_eligible(c: LyricsResponse, synced_pool: bool) -> bool {
    c.duration_ms is Some && if synced_pool {
        text_present(c.synced_lyrics)
    } else {
        !text_present(c.synced_lyrics) && text_present(c.plain_lyrics)
    }
}

/// The absolute distance between a candidate duration and the target.
pub open spec fn dur_delta(d: u64, target: u64) -> int {
    if d >= target {
        d - target
    } else {
        target - d
    }
}

/// The delta of candidate `c`, meaningful only when a duration is present.
pub open spec fn cand_delta(c: LyricsResponse, target: u64) -> int {
    dur_delta(c.duration_ms->0, target)
}

/// The index of the winner of one pool: a left-to-right fold keeping the
/// eligible candidate with the strictly smallest delta, so the earliest of
/// equally close candidates wins.
pub open spec fn best_idx(s: Seq<LyricsResponse>, target: u64, synced_pool: bool) -> Option<int>
    decreases s.len(),
{
    if s.len() == 0 {
        None
    } else {
        let prev = best_idx(s.drop_last(), target, synced_pool);
        let i = s.len() - 1;
        if pool_eligible(s[i], synced_pool) {
            match prev {
                None => Some(i as int),
                Some(j) => if cand_delta(s[i], target) < cand_delta(s[j], target) {
                    Some(i as int)
                } else {
                    Some(j)
                },
            }
        } else {
            prev
        }
    }
}

/// The record that the selection returns when nothing could be scored.
pub open spec fn failed_response() -> LyricsResponse {
    LyricsResponse {
        track_name: None,
        artist_name: None,
        album_name: None,
        duration_ms: None,
        plain_lyrics: None,
        synced_lyrics: None,
        synced: false,
        failed: true,
    }
}

/// Candidate `c` tagged as the final selection.
pub open spec fn mark_selected(c: LyricsResponse, synced: bool) -> LyricsResponse {
    LyricsResponse { synced, failed: false, ..c }
}

/// The whole selection: the synced pool's winner if that pool is
/// non-empty, else the plain pool's winner, else failure.
pub open spec fn spec_select(s: Seq<LyricsResponse>, target: u64) -> LyricsResponse {
    match best_idx(s, target, true) {
        Some(i) => mark_selected(s[i], true),
        None => match best_idx(s, target, false) {
            Some(i) => mark_selected(s[i], false),
            None => failed_response(),
        },
    }
}

/// What the winning index of a pool means: it is eligible, no eligible
/// candidate beats its delta, and every earlier eligible candidate is
/// strictly farther; absence means the pool is empty.
pub proof fn lemma_best_idx_props(s: Seq<LyricsResponse>, target: u64, synced_pool: bool)
    ensures
        match best_idx(s, target, synced_pool) {
            Some(i) => 0 <= i < s.len() && pool_eligible(s[i], synced_pool) && (forall|k: int|
                0 <= k < s.len() && pool_eligible(s[k], synced_pool) ==> cand_delta(s[k], target)
                    >= cand_delta(s[i], target)) && (forall|k: int|
                0 <= k < i && pool_eligible(s[k], synced_pool) ==> cand_delta(s[k], target)
                    > cand_delta(s[i], target)),
            None => forall|k: int| 0 <= k < s.len() ==> !pool_eligible(s[k], synced_pool),
        },
    decreases s.len(),
{
    if s.len() > 0 {
        lemma_best_idx_props(s.drop_last(), target, synced_pool);
        assert(forall|k: int| 0 <= k < s.len() - 1 ==> s.drop_last()[k] == s[k]);
    }
}

fn clone_opt_string(o: &Option<String>) -> (r: Option<String>)
    ensures
        r == *o,
{
    match o {
        Some(s) => Some(s.clone()),
        None => None,
    }
}

fn clone_opt_u64(o: &Option<u64>) -> (r: Option<u64>)
    ensures
        r == *o,
{
    match o {
        Some(d) => Some(*d),
        None => None,
    }
}

/// A field-for-field copy of a candidate record.
fn clone_response(c: &LyricsResponse) -> (r: LyricsResponse)
    ensures
        r == *c,
{
    LyricsResponse {
        track_name: clone_opt_string(&c.track_name),
        artist_name: clone_opt_string(&c.artist_name),
        album_name: clone_opt_string(&c.album_name),
        duration_ms: clone_opt_u64(&c.duration_ms),
        plain_lyrics: clone_opt_string(&c.plain_lyrics),
        synced_lyrics: clone_opt_string(&c.synced_lyrics),
        synced: c.synced,
        failed: c.failed,
    }
}

/// Whether an optional text is present and non-empty.
fn text_present_exec(o: &Option<String>) -> (r: bool)
    ensures
        r == text_present(*o),
{
    match o {
        Some(s) => s.as_str().unicode_len() > 0,
        None => false,
    }
}

/// Selects the best record for a track of duration `target_ms`: candidates
/// without a duration are skipped; a candidate with non-empty synced text
/// competes in the synced pool, otherwise one with non-empty plain text in
/// the plain pool; within a pool a strictly smaller absolute distance to
/// the target wins, so the earliest closest candidate is kept; a synced
/// winner is preferred over a plain one regardless of the deltas; when
/// neither pool has a winner the result is the failed record. In
/// particular, whenever any synced candidate is scorable the result is a
/// non-failed synced selection.
pub fn select_best(candidates: &Vec<LyricsResponse>, target_ms: u64) -> (r: LyricsResponse)
    ensures
        r == spec_select(candidates@, target_ms),
        (exists|i: int| 0 <= i < candidates@.len() && pool_eligible(candidates@[i], true)) ==> (
        !r.failed && r.synced),
        r.failed <==> (forall|i: int|
            0 <= i < candidates@.len() ==> !pool_eligible(candidates@[i], true) && !pool_eligible(
                candidates@[i], false)),
{
    let n = candidates.len();
    let mut best_synced: Option<usize> = None;
    let mut best_plain: Option<usize> = None;
    let mut i: usize = 0;
    while i < n
        invariant
            n == candidates@.len(),
            i <= n,
            match best_synced {
                Some(j) => j < i && pool_eligible(candidates@[j as int], true) && best_idx(
                    candidates@.take(i as int),
                    target_ms,
                    true,
                ) == Some(j as int),
                None => best_idx(candidates@.take(i as int), target_ms, true) is None,
            },
            match best_plain {
                Some(j) => j < i && pool_eligible(candidates@[j as int], false) && best_idx(
                    candidates@.take(i as int),
                    target_ms,
                    false,
                ) == Some(j as int),
                None => best_idx(candidates@.take(i as int), target_ms, false) is None,
            },
        decreases n - i,
    {
        proof {
            assert(candidates@.take(i + 1).drop_last() =~= candidates@.take(i as int));
            assert(candidates@.take(i + 1).last() == candidates@[i as int]);
        }
        let c = &candidates[i];
        if let Some(d) = c.duration_ms {
            let delta: u64 = if d >= target_ms {
                d - target_ms
            } else {
                target_ms - d
            };
            if text_present_exec(&c.synced_lyrics) {
                let better = match best_synced {
                    None => true,
                    Some(j) => {
                        let bd = candidates[j].duration_ms.unwrap();
                        let best_delta: u64 = if bd >= target_ms {
                            bd - target_ms
                        } else {
                            target_ms - bd
                        };
                        delta < best_delta
                    },
                };
                if better {
                    best_synced = Some(i);
                }
            } else if text_present_exec(&c.plain_lyrics) {
                let better = match best_plain {
                    None => true,
                    Some(j) => {
                        let bd = candidates[j].duration_ms.unwrap();
                        let best_delta: u64 = if bd >= target_ms {
                            bd - target_ms
                        } else {
                            target_ms - bd
                        };
                        delta < best_delta
                    },
                };
                if better {
                    best_plain = Some(i);
                }
            }
        }
        i += 1;
    }
    proof {
        assert(candidates@.take(n as int) =~= candidates@);
        lemma_best_idx_props(candidates@, target_ms, true);
        lemma_best_idx_props(candidates@, target_ms, false);
    }
    if let Some(j) = best_synced {
        let mut r = clone_response(&candidates[j]);
        r.synced = true;
        r.failed = false;
        r
    } else if let Some(j) = best_plain {
        let mut r = clone_response(&candidates[j]);
        r.synced = false;
        r.failed = false;
        r
    } else {
        LyricsResponse {
            track_name: None,
            artist_name: None,
            album_name: None,
            duration_ms: None,
            plain_lyrics: None,
            synced_lyrics: None,
            synced: false,
            failed: true,
        }
    }
}

/// When exactly one candidate carries a duration, and that candidate has
/// non-empty synced text, the selection is that candidate, synced and not
/// failed.
pub proof fn lemma_single_timed_synced(s: Seq<LyricsResponse>, target: u64, k: int)
    requires
        0 <= k < s.len(),
        s[k].duration_ms is Some,
        text_present(s[k].synced_lyrics),
        forall|j: int| 0 <= j < s.len() && j != k ==> s[j].duration_ms is None,
    ensures
        spec_select(s, target) == mark_selected(s[k], true),
        !spec_select(s, target).failed,
        spec_select(s, target).synced,
{
    lemma_best_idx_props(s, target, true);
    match best_idx(s, target, true) {
        Some(i) => {
            assert(pool_eligible(s[i], true));
            assert(i == k);
        },
        None => {
            assert(pool_eligible(s[k], true));
        },
    }
}

/// When no candidate carries a duration the selection fails.
pub proof fn lemma_no_duration_fails(s: Seq<LyricsResponse>, target: u64)
    requires
        forall|j: int| 0 <= j < s.len() ==> s[j].duration_ms is None,
    ensures
        spec_select(s, target) == failed_response(),
{
    lemma_best_idx_props(s, target, true);
    lemma_best_idx_props(s, target, false);
}

/// Synced precedence is unconditional: whenever some candidate is
/// scorable in the synced pool, the selection is synced and not failed,
/// however close any plain candidate's duration may be.
pub proof fn lemma_synced_preferred(s: Seq<LyricsResponse>, target: u64, k: int)
    requires
        0 <= k < s.len(),
        pool_eligible(s[k], true),
    ensures
        spec_select(s, target).synced,
        !spec_select(s, target).failed,
{
    lemma_best_idx_props(s, target, true);
}

} // verus!
