//! The search request: builds the lyrics provider's search URL from the
//! track metadata. The request itself, and the decoding of its response
//! into candidate records, belong to the caller; selection over the
//! decoded candidates is the matcher's.
use vstd::prelude::*;

use crate::text::{digits_seq, u64_to_string};

verus! {

/// The percent-encoding of a text, as the urlencoding crate computes it
/// over the text's UTF-8 bytes, a function of the text alone.
pub uninterp spec fn url_encoded_of(s: Seq<char>) -> Seq<char>;

/// A character that percent-encoding passes through unchanged: an ASCII
/// alphanumeric or one of `-`, `_`, `.`, `~`.
pub open spec fn is_url_unreserved(c: char) -> bool {
    (0x30 <= c as u32 && c as u32 <= 0x39) || (0x41 <= c as u32 && c as u32 <= 0x5A) || (0x61 <= c
        as u32 && c as u32 <= 0x7A) || c == '-' || c == '_' || c == '.' || c == '~'
}

/// Relies on urlencoding::encode: percent-encodes every byte except
/// ASCII alphanumerics and `-`, `_`, `.`, `~`, so a text of unreserved
/// characters alone comes back unchanged.
#[verifier::external_body]
fn url_encode(s: &str) -> (r: String)
    ensures
        r@ == url_encoded_of(s@),
        (forall|i: int| 0 <= i < s@.len() ==> is_url_unreserved(s@[i])) ==> r@ == s@,
{
    urlencoding::encode(s).into_owned()
}

/// The full search URL for a track: encoded artist, encoded title, and
/// the duration in whole seconds.
pub open spec fn spec_search_url(artist: Seq<char>, title: Seq<char>, duration_ms: u64) -> Seq<
    char,
> {
    "https://lrclib.net/api/search?artist_name="@ + url_encoded_of(artist) + "&track_name="@
        + url_encoded_of(title) + "&duration="@ + digits_seq(duration_ms as int / 1000)
}

/// Builds the provider's search URL; the duration is converted from the
/// track boundary's milliseconds to the provider's whole seconds.
pub fn build_search_url(artist: &str, title: &str, duration_ms: u64) -> (r: String)
    ensures
        r@ == spec_search_url(artist@, title@, duration_ms),
{
    let mut s = String::from_str("https://lrclib.net/api/search?artist_name=");
    let ea = url_encode(artist);
    s.append(ea.as_str());
    s.append("&track_name=");
    let et = url_encode(title);
    s.append(et.as_str());
    s.append("&duration=");
    let d = u64_to_string(duration_ms / 1000);
    s.append(d.as_str());
    proof {
        assert(s@ =~= spec_search_url(artist@, title@, duration_ms));
    }
    s
}

} // verus!
