use lyrics_core::matcher::{select_best, LyricsResponse};

fn candidate(
    duration_ms: Option<u64>,
    plain: Option<&str>,
    synced: Option<&str>,
    name: &str,
) -> LyricsResponse {
    LyricsResponse {
        track_name: Some(name.to_string()),
        artist_name: None,
        album_name: None,
        duration_ms,
        plain_lyrics: plain.map(|s| s.to_string()),
        synced_lyrics: synced.map(|s| s.to_string()),
        synced: false,
        failed: false,
    }
}

#[test]
fn single_timed_synced_candidate_wins() {
    let cands = vec![
        candidate(None, Some("plain a"), None, "a"),
        candidate(Some(200_000), Some("plain b"), Some("[00:01] b"), "b"),
        candidate(None, None, Some("[00:02] c"), "c"),
    ];
    let r = select_best(&cands, 180_000);
    assert!(!r.failed);
    assert!(r.synced);
    assert_eq!(r.track_name.as_deref(), Some("b"));
}

#[test]
fn no_durations_means_failure() {
    let cands = vec![
        candidate(None, Some("plain"), Some("[00:01] synced"), "a"),
        candidate(None, Some("plain"), None, "b"),
    ];
    let r = select_best(&cands, 180_000);
    assert!(r.failed);
    assert!(!r.synced);
    assert_eq!(r.track_name, None);
    assert_eq!(r.plain_lyrics, None);
    assert_eq!(r.synced_lyrics, None);
}

#[test]
fn empty_list_means_failure() {
    let r = select_best(&Vec::new(), 180_000);
    assert!(r.failed);
}

#[test]
fn synced_preferred_over_closer_plain() {
    let cands = vec![
        candidate(Some(180_000), Some("exact plain"), None, "plain"),
        candidate(Some(120_000), None, Some("[00:01] far synced"), "synced"),
    ];
    let r = select_best(&cands, 180_000);
    assert!(!r.failed);
    assert!(r.synced);
    assert_eq!(r.track_name.as_deref(), Some("synced"));
}

#[test]
fn closest_duration_wins_within_pool() {
    let cands = vec![
        candidate(Some(100_000), None, Some("s1"), "far"),
        candidate(Some(179_000), None, Some("s2"), "near"),
        candidate(Some(150_000), None, Some("s3"), "middle"),
    ];
    let r = select_best(&cands, 180_000);
    assert_eq!(r.track_name.as_deref(), Some("near"));
}

#[test]
fn earliest_wins_on_equal_delta() {
    let cands = vec![
        candidate(Some(170_000), None, Some("s1"), "first"),
        candidate(Some(190_000), None, Some("s2"), "second"),
    ];
    let r = select_best(&cands, 180_000);
    assert_eq!(r.track_name.as_deref(), Some("first"));
}

#[test]
fn plain_pool_used_when_no_synced() {
    let cands = vec![
        candidate(Some(100_000), Some("p1"), None, "far"),
        candidate(Some(170_000), Some("p2"), None, "near"),
    ];
    let r = select_best(&cands, 180_000);
    assert!(!r.failed);
    assert!(!r.synced);
    assert_eq!(r.track_name.as_deref(), Some("near"));
}

#[test]
fn empty_synced_text_competes_as_plain() {
    let cands = vec![candidate(Some(180_000), Some("plain text"), Some(""), "a")];
    let r = select_best(&cands, 180_000);
    assert!(!r.failed);
    assert!(!r.synced);
    assert_eq!(r.track_name.as_deref(), Some("a"));
}

#[test]
fn timed_candidate_without_text_is_skipped() {
    let cands = vec![candidate(Some(180_000), None, None, "mute")];
    let r = select_best(&cands, 180_000);
    assert!(r.failed);
}
