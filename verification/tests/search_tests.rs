use lyrics_core::search::build_search_url;

#[test]
fn url_encodes_reserved_characters() {
    let url = build_search_url("Artist Name", "Song/Title", 215_000);
    assert_eq!(
        url,
        "https://lrclib.net/api/search?artist_name=Artist%20Name&track_name=Song%2FTitle&duration=215"
    );
}

#[test]
fn unreserved_text_passes_through() {
    let url = build_search_url("ABBA", "SOS", 154_999);
    assert_eq!(
        url,
        "https://lrclib.net/api/search?artist_name=ABBA&track_name=SOS&duration=154"
    );
}

#[test]
fn zero_duration_is_accepted() {
    let url = build_search_url("a", "b", 0);
    assert_eq!(url, "https://lrclib.net/api/search?artist_name=a&track_name=b&duration=0");
}
