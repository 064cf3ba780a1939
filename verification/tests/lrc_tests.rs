use lyrics_core::lrc::{format_timestamp, parse_line, parse_lyrics, parse_time};

#[test]
fn single_timed_line() {
    let lines = parse_lyrics("[01:30.00] Hello");
    assert_eq!(lines.len(), 1);
    assert_eq!(lines[0].time_ms, 90000);
    assert_eq!(lines[0].text, "Hello");
}

#[test]
fn malformed_timestamp_and_empty_text_degrade() {
    let lines = parse_lyrics("[bad] ");
    assert_eq!(lines.len(), 1);
    assert_eq!(lines[0].time_ms, 0);
    assert_eq!(lines[0].text, "\u{266a}");
}

#[test]
fn first_letter_is_uppercased_and_rest_untouched() {
    let lines = parse_lyrics("[00:05.00] hello WORLD again");
    assert_eq!(lines[0].text, "Hello WORLD again");
    let first = lines[0].text.chars().next().unwrap();
    assert_eq!(first.to_uppercase().collect::<String>(), first.to_string());
}

#[test]
fn line_without_separator_is_all_timestamp() {
    let lines = parse_lyrics("just some text");
    assert_eq!(lines.len(), 1);
    assert_eq!(lines[0].time_ms, 0);
    assert_eq!(lines[0].text, "\u{266a}");
}

#[test]
fn lines_keep_source_order_even_out_of_time_order() {
    let lines = parse_lyrics("[02:00.00] second\r\n[01:00.00] first\n[00:30.00] third");
    assert_eq!(lines.len(), 3);
    assert_eq!(lines[0].time_ms, 120000);
    assert_eq!(lines[0].text, "Second");
    assert_eq!(lines[1].time_ms, 60000);
    assert_eq!(lines[1].text, "First");
    assert_eq!(lines[2].time_ms, 30000);
    assert_eq!(lines[2].text, "Third");
}

#[test]
fn empty_input_yields_no_lines() {
    assert_eq!(parse_lyrics("").len(), 0);
}

#[test]
fn trailing_newline_adds_no_line() {
    assert_eq!(parse_lyrics("[00:01.00] a\n").len(), 1);
}

#[test]
fn component_failures_default_alone() {
    // Bad minutes, good seconds.
    assert_eq!(parse_time("[ab:30]"), 30000);
    // Good minutes, bad seconds.
    assert_eq!(parse_time("[02:xx]"), 120000);
    // Not exactly two parts.
    assert_eq!(parse_time("[1:2:3]"), 0);
    assert_eq!(parse_time("[90]"), 0);
}

#[test]
fn fractional_seconds_parse_to_milliseconds() {
    assert_eq!(parse_time("[10:05.5]"), 605500);
    assert_eq!(parse_time("00:00.1234"), 123);
    assert_eq!(parse_time("00:30."), 30000);
    assert_eq!(parse_time("00:.5"), 500);
}

#[test]
fn parse_line_splits_on_first_separator_only() {
    let line = parse_line("[00:01.00] a] b");
    assert_eq!(line.time_ms, 1000);
    assert_eq!(line.text, "A] b");
}

#[test]
fn formatting_pads_seconds_and_centiseconds() {
    assert_eq!(format_timestamp(90000), "01:30.00");
    assert_eq!(format_timestamp(0), "00:00.00");
    assert_eq!(format_timestamp(754560), "12:34.56");
    assert_eq!(format_timestamp(6000000), "100:00.00");
}

#[test]
fn format_then_parse_recovers_centiseconds() {
    for &ms in &[0u64, 90000, 754560, 599_990, 3_599_990] {
        let rendered = format_timestamp(ms);
        assert_eq!(parse_time(&rendered), ms - ms % 10);
    }
    let bracketed = format!("[{}] x", format_timestamp(90000));
    let lines = parse_lyrics(&bracketed);
    assert_eq!(lines[0].time_ms, 90000);
}
