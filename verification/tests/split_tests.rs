use textutils::split::split_keep_ends;
use textutils::split::split_stripped;
use textutils::uniq::dedup_stream;

fn lines(v: &[&str]) -> Vec<String> {
    v.iter().map(|s| s.to_string()).collect()
}

#[test]
fn split_keeps_terminators_and_rejoins() {
    let text = "a\nbb\r\nc";
    let parts = split_keep_ends(text);
    assert_eq!(parts, lines(&["a\n", "bb\r\n", "c"]));
    assert_eq!(parts.concat(), text);
}

#[test]
fn split_of_empty_text_has_no_lines() {
    assert!(split_keep_ends("").is_empty());
    assert!(split_stripped("").is_empty());
}

#[test]
fn split_of_blank_lines() {
    assert_eq!(split_keep_ends("\n\n"), lines(&["\n", "\n"]));
    assert_eq!(split_stripped("\n\n"), lines(&["", ""]));
}

#[test]
fn split_stripped_removes_terminators() {
    assert_eq!(split_stripped("a\nbb\r\nc"), lines(&["a", "bb", "c"]));
    // A carriage return without a following newline stays.
    assert_eq!(split_stripped("a\rb"), lines(&["a\rb"]));
}

#[test]
fn dedup_stream_with_no_lines_emits_nothing() {
    assert!(dedup_stream("", false).is_empty());
    assert!(dedup_stream("", true).is_empty());
}

#[test]
fn dedup_stream_collapses_adjacent_duplicates() {
    assert_eq!(dedup_stream("a\na\nb\n", false), lines(&["a\n", "b\n"]));
}

#[test]
fn dedup_stream_reports_run_lengths() {
    assert_eq!(
        dedup_stream("a\na\nb\n", true),
        lines(&["   2 a\n", "   1 b\n"])
    );
}

#[test]
fn dedup_stream_is_idempotent_on_its_output() {
    let once = dedup_stream("q\nq\nr\nr\nq\n", false);
    let rejoined = once.concat();
    let twice = dedup_stream(&rejoined, false);
    assert_eq!(once, twice);
}
