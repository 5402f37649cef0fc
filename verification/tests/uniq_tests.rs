use textutils::uniq::dedup;
use textutils::uniq::dedup_lines;
use textutils::uniq::trim_eq;

fn lines(v: &[&str]) -> Vec<String> {
    v.iter().map(|s| s.to_string()).collect()
}

fn texts(v: &Vec<String>) -> Vec<String> {
    v.clone()
}

#[test]
fn empty_input_gives_empty_output() {
    let input: Vec<String> = Vec::new();
    let out = dedup(&input, false);
    assert!(out.is_empty());
    let out = dedup(&input, true);
    assert!(out.is_empty());
}

#[test]
fn adjacent_duplicates_collapse() {
    let input = lines(&["a\n", "a\n", "b\n"]);
    let out = dedup(&input, false);
    assert_eq!(out, lines(&["a\n", "b\n"]));
}

#[test]
fn run_lengths_are_reported() {
    let input = lines(&["a\n", "a\n", "b\n"]);
    let out = dedup(&input, true);
    assert_eq!(out, lines(&["   2 a\n", "   1 b\n"]));
}

#[test]
fn dedup_is_idempotent() {
    let input = lines(&["x\n", "x\n", "y\n", "y\n", "y\n", "x\n"]);
    let once = dedup(&input, false);
    let twice = dedup(&texts(&once), false);
    assert_eq!(once, twice);
    assert_eq!(once, lines(&["x\n", "y\n", "x\n"]));
}

#[test]
fn non_adjacent_duplicates_are_kept() {
    let input = lines(&["a\n", "b\n", "a\n"]);
    let out = dedup(&input, false);
    assert_eq!(out, lines(&["a\n", "b\n", "a\n"]));
}

#[test]
fn trailing_terminators_do_not_separate_runs() {
    // A final line without a terminator still matches the run before it.
    let input = lines(&["a\r\n", "a\n", "a"]);
    let out = dedup(&input, true);
    assert_eq!(out, lines(&["   3 a\r\n"]));
}

#[test]
fn interior_whitespace_distinguishes_lines() {
    let input = lines(&["a \n", "a\n"]);
    let out = dedup(&input, false);
    assert_eq!(out, lines(&["a \n", "a\n"]));
}

#[test]
fn trailing_blank_run_is_not_reported() {
    // The end-of-stream marker compares trim-equal to a blank final run, so
    // that run never triggers a flush.
    let input = lines(&["a\n", "\n"]);
    let out = dedup(&input, false);
    assert_eq!(out, lines(&["a\n"]));
}

#[test]
fn runs_carry_first_line_and_length() {
    let input = lines(&["one\n", "one\n", "one\n", "two\n"]);
    let runs = dedup_lines(&input);
    assert_eq!(runs.len(), 2);
    assert_eq!(runs[0].text, "one\n");
    assert_eq!(runs[0].count, 3);
    assert_eq!(runs[1].text, "two\n");
    assert_eq!(runs[1].count, 1);
}

#[test]
fn trim_equality_ignores_only_line_terminators() {
    assert!(trim_eq("abc\r\n", "abc"));
    assert!(trim_eq("abc\n", "abc\r\n"));
    assert!(!trim_eq("abc ", "abc"));
    assert!(!trim_eq("abc", "abd"));
    assert!(trim_eq("\n", "\r\n"));
}
