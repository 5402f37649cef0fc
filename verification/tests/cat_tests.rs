use textutils::cat::render_lines;
use textutils::fmt::pad_left;
use textutils::fmt::usize_to_string;

fn lines(v: &[&str]) -> Vec<String> {
    v.iter().map(|s| s.to_string()).collect()
}

#[test]
fn plain_rendering_passes_lines_through() {
    let input = lines(&["one", "", "two"]);
    let out = render_lines(&input, false, false);
    assert_eq!(out, input);
}

#[test]
fn numbering_all_lines() {
    let input = lines(&["one", "", "two"]);
    let out = render_lines(&input, true, false);
    assert_eq!(out, lines(&["     1\tone", "     2\t", "     3\ttwo"]));
}

#[test]
fn numbering_nonblank_lines_only() {
    let input = lines(&["one", "", "two"]);
    let out = render_lines(&input, false, true);
    assert_eq!(out, lines(&["     1\tone", "", "     2\ttwo"]));
}

#[test]
fn numbering_all_takes_precedence() {
    let input = lines(&["a", ""]);
    let both = render_lines(&input, true, true);
    let all = render_lines(&input, true, false);
    assert_eq!(both, all);
}

#[test]
fn decimal_rendering_is_exact() {
    assert_eq!(usize_to_string(0), "0");
    assert_eq!(usize_to_string(7), "7");
    assert_eq!(usize_to_string(10), "10");
    assert_eq!(usize_to_string(300), "300");
    assert_eq!(usize_to_string(18446744073709551615), usize::MAX.to_string());
}

#[test]
fn padding_right_justifies_short_values() {
    assert_eq!(pad_left("4", 8), "       4");
    assert_eq!(pad_left("abc", 2), "abc");
    assert_eq!(pad_left("", 3), "   ");
}
