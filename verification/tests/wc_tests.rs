use textutils::fmt::format_field;
use textutils::fmt::usize_to_string;
use textutils::wc::count;
use textutils::wc::count_line;
use textutils::wc::get_args;
use textutils::wc::Args;
use textutils::wc::FileInfo;

#[test]
fn test_count() {
    let text = "I don't want the world. I just want your half.\r\n";
    let info = count(text);
    let expected = FileInfo {
        num_lines: 1,
        num_words: 10,
        num_chars: 48,
        num_bytes: 48,
    };
    assert_eq!(info, expected);
}

#[test]
fn test_format_field() {
    assert_eq!(format_field(&usize_to_string(4), true), "       4");
    assert_eq!(format_field(&usize_to_string(300), false), "");
    assert_eq!(format_field("sample text", true), "sample text");
    assert_eq!(format_field("sample text", false), "");
}

#[test]
fn count_empty_is_all_zero() {
    let info = count("");
    assert_eq!(
        info,
        FileInfo {
            num_bytes: 0,
            num_chars: 0,
            num_lines: 0,
            num_words: 0,
        }
    );
}

#[test]
fn count_simple_line() {
    let info = count("a b  c\n");
    assert_eq!(info.num_lines, 1);
    assert_eq!(info.num_words, 3);
    assert_eq!(info.num_bytes, 7);
    assert_eq!(info.num_chars, 7);
}

#[test]
fn count_multibyte_text() {
    // Two characters of two and three UTF-8 bytes, no terminator.
    let info = count("é€");
    assert_eq!(info.num_bytes, 5);
    assert_eq!(info.num_chars, 2);
    assert_eq!(info.num_lines, 1);
    assert_eq!(info.num_words, 1);
}

#[test]
fn count_trailing_partial_line() {
    let info = count("one\ntwo");
    assert_eq!(info.num_lines, 2);
    assert_eq!(info.num_words, 2);
}

#[test]
fn count_aggregates_across_sources() {
    // Summing per-source counts equals counting the concatenation when the
    // first source ends with a terminator.
    let a = "a b\n";
    let b = "c d e\n";
    let whole = "a b\nc d e\n";
    let ia = count(a);
    let ib = count(b);
    let iw = count(whole);
    let sum = ia.checked_add(&ib).unwrap();
    assert_eq!(sum, iw);
}

#[test]
fn checked_add_sums_fields() {
    let a = FileInfo {
        num_bytes: 1,
        num_chars: 2,
        num_lines: 3,
        num_words: 4,
    };
    let b = FileInfo {
        num_bytes: 10,
        num_chars: 20,
        num_lines: 30,
        num_words: 40,
    };
    let s = a.checked_add(&b).unwrap();
    assert_eq!(s.num_bytes, 11);
    assert_eq!(s.num_chars, 22);
    assert_eq!(s.num_lines, 33);
    assert_eq!(s.num_words, 44);
    let big = FileInfo {
        num_bytes: usize::MAX,
        num_chars: 0,
        num_lines: 0,
        num_words: 0,
    };
    assert!(big.checked_add(&a).is_none());
}

#[test]
fn get_args_defaults_when_nothing_selected() {
    let args = Args {
        files: vec!["-".to_string()],
        bytes: false,
        chars: false,
        lines: false,
        words: false,
    };
    let r = get_args(args);
    assert!(r.lines && r.words && r.bytes && !r.chars);
    assert_eq!(r.files, vec!["-".to_string()]);
}

#[test]
fn get_args_keeps_explicit_selection() {
    let args = Args {
        files: vec![],
        bytes: false,
        chars: true,
        lines: false,
        words: false,
    };
    let r = get_args(args);
    assert!(r.chars && !r.bytes && !r.lines && !r.words);
}

#[test]
fn count_line_renders_selected_fields() {
    let info = count("a b  c\n");
    let line = count_line(&info, true, true, true, false, " in.txt", true);
    assert_eq!(line, "       1       3       7  in.txt");
    let bare = count_line(&info, true, false, false, false, "", false);
    assert_eq!(bare, "       1");
}
