use textutils::echo::join_words;

fn words(v: &[&str]) -> Vec<String> {
    v.iter().map(|s| s.to_string()).collect()
}

#[test]
fn runs() {
    let out = join_words(&words(&["hello world"]), false);
    assert_eq!(out, "hello world\n");
}

#[test]
fn hello1() {
    let out = join_words(&words(&["Hello there"]), false);
    assert_eq!(out, "Hello there\n");
}

#[test]
fn hello2() {
    let out = join_words(&words(&["Hello", "there"]), false);
    assert_eq!(out, "Hello there\n");
}

#[test]
fn hello1_no_newline() {
    let out = join_words(&words(&["Hello there"]), true);
    assert_eq!(out, "Hello there");
}

#[test]
fn hello2_no_newline() {
    let out = join_words(&words(&["Hello", "there"]), true);
    assert_eq!(out, "Hello there");
}

#[test]
fn no_words_is_just_the_newline() {
    assert_eq!(join_words(&Vec::new(), false), "\n");
    assert_eq!(join_words(&Vec::new(), true), "");
}
