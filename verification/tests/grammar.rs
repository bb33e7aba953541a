use azurejay::grammar::{apply_corrections, check_endpoint, explain, grammar_observation, LtMatch, LtReplacement, NO_SYNTAX_ERRORS};

fn m(msg: &str, short: &str, offset: usize, length: usize, reps: &[&str]) -> LtMatch {
    LtMatch {
        message: msg.to_string(),
        short_message: short.to_string(),
        offset,
        length,
        replacements: reps.iter().map(|v| LtReplacement { value: v.to_string() }).collect(),
    }
}

#[test]
fn corrections_apply_last_first() {
    let text = "I has two dog";
    let ms = vec![m("agreement", "", 2, 3, &["have"]), m("plural", "Plural", 10, 3, &["dogs", "cats"])];
    assert_eq!(apply_corrections(text, &ms), "I have two dogs");
}

#[test]
fn spans_are_cut_to_the_text_and_unreplaced_matches_skipped() {
    let ms = vec![m("x", "", 3, 100, &["!"]), m("y", "", 0, 1, &[])];
    assert_eq!(apply_corrections("abcdef", &ms), "abc!");
    let ms = vec![m("x", "", 50, 1, &["?"])];
    assert_eq!(apply_corrections("ab", &ms), "ab?");
}

#[test]
fn equal_offsets_keep_their_order() {
    let ms = vec![m("a", "", 1, 1, &["X"]), m("b", "", 1, 1, &["Y"])];
    assert_eq!(apply_corrections("abc", &ms), "aYc");
}

#[test]
fn offsets_count_characters() {
    let ms = vec![m("a", "", 1, 1, &["e"])];
    assert_eq!(apply_corrections("héllo", &ms), "hello");
}

#[test]
fn one_error_explained() {
    assert_eq!(
        explain(&vec![m("Possible agreement error", "Agreement", 2, 3, &["have"])]),
        "Found 1 error: Agreement. Suggested correction: 'have'"
    );
    assert_eq!(explain(&vec![m("Long message", "", 0, 1, &[])]), "Found 1 error: Long message");
}

#[test]
fn several_errors_explained() {
    let ms = vec![m("first", "", 0, 1, &["A"]), m("second", "Second", 2, 1, &[])];
    assert_eq!(explain(&ms), "Found 2 errors:\n1. first -> 'A'\n2. Second");
    let many: Vec<LtMatch> = (0..12).map(|i| m("e", "", i, 1, &[])).collect();
    let text = explain(&many);
    assert!(text.starts_with("Found 12 errors:\n1. e\n"));
    assert!(text.ends_with("\n12. e"));
}

#[test]
fn observation_texts() {
    assert_eq!(grammar_observation("fine", &vec![]), NO_SYNTAX_ERRORS);
    let ms = vec![m("agreement", "Agreement", 2, 3, &["have"])];
    assert_eq!(
        grammar_observation("I has a dog", &ms),
        "Errors found in: 'I has a dog'. Suggested correction: 'I have a dog'. Details: Found 1 error: Agreement. Suggested correction: 'have'"
    );
}

#[test]
fn check_endpoint_appends_the_path() {
    assert_eq!(check_endpoint("https://api.languagetoolplus.com/v2"), "https://api.languagetoolplus.com/v2/check");
}
