use azurejay::conversations::{
    attach_corrections, check_access, make_title, profile_text, stored_profile_text, validate_content,
    worth_language_check, AccessError, CorrectionRow, MessageRow, NON_ENGLISH_REPLY, NO_PROFILE,
};

#[test]
fn short_titles_are_trimmed() {
    assert_eq!(make_title("  hello there "), "hello there");
    assert_eq!(make_title(""), "");
}

#[test]
fn long_titles_are_cut_at_sixty_characters() {
    let content = "a".repeat(59) + " bcdef";
    assert_eq!(make_title(&content), "a".repeat(59) + "...");
    let exact = "x".repeat(60);
    assert_eq!(make_title(&exact), exact);
    let wide = "é".repeat(61);
    assert_eq!(make_title(&wide), "é".repeat(60) + "...");
}

#[test]
fn content_must_not_be_blank() {
    assert_eq!(validate_content("  hi  "), Ok("hi".to_string()));
    assert_eq!(validate_content(" \n "), Err("message content cannot be empty".to_string()));
}

#[test]
fn language_check_needs_three_words_and_twelve_chars() {
    assert!(!worth_language_check("hi there"));
    assert!(!worth_language_check("a b c"));
    assert!(worth_language_check("bonjour tout le monde"));
    assert!(worth_language_check("   one two   three!!  "));
    assert!(!worth_language_check("one two thr"));
    assert!(worth_language_check("one two thre"));
    assert!(worth_language_check("one two three"));
    assert!(NON_ENGLISH_REPLY.starts_with("It looks like you're writing in another language!"));
}

#[test]
fn corrections_attach_to_their_message() {
    let msgs = vec![
        MessageRow { id: 1, role: "human", content: "I has dog".to_string() },
        MessageRow { id: 2, role: "ai", content: "Nice!".to_string() },
    ];
    let corr = vec![
        CorrectionRow {
            message_id: 1,
            original_text: "I has dog".to_string(),
            corrected_text: "I have a dog".to_string(),
            explanation: "agreement".to_string(),
            improvement: "I've got a dog".to_string(),
        },
        CorrectionRow {
            message_id: 1,
            original_text: "later".to_string(),
            corrected_text: "later".to_string(),
            explanation: "".to_string(),
            improvement: "".to_string(),
        },
    ];
    let out = attach_corrections(msgs, &corr);
    assert_eq!(out.len(), 2);
    assert_eq!(out[0].id, 1);
    assert_eq!(out[0].role, "human");
    let c = out[0].correction.as_ref().unwrap();
    assert_eq!(c.corrected_text, "I have a dog");
    assert_eq!(c.improvement, "I've got a dog");
    assert!(out[1].correction.is_none());
    assert_eq!(out[1].content, "Nice!");
}

#[test]
fn only_the_owner_may_use_a_conversation() {
    assert_eq!(check_access(Some(7), 7), Ok(()));
    assert_eq!(check_access(Some(7), 8), Err(AccessError::Forbidden));
    assert_eq!(check_access(None, 7), Err(AccessError::NotFound));
}

#[test]
fn profile_text_falls_back_when_none_is_stored() {
    assert_eq!(profile_text(None), "No profile saved yet.");
    assert_eq!(NO_PROFILE, "No profile saved yet.");
    assert_eq!(profile_text(Some("{\"name\":\"Ann\"}".to_string())), "{\"name\":\"Ann\"}");
}

#[test]
fn titles_never_exceed_sixty_three_characters() {
    let t = make_title(&"word ".repeat(40));
    assert!(t.chars().count() <= 63);
    assert_eq!(t, format!("{}...", "word ".repeat(12).trim_end()));
    assert_eq!(make_title(&"x".repeat(100)).chars().count(), 63);
}

#[test]
fn stored_profiles_are_written_back_compactly() {
    assert_eq!(stored_profile_text(Some("{ \"name\" : \"Ann\" }")), "{\"name\":\"Ann\"}");
    assert_eq!(stored_profile_text(Some("not json")), "No profile saved yet.");
    assert_eq!(stored_profile_text(None), "No profile saved yet.");
}
