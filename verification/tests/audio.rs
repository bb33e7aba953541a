use azurejay::audio::{audio_headers, AUDIO_CONTENT_TYPE, AUDIO_DISPOSITION};

#[test]
fn reply_type_and_disposition() {
    assert_eq!(AUDIO_CONTENT_TYPE, "audio/mpeg");
    assert_eq!(AUDIO_DISPOSITION, "attachment; filename=response.mp3");
}

#[test]
fn valid_extra_headers_are_sent_and_exposed() {
    let h = audio_headers(&vec![
        ("X-Conversation-ID", "6f1c".to_string()),
        ("X-Conversation-Title", "Caf\u{e9} talk".to_string()),
    ]);
    assert_eq!(
        h.extra,
        vec![
            ("X-Conversation-ID".to_string(), "6f1c".to_string()),
            ("X-Conversation-Title".to_string(), "Caf\u{e9} talk".to_string()),
        ]
    );
    assert_eq!(h.expose.as_deref(), Some("Content-Disposition,X-Conversation-ID,X-Conversation-Title"));
}

#[test]
fn invalid_extra_headers_are_dropped() {
    let h = audio_headers(&vec![
        ("X-Conversation-ID", "line\nbreak".to_string()),
        ("Bad Name", "v".to_string()),
        ("X-Conversation-Title", "Hello".to_string()),
    ]);
    assert_eq!(h.extra, vec![("X-Conversation-Title".to_string(), "Hello".to_string())]);
    assert_eq!(h.expose.as_deref(), Some("Content-Disposition,X-Conversation-Title"));
}

#[test]
fn no_extra_headers() {
    let h = audio_headers(&vec![]);
    assert!(h.extra.is_empty());
    assert_eq!(h.expose.as_deref(), Some("Content-Disposition"));
}
