use azurejay::trajectory::{
    first_actionable_segment, parse_double_check_score, parse_segments, tool_stop_sequences, Role,
    Segment, Trajectory,
};

const ALL_ROLES: [Role; 11] = [
    Role::Plan,
    Role::Think,
    Role::Reflection,
    Role::SuggestedAnswer,
    Role::DoubleCheck,
    Role::Answer,
    Role::Observation,
    Role::WebSearch,
    Role::GrammarCheck,
    Role::UpdateProfile,
    Role::SaveCorrection,
];

#[test]
fn parses_ordered_segments() {
    let stream = String::new()
        + "<plan>1. greet 2. answer</plan>"
        + "<think>simple turn</think>"
        + "<suggested_answer>Hi there!</suggested_answer>"
        + "<double_check>The score this time is:4</double_check>"
        + "<answer>Hi there! How's your day going?</answer>";
    let roles: Vec<Role> = parse_segments(&stream).iter().map(|s| s.role).collect();
    assert_eq!(
        roles,
        vec![
            Role::Plan,
            Role::Think,
            Role::SuggestedAnswer,
            Role::DoubleCheck,
            Role::Answer,
        ]
    );
    let answer = parse_segments(&stream)
        .into_iter()
        .find(|s| s.role == Role::Answer)
        .map(|s| s.content);
    assert_eq!(answer.as_deref(), Some("Hi there! How's your day going?"));
    assert_eq!(parse_double_check_score("The score this time is:4"), Some(4));
    assert_eq!(parse_double_check_score("score is: 2"), Some(2));
}

#[test]
fn handles_missing_closing_tag() {
    let segs = parse_segments("<think>reasoning without close");
    assert_eq!(segs.len(), 1);
    assert_eq!(segs[0].role, Role::Think);
    assert_eq!(segs[0].content, "reasoning without close");
}

#[test]
fn tool_stops_are_closing_tags() {
    let stops = tool_stop_sequences();
    assert!(stops.contains(&"</grammar_check>".to_string()));
    assert!(stops.contains(&"</save_correction>".to_string()));
    assert_eq!(stops.len(), 4);
}

#[test]
fn tool_stops_in_order() {
    assert_eq!(
        tool_stop_sequences(),
        vec![
            "</web_search>".to_string(),
            "</grammar_check>".to_string(),
            "</update_profile>".to_string(),
            "</save_correction>".to_string(),
        ]
    );
}

#[test]
fn tag_names_round_trip() {
    for role in ALL_ROLES {
        assert_eq!(Role::from_tag(role.tag()), Some(role));
        assert_eq!(role.closing_tag(), format!("</{}>", role.tag()));
    }
    assert_eq!(Role::from_tag("Plan"), None);
    assert_eq!(Role::from_tag("planning"), None);
    assert_eq!(Role::from_tag(""), None);
}

#[test]
fn tool_agents_are_the_four_tools() {
    let tools: Vec<Role> = ALL_ROLES.iter().copied().filter(|r| r.is_tool_agent()).collect();
    assert_eq!(
        tools,
        vec![Role::WebSearch, Role::GrammarCheck, Role::UpdateProfile, Role::SaveCorrection]
    );
    let seg = Segment { role: Role::Answer, content: "hi".to_string() };
    assert!(seg.is_terminal());
    assert!(!seg.is_tool_call());
    let tool = Segment { role: Role::WebSearch, content: "q".to_string() };
    assert!(tool.is_tool_call());
    assert!(!tool.is_terminal());
}

#[test]
fn rendered_segments_parse_back() {
    let parts = vec![
        (Role::Plan, "greet the user"),
        (Role::GrammarCheck, "I has two dog"),
        (Role::Observation, "Errors found"),
        (Role::Answer, "Nice to meet you!"),
    ];
    let mut text = String::new();
    for (r, c) in &parts {
        text.push_str(&format!("<{}>{}</{}>", r.tag(), c, r.tag()));
    }
    let segs = parse_segments(&text);
    let got: Vec<(Role, String)> = segs.into_iter().map(|s| (s.role, s.content)).collect();
    let want: Vec<(Role, String)> = parts.iter().map(|(r, c)| (*r, c.to_string())).collect();
    assert_eq!(got, want);
}

#[test]
fn contents_are_trimmed() {
    let segs = parse_segments("<think>\n  spaced out \t</think>");
    assert_eq!(segs[0].content, "spaced out");
}

#[test]
fn tags_match_in_any_letter_case_and_with_spaces() {
    let segs = parse_segments("<THINK >loud</think><Answer>ok</answer>");
    assert_eq!(segs.len(), 2);
    assert_eq!(segs[0].role, Role::Think);
    assert_eq!(segs[0].content, "loud");
    assert_eq!(segs[1].role, Role::Answer);
    assert_eq!(segs[1].content, "ok");
}

#[test]
fn folded_non_ascii_tag_is_skipped() {
    // The Kelvin sign matches `k` case-insensitively, but is no tag name once
    // lower-cased in ASCII, so the tag is skipped.
    let segs = parse_segments("<thin\u{212A}>x</think><plan>p</plan>");
    assert_eq!(segs.len(), 1);
    assert_eq!(segs[0].role, Role::Plan);
    assert_eq!(segs[0].content, "p");
}

#[test]
fn unclosed_segment_ends_at_next_tag() {
    let segs = parse_segments("<think>first <plan>second</plan> tail");
    assert_eq!(segs.len(), 2);
    assert_eq!(segs[0].content, "first");
    assert_eq!(segs[1].role, Role::Plan);
    assert_eq!(segs[1].content, "second");
}

#[test]
fn closing_tag_after_next_opening_is_ignored() {
    let segs = parse_segments("<think>a<plan>b</plan></think>");
    assert_eq!(segs.len(), 2);
    assert_eq!(segs[0].role, Role::Think);
    assert_eq!(segs[0].content, "a");
    assert_eq!(segs[1].content, "b");
}

#[test]
fn unknown_tags_and_plain_text_give_nothing() {
    assert!(parse_segments("").is_empty());
    assert!(parse_segments("no tags <here> at all </think>").is_empty());
    assert!(parse_segments("< think>x").is_empty());
}

#[test]
fn non_ascii_content_survives() {
    let segs = parse_segments("<answer>¡Hola! 你好 — ok</answer>");
    assert_eq!(segs[0].content, "¡Hola! 你好 — ok");
}

#[test]
fn first_actionable_is_tool_or_answer() {
    let text = "<think>x</think><web_search>news today</web_search><answer>y</answer>";
    let seg = first_actionable_segment(text).unwrap();
    assert_eq!(seg.role, Role::WebSearch);
    assert_eq!(seg.content, "news today");
    assert!(first_actionable_segment("<think>only thinking</think>").is_none());
    let ans = first_actionable_segment("<plan>p</plan><answer> done </answer>").unwrap();
    assert_eq!(ans.role, Role::Answer);
    assert_eq!(ans.content, "done");
}

#[test]
fn double_check_scores() {
    assert_eq!(parse_double_check_score("SCORE IS 3"), Some(3));
    assert_eq!(parse_double_check_score("The score is：1"), Some(1));
    assert_eq!(parse_double_check_score("the score this time is 12"), Some(12));
    assert_eq!(parse_double_check_score("no number here"), None);
    assert_eq!(parse_double_check_score("score is: 99999999999"), None);
    assert_eq!(parse_double_check_score("score is 2, later score is 4"), Some(2));
    assert_eq!(parse_double_check_score("score is \u{0663}"), None);
}

#[test]
fn trajectory_queries() {
    let mut t = Trajectory::new();
    assert_eq!(t.answer(), None);
    assert_eq!(t.n_hops(), 0);
    t.segments = parse_segments(
        "<plan>p</plan><web_search>q</web_search><observation>o</observation><answer>a1</answer><answer>a2</answer>",
    );
    assert_eq!(t.answer(), Some("a2"));
    assert_eq!(t.n_hops(), 4);
    assert_eq!(t.last_of(Role::Plan).map(|s| s.content.as_str()), Some("p"));
    assert!(t.last_of(Role::Reflection).is_none());
    assert!(Trajectory::default().segments.is_empty());
}

#[test]
fn no_score_phrase_gives_no_score() {
    assert_eq!(parse_double_check_score("looks great"), None);
    assert_eq!(parse_double_check_score("SCORE IS 3"), Some(3));
}

#[test]
fn a_segment_then_any_text() {
    let rest = "tail <answer> done </answer>";
    let mut expected = vec![Segment { role: Role::Plan, content: "step one".to_string() }];
    expected.extend(parse_segments(rest));
    assert_eq!(parse_segments(&format!("<plan>  step one </plan>{rest}")), expected);
}

#[test]
fn text_without_role_tags_has_no_segments() {
    assert!(parse_segments("plain <b>text</b> only").is_empty());
    // The pattern matches a Kelvin sign for `k`, but that name is no role's.
    assert!(parse_segments("<thin\u{212a}>x").is_empty());
}

#[test]
fn score_phrase_forms() {
    assert_eq!(parse_double_check_score("Score  This Time Is : 7"), Some(7));
    assert_eq!(parse_double_check_score("\u{17f}core is 5"), Some(5));
    assert_eq!(parse_double_check_score("the score is\u{ff1a} 3 points"), Some(3));
    assert_eq!(parse_double_check_score("score is x; score is 2"), Some(2));
    assert_eq!(parse_double_check_score("score is \u{663}"), None);
    assert_eq!(parse_double_check_score("score this time is"), None);
    assert_eq!(parse_double_check_score("score is 99999999999"), None);
    assert_eq!(parse_double_check_score("scoreis4"), Some(4));
}
