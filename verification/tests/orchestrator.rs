use azurejay::orchestrator::{
    completion_messages, format_history, reattach_stop, recover_answer, tool_unavailable_message,
    CoAConfig, HistoryTurn, Speaker, StepOutcome, Turn, CONTINUE_NUDGE, REPLAN_NOTE,
};
use azurejay::trajectory::{parse_segments, tool_stop_sequences, Role, Trajectory};

fn turn(s: &str) -> HistoryTurn {
    let (role, content) = s.split_once('|').unwrap();
    HistoryTurn { role: role.to_string(), content: content.to_string() }
}

#[test]
fn default_limits() {
    let c = CoAConfig::default();
    assert_eq!(c.max_steps, 24);
    assert_eq!(c.max_tokens, 32_768);
    assert_eq!(c.double_check_threshold, 3);
    assert_eq!(c.max_replans, 2);
}

#[test]
fn history_lines() {
    assert_eq!(format_history(&vec![]), "");
    let h = vec![turn("human|Hi"), turn("ai|Hello! How are you?")];
    assert_eq!(format_history(&h), "human: Hi\nai: Hello! How are you?");
}

#[test]
fn missing_tool_message() {
    assert_eq!(
        tool_unavailable_message("web_search"),
        "Error: tool agent 'web_search' is not available."
    );
}

#[test]
fn reattaches_the_cut_stop() {
    let stops = tool_stop_sequences();
    assert_eq!(
        reattach_stop("<think>x</think><grammar_check>I has", &stops),
        "<think>x</think><grammar_check>I has</grammar_check>"
    );
    assert_eq!(
        reattach_stop("<web_search>q</web_search>", &stops),
        "<web_search>q</web_search>"
    );
    assert_eq!(reattach_stop("plain", &stops), "plain");
}

#[test]
fn nudge_and_note_texts() {
    assert!(CONTINUE_NUDGE.starts_with("Continue the trajectory exactly where you left off."));
    assert!(REPLAN_NOTE.contains("<think>The verification score is below threshold. I will re-plan"));
}

#[test]
fn answer_ends_the_turn() {
    let cfg = CoAConfig::default();
    let mut t = Turn::new();
    assert!(t.begin_step(&cfg));
    let o = t.receive_chunk(&cfg, "<plan>p</plan><think>t</think><answer>  Hi! </answer>");
    match o {
        StepOutcome::Answer(a) => assert_eq!(a, "Hi!"),
        other => panic!("unexpected {other:?}"),
    }
    assert_eq!(t.trajectory.segments.len(), 3);
    let r = t.finish("Hi!".to_string());
    assert_eq!(r.steps, 1);
    assert_eq!(r.replans, 0);
    assert_eq!(r.trajectory.answer(), Some("Hi!"));
}

#[test]
fn tool_call_then_observation() {
    let cfg = CoAConfig::default();
    let mut t = Turn::new();
    t.begin_step(&cfg);
    let o = t.receive_chunk(&cfg, "<think>check</think><grammar_check>I has two dog</grammar_check>");
    let seg = match o {
        StepOutcome::RunTool(s) => s,
        other => panic!("unexpected {other:?}"),
    };
    assert_eq!(seg.role, Role::GrammarCheck);
    assert_eq!(seg.content, "I has two dog");
    t.receive_observation("Errors found");
    assert!(t.buffer.ends_with("\n<observation>\nErrors found\n</observation>\n"));
    assert_eq!(t.trajectory.last_of(Role::Observation).unwrap().content, "Errors found");
}

#[test]
fn low_score_replans_then_falls_back_to_suggestion() {
    let cfg = CoAConfig { max_steps: 24, max_tokens: 10, double_check_threshold: 3, max_replans: 1 };
    let mut t = Turn::new();
    let chunk = "<suggested_answer> Meh </suggested_answer><double_check>The score this time is:1</double_check>";
    t.begin_step(&cfg);
    assert!(matches!(t.receive_chunk(&cfg, chunk), StepOutcome::Continue));
    assert_eq!(t.replans, 1);
    assert!(t.buffer.ends_with(REPLAN_NOTE));
    t.begin_step(&cfg);
    match t.receive_chunk(&cfg, chunk) {
        StepOutcome::Answer(a) => assert_eq!(a, "Meh"),
        other => panic!("unexpected {other:?}"),
    }
    assert_eq!(t.replans, 1);
}

#[test]
fn suggestion_without_check_continues_and_blank_stops() {
    let cfg = CoAConfig::default();
    let mut t = Turn::new();
    assert!(matches!(
        t.receive_chunk(&cfg, "<suggested_answer>Hey</suggested_answer>"),
        StepOutcome::Continue
    ));
    assert!(matches!(t.receive_chunk(&cfg, ""), StepOutcome::Stop));
    assert!(matches!(t.receive_chunk(&cfg, "  \n "), StepOutcome::Stop));
    assert!(matches!(t.receive_chunk(&cfg, "<think>more</think>"), StepOutcome::Continue));
    let r = t.conclude().unwrap();
    assert_eq!(r.answer, "Hey");
}

#[test]
fn steps_are_bounded() {
    let cfg = CoAConfig { max_steps: 2, max_tokens: 10, double_check_threshold: 3, max_replans: 2 };
    let mut t = Turn::new();
    assert!(t.begin_step(&cfg));
    assert!(t.begin_step(&cfg));
    assert!(!t.begin_step(&cfg));
    assert_eq!(t.steps, 2);
    assert_eq!(t.conclude().unwrap_err(), 2);
}

#[test]
fn recovery_prefers_answer() {
    let mut traj = Trajectory::new();
    traj.segments = parse_segments("<suggested_answer> s </suggested_answer><answer>a</answer>");
    assert_eq!(recover_answer(&traj).as_deref(), Some("a"));
    traj.segments = parse_segments("<suggested_answer> s </suggested_answer>");
    assert_eq!(recover_answer(&traj).as_deref(), Some("s"));
    traj.segments = parse_segments("<think>x</think>");
    assert_eq!(recover_answer(&traj), None);
}

#[test]
fn first_request_sends_the_context_alone() {
    let m = completion_messages("CONTEXT", "");
    assert!(m.history.is_empty());
    assert_eq!(m.prompt, "CONTEXT");
}

#[test]
fn later_requests_send_the_transcript_and_ask_to_continue() {
    let m = completion_messages("CONTEXT", "<plan>p</plan>");
    assert_eq!(
        m.history,
        vec![(Speaker::User, "CONTEXT".to_string()), (Speaker::Assistant, "<plan>p</plan>".to_string())]
    );
    assert_eq!(m.prompt, CONTINUE_NUDGE);
}
