use azurejay::tools::{registry_from, NamedAgent, ToolAgent, ToolContext};

fn named(name: &str, id: u32) -> NamedAgent<u32> {
    NamedAgent { name: name.to_string(), agent: id }
}

#[test]
fn context_holds_ids() {
    let c = ToolContext::new("u-1", "c-2");
    assert_eq!(c.user_id, "u-1");
    assert_eq!(c.conversation_id, "c-2");
}

#[test]
fn named_agents_report_their_names() {
    assert_eq!(named("web_search", 1).name(), "web_search");
}

#[test]
fn registry_finds_by_name_last_wins() {
    let reg = registry_from(vec![named("web_search", 1), named("grammar_check", 2), named("web_search", 3)]);
    assert_eq!(reg.len(), 2);
    assert_eq!(reg.entries()[0].0, "web_search");
    assert_eq!(reg.entries()[1].0, "grammar_check");
    assert_eq!(reg.get("web_search").map(|a| a.agent), Some(3));
    assert_eq!(reg.get("grammar_check").map(|a| a.agent), Some(2));
    assert!(reg.get("update_profile").is_none());
}
