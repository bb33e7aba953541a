use azurejay::prompt::{build_context_block, build_judge_prompt, CONTEXT_TEMPLATE, COA_SYSTEM_PROMPT, JUDGE_TEMPLATE};

#[test]
fn context_block_fills_placeholders() {
    let block = build_context_block("c-1", "{\"name\":\"Ann\"}", "human: hi", "I has a dog");
    let want = CONTEXT_TEMPLATE
        .replace("{conversation_id}", "c-1")
        .replace("{user_profile}", "{\"name\":\"Ann\"}")
        .replace("{history}", "human: hi")
        .replace("{user_input}", "I has a dog");
    assert_eq!(block, want);
    assert!(block.contains("- Conversation ID: c-1\n"));
    assert!(block.contains("The user just said:\nI has a dog\n"));
    assert!(!block.contains("{user_input}"));
}

#[test]
fn context_block_notes_missing_profile_and_history() {
    let block = build_context_block("c", "", "", "hello");
    assert!(block.contains("(profile): No profile saved yet."));
    assert!(block.contains("Recent conversation history:\n(no prior messages)\n"));
}

#[test]
fn placeholders_in_values_are_replaced_in_order() {
    // A value that holds a later placeholder is itself filled in, as chained
    // replacement does.
    let block = build_context_block("{user_input}", "p", "h", "X");
    assert!(block.contains("- Conversation ID: X\n"));
}

#[test]
fn judge_prompt_fills_placeholders() {
    let p = build_judge_prompt("I has dog", "", "You have a dog!");
    assert!(p.contains("User message: I has dog\n"));
    assert!(p.contains("Correction applied this turn (if any): none\n"));
    assert!(p.contains("Suggested reply: You have a dog!\n"));
    let q = build_judge_prompt("u", "{\"original_text\":\"x\"}", "s");
    assert!(q.contains("(if any): {\"original_text\":\"x\"}\n"));
    assert_eq!(
        q,
        JUDGE_TEMPLATE
            .replace("{user_input}", "u")
            .replace("{correction}", "{\"original_text\":\"x\"}")
            .replace("{suggested_answer}", "s")
    );
}

#[test]
fn system_prompt_names_the_tools() {
    for tag in ["<web_search>", "<grammar_check>", "<update_profile>", "<save_correction>"] {
        assert!(COA_SYSTEM_PROMPT.contains(tag));
    }
}

#[test]
fn context_block_holds_the_message_even_with_placeholders_in_other_fields() {
    let b = build_context_block("{user_input}", "{history}", "{user_profile}", "hello {there}");
    assert!(b.contains("hello {there}"));
}
