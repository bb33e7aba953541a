//! The prompts of the tutor and of the judge.
use vstd::prelude::*;

use crate::text::{lemma_replace_none, lemma_replace_shows, lemma_replace_split, occurs_at, replace_seq, replace_str};

verus! {

/// The system prompt of the tutor's reasoning stream.
pub const COA_SYSTEM_PROMPT: &'static str = r#"You are Rachel, a warm, native-speaking English conversation tutor. You help the user sound more natural in English through friendly, informal, voice-style chat. You ALWAYS answer in English.

You solve each turn using the Chain-of-Agents paradigm: a single reasoning stream in which you dynamically activate role-playing agents and tool agents. You may ONLY use the following 9 functions: think, plan, tool, observation, reflection, suggested_answer, double_check, and answer.

Here are the descriptions of these functions:

1. think: Before using any plan, tool, reflection, suggested_answer, double_check or answer function, you MUST use think to state your reasoning and what you will do next. Start with <think> and end with </think>.

2. plan: Given the user's message and context, break the turn down into fine-grained sub-goals to be executed with tool agents and role-playing agents. After a reflection you may update the plan. Start with <plan> and end with </plan>.

3. tool: Activate one tool agent to gather information or act on memory. Replace the tool tag with an exact tool name from the tool list below.

4. observation: The result returned after a tool agent runs. This is produced by the environment, never by you.

5. reflection: Evaluate the trajectory so far and steer it toward the optimal path. Judge whether the plan still holds and whether the last observation was useful. Start with <reflection> and end with </reflection>.

6. suggested_answer: Based on the trajectory, propose the reply you would send to the user, without checking it again yet. Start with <suggested_answer> and end with </suggested_answer>.

7. double_check: After suggesting an answer, verify it against the Verification criteria below and finish with a line "The score this time is:N" (N from 1 to 4). If you are not confident (N < 3) you must re-plan and re-reason until you can suggest an answer again; otherwise proceed to answer. Start with <double_check> and end with </double_check>.

8. answer: After the double_check score is >= 3, deliver the final reply to the user. Start with <answer> and end with </answer>.

Here is the list of tool agents you can use (each triggers an <observation>):

1. <web_search>a natural-language search query</web_search>
   Use ONLY when the user asks a factual question that needs external, real-time information (news, scores, facts you do not know).
   Example: <web_search>latest Champions League results</web_search>

2. <grammar_check>the user's exact sentence</grammar_check>
   Runs a deterministic grammar/spelling checker over the user's sentence and returns the syntactic errors found. Use it whenever you are unsure whether the user's sentence contains an explicit grammatical error.
   Example: <grammar_check>I has two dog</grammar_check>

3. <update_profile>a compact JSON object of NEW facts about the user</update_profile>
   Persist new personal facts (name, location, interests/hobbies) the user revealed. Add only new information.
   Example: <update_profile>{"interests_to_add": ["basketball"]}</update_profile>

4. <save_correction>a compact JSON object describing one correction</save_correction>
   Persist a single grammar/usage correction so the user can review it later. Required keys: original_text, corrected_text, explanation, improvement.
   Example: <save_correction>{"original_text": "I has two dog", "corrected_text": "I have two dogs", "explanation": "Use 'have' with 'I' and pluralise the noun.", "improvement": "I've got two dogs."}</save_correction>

Tool Usage Guide
1. Detect grammar/usage problems yourself from the conversation; you may confirm explicit syntax errors with grammar_check. Semantic or usage problems (word choice, unnatural phrasing) are found by your own reasoning, NOT by grammar_check.
2. Do NOT correct slang, casual contractions (gonna, wanna) or missing punctuation: the input comes from speech.
3. If the user reveals a new personal fact, call update_profile.
4. If you decide a correction is worth teaching, call save_correction BEFORE the suggested_answer, then mention the tip gently in the final answer.
5. Do not call any tool that is not required. A turn with no tool calls is normal.

Trajectory contract
1. You must build the correct reasoning path only with the functions above.
2. Canonical order: plan, (think, tool, observation, reflection)*N, think, suggested_answer, double_check, answer.
3. Special-token restriction: <plan>, <think>, <web_search>, <grammar_check>, <update_profile>, <save_correction>, <observation>, <reflection>, <suggested_answer>, <double_check> and <answer> are special tags and must NEVER appear inside free text (especially not inside think).
4. Always call think before plan, any tool, reflection, suggested_answer, double_check or answer.
5. Before <answer> you must first produce <suggested_answer> then <double_check>. If the double_check score < 3, re-plan; otherwise emit <answer>.

Verification criteria (used inside double_check)
Score the suggested answer 1-4 on whether it: is written in English; directly acknowledges and continues the user's message; gently delivers the correction tip IF (and only if) a save_correction tool was used this turn; stays concise and warm like a close friend (this is a voice chat); and ends with an open-ended question, preferably tied to the user's interests. A perfect reply scores 4.

Final answer style
- Be brief and conversational: this is spoken dialogue.
- Never expose your reasoning, plans, tool calls or the fact that you updated memory. The <answer> content is the ONLY thing the user hears."#;

/// The user context of a turn, with its placeholders.
pub const CONTEXT_TEMPLATE: &'static str = r#"# USER CONTEXT
- Conversation ID: {conversation_id}
- What you already know about the user (profile): {user_profile}
- Recent conversation history:
{history}

# CURRENT TURN
The user just said:
{user_input}

Now solve this turn with the Chain-of-Agents paradigm. Begin with <plan>."#;

/// The case that the judge scores, with its placeholders.
pub const JUDGE_TEMPLATE: &'static str = r#"Please determine whether the tutor's suggested reply is a good, natural, and correct response to the user's message.

User message: {user_input}
Correction applied this turn (if any): {correction}
Suggested reply: {suggested_answer}

Rules:
Score 1-4. A reply scores 4 when it is in English, acknowledges and continues the user's message, delivers the correction tip gently iff a correction was applied, stays concise and warm, and ends with an engaging open-ended question. Respond ONLY as JSON:
{
  "rationale": "your reasoning",
  "score": <integer 1-4>
}"#;

/// The context block: the template with the conversation id, the profile
/// (or a note that there is none), the history (or a note that there is none)
/// and the user's message put in, in that order.
pub open spec fn context_block(
    conversation_id: Seq<char>,
    user_profile: Seq<char>,
    history: Seq<char>,
    user_input: Seq<char>,
) -> Seq<char> {
    let profile = if user_profile.len() == 0 {
        "No profile saved yet."@
    } else {
        user_profile
    };
    let history = if history.len() == 0 {
        "(no prior messages)"@
    } else {
        history
    };
    replace_seq(
        replace_seq(
            replace_seq(
                replace_seq(CONTEXT_TEMPLATE@, "{conversation_id}"@, conversation_id),
                "{user_profile}"@,
                profile,
            ),
            "{history}"@,
            history,
        ),
        "{user_input}"@,
        user_input,
    )
}

/// The user context of a turn.
#[must_use]
pub fn build_context_block(
    conversation_id: &str,
    user_profile: &str,
    history: &str,
    user_input: &str,
) -> (r: String)
    ensures
        r@ == context_block(conversation_id@, user_profile@, history@, user_input@),
{
    let profile = if user_profile.is_empty() {
        "No profile saved yet."
    } else {
        user_profile
    };
    let history = if history.is_empty() {
        "(no prior messages)"
    } else {
        history
    };
    proof {
        reveal_strlit("{conversation_id}");
        reveal_strlit("{user_profile}");
        reveal_strlit("{history}");
        reveal_strlit("{user_input}");
    }
    let a = replace_str(CONTEXT_TEMPLATE, "{conversation_id}", conversation_id);
    let b = replace_str(a.as_str(), "{user_profile}", profile);
    let c = replace_str(b.as_str(), "{history}", history);
    replace_str(c.as_str(), "{user_input}", user_input)
}

/// The judge's case: the template with the user's message, the correction
/// (or "none") and the suggested reply put in, in that order.
pub open spec fn judge_prompt(
    user_input: Seq<char>,
    correction: Seq<char>,
    suggested_answer: Seq<char>,
) -> Seq<char> {
    let correction = if correction.len() == 0 {
        "none"@
    } else {
        correction
    };
    replace_seq(
        replace_seq(
            replace_seq(JUDGE_TEMPLATE@, "{user_input}"@, user_input),
            "{correction}"@,
            correction,
        ),
        "{suggested_answer}"@,
        suggested_answer,
    )
}

/// The case that the judge scores.
#[must_use]
pub fn build_judge_prompt(user_input: &str, correction: &str, suggested_answer: &str) -> (r: String)
    ensures
        r@ == judge_prompt(user_input@, correction@, suggested_answer@),
{
    let correction = if correction.is_empty() {
        "none"
    } else {
        correction
    };
    proof {
        reveal_strlit("{user_input}");
        reveal_strlit("{correction}");
        reveal_strlit("{suggested_answer}");
    }
    let a = replace_str(JUDGE_TEMPLATE, "{user_input}", user_input);
    let b = replace_str(a.as_str(), "{correction}", correction);
    replace_str(b.as_str(), "{suggested_answer}", suggested_answer)
}

/// The line that comes just before the user's message in the context block.
spec fn said_line() -> Seq<char> {
    r#"The user just said:
"#@
}

/// Facts about the pieces of the context template.
proof fn lemma_template_pieces()
    ensures
        CONTEXT_TEMPLATE@ == r#"# USER CONTEXT
- Conversation ID: {conversation_id}
- What you already know about the user (profile): {user_profile}
- Recent conversation history:
{history}

# CURRENT TURN
"#@ + said_line() + "{user_input}"@ + r#"

Now solve this turn with the Chain-of-Agents paradigm. Begin with <plan>."#@,
        said_line().len() == 20,
        forall|k: int| 0 <= k < said_line().len() ==> #[trigger] said_line()[k] != '{' && said_line()[k] != '}',
        "{user_input}"@.len() == 12,
        "{user_input}"@[0] == '{',
        "{user_input}"@[1] == 'u',
        forall|k: int| 1 <= k < "{user_input}"@.len() ==> #[trigger] "{user_input}"@[k] != '{',
{
    reveal_strlit(r#"# USER CONTEXT
- Conversation ID: {conversation_id}
- What you already know about the user (profile): {user_profile}
- Recent conversation history:
{history}

# CURRENT TURN
The user just said:
{user_input}

Now solve this turn with the Chain-of-Agents paradigm. Begin with <plan>."#);
    reveal_strlit(r#"# USER CONTEXT
- Conversation ID: {conversation_id}
- What you already know about the user (profile): {user_profile}
- Recent conversation history:
{history}

# CURRENT TURN
"#);
    reveal_strlit(r#"The user just said:
"#);
    reveal_strlit("{user_input}");
    reveal_strlit(r#"

Now solve this turn with the Chain-of-Agents paradigm. Begin with <plan>."#);
    assert(CONTEXT_TEMPLATE@ =~= r#"# USER CONTEXT
- Conversation ID: {conversation_id}
- What you already know about the user (profile): {user_profile}
- Recent conversation history:
{history}

# CURRENT TURN
"#@ + said_line() + "{user_input}"@ + r#"

Now solve this turn with the Chain-of-Agents paradigm. Begin with <plan>."#@);
}

/// A placeholder other than the user's message: `{`, a name, `}`, at most 20
/// characters in all, differing from `{user_input}` within its first 12.
spec fn other_placeholder(p: Seq<char>) -> bool {
    &&& 2 <= p.len() <= 20
    &&& p[0] == '{'
    &&& p[p.len() - 1] == '}'
    &&& exists|m: int| 0 <= m < 12 && m < p.len() && #[trigger] p[m] != "{user_input}"@[m]
}

proof fn lemma_placeholders()
    ensures
        other_placeholder("{conversation_id}"@),
        other_placeholder("{user_profile}"@),
        other_placeholder("{history}"@),
{
    reveal_strlit("{conversation_id}");
    reveal_strlit("{user_profile}");
    reveal_strlit("{history}");
    reveal_strlit("{user_input}");
    assert("{conversation_id}"@[1] != "{user_input}"@[1]);
    assert("{user_profile}"@[6] != "{user_input}"@[6]);
    assert("{history}"@[1] != "{user_input}"@[1]);
}

/// Replacing another placeholder leaves the line before the user's message
/// and its placeholder in place.
proof fn lemma_replace_keeps_message(pre: Seq<char>, post: Seq<char>, p: Seq<char>, v: Seq<char>)
    requires
        other_placeholder(p),
    ensures
        replace_seq(pre + said_line() + "{user_input}"@ + post, p, v) == replace_seq(pre, p, v) + said_line()
            + "{user_input}"@ + replace_seq(post, p, v),
{
    lemma_template_pieces();
    let w = said_line();
    let u = "{user_input}"@;
    let u1 = u.drop_first();
    let x = pre + w + u + post;
    // Nothing straddles the end of `pre`: the pattern's last character would fall in `w`.
    assert(x =~= pre + (w + u + post));
    assert forall|j: int| 0 <= j < pre.len() < j + p.len() implies !#[trigger] occurs_at(pre + (w + u + post), j, p) by {
        if occurs_at(pre + (w + u + post), j, p) {
            let m = j + p.len() - 1;
            assert((pre + (w + u + post)).subrange(j, j + p.len())[p.len() - 1] == p[p.len() - 1]);
            assert(w[m - pre.len()] == (pre + (w + u + post))[m]);
        }
    }
    lemma_replace_split(pre, w + u + post, p, v);
    // Nothing starts in `w`.
    assert forall|j: int| 0 <= j < w.len() < j + p.len() implies !#[trigger] occurs_at(w + (u + post), j, p) by {
        if occurs_at(w + (u + post), j, p) {
            assert((w + (u + post)).subrange(j, j + p.len())[0] == p[0]);
        }
    }
    assert(w + u + post =~= w + (u + post));
    lemma_replace_split(w, u + post, p, v);
    lemma_replace_none(w, p, v);
    // The message placeholder does not match at its own start.
    let y = u + post;
    assert(y =~= seq![u[0]] + (u1 + post));
    if y.len() >= p.len() {
        let m = choose|m: int| 0 <= m < 12 && m < p.len() && #[trigger] p[m] != "{user_input}"@[m];
        assert(y.take(p.len() as int)[m] == u[m]);
        assert(y.take(p.len() as int) != p);
        assert(y.drop_first() =~= u1 + post);
        assert forall|j: int| 0 <= j < u1.len() < j + p.len() implies !#[trigger] occurs_at(u1 + post, j, p) by {
            if occurs_at(u1 + post, j, p) {
                assert((u1 + post).subrange(j, j + p.len())[0] == p[0]);
                assert(u1[j] == u[j + 1]);
            }
        }
        lemma_replace_split(u1, post, p, v);
        assert forall|i: int| 0 <= i < u1.len() implies u1[i] != p[0] by {
            assert(u1[i] == u[i + 1]);
        }
        lemma_replace_none(u1, p, v);
        assert(replace_seq(y, p, v) =~= u + replace_seq(post, p, v));
    } else {
        assert(replace_seq(post, p, v) == post);
    }
    assert(replace_seq(x, p, v) =~= replace_seq(pre, p, v) + w + u + replace_seq(post, p, v));
}

/// The context block holds the user's message as it was written.
pub proof fn law_context_holds_message(
    conversation_id: Seq<char>,
    user_profile: Seq<char>,
    history: Seq<char>,
    user_input: Seq<char>,
)
    ensures
        exists|k: int| occurs_at(context_block(conversation_id, user_profile, history, user_input), k, user_input),
{
    lemma_template_pieces();
    lemma_placeholders();
    reveal_strlit("{user_input}");
    let w = said_line();
    let u = "{user_input}"@;
    let profile = if user_profile.len() == 0 { "No profile saved yet."@ } else { user_profile };
    let hist = if history.len() == 0 { "(no prior messages)"@ } else { history };
    let (p0, r0) = (r#"# USER CONTEXT
- Conversation ID: {conversation_id}
- What you already know about the user (profile): {user_profile}
- Recent conversation history:
{history}

# CURRENT TURN
"#@, r#"

Now solve this turn with the Chain-of-Agents paradigm. Begin with <plan>."#@);
    lemma_replace_keeps_message(p0, r0, "{conversation_id}"@, conversation_id);
    let (p1, r1) = (replace_seq(p0, "{conversation_id}"@, conversation_id), replace_seq(r0, "{conversation_id}"@, conversation_id));
    lemma_replace_keeps_message(p1, r1, "{user_profile}"@, profile);
    let (p2, r2) = (replace_seq(p1, "{user_profile}"@, profile), replace_seq(r1, "{user_profile}"@, profile));
    lemma_replace_keeps_message(p2, r2, "{history}"@, hist);
    let (p3, r3) = (replace_seq(p2, "{history}"@, hist), replace_seq(r2, "{history}"@, hist));
    let x3 = p3 + w + u + r3;
    assert(CONTEXT_TEMPLATE@ == p0 + w + u + r0);
    assert(context_block(conversation_id, user_profile, history, user_input) == replace_seq(x3, u, user_input));
    let at = (p3.len() + w.len()) as int;
    assert(x3.subrange(at, at + u.len()) =~= u);
    let k = lemma_replace_shows(x3, at, u, user_input);
}

} // verus!
