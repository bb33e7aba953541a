//! The decisions of one Chain-of-Agents turn.
//!
//! A turn alternates model completions and tool runs, which the caller
//! performs; `Turn` holds the transcript and decides, after each chunk the
//! model produced, whether to answer, to run a tool, to go on or to stop.
use vstd::prelude::*;

use crate::text::{find_from, push_str, replace_seq, replace_str, trim_seq, trim_str, chars_of, find_chars};
use crate::trajectory::{
    first_actionable, first_actionable_segment, last_index, last_index_of, parse_double_check_score,
    parse_segments, parse_seq, score_capture, score_from_digits, seg_views, Role, Segment, Trajectory,
    is_tool_role,
};

verus! {

/// One earlier message of the conversation.
#[derive(Debug, Clone)]
pub struct HistoryTurn {
    pub role: String,
    pub content: String,
}

/// The limits of a turn.
#[derive(Debug, Clone)]
pub struct CoAConfig {
    pub max_steps: usize,
    pub max_tokens: u32,
    pub double_check_threshold: i32,
    pub max_replans: usize,
}

impl Default for CoAConfig {
    fn default() -> (c: Self)
        ensures
            c.max_steps == 24,
            c.max_tokens == 32_768,
            c.double_check_threshold == 3,
            c.max_replans == 2,
    {
        CoAConfig { max_steps: 24, max_tokens: 32_768, double_check_threshold: 3, max_replans: 2 }
    }
}

/// The outcome of a turn.
#[derive(Debug, Clone)]
pub struct CoAResult {
    pub answer: String,
    pub trajectory: Trajectory,
    pub steps: usize,
    pub replans: usize,
}

/// The user message that asks the model to go on with its transcript.
pub const CONTINUE_NUDGE: &'static str =
    "Continue the trajectory exactly where you left off. Output only the next step(s); do not repeat any earlier text.";

/// Who says a message of a completion request.
#[derive(Debug, Clone, Copy, PartialEq, Eq, Structural)]
pub enum Speaker {
    User,
    Assistant,
}

/// The messages of a completion request: the conversation before the prompt,
/// and the prompt, which the user says.
#[derive(Debug, Clone)]
pub struct CompletionMessages {
    pub history: Vec<(Speaker, String)>,
    pub prompt: String,
}

/// The messages that ask the model for the next chunk of the transcript
/// `buffer`: at first the context block alone; once the transcript has begun,
/// the context block and the transcript so far, then the request to go on.
pub fn completion_messages(context_block: &str, buffer: &str) -> (r: CompletionMessages)
    ensures
        buffer@.len() == 0 ==> r.history@.len() == 0 && r.prompt@ == context_block@,
        buffer@.len() > 0 ==> {
            &&& r.history@.len() == 2
            &&& r.history@[0].0 == Speaker::User && r.history@[0].1@ == context_block@
            &&& r.history@[1].0 == Speaker::Assistant && r.history@[1].1@ == buffer@
            &&& r.prompt@ == CONTINUE_NUDGE@
        },
{
    let mut context = String::new();
    push_str(&mut context, context_block);
    if buffer.is_empty() {
        return CompletionMessages { history: Vec::new(), prompt: context };
    }
    let mut transcript = String::new();
    push_str(&mut transcript, buffer);
    let mut nudge = String::new();
    push_str(&mut nudge, CONTINUE_NUDGE);
    let mut history: Vec<(Speaker, String)> = Vec::new();
    history.push((Speaker::User, context));
    history.push((Speaker::Assistant, transcript));
    CompletionMessages { history, prompt: nudge }
}

/// The note appended to the transcript when a double check scored too low.
pub const REPLAN_NOTE: &'static str =
    "\n<think>The verification score is below threshold. I will re-plan and improve the reply.</think>\n";

/// `role: content`.
pub open spec fn history_line(t: (Seq<char>, Seq<char>)) -> Seq<char> {
    t.0 + ": "@ + t.1
}

/// The history lines, joined by newlines.
pub open spec fn history_text(h: Seq<(Seq<char>, Seq<char>)>) -> Seq<char>
    decreases h.len(),
{
    if h.len() == 0 {
        seq![]
    } else if h.len() == 1 {
        history_line(h[0])
    } else {
        history_text(h.drop_last()) + "\n"@ + history_line(h.last())
    }
}

/// The (role, content) pairs of history turns.
pub open spec fn history_views(h: Seq<HistoryTurn>) -> Seq<(Seq<char>, Seq<char>)> {
    h.map_values(|t: HistoryTurn| (t.role@, t.content@))
}

/// The conversation so far as the prompt shows it, one `role: content` line
/// per message.
pub fn format_history(history: &Vec<HistoryTurn>) -> (r: String)
    ensures
        r@ == history_text(history_views(history@)),
{
    let ghost h = history_views(history@);
    let mut r = String::new();
    let mut i: usize = 0;
    while i < history.len()
        invariant
            i <= history@.len(),
            h == history_views(history@),
            r@ == history_text(h.take(i as int)),
        decreases history@.len() - i,
    {
        if i > 0 {
            push_str(&mut r, "\n");
        }
        push_str(&mut r, history[i].role.as_str());
        push_str(&mut r, ": ");
        push_str(&mut r, history[i].content.as_str());
        proof {
            let t = h.take(i + 1);
            assert(t.drop_last() =~= h.take(i as int));
            assert(t.last() == h[i as int]);
            if i == 0 {
                assert(t.len() == 1);
            }
        }
        i = i + 1;
    }
    assert(h.take(i as int) =~= h);
    r
}

/// What the model must be told on a tool that has no agent.
pub open spec fn unavailable_text(tag: Seq<char>) -> Seq<char> {
    "Error: tool agent '"@ + tag + "' is not available."@
}

/// The observation for a tool call whose agent is not registered.
pub fn tool_unavailable_message(tag: &str) -> (r: String)
    ensures
        r@ == unavailable_text(tag@),
{
    let mut r = String::new();
    push_str(&mut r, "Error: tool agent '");
    push_str(&mut r, tag);
    push_str(&mut r, "' is not available.");
    r
}

/// Whether `p` occurs in `s`.
pub open spec fn contains_seq(s: Seq<char>, p: Seq<char>) -> bool {
    find_from(s, 0, p) is Some
}

/// Whether `p` occurs in `s` (`str::contains`).
pub fn contains_str(s: &str, p: &str) -> (r: bool)
    ensures
        r == contains_seq(s@, p@),
{
    let sv = chars_of(s);
    let pv = chars_of(p);
    find_chars(&sv, 0, &pv).is_some()
}

/// The completion with the stop sequence that cut it put back: the first stop
/// whose opening tag (the stop with `</` read as `<`) occurs in `text` while the
/// stop itself does not.
pub open spec fn reattached(text: Seq<char>, stops: Seq<Seq<char>>) -> Seq<char>
    decreases stops.len(),
{
    if stops.len() == 0 {
        text
    } else {
        let stop = stops[0];
        let opening = replace_seq(stop, "</"@, "<"@);
        if contains_seq(text, opening) && !contains_seq(text, stop) {
            text + stop
        } else {
            reattached(text, stops.drop_first())
        }
    }
}

/// The character sequences of strings.
pub open spec fn strings_view(v: Seq<String>) -> Seq<Seq<char>> {
    v.map_values(|s: String| s@)
}

/// Puts back the closing tag at which generation stopped, when the text
/// opened that tool call without closing it.
pub fn reattach_stop(text: &str, stops: &Vec<String>) -> (r: String)
    ensures
        r@ == reattached(text@, strings_view(stops@)),
{
    let ghost sv = strings_view(stops@);
    let mut i: usize = 0;
    assert(sv.skip(0) =~= sv);
    while i < stops.len()
        invariant
            i <= stops@.len(),
            sv == strings_view(stops@),
            reattached(text@, sv) == reattached(text@, sv.skip(i as int)),
        decreases stops@.len() - i,
    {
        let ghost rest = sv.skip(i as int);
        assert(rest[0] == stops@[i as int]@);
        assert(rest.drop_first() =~= sv.skip(i + 1));
        let stop = stops[i].as_str();
        proof {
            reveal_strlit("</");
        }
        let opening = replace_str(stop, "</", "<");
        if contains_str(text, opening.as_str()) && !contains_str(text, stop) {
            let mut r = String::new();
            push_str(&mut r, text);
            push_str(&mut r, stop);
            return r;
        }
        i = i + 1;
    }
    assert(sv.skip(i as int) =~= Seq::<Seq<char>>::empty());
    let mut r = String::new();
    push_str(&mut r, text);
    r
}

/// The answer that can still be given when the turn ran out of steps: the last
/// answer segment, else the last suggested answer, trimmed.
pub open spec fn recovered(xs: Seq<(Role, Seq<char>)>) -> Option<Seq<char>> {
    match last_index_of(xs, Role::Answer) {
        Some(i) => Some(xs[i].1),
        None => match last_index_of(xs, Role::SuggestedAnswer) {
            Some(j) => Some(trim_seq(xs[j].1)),
            None => None,
        },
    }
}

/// What a stopped turn recovers, when it has an answer segment: the content
/// of the last one.
pub proof fn law_recovered_last_answer(xs: Seq<(Role, Seq<char>)>, i: int)
    requires
        0 <= i < xs.len(),
        xs[i].0 == Role::Answer,
        forall|k: int| i < k < xs.len() ==> xs[k].0 != Role::Answer,
    ensures
        recovered(xs) == Some(xs[i].1),
{
    lemma_last_index_is(xs, Role::Answer, i);
}

/// What a stopped turn without an answer segment recovers: the trimmed
/// content of its last suggested answer, not of an earlier one that a
/// re-plan replaced.
pub proof fn law_recovered_last_suggestion(xs: Seq<(Role, Seq<char>)>, j: int)
    requires
        0 <= j < xs.len(),
        xs[j].0 == Role::SuggestedAnswer,
        forall|k: int| j < k < xs.len() ==> xs[k].0 != Role::SuggestedAnswer,
        forall|k: int| 0 <= k < xs.len() ==> xs[k].0 != Role::Answer,
    ensures
        recovered(xs) == Some(trim_seq(xs[j].1)),
{
    lemma_no_index(xs, Role::Answer);
    lemma_last_index_is(xs, Role::SuggestedAnswer, j);
}

/// A stopped turn with neither an answer nor a suggested answer recovers
/// nothing.
pub proof fn law_recovered_nothing(xs: Seq<(Role, Seq<char>)>)
    requires
        forall|k: int| 0 <= k < xs.len() ==> xs[k].0 != Role::Answer && xs[k].0 != Role::SuggestedAnswer,
    ensures
        recovered(xs) is None,
{
    lemma_no_index(xs, Role::Answer);
    lemma_no_index(xs, Role::SuggestedAnswer);
}

/// The last segment of a role is the one after which none has that role.
proof fn lemma_last_index_is(xs: Seq<(Role, Seq<char>)>, role: Role, i: int)
    requires
        0 <= i < xs.len(),
        xs[i].0 == role,
        forall|k: int| i < k < xs.len() ==> xs[k].0 != role,
    ensures
        last_index_of(xs, role) == Some(i),
{
    crate::trajectory::lemma_last_index_of(xs, role);
    let a = last_index_of(xs, role)->0;
    if a < i {
        assert(xs[i].0 != role);
    }
    if a > i {
        assert(xs[a].0 != role);
    }
}

/// No segment of a role: no last one either.
proof fn lemma_no_index(xs: Seq<(Role, Seq<char>)>, role: Role)
    requires
        forall|k: int| 0 <= k < xs.len() ==> xs[k].0 != role,
    ensures
        last_index_of(xs, role) is None,
{
    crate::trajectory::lemma_last_index_of(xs, role);
    if let Some(a) = last_index_of(xs, role) {
        assert(xs[a].0 == role);
    }
}

/// The last answer of the trajectory, else its last suggested answer, trimmed.
pub fn recover_answer(trajectory: &Trajectory) -> (r: Option<String>)
    ensures
        match recovered(seg_views(trajectory.segments@)) {
            Some(a) => r matches Some(s) && s@ == a,
            None => r is None,
        },
{
    match last_index(&trajectory.segments, Role::Answer) {
        Some(i) => {
            let mut s = String::new();
            push_str(&mut s, trajectory.segments[i].content.as_str());
            Some(s)
        },
        None => match last_index(&trajectory.segments, Role::SuggestedAnswer) {
            Some(j) => Some(trim_str(trajectory.segments[j].content.as_str())),
            None => None,
        },
    }
}

/// What to do after a chunk of the transcript.
#[derive(Debug)]
pub enum StepOutcome {
    /// End the turn with this reply.
    Answer(String),
    /// Run this tool call and hand its result to `Turn::receive_observation`.
    RunTool(Segment),
    /// Ask the model for the next chunk.
    Continue,
    /// Stop asking; the turn ends with `Turn::conclude`.
    Stop,
}

/// The view of a step outcome.
pub enum OutcomeView {
    Answer(Seq<char>),
    RunTool((Role, Seq<char>)),
    Continue,
    Stop,
}

impl StepOutcome {
    pub open spec fn view_of(&self) -> OutcomeView {
        match self {
            StepOutcome::Answer(a) => OutcomeView::Answer(a@),
            StepOutcome::RunTool(s) => OutcomeView::RunTool(s@),
            StepOutcome::Continue => OutcomeView::Continue,
            StepOutcome::Stop => OutcomeView::Stop,
        }
    }
}

/// The state of a turn: the transcript so far, its segments, and the steps and
/// re-plans taken.
#[derive(Debug)]
pub struct Turn {
    pub buffer: String,
    pub trajectory: Trajectory,
    pub steps: usize,
    pub replans: usize,
}

/// The view of a turn.
pub struct TurnView {
    pub buffer: Seq<char>,
    pub segments: Seq<(Role, Seq<char>)>,
    pub steps: nat,
    pub replans: nat,
}

impl Turn {
    pub open spec fn view_of(&self) -> TurnView {
        TurnView {
            buffer: self.buffer@,
            segments: seg_views(self.trajectory.segments@),
            steps: self.steps as nat,
            replans: self.replans as nat,
        }
    }
}

/// Whether the last double check of `tail` reports a score below `threshold`.
pub open spec fn low_score(tail: Seq<(Role, Seq<char>)>, threshold: int) -> bool {
    match last_index_of(tail, Role::DoubleCheck) {
        Some(i) => match score_capture(tail[i].1) {
            Some(d) => match score_from_digits(d) {
                Some(v) => v < threshold,
                None => false,
            },
            None => false,
        },
        None => false,
    }
}

/// The decision after the model produced `chunk` in state `st`: the next state
/// and what to do.
pub open spec fn chunk_step(
    st: TurnView,
    threshold: int,
    max_replans: nat,
    chunk: Seq<char>,
) -> (TurnView, OutcomeView) {
    if chunk.len() == 0 {
        (st, OutcomeView::Stop)
    } else {
        let buf = st.buffer + chunk;
        let st1 = TurnView { buffer: buf, segments: parse_seq(buf), ..st };
        let tail = parse_seq(chunk);
        match first_actionable(tail) {
            Some(a) => if a.0 == Role::Answer {
                (st1, OutcomeView::Answer(trim_seq(a.1)))
            } else {
                (st1, OutcomeView::RunTool(a))
            },
            None => {
                let low = low_score(tail, threshold);
                if low && st.replans < max_replans {
                    (
                        TurnView { buffer: buf + REPLAN_NOTE@, replans: st.replans + 1, ..st1 },
                        OutcomeView::Continue,
                    )
                } else if low && last_index_of(tail, Role::SuggestedAnswer) is Some {
                    (
                        st1,
                        OutcomeView::Answer(
                            trim_seq(tail[last_index_of(tail, Role::SuggestedAnswer)->0].1),
                        ),
                    )
                } else if last_index_of(tail, Role::SuggestedAnswer) is Some && last_index_of(
                    tail,
                    Role::Answer,
                ) is None && last_index_of(tail, Role::DoubleCheck) is None {
                    (st1, OutcomeView::Continue)
                } else if trim_seq(chunk).len() == 0 {
                    (st1, OutcomeView::Stop)
                } else {
                    (st1, OutcomeView::Continue)
                }
            },
        }
    }
}

/// The transcript after a tool's observation: it is appended inside an
/// observation tag.
pub open spec fn observed(buffer: Seq<char>, observation: Seq<char>) -> Seq<char> {
    buffer + "\n<observation>\n"@ + observation + "\n</observation>\n"@
}

impl Turn {
    /// A turn that has not started.
    pub fn new() -> (t: Turn)
        ensures
            t.view_of().buffer.len() == 0,
            t.view_of().segments.len() == 0,
            t.steps == 0,
            t.replans == 0,
            segments_parsed(t.view_of()),
    {
        let t = Turn { buffer: String::new(), trajectory: Trajectory::new(), steps: 0, replans: 0 };
        assert(parse_seq(seq![]) =~= t.view_of().segments);
        t
    }

    /// Takes the next step, unless the turn has used all its steps.
    pub fn begin_step(&mut self, config: &CoAConfig) -> (go: bool)
        ensures
            go == (old(self).steps < config.max_steps),
            final(self).steps == if go { old(self).steps + 1 } else { old(self).steps as int },
            final(self).buffer == old(self).buffer,
            final(self).trajectory == old(self).trajectory,
            final(self).replans == old(self).replans,
    {
        if self.steps < config.max_steps {
            self.steps = self.steps + 1;
            true
        } else {
            false
        }
    }

    /// Takes in the next chunk of the transcript and decides what comes next.
    pub fn receive_chunk(&mut self, config: &CoAConfig, chunk: &str) -> (o: StepOutcome)
        ensures
            (final(self).view_of(), o.view_of()) == chunk_step(
                old(self).view_of(),
                config.double_check_threshold as int,
                config.max_replans as nat,
                chunk@,
            ),
            final(self).steps == old(self).steps,
    {
        let cv = chars_of(chunk);
        if cv.len() == 0 {
            return StepOutcome::Stop;
        }
        push_str(&mut self.buffer, chunk);
        self.trajectory.segments = parse_segments(self.buffer.as_str());
        let action = first_actionable_segment(chunk);
        match action {
            Some(act) => {
                if act.role == Role::Answer {
                    let answer = trim_str(act.content.as_str());
                    return StepOutcome::Answer(answer);
                } else {
                    return StepOutcome::RunTool(act);
                }
            },
            None => {},
        }
        let tail = parse_segments(chunk);
        let check = last_index(&tail, Role::DoubleCheck);
        let low = match check {
            Some(i) => match parse_double_check_score(tail[i].content.as_str()) {
                Some(score) => score < config.double_check_threshold,
                None => false,
            },
            None => false,
        };
        let suggested = last_index(&tail, Role::SuggestedAnswer);
        if low {
            if self.replans < config.max_replans {
                self.replans = self.replans + 1;
                push_str(&mut self.buffer, REPLAN_NOTE);
                return StepOutcome::Continue;
            }
            match suggested {
                Some(j) => {
                    return StepOutcome::Answer(trim_str(tail[j].content.as_str()));
                },
                None => {},
            }
        }
        let has_answer = last_index(&tail, Role::Answer).is_some();
        if suggested.is_some() && !has_answer && check.is_none() {
            return StepOutcome::Continue;
        }
        let trimmed = trim_str(chunk);
        if chars_of(trimmed.as_str()).len() == 0 {
            return StepOutcome::Stop;
        }
        StepOutcome::Continue
    }

    /// Appends a tool's observation to the transcript.
    pub fn receive_observation(&mut self, observation: &str)
        ensures
            final(self).buffer@ == observed(old(self).buffer@, observation@),
            final(self).view_of().segments == parse_seq(final(self).buffer@),
            final(self).steps == old(self).steps,
            final(self).replans == old(self).replans,
    {
        push_str(&mut self.buffer, "\n<observation>\n");
        push_str(&mut self.buffer, observation);
        push_str(&mut self.buffer, "\n</observation>\n");
        self.trajectory.segments = parse_segments(self.buffer.as_str());
    }

    /// The result of a turn that ends with `answer`.
    pub fn finish(self, answer: String) -> (r: CoAResult)
        ensures
            r.answer == answer,
            r.trajectory == self.trajectory,
            r.steps == self.steps,
            r.replans == self.replans,
    {
        CoAResult { answer, trajectory: self.trajectory, steps: self.steps, replans: self.replans }
    }

    /// The result of a turn that stopped without answering: the answer recovered
    /// from its trajectory, or, when there is none, the number of steps taken.
    pub fn conclude(self) -> (r: Result<CoAResult, usize>)
        ensures
            match recovered(self.view_of().segments) {
                Some(a) => r matches Ok(res) && res.answer@ == a && res.trajectory == self.trajectory
                    && res.steps == self.steps && res.replans == self.replans,
                None => r == Err::<CoAResult, usize>(self.steps),
            },
    {
        match recover_answer(&self.trajectory) {
            Some(answer) => Ok(self.finish(answer)),
            None => Err(self.steps),
        }
    }
}

/// The segment that decides a step is a tool call or an answer, and one of the
/// stream's segments.
pub proof fn law_first_actionable(xs: Seq<(Role, Seq<char>)>)
    ensures
        first_actionable(xs) matches Some(a) ==> crate::trajectory::is_actionable(a) && xs.contains(a),
    decreases xs.len(),
{
    if xs.len() > 0 && !crate::trajectory::is_actionable(xs[0]) {
        law_first_actionable(xs.drop_first());
        if first_actionable(xs.drop_first()) is Some {
            let a = first_actionable(xs.drop_first())->0;
            let k = choose|k: int| 0 <= k < xs.drop_first().len() && xs.drop_first()[k] == a;
            assert(xs[k + 1] == a);
        }
    } else if xs.len() > 0 {
        assert(xs[0] == xs[0]);
    }
}

/// A chunk never rewrites the transcript: after it, the transcript begins with
/// the old transcript followed by the chunk; an empty chunk changes nothing.
pub proof fn law_chunk_extends_transcript(
    st: TurnView,
    threshold: int,
    max_replans: nat,
    chunk: Seq<char>,
)
    ensures
        ({
            let st2 = chunk_step(st, threshold, max_replans, chunk).0;
            &&& chunk.len() == 0 ==> st2 == st
            &&& st.buffer.len() + chunk.len() <= st2.buffer.len()
            &&& st2.buffer.subrange(0, (st.buffer.len() + chunk.len()) as int) == st.buffer + chunk
            &&& st2.steps == st.steps
        }),
{
    let st2 = chunk_step(st, threshold, max_replans, chunk).0;
    let b = st.buffer + chunk;
    assert(b.subrange(0, b.len() as int) =~= b);
    assert((b + REPLAN_NOTE@).subrange(0, b.len() as int) =~= b);
}

/// A turn re-plans at most `max_replans` times, one re-plan per chunk.
pub proof fn law_replans_bounded(st: TurnView, threshold: int, max_replans: nat, chunk: Seq<char>)
    requires
        st.replans <= max_replans,
    ensures
        chunk_step(st, threshold, max_replans, chunk).0.replans <= max_replans,
        chunk_step(st, threshold, max_replans, chunk).0.replans <= st.replans + 1,
{
}

/// A reply that ends the turn has no whitespace at either end.
pub proof fn law_answer_trimmed(st: TurnView, threshold: int, max_replans: nat, chunk: Seq<char>)
    ensures
        chunk_step(st, threshold, max_replans, chunk).1 matches OutcomeView::Answer(a) ==> trim_seq(a)
            == a,
{
    let tail = parse_seq(chunk);
    match first_actionable(tail) {
        Some(a) => {
            crate::text::lemma_trim_idempotent(a.1);
        },
        None => {
            if last_index_of(tail, Role::SuggestedAnswer) is Some {
                crate::text::lemma_trim_idempotent(
                    tail[last_index_of(tail, Role::SuggestedAnswer)->0].1,
                );
            }
        },
    }
}

/// A tool is run only for a tool-agent segment that the chunk itself holds.
pub proof fn law_tool_call_from_chunk(st: TurnView, threshold: int, max_replans: nat, chunk: Seq<char>)
    ensures
        chunk_step(st, threshold, max_replans, chunk).1 matches OutcomeView::RunTool(seg) ==> is_tool_role(
            seg.0,
        ) && parse_seq(chunk).contains(seg),
{
    law_first_actionable(parse_seq(chunk));
}

/// Putting back a stop sequence only ever appends it: the completion is kept
/// whole, followed by at most one of the stops.
pub proof fn law_reattach_appends(text: Seq<char>, stops: Seq<Seq<char>>)
    ensures
        reattached(text, stops) == text || exists|i: int|
            0 <= i < stops.len() && reattached(text, stops) == text + #[trigger] stops[i],
    decreases stops.len(),
{
    if stops.len() > 0 {
        let stop = stops[0];
        let opening = replace_seq(stop, "</"@, "<"@);
        if contains_seq(text, opening) && !contains_seq(text, stop) {
            assert(reattached(text, stops) == text + stops[0]);
        } else {
            law_reattach_appends(text, stops.drop_first());
            if reattached(text, stops.drop_first()) != text {
                let i = choose|i: int|
                    0 <= i < stops.drop_first().len() && reattached(text, stops.drop_first()) == text
                        + #[trigger] stops.drop_first()[i];
                assert(stops.drop_first()[i] == stops[i + 1]);
            }
        }
    }
}

/// How an episode ends: with an answer, or by running out of steps or
/// stopping, when its answer is recovered from the trajectory.
pub enum EpisodeEnd {
    Answered(Seq<char>),
    Concluded,
}

/// A whole turn as the service runs it from state `st`: while steps remain, it
/// takes a step, hands the model's reply for that step (`replies(n)` for the
/// `n`-th step) to `chunk_step`, and, for a tool call, appends that step's
/// observation (`observations(n)`); it ends on an answer or a stop, or when
/// `max_steps` are used.
pub open spec fn episode(
    st: TurnView,
    max_steps: nat,
    threshold: int,
    max_replans: nat,
    replies: spec_fn(nat) -> Seq<char>,
    observations: spec_fn(nat) -> Seq<char>,
) -> (TurnView, EpisodeEnd)
    decreases max_steps - st.steps,
{
    if st.steps >= max_steps {
        (st, EpisodeEnd::Concluded)
    } else {
        let n = (st.steps + 1) as nat;
        let st1 = TurnView { steps: n, ..st };
        let (st2, out) = chunk_step(st1, threshold, max_replans, replies(n));
        match out {
            OutcomeView::Answer(a) => (st2, EpisodeEnd::Answered(a)),
            OutcomeView::Stop => (st2, EpisodeEnd::Concluded),
            OutcomeView::Continue => episode(st2, max_steps, threshold, max_replans, replies, observations),
            OutcomeView::RunTool(_) => {
                let b = observed(st2.buffer, observations(n));
                episode(
                    TurnView { buffer: b, segments: parse_seq(b), ..st2 },
                    max_steps,
                    threshold,
                    max_replans,
                    replies,
                    observations,
                )
            },
        }
    }
}

/// Over a whole turn the model is asked at most `max_steps` times (not at all
/// when `max_steps` is 0), the turn re-plans at most `max_replans` times, and an
/// answer given is the trimmed content of an answer or suggested-answer segment
/// of one of the model's replies.
pub proof fn law_episode(
    st: TurnView,
    max_steps: nat,
    threshold: int,
    max_replans: nat,
    replies: spec_fn(nat) -> Seq<char>,
    observations: spec_fn(nat) -> Seq<char>,
)
    requires
        st.replans <= max_replans,
    ensures
        ({
            let (fin, end) = episode(st, max_steps, threshold, max_replans, replies, observations);
            &&& st.steps <= fin.steps
            &&& fin.steps <= if st.steps <= max_steps { max_steps } else { st.steps }
            &&& fin.replans <= max_replans
            &&& max_steps == 0 ==> fin == st && end is Concluded
            &&& end matches EpisodeEnd::Answered(a) ==> exists|n: nat, seg: (Role, Seq<char>)|
                st.steps < n <= fin.steps && #[trigger] parse_seq(replies(n)).contains(seg) && (seg.0
                == Role::Answer || seg.0 == Role::SuggestedAnswer) && a == trim_seq(seg.1)
        }),
    decreases max_steps - st.steps,
{
    if st.steps < max_steps {
        let n = (st.steps + 1) as nat;
        let st1 = TurnView { steps: n, ..st };
        let chunk = replies(n);
        let (st2, out) = chunk_step(st1, threshold, max_replans, chunk);
        law_replans_bounded(st1, threshold, max_replans, chunk);
        law_chunk_extends_transcript(st1, threshold, max_replans, chunk);
        match out {
            OutcomeView::Answer(a) => {
                let tail = parse_seq(chunk);
                law_first_actionable(tail);
                if first_actionable(tail) is Some {
                    let seg = first_actionable(tail)->0;
                    assert(parse_seq(replies(n)).contains(seg));
                } else {
                    let j = last_index_of(tail, Role::SuggestedAnswer)->0;
                    crate::trajectory::lemma_last_index_of(tail, Role::SuggestedAnswer);
                    let seg = tail[j];
                    assert(parse_seq(replies(n)).contains(seg));
                }
            },
            OutcomeView::Stop => {},
            OutcomeView::Continue => {
                law_episode(st2, max_steps, threshold, max_replans, replies, observations);
            },
            OutcomeView::RunTool(_) => {
                let b = observed(st2.buffer, observations(n));
                law_episode(
                    TurnView { buffer: b, segments: parse_seq(b), ..st2 },
                    max_steps,
                    threshold,
                    max_replans,
                    replies,
                    observations,
                );
            },
        }
    }
}

/// Whether the segments of a turn state are those of some transcript.
pub open spec fn segments_parsed(st: TurnView) -> bool {
    exists|b: Seq<char>| st.segments == parse_seq(b)
}

proof fn lemma_chunk_parsed(st: TurnView, threshold: int, max_replans: nat, chunk: Seq<char>)
    requires
        segments_parsed(st),
    ensures
        segments_parsed(chunk_step(st, threshold, max_replans, chunk).0),
{
    if chunk.len() > 0 {
        let buf = st.buffer + chunk;
        assert(chunk_step(st, threshold, max_replans, chunk).0.segments == parse_seq(buf));
    }
}

proof fn lemma_episode_parsed(
    st: TurnView,
    max_steps: nat,
    threshold: int,
    max_replans: nat,
    replies: spec_fn(nat) -> Seq<char>,
    observations: spec_fn(nat) -> Seq<char>,
)
    requires
        segments_parsed(st),
    ensures
        segments_parsed(episode(st, max_steps, threshold, max_replans, replies, observations).0),
    decreases max_steps - st.steps,
{
    if st.steps < max_steps {
        let n = (st.steps + 1) as nat;
        let st1 = TurnView { steps: n, ..st };
        assert(st1.segments == st.segments);
        lemma_chunk_parsed(st1, threshold, max_replans, replies(n));
        let (st2, out) = chunk_step(st1, threshold, max_replans, replies(n));
        match out {
            OutcomeView::Continue => {
                lemma_episode_parsed(st2, max_steps, threshold, max_replans, replies, observations);
            },
            OutcomeView::RunTool(_) => {
                let b = observed(st2.buffer, observations(n));
                let st3 = TurnView { buffer: b, segments: parse_seq(b), ..st2 };
                assert(st3.segments == parse_seq(b));
                lemma_episode_parsed(st3, max_steps, threshold, max_replans, replies, observations);
            },
            _ => {},
        }
    }
}

/// The answer recovered from segments that a parse gave is the trimmed
/// content of one of its answer or suggested-answer segments.
pub proof fn law_recovered_answer(b: Seq<char>)
    ensures
        recovered(parse_seq(b)) matches Some(a) ==> trim_seq(a) == a && exists|k: int|
            0 <= k < parse_seq(b).len() && (parse_seq(b)[k].0 == Role::Answer || parse_seq(b)[k].0
                == Role::SuggestedAnswer) && a == trim_seq(#[trigger] parse_seq(b)[k].1),
{
    let xs = parse_seq(b);
    crate::trajectory_laws::law_segments_trimmed(b);
    crate::trajectory::lemma_last_index_of(xs, Role::Answer);
    crate::trajectory::lemma_last_index_of(xs, Role::SuggestedAnswer);
    if let Some(i) = last_index_of(xs, Role::Answer) {
        assert(trim_seq(xs[i].1) == xs[i].1);
    } else if let Some(j) = last_index_of(xs, Role::SuggestedAnswer) {
        crate::text::lemma_trim_idempotent(xs[j].1);
    }
}

/// When a turn ends without an answer, the answer it recovers from its
/// trajectory, if any, is the trimmed content of an answer or
/// suggested-answer segment of that trajectory; a turn allowed no step at all
/// recovers nothing from an empty trajectory.
pub proof fn law_episode_conclusion(
    st: TurnView,
    max_steps: nat,
    threshold: int,
    max_replans: nat,
    replies: spec_fn(nat) -> Seq<char>,
    observations: spec_fn(nat) -> Seq<char>,
)
    requires
        segments_parsed(st),
    ensures
        ({
            let (fin, end) = episode(st, max_steps, threshold, max_replans, replies, observations);
            &&& end is Concluded ==> (recovered(fin.segments) matches Some(a) ==> trim_seq(a) == a
                && exists|k: int| 0 <= k < fin.segments.len() && (fin.segments[k].0 == Role::Answer
                    || fin.segments[k].0 == Role::SuggestedAnswer) && a == trim_seq(#[trigger] fin.segments[k].1))
            &&& (max_steps == 0 && st.segments.len() == 0) ==> end is Concluded && recovered(fin.segments) is None
        }),
{
    lemma_episode_parsed(st, max_steps, threshold, max_replans, replies, observations);
    let fin = episode(st, max_steps, threshold, max_replans, replies, observations).0;
    let b = choose|b: Seq<char>| fin.segments == parse_seq(b);
    law_recovered_answer(b);
    if max_steps == 0 && st.segments.len() == 0 {
        assert(fin == st);
        assert(last_index_of(fin.segments, Role::Answer) is None);
        assert(last_index_of(fin.segments, Role::SuggestedAnswer) is None);
    }
}

} // verus!
