//! Conversations: titles, what a message must hold, and how a history is put
//! together from its messages and their corrections.
use vstd::prelude::*;

use crate::text::{
    chars_of, is_whitespace, is_ws, lemma_trim_end_at, lemma_trim_end_prefix, lemma_trim_len, push_range,
    push_str, trim_end_seq, trim_seq, trim_str,
};

verus! {

/// The reply to a message that is clearly not in English.
pub const NON_ENGLISH_REPLY: &'static str =
    "It looks like you're writing in another language! Since we're here to practice English, could you try saying that in English? Don't worry about making mistakes, that's how we learn.";

/// The most characters of a message that a title keeps.
pub const TITLE_CHARS: usize = 60;

/// A conversation's title: its first message, cut after 60 characters with
/// "..." added, else trimmed.
pub open spec fn title_of(content: Seq<char>) -> Seq<char> {
    if content.len() > 60 {
        trim_end_seq(content.take(60)) + "..."@
    } else {
        trim_seq(content)
    }
}

/// A title is at most 63 characters long: 60 of the message and "...".
pub proof fn law_title_short(content: Seq<char>)
    ensures
        title_of(content).len() <= TITLE_CHARS + 3,
{
    if content.len() > 60 {
        reveal_strlit("...");
        lemma_trim_end_prefix(content.take(60));
    } else {
        lemma_trim_len(content);
    }
}

/// The end of `v[lo..hi]` without its trailing whitespace.
fn trim_end_index(v: &Vec<char>, lo: usize, hi: usize) -> (b: usize)
    requires
        lo <= hi <= v@.len(),
    ensures
        lo <= b <= hi,
        v@.subrange(lo as int, b as int) == trim_end_seq(v@.subrange(lo as int, hi as int)),
{
    let mut b = hi;
    while b > lo && is_whitespace(v[b - 1])
        invariant
            lo <= b <= hi <= v@.len(),
            forall|i: int| b <= i < hi ==> is_ws(#[trigger] v@[i]),
        decreases b - lo,
    {
        b = b - 1;
    }
    proof {
        let sub = v@.subrange(lo as int, hi as int);
        assert forall|i: int| b - lo <= i < sub.len() implies is_ws(#[trigger] sub[i]) by {
            assert(sub[i] == v@[lo + i]);
        }
        if b > lo {
            assert(sub[b - lo - 1] == v@[b - 1]);
        }
        lemma_trim_end_at(sub, b - lo);
        assert(sub.take(b - lo) =~= v@.subrange(lo as int, b as int));
    }
    b
}

/// The title of a conversation that starts with `content`.
pub fn make_title(content: &str) -> (r: String)
    ensures
        r@ == title_of(content@),
{
    let v = chars_of(content);
    if v.len() > TITLE_CHARS {
        let b = trim_end_index(&v, 0, TITLE_CHARS);
        let mut r = String::new();
        push_range(&mut r, &v, 0, b);
        push_str(&mut r, "...");
        assert(v@.subrange(0, 60) =~= v@.take(60));
        r
    } else {
        trim_str(content)
    }
}

/// A message as it is stored: its content trimmed, which must not be empty.
pub fn validate_content(content: &str) -> (r: Result<String, String>)
    ensures
        trim_seq(content@).len() > 0 ==> (r matches Ok(t) && t@ == trim_seq(content@)),
        trim_seq(content@).len() == 0 ==> (r matches Err(e) && e@ == "message content cannot be empty"@),
{
    let t = trim_str(content);
    if t.as_str().is_empty() {
        let mut e = String::new();
        push_str(&mut e, "message content cannot be empty");
        Err(e)
    } else {
        Ok(t)
    }
}

/// The number of words of `s`: maximal runs of non-whitespace characters
/// (`str::split_whitespace().count()`).
pub open spec fn word_count(s: Seq<char>) -> nat
    decreases s.len(),
{
    if s.len() == 0 {
        0
    } else {
        word_count(s.drop_last()) + if !is_ws(s.last()) && (s.len() == 1 || is_ws(s[s.len() - 2])) {
            1nat
        } else {
            0nat
        }
    }
}

/// Whether a message is long enough for its language to be detected: at least
/// 3 words and 12 characters once trimmed.
pub open spec fn detectable(text: Seq<char>) -> bool {
    word_count(trim_seq(text)) >= 3 && trim_seq(text).len() >= 12
}

/// Whether a message is long enough for its language to be detected.
pub fn worth_language_check(text: &str) -> (r: bool)
    ensures
        r == detectable(text@),
{
    let t = trim_str(text);
    let v = chars_of(t.as_str());
    let mut words: usize = 0;
    let mut i: usize = 0;
    while i < v.len()
        invariant
            i <= v@.len(),
            words == word_count(v@.take(i as int)),
            words <= i,
        decreases v@.len() - i,
    {
        let starts = !is_whitespace(v[i]) && (i == 0 || is_whitespace(v[i - 1]));
        proof {
            let tk = v@.take(i + 1);
            assert(tk.drop_last() =~= v@.take(i as int));
            assert(tk.last() == v@[i as int]);
            if i > 0 {
                assert(tk[tk.len() - 2] == v@[i - 1]);
            }
        }
        if starts {
            words = words + 1;
        }
        i = i + 1;
    }
    assert(v@.take(i as int) =~= v@);
    words >= 3 && v.len() >= 12
}

/// Why a user cannot use a conversation.
#[derive(Debug, Clone, Copy, PartialEq, Eq, Structural)]
pub enum AccessError {
    /// There is no such conversation.
    NotFound,
    /// The conversation belongs to someone else.
    Forbidden,
}

/// Whether the user `user_id` may use a conversation whose owner is `owner`
/// (`None` when the conversation does not exist).
pub fn check_access(owner: Option<u128>, user_id: u128) -> (r: Result<(), AccessError>)
    ensures
        r == match owner {
            None => Err(AccessError::NotFound),
            Some(o) => if o == user_id {
                Ok(())
            } else {
                Err(AccessError::Forbidden)
            },
        },
{
    match owner {
        None => Err(AccessError::NotFound),
        Some(o) => if o == user_id {
            Ok(())
        } else {
            Err(AccessError::Forbidden)
        },
    }
}

/// What the model is told of a user who has no stored profile.
pub const NO_PROFILE: &'static str = "No profile saved yet.";

/// The profile the model is told of: the stored one, or that there is none.
pub fn profile_text(stored: Option<String>) -> (r: String)
    ensures
        r@ == match stored {
            Some(p) => p@,
            None => NO_PROFILE@,
        },
{
    match stored {
        Some(p) => p,
        None => {
            let mut r = String::new();
            push_str(&mut r, NO_PROFILE);
            r
        },
    }
}

/// The compact JSON text that `serde_json` writes for the value `text` holds;
/// `None` when `text` is not JSON.
pub uninterp spec fn json_text_of(text: Seq<char>) -> Option<Seq<char>>;

/// The value `text` holds, written back as compact JSON
/// (`serde_json::from_str::<serde_json::Value>`, then `to_string`).
#[verifier::external_body]
fn reprint_json(text: &str) -> (r: Option<String>)
    ensures
        match r {
            Some(p) => json_text_of(text@) == Some(p@),
            None => json_text_of(text@) is None,
        },
{
    serde_json::from_str::<serde_json::Value>(text).ok().map(|v| v.to_string())
}

/// The profile the model is told of, given what the store holds for the user:
/// the stored JSON, written back compactly, or that there is none when nothing
/// is stored or it is not JSON.
pub fn stored_profile_text(stored: Option<&str>) -> (r: String)
    ensures
        r@ == match stored {
            Some(t) => match json_text_of(t@) {
                Some(p) => p,
                None => NO_PROFILE@,
            },
            None => NO_PROFILE@,
        },
{
    match stored {
        Some(t) => profile_text(reprint_json(t)),
        None => profile_text(None),
    }
}

/// A grammar correction as the history shows it.
#[derive(Debug, Clone)]
pub struct GrammarCorrectionDetail {
    pub original_text: String,
    pub corrected_text: String,
    pub explanation: String,
    pub improvement: String,
}

/// A stored correction and the message it is attached to.
#[derive(Debug, Clone)]
pub struct CorrectionRow {
    pub message_id: u128,
    pub original_text: String,
    pub corrected_text: String,
    pub explanation: String,
    pub improvement: String,
}

/// A stored message.
#[derive(Debug, Clone)]
pub struct MessageRow<R> {
    pub id: u128,
    pub role: R,
    pub content: String,
}

/// A message of the history, with the correction attached to it.
#[derive(Debug, Clone)]
pub struct MessageDetail<R> {
    pub id: u128,
    pub role: R,
    pub content: String,
    pub correction: Option<GrammarCorrectionDetail>,
}

/// The index of the first correction attached to message `id`.
pub open spec fn correction_for(cs: Seq<CorrectionRow>, id: u128) -> Option<int>
    decreases cs.len(),
{
    if cs.len() == 0 {
        None
    } else if cs[0].message_id == id {
        Some(0)
    } else {
        match correction_for(cs.drop_first(), id) {
            Some(j) => Some(j + 1),
            None => None,
        }
    }
}

/// Whether a detail carries exactly the texts of a correction row.
pub open spec fn same_texts(d: GrammarCorrectionDetail, c: CorrectionRow) -> bool {
    &&& d.original_text@ == c.original_text@
    &&& d.corrected_text@ == c.corrected_text@
    &&& d.explanation@ == c.explanation@
    &&& d.improvement@ == c.improvement@
}

proof fn lemma_correction_for(cs: Seq<CorrectionRow>, id: u128)
    ensures
        correction_for(cs, id) matches Some(j) ==> 0 <= j < cs.len() && cs[j].message_id == id,
    decreases cs.len(),
{
    if cs.len() > 0 && cs[0].message_id != id {
        lemma_correction_for(cs.drop_first(), id);
        if let Some(j) = correction_for(cs.drop_first(), id) {
            assert(cs.drop_first()[j] == cs[j + 1]);
        }
    }
}

/// A message gets a correction exactly when some correction row carries its
/// id, wherever that row stands among the rows, and it is the first such row.
pub proof fn law_correction_found(cs: Seq<CorrectionRow>, id: u128)
    ensures
        correction_for(cs, id) is Some <==> exists|j: int| 0 <= j < cs.len() && (#[trigger] cs[j]).message_id == id,
        correction_for(cs, id) matches Some(j) ==> 0 <= j < cs.len() && cs[j].message_id == id
            && forall|k: int| 0 <= k < j ==> (#[trigger] cs[k]).message_id != id,
    decreases cs.len(),
{
    if cs.len() > 0 && cs[0].message_id != id {
        let t = cs.drop_first();
        law_correction_found(t, id);
        assert forall|k: int| 0 <= k < t.len() implies #[trigger] t[k] == cs[k + 1] by {}
        if exists|j: int| 0 <= j < cs.len() && (#[trigger] cs[j]).message_id == id {
            let j = choose|j: int| 0 <= j < cs.len() && (#[trigger] cs[j]).message_id == id;
            assert(t[j - 1].message_id == id);
        }
        if let Some(j) = correction_for(t, id) {
            assert forall|k: int| 0 <= k < j + 1 implies (#[trigger] cs[k]).message_id != id by {
                if k > 0 {
                    assert(cs[k] == t[k - 1]);
                }
            }
        }
    }
}

fn find_correction(cs: &Vec<CorrectionRow>, id: u128) -> (r: Option<usize>)
    ensures
        match correction_for(cs@, id) {
            Some(j) => r matches Some(k) && k as int == j,
            None => r is None,
        },
        r matches Some(k) ==> k < cs@.len(),
{
    proof {
        lemma_correction_for(cs@, id);
    }
    let mut i: usize = 0;
    assert(cs@.skip(0) =~= cs@);
    while i < cs.len()
        invariant
            i <= cs@.len(),
            match correction_for(cs@, id) {
                Some(j) => match correction_for(cs@.skip(i as int), id) {
                    Some(k) => j == k + i,
                    None => false,
                },
                None => correction_for(cs@.skip(i as int), id) is None,
            },
        decreases cs@.len() - i,
    {
        let ghost rest = cs@.skip(i as int);
        assert(rest[0] == cs@[i as int]);
        assert(rest.drop_first() =~= cs@.skip(i + 1));
        if cs[i].message_id == id {
            return Some(i);
        }
        i = i + 1;
    }
    None
}

/// The messages of a conversation, each with the first correction attached to it.
pub fn attach_corrections<R>(messages: Vec<MessageRow<R>>, corrections: &Vec<CorrectionRow>) -> (r: Vec<MessageDetail<R>>)
    ensures
        r@.len() == messages@.len(),
        forall|i: int|
            0 <= i < r@.len() ==> {
                &&& (#[trigger] r@[i]).id == messages@[i].id
                &&& r@[i].role == messages@[i].role
                &&& r@[i].content == messages@[i].content
                &&& match correction_for(corrections@, messages@[i].id) {
                    Some(j) => r@[i].correction matches Some(d) && same_texts(d, corrections@[j]),
                    None => r@[i].correction is None,
                }
            },
        forall|i: int|
            0 <= i < r@.len() ==> ((#[trigger] r@[i]).correction is Some <==> exists|j: int|
                0 <= j < corrections@.len() && (#[trigger] corrections@[j]).message_id == messages@[i].id),
{
    let ghost orig = messages@;
    let mut messages = messages;
    let mut out: Vec<MessageDetail<R>> = Vec::new();
    while messages.len() > 0
        invariant
            out@.len() + messages@.len() == orig.len(),
            messages@ == orig.skip(out@.len() as int),
            forall|i: int|
                0 <= i < out@.len() ==> {
                    &&& (#[trigger] out@[i]).id == orig[i].id
                    &&& out@[i].role == orig[i].role
                    &&& out@[i].content == orig[i].content
                    &&& match correction_for(corrections@, orig[i].id) {
                        Some(j) => out@[i].correction matches Some(d) && same_texts(d, corrections@[j]),
                        None => out@[i].correction is None,
                    }
                },
        decreases messages@.len(),
    {
        let m = messages.remove(0);
        assert(m == orig[out@.len() as int]);
        let found = find_correction(corrections, m.id);
        let correction = match found {
            Some(j) => {
                let c = &corrections[j];
                let d = GrammarCorrectionDetail {
                    original_text: c.original_text.clone(),
                    corrected_text: c.corrected_text.clone(),
                    explanation: c.explanation.clone(),
                    improvement: c.improvement.clone(),
                };
                Some(d)
            },
            None => None,
        };
        proof {
            lemma_correction_for(corrections@, m.id);
        }
        let ghost before = out@;
        out.push(MessageDetail { id: m.id, role: m.role, content: m.content, correction });
        assert forall|i: int| 0 <= i < before.len() implies out@[i] == before[i] by {}
        assert(messages@ =~= orig.skip(out@.len() as int));
    }
    assert forall|i: int| 0 <= i < out@.len() implies ((#[trigger] out@[i]).correction is Some <==> exists|j: int|
        0 <= j < corrections@.len() && (#[trigger] corrections@[j]).message_id == orig[i].id) by {
        law_correction_found(corrections@, orig[i].id);
    }
    out
}

} // verus!
