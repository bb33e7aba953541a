//! The Chain-of-Agents trajectory: roles, tagged segments and their parser.
use vstd::prelude::*;

use crate::numbers::{parse_i32, parse_int_seq};
use crate::text::{
    ascii_lower, chars_eq, chars_of, find_chars, find_from, is_ws, lemma_find_from_bounds, occurs_at, push_str,
    string_from, to_ascii_lower, trim_range, trim_seq,
};

verus! {

/// A role-playing agent or tool agent of the reasoning stream.
#[derive(Debug, Clone, Copy, PartialEq, Eq, Structural, Hash)]
pub enum Role {
    Plan,
    Think,
    Reflection,
    SuggestedAnswer,
    DoubleCheck,
    Answer,
    Observation,
    WebSearch,
    GrammarCheck,
    UpdateProfile,
    SaveCorrection,
}

/// The tag name of a role.
pub open spec fn role_tag(r: Role) -> Seq<char> {
    match r {
        Role::Plan => "plan"@,
        Role::Think => "think"@,
        Role::Reflection => "reflection"@,
        Role::SuggestedAnswer => "suggested_answer"@,
        Role::DoubleCheck => "double_check"@,
        Role::Answer => "answer"@,
        Role::Observation => "observation"@,
        Role::WebSearch => "web_search"@,
        Role::GrammarCheck => "grammar_check"@,
        Role::UpdateProfile => "update_profile"@,
        Role::SaveCorrection => "save_correction"@,
    }
}

/// The role whose tag name is exactly `s`.
pub open spec fn role_of_tag(s: Seq<char>) -> Option<Role> {
    if s == "plan"@ {
        Some(Role::Plan)
    } else if s == "think"@ {
        Some(Role::Think)
    } else if s == "reflection"@ {
        Some(Role::Reflection)
    } else if s == "suggested_answer"@ {
        Some(Role::SuggestedAnswer)
    } else if s == "double_check"@ {
        Some(Role::DoubleCheck)
    } else if s == "answer"@ {
        Some(Role::Answer)
    } else if s == "observation"@ {
        Some(Role::Observation)
    } else if s == "web_search"@ {
        Some(Role::WebSearch)
    } else if s == "grammar_check"@ {
        Some(Role::GrammarCheck)
    } else if s == "update_profile"@ {
        Some(Role::UpdateProfile)
    } else if s == "save_correction"@ {
        Some(Role::SaveCorrection)
    } else {
        None
    }
}

/// The roles that are tool agents.
pub open spec fn is_tool_role(r: Role) -> bool {
    r == Role::WebSearch || r == Role::GrammarCheck || r == Role::UpdateProfile || r
        == Role::SaveCorrection
}

/// The closing tag of a role, `</name>`.
pub open spec fn closing_tag_seq(r: Role) -> Seq<char> {
    "</"@ + role_tag(r) + ">"@
}

/// Reveals the characters of every tag name.
pub proof fn reveal_tags()
    ensures
        "plan"@ =~= seq!['p', 'l', 'a', 'n'],
        "think"@ =~= seq!['t', 'h', 'i', 'n', 'k'],
        "reflection"@ =~= seq!['r', 'e', 'f', 'l', 'e', 'c', 't', 'i', 'o', 'n'],
        "suggested_answer"@ =~= seq!['s', 'u', 'g', 'g', 'e', 's', 't', 'e', 'd', '_', 'a', 'n', 's', 'w', 'e', 'r'],
        "double_check"@ =~= seq!['d', 'o', 'u', 'b', 'l', 'e', '_', 'c', 'h', 'e', 'c', 'k'],
        "answer"@ =~= seq!['a', 'n', 's', 'w', 'e', 'r'],
        "observation"@ =~= seq!['o', 'b', 's', 'e', 'r', 'v', 'a', 't', 'i', 'o', 'n'],
        "web_search"@ =~= seq!['w', 'e', 'b', '_', 's', 'e', 'a', 'r', 'c', 'h'],
        "grammar_check"@ =~= seq!['g', 'r', 'a', 'm', 'm', 'a', 'r', '_', 'c', 'h', 'e', 'c', 'k'],
        "update_profile"@ =~= seq!['u', 'p', 'd', 'a', 't', 'e', '_', 'p', 'r', 'o', 'f', 'i', 'l', 'e'],
        "save_correction"@ =~= seq!['s', 'a', 'v', 'e', '_', 'c', 'o', 'r', 'r', 'e', 'c', 't', 'i', 'o', 'n'],
{
    broadcast use vstd::string::group_string_axioms;
    reveal_strlit("plan");
    reveal_strlit("think");
    reveal_strlit("reflection");
    reveal_strlit("suggested_answer");
    reveal_strlit("double_check");
    reveal_strlit("answer");
    reveal_strlit("observation");
    reveal_strlit("web_search");
    reveal_strlit("grammar_check");
    reveal_strlit("update_profile");
    reveal_strlit("save_correction");
}

/// No tag name is empty.
pub proof fn lemma_role_tag_nonempty(r: Role)
    ensures
        role_tag(r).len() > 0,
{
    reveal_tags();
    match r {
        Role::Plan => {},
        Role::Think => {},
        Role::Reflection => {},
        Role::SuggestedAnswer => {},
        Role::DoubleCheck => {},
        Role::Answer => {},
        Role::Observation => {},
        Role::WebSearch => {},
        Role::GrammarCheck => {},
        Role::UpdateProfile => {},
        Role::SaveCorrection => {},
    }
}

impl Role {
    #[must_use]
    pub fn tag(self) -> (t: &'static str)
        ensures
            t@ == role_tag(self),
    {
        match self {
            Role::Plan => "plan",
            Role::Think => "think",
            Role::Reflection => "reflection",
            Role::SuggestedAnswer => "suggested_answer",
            Role::DoubleCheck => "double_check",
            Role::Answer => "answer",
            Role::Observation => "observation",
            Role::WebSearch => "web_search",
            Role::GrammarCheck => "grammar_check",
            Role::UpdateProfile => "update_profile",
            Role::SaveCorrection => "save_correction",
        }
    }

    #[must_use]
    pub fn from_tag(name: &str) -> (r: Option<Role>)
        ensures
            r == role_of_tag(name@),
    {
        let v = chars_of(name);
        role_from_chars(&v)
    }

    #[must_use]
    pub fn is_tool_agent(self) -> (b: bool)
        ensures
            b == is_tool_role(self),
    {
        matches!(self, Role::WebSearch | Role::GrammarCheck | Role::UpdateProfile | Role::SaveCorrection)
    }

    #[must_use]
    pub fn closing_tag(self) -> (s: String)
        ensures
            s@ == closing_tag_seq(self),
    {
        let mut s = String::new();
        push_str(&mut s, "</");
        push_str(&mut s, self.tag());
        push_str(&mut s, ">");
        s
    }
}

/// The role whose tag name is the character sequence `v`.
pub fn role_from_chars(v: &Vec<char>) -> (r: Option<Role>)
    ensures
        r == role_of_tag(v@),
{
    let name = v;
    if chars_eq(name, &chars_of("plan")) {
        Some(Role::Plan)
    } else if chars_eq(name, &chars_of("think")) {
        Some(Role::Think)
    } else if chars_eq(name, &chars_of("reflection")) {
        Some(Role::Reflection)
    } else if chars_eq(name, &chars_of("suggested_answer")) {
        Some(Role::SuggestedAnswer)
    } else if chars_eq(name, &chars_of("double_check")) {
        Some(Role::DoubleCheck)
    } else if chars_eq(name, &chars_of("answer")) {
        Some(Role::Answer)
    } else if chars_eq(name, &chars_of("observation")) {
        Some(Role::Observation)
    } else if chars_eq(name, &chars_of("web_search")) {
        Some(Role::WebSearch)
    } else if chars_eq(name, &chars_of("grammar_check")) {
        Some(Role::GrammarCheck)
    } else if chars_eq(name, &chars_of("update_profile")) {
        Some(Role::UpdateProfile)
    } else if chars_eq(name, &chars_of("save_correction")) {
        Some(Role::SaveCorrection)
    } else {
        None
    }
}

/// A tagged piece of the reasoning stream.
#[derive(Debug, Clone, PartialEq, Eq)]
pub struct Segment {
    pub role: Role,
    pub content: String,
}

impl View for Segment {
    type V = (Role, Seq<char>);

    open spec fn view(&self) -> (Role, Seq<char>) {
        (self.role, self.content@)
    }
}

/// Whether a segment asks for a tool or ends the turn.
pub open spec fn is_actionable(s: (Role, Seq<char>)) -> bool {
    is_tool_role(s.0) || s.0 == Role::Answer
}

impl Segment {
    #[must_use]
    pub fn is_tool_call(&self) -> (b: bool)
        ensures
            b == is_tool_role(self.role),
    {
        self.role.is_tool_agent()
    }

    #[must_use]
    pub fn is_terminal(&self) -> (b: bool)
        ensures
            b == (self.role == Role::Answer),
    {
        matches!(self.role, Role::Answer)
    }
}

/// The views of a vector of segments.
pub open spec fn seg_views(v: Seq<Segment>) -> Seq<(Role, Seq<char>)> {
    v.map_values(|s: Segment| s@)
}

// ---------------------------------------------------------------------------
// The opening-tag pattern
// ---------------------------------------------------------------------------
/// The pattern that finds an opening tag: `<`, a tag name in any letter case,
/// optional whitespace, `>`.
pub const OPEN_TAG_PATTERN: &'static str =
    r"(?i)<(?P<name>plan|think|reflection|suggested_answer|double_check|answer|observation|web_search|grammar_check|update_profile|save_correction)\s*>";

/// The pattern that finds the score line of a double check.
pub const SCORE_PATTERN: &'static str = r"(?i)score\s*(?:this time\s*)?is\s*[:：]?\s*(\d+)";

/// The alternatives of the opening-tag pattern, in the order it lists them.
pub open spec fn alternative(k: int) -> Role {
    if k == 0 {
        Role::Plan
    } else if k == 1 {
        Role::Think
    } else if k == 2 {
        Role::Reflection
    } else if k == 3 {
        Role::SuggestedAnswer
    } else if k == 4 {
        Role::DoubleCheck
    } else if k == 5 {
        Role::Answer
    } else if k == 6 {
        Role::Observation
    } else if k == 7 {
        Role::WebSearch
    } else if k == 8 {
        Role::GrammarCheck
    } else if k == 9 {
        Role::UpdateProfile
    } else {
        Role::SaveCorrection
    }
}

/// Case-insensitive match of `c` against the lower-case letter or `_` `lower`,
/// under Unicode simple case folding (the Kelvin sign folds to `k`, the long s to `s`).
pub open spec fn fold_eq(c: char, lower: char) -> bool {
    ||| c == lower
    ||| ('a' <= lower && lower <= 'z' && c == ((lower as u32) - 32) as char)
    ||| (lower == 'k' && c == '\u{212a}')
    ||| (lower == 's' && c == '\u{17f}')
}

/// Whether `name` matches `s` case-insensitively at index `i`.
pub open spec fn name_at(s: Seq<char>, i: int, name: Seq<char>) -> bool {
    0 <= i && i + name.len() <= s.len() && forall|k: int|
        0 <= k < name.len() ==> #[trigger] fold_eq(s[i + k], name[k])
}

/// The end of the run of whitespace that starts at `j`.
pub open spec fn ws_end(s: Seq<char>, j: int) -> int
    decreases s.len() - j,
{
    if 0 <= j < s.len() && is_ws(s[j]) {
        ws_end(s, j + 1)
    } else {
        j
    }
}

/// Where `\s*>` ends when matched from `j`.
pub open spec fn tag_close(s: Seq<char>, j: int) -> Option<int> {
    let e = ws_end(s, j);
    if 0 <= e < s.len() && s[e] == '>' {
        Some(e + 1)
    } else {
        None
    }
}

/// The first alternative, from the `k`-th on, that completes a match of the
/// opening-tag pattern whose `<` is at `i`: the end of the name and of the match.
pub open spec fn alt_from(s: Seq<char>, i: int, k: int) -> Option<(int, int)>
    decreases 11 - k,
{
    if k < 0 || k >= 11 {
        None
    } else {
        let name = role_tag(alternative(k));
        if name_at(s, i + 1, name) {
            match tag_close(s, i + 1 + name.len()) {
                Some(e) => Some((i + 1 + name.len(), e)),
                None => alt_from(s, i, k + 1),
            }
        } else {
            alt_from(s, i, k + 1)
        }
    }
}

/// The match of the opening-tag pattern that starts at `i`, if any.
pub open spec fn open_tag_at(s: Seq<char>, i: int) -> Option<(int, int)> {
    if 0 <= i < s.len() && s[i] == '<' {
        alt_from(s, i, 0)
    } else {
        None
    }
}

/// The leftmost match of the opening-tag pattern starting at or after `from`:
/// its start, the end of the tag name and its end.
pub open spec fn first_open(s: Seq<char>, from: int) -> Option<(int, int, int)>
    decreases s.len() - from,
{
    if from < 0 || from >= s.len() {
        None
    } else {
        match open_tag_at(s, from) {
            Some((ne, e)) => Some((from, ne, e)),
            None => first_open(s, from + 1),
        }
    }
}

/// The run of whitespace from `j` ends within the text, at a non-whitespace character or the end.
pub proof fn lemma_ws_end(s: Seq<char>, j: int)
    requires
        0 <= j <= s.len(),
    ensures
        j <= ws_end(s, j) <= s.len(),
        forall|i: int| j <= i < ws_end(s, j) ==> is_ws(#[trigger] s[i]),
        ws_end(s, j) == s.len() || !is_ws(s[ws_end(s, j)]),
    decreases s.len() - j,
{
    if j < s.len() && is_ws(s[j]) {
        lemma_ws_end(s, j + 1);
    }
}

/// A match of an alternative ends after its name, within the text.
pub proof fn lemma_alt_from_bounds(s: Seq<char>, i: int, k: int)
    requires
        0 <= i < s.len(),
    ensures
        alt_from(s, i, k) matches Some((ne, e)) ==> i + 1 < ne < e <= s.len(),
    decreases 11 - k,
{
    if 0 <= k < 11 {
        let name = role_tag(alternative(k));
        lemma_role_tag_nonempty(alternative(k));
        if name_at(s, i + 1, name) {
            lemma_ws_end(s, i + 1 + name.len());
        }
        lemma_alt_from_bounds(s, i, k + 1);
    }
}

/// The leftmost opening tag lies within the text, at or after the start of the search.
pub proof fn lemma_first_open_bounds(s: Seq<char>, from: int)
    requires
        0 <= from,
    ensures
        first_open(s, from) matches Some((st, ne, e)) ==> {
            &&& from <= st < ne < e <= s.len()
            &&& open_tag_at(s, st) == Some((ne, e))
            &&& s[st] == '<'
        },
    decreases s.len() - from,
{
    if from < s.len() {
        lemma_alt_from_bounds(s, from, 0);
        if open_tag_at(s, from) is None {
            lemma_first_open_bounds(s, from + 1);
        }
    }
}

/// The leftmost match of the opening-tag pattern in `text` that starts at or
/// after character `from`: its start, the end of its tag name and its end, all
/// in characters (`regex::Regex::captures_at`).
#[verifier::external_body]
fn find_open_tag(text: &str, from: usize) -> (r: Option<(usize, usize, usize)>)
    ensures
        r matches Some(t) ==> first_open(text@, from as int) == Some(
            (t.0 as int, t.1 as int, t.2 as int),
        ),
        r is None ==> first_open(text@, from as int) is None,
{
    let re = regex::Regex::new(OPEN_TAG_PATTERN).ok()?;
    let at = text.char_indices().nth(from).map_or(text.len(), |(b, _)| b);
    let caps = re.captures_at(text, at)?;
    let (whole, name) = (caps.get(0)?, caps.name("name")?);
    Some((
        text[..whole.start()].chars().count(),
        text[..name.end()].chars().count(),
        text[..whole.end()].chars().count(),
    ))
}

// ---------------------------------------------------------------------------
// Segments
// ---------------------------------------------------------------------------
/// Where the body of a segment whose opening tag ends at `e` stops, and where
/// parsing resumes: at its closing tag when that comes no later than the next
/// opening tag, else at the next opening tag, else at the end of the text.
pub open spec fn body_bounds(s: Seq<char>, role: Role, e: int) -> (int, int) {
    let close = closing_tag_seq(role);
    let ci = find_from(s, e, close);
    let no = first_open(s, e);
    match ci {
        Some(c) => match no {
            Some(n) => if c <= n.0 {
                (c, c + close.len())
            } else {
                (n.0, n.0)
            },
            None => (c, c + close.len()),
        },
        None => match no {
            Some(n) => (n.0, n.0),
            None => (s.len() as int, s.len() as int),
        },
    }
}

/// A segment body ends no earlier than it starts, and parsing resumes within the text.
pub proof fn lemma_body_bounds(s: Seq<char>, role: Role, e: int)
    requires
        0 <= e <= s.len(),
    ensures
        e <= body_bounds(s, role, e).0 <= body_bounds(s, role, e).1 <= s.len(),
{
    lemma_find_from_bounds(s, e, closing_tag_seq(role));
    lemma_first_open_bounds(s, e);
}

/// The segments of `s` that the parser finds from index `pos` on.
pub open spec fn parse_from(s: Seq<char>, pos: int) -> Seq<(Role, Seq<char>)>
    decreases s.len() - pos,
{
    if pos < 0 || pos > s.len() {
        seq![]
    } else {
        match first_open(s, pos) {
            None => seq![],
            Some((st, ne, e)) => {
                proof {
                    lemma_first_open_bounds(s, pos);
                }
                match role_of_tag(s.subrange(st + 1, ne).map_values(|c: char| ascii_lower(c))) {
                    None => parse_from(s, e),
                    Some(role) => {
                        proof {
                            lemma_body_bounds(s, role, e);
                        }
                        let (ce, next) = body_bounds(s, role, e);
                        seq![(role, trim_seq(s.subrange(e, ce)))] + parse_from(s, next)
                    },
                }
            },
        }
    }
}

/// The segments of `s`, in order.
pub open spec fn parse_seq(s: Seq<char>) -> Seq<(Role, Seq<char>)> {
    parse_from(s, 0)
}

/// ASCII lower-casing of `v[lo..hi]`.
fn lower_range(v: &Vec<char>, lo: usize, hi: usize) -> (r: Vec<char>)
    requires
        lo <= hi <= v@.len(),
    ensures
        r@ == v@.subrange(lo as int, hi as int).map_values(|c: char| ascii_lower(c)),
{
    let mut r: Vec<char> = Vec::new();
    let mut i = lo;
    while i < hi
        invariant
            lo <= i <= hi <= v@.len(),
            r@ == v@.subrange(lo as int, i as int).map_values(|c: char| ascii_lower(c)),
        decreases hi - i,
    {
        r.push(to_ascii_lower(v[i]));
        assert(v@.subrange(lo as int, i + 1).map_values(|c: char| ascii_lower(c)) =~= v@.subrange(
            lo as int,
            i as int,
        ).map_values(|c: char| ascii_lower(c)).push(ascii_lower(v@[i as int])));
        i = i + 1;
    }
    r
}

/// Splits a reasoning stream into its tagged segments, in order.
#[must_use]
pub fn parse_segments(text: &str) -> (r: Vec<Segment>)
    ensures
        seg_views(r@) == parse_seq(text@),
{
    let tv = chars_of(text);
    let mut segments: Vec<Segment> = Vec::new();
    let mut pos: usize = 0;
    loop
        invariant
            tv@ == text@,
            pos <= tv@.len(),
            seg_views(segments@) + parse_from(text@, pos as int) == parse_seq(text@),
        decreases tv@.len() - pos,
    {
        let ghost s = text@;
        let found = find_open_tag(text, pos);
        match found {
            None => {
                assert(parse_from(s, pos as int) =~= seq![]);
                assert(seg_views(segments@) + seq![] =~= seg_views(segments@));
                return segments;
            },
            Some((st, ne, e)) => {
                proof {
                    lemma_first_open_bounds(s, pos as int);
                }
                let lower = lower_range(&tv, st + 1, ne);
                match role_from_chars(&lower) {
                    None => {
                        pos = e;
                    },
                    Some(role) => {
                        let closing = chars_of(role.closing_tag().as_str());
                        let close_idx = find_chars(&tv, e, &closing);
                        let next_open = find_open_tag(text, e);
                        proof {
                            lemma_body_bounds(s, role, e as int);
                            lemma_find_from_bounds(s, e as int, closing_tag_seq(role));
                            lemma_first_open_bounds(s, e as int);
                            if let Some(ci) = close_idx {
                                assert(occurs_at(s, ci as int, closing_tag_seq(role)));
                                assert(ci + closing@.len() <= tv@.len());
                            }
                        }
                        let (content_end, raw_end) = match close_idx {
                            Some(ci) => match next_open {
                                Some(n) => if ci <= n.0 {
                                    (ci, ci + closing.len())
                                } else {
                                    (n.0, n.0)
                                },
                                None => (ci, ci + closing.len()),
                            },
                            None => match next_open {
                                Some(n) => (n.0, n.0),
                                None => (tv.len(), tv.len()),
                            },
                        };
                        assert((content_end as int, raw_end as int) == body_bounds(s, role, e as int));
                        let (a, b) = trim_range(&tv, e, content_end);
                        let content = string_from(&tv, a, b);
                        let ghost old_views = seg_views(segments@);
                        segments.push(Segment { role, content });
                        assert(seg_views(segments@) =~= old_views.push((role, trim_seq(s.subrange(e as int, content_end as int)))));
                        assert(parse_from(s, pos as int) =~= seq![(role, trim_seq(s.subrange(e as int, content_end as int)))] + parse_from(s, raw_end as int));
                        assert(seg_views(segments@) + parse_from(s, raw_end as int) =~= old_views + parse_from(s, pos as int));
                        pos = raw_end;
                    },
                }
            },
        }
    }
}

/// The first segment of `xs` that asks for a tool or ends the turn.
pub open spec fn first_actionable(xs: Seq<(Role, Seq<char>)>) -> Option<(Role, Seq<char>)>
    decreases xs.len(),
{
    if xs.len() == 0 {
        None
    } else if is_actionable(xs[0]) {
        Some(xs[0])
    } else {
        first_actionable(xs.drop_first())
    }
}

/// The first segment of the stream that calls a tool or gives the answer.
#[must_use]
pub fn first_actionable_segment(text: &str) -> (r: Option<Segment>)
    ensures
        match r {
            Some(s) => first_actionable(parse_seq(text@)) == Some(s@),
            None => first_actionable(parse_seq(text@)) is None,
        },
{
    let mut segs = parse_segments(text);
    let ghost xs = seg_views(segs@);
    let mut i: usize = 0;
    assert(xs.skip(0) =~= xs);
    while i < segs.len()
        invariant
            segs@.len() == xs.len(),
            xs == seg_views(segs@),
            xs == parse_seq(text@),
            i <= segs@.len(),
            first_actionable(xs) == first_actionable(xs.skip(i as int)),
        decreases segs@.len() - i,
    {
        let ghost rest = xs.skip(i as int);
        assert(rest[0] == segs@[i as int]@);
        assert(rest.drop_first() =~= xs.skip(i + 1));
        if segs[i].is_tool_call() || segs[i].is_terminal() {
            let s = segs.remove(i);
            return Some(s);
        }
        i = i + 1;
    }
    assert(xs.skip(i as int) =~= Seq::<(Role, Seq<char>)>::empty());
    None
}

/// A Unicode decimal digit (general category Nd), as `\d` matches it.
pub open spec fn is_decimal(c: char) -> bool {
    ||| ('\u{30}' <= c && c <= '\u{39}')
    ||| ('\u{660}' <= c && c <= '\u{669}')
    ||| ('\u{6f0}' <= c && c <= '\u{6f9}')
    ||| ('\u{7c0}' <= c && c <= '\u{7c9}')
    ||| ('\u{966}' <= c && c <= '\u{96f}')
    ||| ('\u{9e6}' <= c && c <= '\u{9ef}')
    ||| ('\u{a66}' <= c && c <= '\u{a6f}')
    ||| ('\u{ae6}' <= c && c <= '\u{aef}')
    ||| ('\u{b66}' <= c && c <= '\u{b6f}')
    ||| ('\u{be6}' <= c && c <= '\u{bef}')
    ||| ('\u{c66}' <= c && c <= '\u{c6f}')
    ||| ('\u{ce6}' <= c && c <= '\u{cef}')
    ||| ('\u{d66}' <= c && c <= '\u{d6f}')
    ||| ('\u{de6}' <= c && c <= '\u{def}')
    ||| ('\u{e50}' <= c && c <= '\u{e59}')
    ||| ('\u{ed0}' <= c && c <= '\u{ed9}')
    ||| ('\u{f20}' <= c && c <= '\u{f29}')
    ||| ('\u{1040}' <= c && c <= '\u{1049}')
    ||| ('\u{1090}' <= c && c <= '\u{1099}')
    ||| ('\u{17e0}' <= c && c <= '\u{17e9}')
    ||| ('\u{1810}' <= c && c <= '\u{1819}')
    ||| ('\u{1946}' <= c && c <= '\u{194f}')
    ||| ('\u{19d0}' <= c && c <= '\u{19d9}')
    ||| ('\u{1a80}' <= c && c <= '\u{1a89}')
    ||| ('\u{1a90}' <= c && c <= '\u{1a99}')
    ||| ('\u{1b50}' <= c && c <= '\u{1b59}')
    ||| ('\u{1bb0}' <= c && c <= '\u{1bb9}')
    ||| ('\u{1c40}' <= c && c <= '\u{1c49}')
    ||| ('\u{1c50}' <= c && c <= '\u{1c59}')
    ||| ('\u{a620}' <= c && c <= '\u{a629}')
    ||| ('\u{a8d0}' <= c && c <= '\u{a8d9}')
    ||| ('\u{a900}' <= c && c <= '\u{a909}')
    ||| ('\u{a9d0}' <= c && c <= '\u{a9d9}')
    ||| ('\u{a9f0}' <= c && c <= '\u{a9f9}')
    ||| ('\u{aa50}' <= c && c <= '\u{aa59}')
    ||| ('\u{abf0}' <= c && c <= '\u{abf9}')
    ||| ('\u{ff10}' <= c && c <= '\u{ff19}')
    ||| ('\u{104a0}' <= c && c <= '\u{104a9}')
    ||| ('\u{10d30}' <= c && c <= '\u{10d39}')
    ||| ('\u{10d40}' <= c && c <= '\u{10d49}')
    ||| ('\u{11066}' <= c && c <= '\u{1106f}')
    ||| ('\u{110f0}' <= c && c <= '\u{110f9}')
    ||| ('\u{11136}' <= c && c <= '\u{1113f}')
    ||| ('\u{111d0}' <= c && c <= '\u{111d9}')
    ||| ('\u{112f0}' <= c && c <= '\u{112f9}')
    ||| ('\u{11450}' <= c && c <= '\u{11459}')
    ||| ('\u{114d0}' <= c && c <= '\u{114d9}')
    ||| ('\u{11650}' <= c && c <= '\u{11659}')
    ||| ('\u{116c0}' <= c && c <= '\u{116c9}')
    ||| ('\u{116d0}' <= c && c <= '\u{116e3}')
    ||| ('\u{11730}' <= c && c <= '\u{11739}')
    ||| ('\u{118e0}' <= c && c <= '\u{118e9}')
    ||| ('\u{11950}' <= c && c <= '\u{11959}')
    ||| ('\u{11bf0}' <= c && c <= '\u{11bf9}')
    ||| ('\u{11c50}' <= c && c <= '\u{11c59}')
    ||| ('\u{11d50}' <= c && c <= '\u{11d59}')
    ||| ('\u{11da0}' <= c && c <= '\u{11da9}')
    ||| ('\u{11f50}' <= c && c <= '\u{11f59}')
    ||| ('\u{16130}' <= c && c <= '\u{16139}')
    ||| ('\u{16a60}' <= c && c <= '\u{16a69}')
    ||| ('\u{16ac0}' <= c && c <= '\u{16ac9}')
    ||| ('\u{16b50}' <= c && c <= '\u{16b59}')
    ||| ('\u{16d70}' <= c && c <= '\u{16d79}')
    ||| ('\u{1ccf0}' <= c && c <= '\u{1ccf9}')
    ||| ('\u{1d7ce}' <= c && c <= '\u{1d7ff}')
    ||| ('\u{1e140}' <= c && c <= '\u{1e149}')
    ||| ('\u{1e2f0}' <= c && c <= '\u{1e2f9}')
    ||| ('\u{1e4f0}' <= c && c <= '\u{1e4f9}')
    ||| ('\u{1e5f1}' <= c && c <= '\u{1e5fa}')
    ||| ('\u{1e950}' <= c && c <= '\u{1e959}')
    ||| ('\u{1fbf0}' <= c && c <= '\u{1fbf9}')
}

/// The end of the run of decimal digits that starts at `j`.
pub open spec fn decimal_end(s: Seq<char>, j: int) -> int
    decreases s.len() - j,
{
    if 0 <= j < s.len() && is_decimal(s[j]) {
        decimal_end(s, j + 1)
    } else {
        j
    }
}

/// Where `is` ends in a score phrase whose `score` ends at `j`: after optional
/// whitespace, either `this time`, optional whitespace and `is`, or `is`
/// (letters in any case).
pub open spec fn score_is_end(s: Seq<char>, j: int) -> Option<int> {
    let a = ws_end(s, j);
    let b = ws_end(s, a + 9);
    if name_at(s, a, "this time"@) && name_at(s, b, "is"@) {
        Some(b + 2)
    } else if name_at(s, a, "is"@) {
        Some(a + 2)
    } else {
        None
    }
}

/// Where the digits start of a match of the score pattern that starts at `i`:
/// `score`, then `is` as `score_is_end` reads it, optional whitespace, an
/// optional `:` or `：`, optional whitespace, and at least one decimal digit.
pub open spec fn score_digits_at(s: Seq<char>, i: int) -> Option<int> {
    if name_at(s, i, "score"@) {
        match score_is_end(s, i + 5) {
            Some(p) => {
                let q1 = ws_end(s, p);
                let q2 = if 0 <= q1 < s.len() && (s[q1] == ':' || s[q1] == '\u{ff1a}') {
                    ws_end(s, q1 + 1)
                } else {
                    q1
                };
                if 0 <= q2 < s.len() && is_decimal(s[q2]) {
                    Some(q2)
                } else {
                    None
                }
            },
            None => None,
        }
    } else {
        None
    }
}

/// Where the digits start of the leftmost match of the score pattern that
/// starts at or after `from`.
pub open spec fn first_score(s: Seq<char>, from: int) -> Option<int>
    decreases s.len() - from,
{
    if from < 0 || from >= s.len() {
        None
    } else {
        match score_digits_at(s, from) {
            Some(q) => Some(q),
            None => first_score(s, from + 1),
        }
    }
}

/// The digits that the score pattern captures in `text`: the whole run of
/// decimal digits of its leftmost match.
pub open spec fn score_capture(text: Seq<char>) -> Option<Seq<char>> {
    match first_score(text, 0) {
        Some(q) => Some(text.subrange(q, decimal_end(text, q))),
        None => None,
    }
}

pub proof fn lemma_decimal_end(s: Seq<char>, j: int)
    requires
        0 <= j <= s.len(),
    ensures
        j <= decimal_end(s, j) <= s.len(),
        forall|i: int| j <= i < decimal_end(s, j) ==> is_decimal(#[trigger] s[i]),
    decreases s.len() - j,
{
    if j < s.len() && is_decimal(s[j]) {
        lemma_decimal_end(s, j + 1);
    }
}

/// A captured score is one or more decimal digits.
pub proof fn lemma_score_capture(text: Seq<char>)
    ensures
        score_capture(text) matches Some(d) ==> d.len() > 0 && forall|i: int|
            0 <= i < d.len() ==> is_decimal(#[trigger] d[i]),
{
    lemma_first_score_bounds(text, 0);
    if let Some(q) = first_score(text, 0) {
        lemma_decimal_end(text, q);
        assert(decimal_end(text, q) > q) by {
            assert(decimal_end(text, q) == decimal_end(text, q + 1));
            lemma_decimal_end(text, q + 1);
        }
        let d = text.subrange(q, decimal_end(text, q));
        assert forall|i: int| 0 <= i < d.len() implies is_decimal(#[trigger] d[i]) by {
            assert(d[i] == text[q + i]);
        }
    }
}

proof fn lemma_first_score_bounds(s: Seq<char>, from: int)
    ensures
        first_score(s, from) matches Some(q) ==> 0 <= q < s.len() && is_decimal(s[q]),
    decreases s.len() - from,
{
    if 0 <= from < s.len() && score_digits_at(s, from) is None {
        lemma_first_score_bounds(s, from + 1);
    }
}

/// The digits of the leftmost match of the score pattern in `text`
/// (`regex::Regex::captures`, group 1): `score_capture` states which.
#[verifier::external_body]
fn score_digits(text: &str) -> (r: Option<String>)
    ensures
        match r {
            Some(d) => score_capture(text@) == Some(d@),
            None => score_capture(text@) is None,
        },
{
    let re = regex::Regex::new(SCORE_PATTERN).ok()?;
    let caps = re.captures(text)?;
    Some(caps.get(1)?.as_str().to_string())
}

/// The score that the digits of a double check give: their value as an `i32`.
pub open spec fn score_from_digits(d: Seq<char>) -> Option<int> {
    match parse_int_seq(d, true, i32::MIN as int, i32::MAX as int) {
        Ok(x) => Some(x),
        Err(_) => None,
    }
}

/// The score that the captured digits of a double check give.
pub fn score_of_digits(digits: &str) -> (r: Option<i32>)
    ensures
        match r {
            Some(x) => score_from_digits(digits@) == Some(x as int),
            None => score_from_digits(digits@) is None,
        },
{
    match parse_i32(digits) {
        Ok(x) => Some(x),
        Err(_) => None,
    }
}

/// The score a double check reports in a line "The score this time is:N".
#[must_use]
pub fn parse_double_check_score(text: &str) -> (r: Option<i32>)
    ensures
        match score_capture(text@) {
            Some(d) => match r {
                Some(x) => score_from_digits(d) == Some(x as int),
                None => score_from_digits(d) is None,
            },
            None => r is None,
        },
        r matches Some(x) ==> x >= 0,
{
    match score_digits(text) {
        Some(d) => {
            proof {
                lemma_score_capture(text@);
                assert(is_decimal(d@[0]));
                crate::numbers::lemma_scan_up_nonneg(d@, 0, i32::MIN as int, i32::MAX as int);
            }
            score_of_digits(d.as_str())
        },
        None => None,
    }
}

/// The closing tags of the tool agents, at which generation stops.
pub open spec fn tool_stops() -> Seq<Seq<char>> {
    seq![
        closing_tag_seq(Role::WebSearch),
        closing_tag_seq(Role::GrammarCheck),
        closing_tag_seq(Role::UpdateProfile),
        closing_tag_seq(Role::SaveCorrection),
    ]
}

/// The character sequences of strings.
pub open spec fn string_views(v: Seq<String>) -> Seq<Seq<char>> {
    v.map_values(|s: String| s@)
}

/// The closing tags of the tool agents, in order.
#[must_use]
pub fn tool_stop_sequences() -> (r: Vec<String>)
    ensures
        string_views(r@) == tool_stops(),
{
    let mut r: Vec<String> = Vec::new();
    r.push(Role::WebSearch.closing_tag());
    r.push(Role::GrammarCheck.closing_tag());
    r.push(Role::UpdateProfile.closing_tag());
    r.push(Role::SaveCorrection.closing_tag());
    assert(string_views(r@) =~= tool_stops());
    r
}

/// The index of the last segment of `xs` with the given role.
pub open spec fn last_index_of(xs: Seq<(Role, Seq<char>)>, role: Role) -> Option<int>
    decreases xs.len(),
{
    if xs.len() == 0 {
        None
    } else if xs.last().0 == role {
        Some(xs.len() - 1)
    } else {
        last_index_of(xs.drop_last(), role)
    }
}

/// The last index of a role holds that role, and no later segment does.
pub proof fn lemma_last_index_of(xs: Seq<(Role, Seq<char>)>, role: Role)
    ensures
        last_index_of(xs, role) matches Some(i) ==> 0 <= i < xs.len() && xs[i].0 == role && (
        forall|j: int| i < j < xs.len() ==> xs[j].0 != role),
        last_index_of(xs, role) is None ==> forall|j: int| 0 <= j < xs.len() ==> xs[j].0 != role,
    decreases xs.len(),
{
    if xs.len() > 0 && xs.last().0 != role {
        let t = xs.drop_last();
        lemma_last_index_of(t, role);
        assert forall|j: int| 0 <= j < t.len() implies t[j] == xs[j] by {}
    }
}

/// The number of segments of `xs` that are not observations.
pub open spec fn hop_count(xs: Seq<(Role, Seq<char>)>) -> nat
    decreases xs.len(),
{
    if xs.len() == 0 {
        0
    } else {
        hop_count(xs.drop_last()) + if xs.last().0 != Role::Observation {
            1nat
        } else {
            0nat
        }
    }
}

/// The index of the last segment of `v` with the given role.
pub fn last_index(v: &Vec<Segment>, role: Role) -> (r: Option<usize>)
    ensures
        match r {
            Some(i) => last_index_of(seg_views(v@), role) == Some(i as int),
            None => last_index_of(seg_views(v@), role) is None,
        },
        r matches Some(i) ==> i < v@.len(),
{
    let ghost xs = seg_views(v@);
    let mut n = v.len();
    assert(xs.take(n as int) =~= xs);
    while n > 0
        invariant
            n <= v@.len(),
            xs == seg_views(v@),
            last_index_of(xs, role) == last_index_of(xs.take(n as int), role),
        decreases n,
    {
        let ghost t = xs.take(n as int);
        assert(t.last() == v@[n - 1]@);
        assert(t.drop_last() =~= xs.take(n - 1));
        if v[n - 1].role == role {
            return Some(n - 1);
        }
        n = n - 1;
    }
    None
}

/// The segments of one turn, in order.
#[derive(Debug, Clone)]
pub struct Trajectory {
    pub segments: Vec<Segment>,
}

impl Default for Trajectory {
    fn default() -> (t: Self)
        ensures
            t.segments@.len() == 0,
    {
        Trajectory { segments: Vec::new() }
    }
}

impl Trajectory {
    #[must_use]
    pub fn new() -> (t: Self)
        ensures
            t.segments@.len() == 0,
    {
        Trajectory { segments: Vec::new() }
    }

    /// The content of the last answer segment.
    #[must_use]
    pub fn answer(&self) -> (r: Option<&str>)
        ensures
            match last_index_of(seg_views(self.segments@), Role::Answer) {
                Some(i) => r matches Some(a) && a@ == self.segments@[i].content@,
                None => r is None,
            },
    {
        match last_index(&self.segments, Role::Answer) {
            Some(i) => Some(self.segments[i].content.as_str()),
            None => None,
        }
    }

    /// The number of segments that are not observations.
    #[must_use]
    pub fn n_hops(&self) -> (n: usize)
        ensures
            n == hop_count(seg_views(self.segments@)),
    {
        let ghost xs = seg_views(self.segments@);
        let mut n: usize = 0;
        let mut i: usize = 0;
        while i < self.segments.len()
            invariant
                i <= self.segments@.len(),
                xs == seg_views(self.segments@),
                n == hop_count(xs.take(i as int)),
                n <= i,
            decreases self.segments@.len() - i,
        {
            assert(xs.take(i + 1).drop_last() =~= xs.take(i as int));
            assert(xs.take(i + 1).last() == self.segments@[i as int]@);
            if self.segments[i].role != Role::Observation {
                n = n + 1;
            }
            i = i + 1;
        }
        assert(xs.take(i as int) =~= xs);
        n
    }

    /// The last segment with the given role.
    #[must_use]
    pub fn last_of(&self, role: Role) -> (r: Option<&Segment>)
        ensures
            match last_index_of(seg_views(self.segments@), role) {
                Some(i) => r == Some(&self.segments@[i]),
                None => r is None,
            },
    {
        match last_index(&self.segments, role) {
            Some(i) => Some(&self.segments[i]),
            None => None,
        }
    }
}

} // verus!
