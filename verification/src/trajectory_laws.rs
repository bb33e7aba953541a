//! Laws of the trajectory parser: tag names round-trip, and a rendered
//! stream of segments parses back into the same segments.
use vstd::prelude::*;

use crate::text::{ascii_lower, find_from, is_ws, lemma_trim_idempotent, occurs_at, trim_seq, trim_start_seq};
use crate::trajectory::{
    alt_from, alternative, body_bounds, lemma_body_bounds, closing_tag_seq, first_open, fold_eq, lemma_first_open_bounds,
    lemma_role_tag_nonempty, name_at, open_tag_at, parse_from, parse_seq, reveal_tags, role_of_tag,
    role_tag, tag_close, ws_end, Role,
};

verus! {

/// Every role's tag name reads back as that role.
pub proof fn law_tag_round_trip(r: Role)
    ensures
        role_of_tag(role_tag(r)) == Some(r),
{
    reveal_tags();
    match r {
        Role::Plan => {},
        Role::Think => {},
        Role::Reflection => {},
        Role::SuggestedAnswer => {},
        Role::DoubleCheck => {},
        Role::Answer => {},
        Role::Observation => {},
        Role::WebSearch => {},
        Role::GrammarCheck => {},
        Role::UpdateProfile => {},
        Role::SaveCorrection => {},
    }
}

/// A name reads as a role only when it is that role's tag name; so distinct
/// roles have distinct tag names.
pub proof fn law_tag_of_name(s: Seq<char>, r: Role)
    requires
        role_of_tag(s) == Some(r),
    ensures
        s == role_tag(r),
{
}

/// The position of a role among the alternatives of the opening-tag pattern.
pub open spec fn role_index(r: Role) -> int {
    match r {
        Role::Plan => 0,
        Role::Think => 1,
        Role::Reflection => 2,
        Role::SuggestedAnswer => 3,
        Role::DoubleCheck => 4,
        Role::Answer => 5,
        Role::Observation => 6,
        Role::WebSearch => 7,
        Role::GrammarCheck => 8,
        Role::UpdateProfile => 9,
        Role::SaveCorrection => 10,
    }
}

proof fn lemma_role_index(r: Role)
    ensures
        0 <= role_index(r) < 11,
        alternative(role_index(r)) == r,
{
}

/// Tag names are made of lower-case ASCII letters and `_`, at least two of them.
proof fn lemma_tag_chars(r: Role)
    ensures
        role_tag(r).len() >= 2,
        forall|j: int|
            0 <= j < role_tag(r).len() ==> ('a' <= #[trigger] role_tag(r)[j] && role_tag(r)[j]
                <= 'z') || role_tag(r)[j] == '_',
{
    reveal_tags();
    match r {
        Role::Plan => {},
        Role::Think => {},
        Role::Reflection => {},
        Role::SuggestedAnswer => {},
        Role::DoubleCheck => {},
        Role::Answer => {},
        Role::Observation => {},
        Role::WebSearch => {},
        Role::GrammarCheck => {},
        Role::UpdateProfile => {},
        Role::SaveCorrection => {},
    }
}

/// Two different tag names differ in their first or second character.
proof fn lemma_tags_differ_early(a: Role, b: Role)
    requires
        a != b,
    ensures
        role_tag(a)[0] != role_tag(b)[0] || role_tag(a)[1] != role_tag(b)[1],
{
    reveal_tags();
    match a {
        Role::Plan => {},
        Role::Think => {},
        Role::Reflection => {},
        Role::SuggestedAnswer => {},
        Role::DoubleCheck => {},
        Role::Answer => {},
        Role::Observation => {},
        Role::WebSearch => {},
        Role::GrammarCheck => {},
        Role::UpdateProfile => {},
        Role::SaveCorrection => {},
    }
}

/// A lower-case letter or `_` folds only onto itself among those characters.
proof fn lemma_fold_lower(c: char, l: char)
    requires
        ('a' <= c && c <= 'z') || c == '_',
        ('a' <= l && l <= 'z') || l == '_',
    ensures
        fold_eq(c, l) == (c == l),
{
}

/// The alternatives before a role's own do not match where its tag name stands.
proof fn lemma_alt_skips(s: Seq<char>, i: int, r: Role, k: int)
    requires
        0 <= i,
        i + 1 + role_tag(r).len() <= s.len(),
        s.subrange(i + 1, i + 1 + role_tag(r).len()) == role_tag(r),
        0 <= k <= role_index(r),
    ensures
        alt_from(s, i, k) == alt_from(s, i, role_index(r)),
    decreases role_index(r) - k,
{
    lemma_role_index(r);
    if k < role_index(r) {
        let a = alternative(k);
        assert(a != r) by {
            if a == r {
                assert(role_index(a) == k);
            }
        }
        let ta = role_tag(a);
        let tr = role_tag(r);
        lemma_tag_chars(a);
        lemma_tag_chars(r);
        lemma_tags_differ_early(a, r);
        assert(s[i + 1] == tr[0]);
        assert(s[i + 2] == tr[1]);
        lemma_fold_lower(tr[0], ta[0]);
        lemma_fold_lower(tr[1], ta[1]);
        if name_at(s, i + 1, ta) {
            assert(fold_eq(s[i + 1 + 0], ta[0]));
            assert(fold_eq(s[i + 1 + 1], ta[1]));
        }
        assert(!name_at(s, i + 1, ta));
        lemma_alt_skips(s, i, r, k + 1);
    }
}

proof fn lemma_first_open_skip(s: Seq<char>, from: int, to: int)
    requires
        0 <= from <= to,
        forall|j: int| from <= j < to ==> #[trigger] open_tag_at(s, j) is None,
    ensures
        first_open(s, from) == first_open(s, to),
    decreases to - from,
{
    if from < to {
        lemma_first_open_skip(s, from + 1, to);
        assert(open_tag_at(s, from) is None);
    }
}

proof fn lemma_find_skip(s: Seq<char>, from: int, to: int, p: Seq<char>)
    requires
        0 <= from <= to,
        forall|j: int| from <= j < to ==> !#[trigger] occurs_at(s, j, p),
        occurs_at(s, to, p),
    ensures
        find_from(s, from, p) == Some(to),
    decreases to - from,
{
    if from < to {
        lemma_find_skip(s, from + 1, to, p);
        assert(!occurs_at(s, from, p));
    }
}

/// A segment as a writer of the stream would put it: `<tag>content</tag>`.
pub open spec fn render_segment(x: (Role, Seq<char>)) -> Seq<char> {
    "<"@ + role_tag(x.0) + ">"@ + x.1 + closing_tag_seq(x.0)
}

/// Segments written one after the other.
pub open spec fn render_segments(xs: Seq<(Role, Seq<char>)>) -> Seq<char>
    decreases xs.len(),
{
    if xs.len() == 0 {
        seq![]
    } else {
        render_segment(xs[0]) + render_segments(xs.drop_first())
    }
}

/// Content that the parser hands back unchanged: no `<` in it, and no
/// whitespace at either end.
pub open spec fn plain_content(c: Seq<char>) -> bool {
    &&& trim_seq(c) == c
    &&& forall|i: int| 0 <= i < c.len() ==> c[i] != '<'
}

/// How a rendered segment lies in `s` from index `pos`.
#[verifier::opaque]
pub open spec fn laid_out(s: Seq<char>, pos: int, r: Role, c: Seq<char>) -> bool {
    let t = role_tag(r);
    let n = t.len() as int;
    let m = c.len() as int;
    let close = closing_tag_seq(r);
    &&& 0 <= pos
    &&& pos + 2 * n + m + 5 <= s.len()
    &&& s[pos] == '<'
    &&& forall|j: int| 0 <= j < n ==> s[pos + 1 + j] == #[trigger] t[j]
    &&& s[pos + 1 + n] == '>'
    &&& forall|j: int| 0 <= j < m ==> s[pos + 2 + n + j] == #[trigger] c[j]
    &&& forall|j: int| 0 <= j < n + 3 ==> s[pos + 2 + n + m + j] == #[trigger] close[j]
}

#[verifier::spinoff_prover]
proof fn lemma_layout(p: Seq<char>, x: (Role, Seq<char>), rest: Seq<char>)
    ensures
        laid_out(p + render_segment(x) + rest, p.len() as int, x.0, x.1),
        render_segment(x).len() == 2 * role_tag(x.0).len() + x.1.len() + 5,
{
    reveal_strlit("<");
    reveal_strlit(">");
    reveal_strlit("</");
    reveal(laid_out);
    let s = p + render_segment(x) + rest;
    let seg = render_segment(x);
    let pos = p.len() as int;
    let t = role_tag(x.0);
    let n = t.len() as int;
    let c = x.1;
    let m = c.len() as int;
    let close = closing_tag_seq(x.0);
    assert(close.len() == n + 3);
    assert forall|k: int| 0 <= k < seg.len() implies s[pos + k] == #[trigger] seg[k] by {}
    assert(seg[0] == '<');
    assert forall|j: int| 0 <= j < n implies s[pos + 1 + j] == #[trigger] t[j] by {
        assert(seg[1 + j] == t[j]);
        assert(s[pos + (1 + j)] == seg[1 + j]);
    }
    assert(seg[1 + n] == '>');
    assert(s[pos + (1 + n)] == seg[1 + n]);
    assert forall|j: int| 0 <= j < m implies s[pos + 2 + n + j] == #[trigger] c[j] by {
        assert(seg[2 + n + j] == c[j]);
        assert(s[pos + (2 + n + j)] == seg[2 + n + j]);
    }
    assert forall|j: int| 0 <= j < n + 3 implies s[pos + 2 + n + m + j] == #[trigger] close[j] by {
        assert(seg[2 + n + m + j] == close[j]);
        assert(s[pos + (2 + n + m + j)] == seg[2 + n + m + j]);
    }
    assert(s[pos + 0] == seg[0]);
}

#[verifier::spinoff_prover]
proof fn lemma_open_at(s: Seq<char>, pos: int, r: Role, c: Seq<char>)
    requires
        laid_out(s, pos, r, c),
    ensures
        first_open(s, pos) == Some((pos, pos + 1 + role_tag(r).len(), pos + 2 + role_tag(r).len())),
        role_of_tag(
            s.subrange(pos + 1, pos + 1 + role_tag(r).len()).map_values(|ch: char| ascii_lower(ch)),
        ) == Some(r),
{
    reveal(laid_out);
    let t = role_tag(r);
    let n = t.len() as int;
    let e = pos + 2 + n;
    lemma_tag_chars(r);
    lemma_role_index(r);
    assert(s.subrange(pos + 1, pos + 1 + n) =~= t) by {
        assert forall|j: int| 0 <= j < n implies s.subrange(pos + 1, pos + 1 + n)[j] == t[j] by {
            assert(s[pos + 1 + j] == t[j]);
        }
    }
    lemma_alt_skips(s, pos, r, 0);
    assert(name_at(s, pos + 1, t)) by {
        assert forall|k: int| 0 <= k < t.len() implies #[trigger] fold_eq(s[pos + 1 + k], t[k]) by {
            assert(s[pos + 1 + k] == t[k]);
        }
    }
    assert(!is_ws(s[pos + 1 + n]));
    assert(ws_end(s, pos + 1 + n) == pos + 1 + n);
    assert(tag_close(s, pos + 1 + n) == Some(e));
    assert(alt_from(s, pos, role_index(r)) == Some((pos + 1 + n, e)));
    assert(open_tag_at(s, pos) == Some((pos + 1 + n, e)));
    let lowered = s.subrange(pos + 1, pos + 1 + n).map_values(|ch: char| ascii_lower(ch));
    assert(lowered =~= t) by {
        assert forall|j: int| 0 <= j < n implies lowered[j] == t[j] by {
            assert(s.subrange(pos + 1, pos + 1 + n)[j] == t[j]);
        }
    }
    law_tag_round_trip(r);
}

#[verifier::spinoff_prover]
proof fn lemma_body_at(s: Seq<char>, pos: int, r: Role, c: Seq<char>)
    requires
        laid_out(s, pos, r, c),
        forall|i: int| 0 <= i < c.len() ==> c[i] != '<',
    ensures
        ({
            let n = role_tag(r).len() as int;
            let e = pos + 2 + n;
            let ci = e + c.len();
            &&& body_bounds(s, r, e) == (ci, ci + n + 3)
            &&& s.subrange(e, ci) == c
        }),
{
    reveal(laid_out);
    reveal_strlit("</");
    reveal_strlit(">");
    let t = role_tag(r);
    let n = t.len() as int;
    let m = c.len() as int;
    let close = closing_tag_seq(r);
    let e = pos + 2 + n;
    let ci = e + m;
    assert(close.len() == n + 3);
    assert(close[0] == '<');
    assert(close[1] == '/');
    assert(s[pos + 2 + n + m + 0] == close[0]);
    assert(s[pos + 2 + n + m + 1] == close[1]);
    assert forall|j: int| e <= j < ci implies !#[trigger] occurs_at(s, j, close) by {
        if occurs_at(s, j, close) {
            assert(s.subrange(j, j + close.len())[0] == close[0]);
            assert(s[pos + 2 + n + (j - e)] == c[j - e]);
        }
    }
    assert(occurs_at(s, ci, close)) by {
        assert(s.subrange(ci, ci + close.len()) =~= close) by {
            assert forall|j: int| 0 <= j < close.len() implies s.subrange(ci, ci + close.len())[j]
                == close[j] by {
                assert(s[pos + 2 + n + m + j] == close[j]);
            }
        }
    }
    lemma_find_skip(s, e, ci, close);
    assert forall|j: int| e <= j < ci + 1 implies #[trigger] open_tag_at(s, j) is None by {
        if j < ci {
            assert(s[pos + 2 + n + (j - e)] == c[j - e]);
        } else {
            lemma_alt_none_at_slash(s, j, 0);
        }
    }
    lemma_first_open_skip(s, e, ci + 1);
    lemma_first_open_bounds(s, ci + 1);
    assert(s.subrange(e, ci) =~= c) by {
        assert forall|j: int| 0 <= j < m implies s.subrange(e, ci)[j] == c[j] by {
            assert(s[pos + 2 + n + j] == c[j]);
        }
    }
}

proof fn lemma_parse_step(s: Seq<char>, pos: int, r: Role, ne: int, e: int, ce: int, next: int)
    requires
        0 <= pos <= s.len(),
        first_open(s, pos) == Some((pos, ne, e)),
        role_of_tag(s.subrange(pos + 1, ne).map_values(|ch: char| ascii_lower(ch))) == Some(r),
        body_bounds(s, r, e) == (ce, next),
    ensures
        parse_from(s, pos) == seq![(r, trim_seq(s.subrange(e, ce)))] + parse_from(s, next),
{
}

#[verifier::spinoff_prover]
proof fn lemma_parse_rendered(p: Seq<char>, xs: Seq<(Role, Seq<char>)>)
    requires
        forall|i: int| 0 <= i < xs.len() ==> plain_content(#[trigger] xs[i].1),
    ensures
        parse_from(p + render_segments(xs), p.len() as int) == xs,
    decreases xs.len(),
{
    let s = p + render_segments(xs);
    let pos = p.len() as int;
    if xs.len() == 0 {
        assert(s =~= p);
        assert(first_open(s, pos) is None);
    } else {
        let x = xs[0];
        let r = x.0;
        let c = x.1;
        let n = role_tag(r).len() as int;
        let seg = render_segment(x);
        let rest = render_segments(xs.drop_first());
        let p2 = p + seg;
        assert(s =~= p + seg + rest);
        assert(plain_content(xs[0].1));
        assert forall|i: int| 0 <= i < c.len() implies c[i] != '<' by {}
        lemma_layout(p, x, rest);
        lemma_open_at(s, pos, r, c);
        lemma_body_at(s, pos, r, c);
        let e = pos + 2 + n;
        let ci = e + c.len();
        assert(ci + n + 3 == p2.len());
        assert forall|i: int| 0 <= i < xs.drop_first().len() implies plain_content(
            #[trigger] xs.drop_first()[i].1,
        ) by {
            assert(xs.drop_first()[i] == xs[i + 1]);
        }
        lemma_parse_rendered(p2, xs.drop_first());
        assert(s =~= p2 + rest);
        lemma_parse_step(s, pos, r, pos + 1 + n, e, ci, p2.len() as int);
        assert(parse_from(s, pos) =~= xs);
    }
}

/// No alternative matches when the character after `<` is `/`.
proof fn lemma_alt_none_at_slash(s: Seq<char>, i: int, k: int)
    requires
        0 <= i,
        i + 1 < s.len(),
        s[i + 1] == '/',
        0 <= k,
    ensures
        alt_from(s, i, k) is None,
    decreases 11 - k,
{
    if k < 11 {
        let a = alternative(k);
        lemma_tag_chars(a);
        assert(!fold_eq('/', role_tag(a)[0]));
        if name_at(s, i + 1, role_tag(a)) {
            assert(fold_eq(s[i + 1 + 0], role_tag(a)[0]));
        }
        lemma_alt_none_at_slash(s, i, k + 1);
    }
}

/// Segments written as `<tag>content</tag>`, one after the other, parse back
/// into the same segments, in order, when no content holds a `<` or begins or
/// ends with whitespace.
pub proof fn law_parse_render_round_trip(xs: Seq<(Role, Seq<char>)>)
    requires
        forall|i: int| 0 <= i < xs.len() ==> plain_content(#[trigger] xs[i].1),
    ensures
        parse_seq(render_segments(xs)) == xs,
{
    lemma_parse_rendered(seq![], xs);
    assert(Seq::<char>::empty() + render_segments(xs) =~= render_segments(xs));
}

proof fn lemma_parse_from_trimmed(s: Seq<char>, pos: int)
    ensures
        forall|i: int|
            0 <= i < parse_from(s, pos).len() ==> trim_seq(#[trigger] parse_from(s, pos)[i].1)
                == parse_from(s, pos)[i].1,
    decreases s.len() - pos,
{
    if 0 <= pos <= s.len() {
        match first_open(s, pos) {
            None => {},
            Some((st, ne, e)) => {
                lemma_first_open_bounds(s, pos);
                match role_of_tag(s.subrange(st + 1, ne).map_values(|c: char| ascii_lower(c))) {
                    None => {
                        lemma_parse_from_trimmed(s, e);
                        assert(parse_from(s, pos) == parse_from(s, e));
                    },
                    Some(role) => {
                        lemma_body_bounds(s, role, e);
                        let (ce, next) = body_bounds(s, role, e);
                        lemma_parse_from_trimmed(s, next);
                        let head = trim_seq(s.subrange(e, ce));
                        lemma_trim_idempotent(s.subrange(e, ce));
                        let xs = parse_from(s, pos);
                        assert(xs == seq![(role, head)] + parse_from(s, next));
                        assert forall|i: int| 0 <= i < xs.len() implies trim_seq(#[trigger] xs[i].1)
                            == xs[i].1 by {
                            if i > 0 {
                                assert(xs[i] == parse_from(s, next)[i - 1]);
                            }
                        }
                    },
                }
            },
        }
    }
}

/// Every segment the parser returns has no whitespace at either end of its content.
pub proof fn law_segments_trimmed(s: Seq<char>)
    ensures
        forall|i: int|
            0 <= i < parse_seq(s).len() ==> trim_seq(#[trigger] parse_seq(s)[i].1) == parse_seq(
                s,
            )[i].1,
{
    lemma_parse_from_trimmed(s, 0);
}

spec fn shift1(o: Option<int>, d: int) -> Option<int> {
    match o {
        Some(x) => Some(x + d),
        None => None,
    }
}

spec fn shift2(o: Option<(int, int)>, d: int) -> Option<(int, int)> {
    match o {
        Some((x, y)) => Some((x + d, y + d)),
        None => None,
    }
}

spec fn shift3(o: Option<(int, int, int)>, d: int) -> Option<(int, int, int)> {
    match o {
        Some((x, y, z)) => Some((x + d, y + d, z + d)),
        None => None,
    }
}

proof fn lemma_ws_end_shift(a: Seq<char>, b: Seq<char>, j: int)
    requires
        0 <= j,
    ensures
        ws_end(a + b, a.len() + j) == a.len() + ws_end(b, j),
    decreases b.len() - j,
{
    let s = a + b;
    let d = a.len() as int;
    if j < b.len() {
        assert(s[d + j] == b[j]);
        if is_ws(b[j]) {
            lemma_ws_end_shift(a, b, j + 1);
        }
    }
}

proof fn lemma_name_at_shift(a: Seq<char>, b: Seq<char>, j: int, name: Seq<char>)
    requires
        0 <= j,
    ensures
        name_at(a + b, a.len() + j, name) == name_at(b, j, name),
{
    let s = a + b;
    let d = a.len() as int;
    if name_at(b, j, name) {
        assert forall|k: int| 0 <= k < name.len() implies #[trigger] fold_eq(s[d + j + k], name[k]) by {
            assert(s[d + j + k] == b[j + k]);
        }
    }
    if name_at(s, d + j, name) {
        assert forall|k: int| 0 <= k < name.len() implies #[trigger] fold_eq(b[j + k], name[k]) by {
            assert(s[d + j + k] == b[j + k]);
        }
    }
}

proof fn lemma_alt_from_shift(a: Seq<char>, b: Seq<char>, i: int, k: int)
    requires
        0 <= i,
    ensures
        alt_from(a + b, a.len() + i, k) == shift2(alt_from(b, i, k), a.len() as int),
    decreases 11 - k,
{
    let s = a + b;
    let d = a.len() as int;
    if 0 <= k < 11 {
        let name = role_tag(alternative(k));
        lemma_name_at_shift(a, b, i + 1, name);
        let j = i + 1 + name.len();
        lemma_ws_end_shift(a, b, j);
        let e = ws_end(b, j);
        if j <= b.len() {
            crate::trajectory::lemma_ws_end(b, j);
        } else {
            assert(e == j);
        }
        assert(e >= 0);
        if 0 <= e < b.len() {
            assert(s[d + e] == b[e]);
        }
        assert(ws_end(s, d + j) == d + e);
        assert(tag_close(s, d + j) == shift1(tag_close(b, j), d));
        lemma_alt_from_shift(a, b, i, k + 1);
    }
}

proof fn lemma_first_open_shift(a: Seq<char>, b: Seq<char>, from: int)
    requires
        0 <= from,
    ensures
        first_open(a + b, a.len() + from) == shift3(first_open(b, from), a.len() as int),
    decreases b.len() - from,
{
    let s = a + b;
    let d = a.len() as int;
    if from < b.len() {
        assert(s[d + from] == b[from]);
        lemma_alt_from_shift(a, b, from, 0);
        assert(open_tag_at(s, d + from) == shift2(open_tag_at(b, from), d));
        lemma_first_open_shift(a, b, from + 1);
    }
}

proof fn lemma_find_from_shift(a: Seq<char>, b: Seq<char>, from: int, p: Seq<char>)
    requires
        0 <= from,
    ensures
        find_from(a + b, a.len() + from, p) == shift1(find_from(b, from, p), a.len() as int),
    decreases b.len() + 1 - from,
{
    let s = a + b;
    let d = a.len() as int;
    if from + p.len() <= b.len() {
        assert(s.subrange(d + from, d + from + p.len()) =~= b.subrange(from, from + p.len()));
        lemma_find_from_shift(a, b, from + 1, p);
    }
}

proof fn lemma_parse_from_shift(a: Seq<char>, b: Seq<char>, pos: int)
    requires
        0 <= pos <= b.len(),
    ensures
        parse_from(a + b, a.len() + pos) == parse_from(b, pos),
    decreases b.len() - pos,
{
    let s = a + b;
    let d = a.len() as int;
    lemma_first_open_shift(a, b, pos);
    lemma_first_open_bounds(b, pos);
    match first_open(b, pos) {
        None => {},
        Some((st, ne, e)) => {
            assert(s.subrange(d + st + 1, d + ne) =~= b.subrange(st + 1, ne));
            match role_of_tag(b.subrange(st + 1, ne).map_values(|c: char| ascii_lower(c))) {
                None => {
                    lemma_parse_from_shift(a, b, e);
                },
                Some(role) => {
                    lemma_find_from_shift(a, b, e, closing_tag_seq(role));
                    lemma_first_open_shift(a, b, e);
                    lemma_body_bounds(b, role, e);
                    let (ce, next) = body_bounds(b, role, e);
                    assert(body_bounds(s, role, d + e) == (d + ce, d + next));
                    assert(s.subrange(d + e, d + ce) =~= b.subrange(e, ce));
                    lemma_parse_from_shift(a, b, next);
                },
            }
        },
    }
}

/// A segment written as `<tag>content</tag>`, with no `<` in its content,
/// followed by any text, parses as that segment, its content trimmed, then as
/// the text alone.
#[verifier::spinoff_prover]
#[verifier::rlimit(50)]
pub proof fn law_parse_prefix(r: Role, c: Seq<char>, rest: Seq<char>)
    requires
        forall|i: int| 0 <= i < c.len() ==> c[i] != '<',
    ensures
        parse_seq(render_segment((r, c)) + rest) == seq![(r, trim_seq(c))] + parse_seq(rest),
{
    let x = (r, c);
    let a = render_segment(x);
    let s = a + rest;
    let n = role_tag(r).len() as int;
    lemma_layout(seq![], x, rest);
    assert(seq![] + a + rest =~= s);
    lemma_open_at(s, 0, r, c);
    lemma_body_at(s, 0, r, c);
    let e = 2 + n;
    let ci = e + c.len();
    assert(ci + n + 3 == a.len());
    lemma_parse_step(s, 0, r, 1 + n, e, ci, a.len() as int);
    assert(s.subrange(e, ci) == c);
    assert(parse_from(s, 0) == seq![(r, trim_seq(c))] + parse_from(s, a.len() as int));
    lemma_parse_from_shift(a, rest, 0);
    assert(parse_from(s, a.len() as int) == parse_from(rest, 0));
}

/// The role that the opening tag at `j` names, if an opening tag starts at `j`
/// and its name, lower-cased, is a role's tag name.
pub open spec fn tag_role_at(s: Seq<char>, j: int) -> Option<Role> {
    match open_tag_at(s, j) {
        Some((ne, e)) => role_of_tag(s.subrange(j + 1, ne).map_values(|c: char| ascii_lower(c))),
        None => None,
    }
}

/// The positions of the opening tags from which the parser makes its
/// segments, in order.
pub open spec fn segment_starts(s: Seq<char>, pos: int) -> Seq<int>
    decreases s.len() - pos,
{
    if pos < 0 || pos > s.len() {
        seq![]
    } else {
        match first_open(s, pos) {
            None => seq![],
            Some((st, ne, e)) => {
                proof {
                    lemma_first_open_bounds(s, pos);
                }
                match role_of_tag(s.subrange(st + 1, ne).map_values(|c: char| ascii_lower(c))) {
                    None => segment_starts(s, e),
                    Some(role) => {
                        proof {
                            lemma_body_bounds(s, role, e);
                        }
                        seq![st] + segment_starts(s, body_bounds(s, role, e).1)
                    },
                }
            },
        }
    }
}

proof fn lemma_segment_starts(s: Seq<char>, pos: int)
    requires
        0 <= pos,
    ensures
        segment_starts(s, pos).len() == parse_from(s, pos).len(),
        forall|i: int| 0 <= i < segment_starts(s, pos).len() ==> pos <= #[trigger] segment_starts(s, pos)[i]
            && tag_role_at(s, segment_starts(s, pos)[i]) == Some(parse_from(s, pos)[i].0),
        forall|i: int, k: int| 0 <= i < k < segment_starts(s, pos).len() ==> #[trigger] segment_starts(s, pos)[i]
            < #[trigger] segment_starts(s, pos)[k],
    decreases s.len() - pos,
{
    if pos <= s.len() {
        match first_open(s, pos) {
            None => {},
            Some((st, ne, e)) => {
                lemma_first_open_bounds(s, pos);
                match role_of_tag(s.subrange(st + 1, ne).map_values(|c: char| ascii_lower(c))) {
                    None => {
                        lemma_segment_starts(s, e);
                    },
                    Some(role) => {
                        lemma_body_bounds(s, role, e);
                        let next = body_bounds(s, role, e).1;
                        lemma_segment_starts(s, next);
                        let ps = segment_starts(s, pos);
                        let xs = parse_from(s, pos);
                        assert(ps == seq![st] + segment_starts(s, next));
                        assert(xs == seq![(role, trim_seq(s.subrange(e, body_bounds(s, role, e).0)))] + parse_from(s, next));
                        assert forall|i: int| 0 <= i < ps.len() implies pos <= #[trigger] ps[i] && tag_role_at(s, ps[i])
                            == Some(xs[i].0) by {
                            if i > 0 {
                                assert(ps[i] == segment_starts(s, next)[i - 1]);
                                assert(xs[i] == parse_from(s, next)[i - 1]);
                            }
                        }
                        assert forall|i: int, k: int| 0 <= i < k < ps.len() implies #[trigger] ps[i] < #[trigger] ps[k] by {
                            if i > 0 {
                                assert(ps[i] == segment_starts(s, next)[i - 1]);
                            }
                            assert(ps[k] == segment_starts(s, next)[k - 1]);
                        }
                    },
                }
            },
        }
    }
}

/// No `<` stands inside a match of the opening-tag pattern after its first
/// character.
proof fn lemma_alt_no_lt(s: Seq<char>, i: int, k: int)
    requires
        0 <= i < s.len(),
    ensures
        alt_from(s, i, k) matches Some((ne, e)) ==> forall|j: int| i < j < e ==> #[trigger] s[j] != '<',
    decreases 11 - k,
{
    if 0 <= k < 11 {
        let name = role_tag(alternative(k));
        lemma_tag_chars(alternative(k));
        lemma_alt_no_lt(s, i, k + 1);
        if name_at(s, i + 1, name) {
            let j0 = i + 1 + name.len();
            if j0 <= s.len() {
                crate::trajectory::lemma_ws_end(s, j0);
            }
            match tag_close(s, j0) {
                Some(e) => {
                    assert forall|j: int| i < j < e implies #[trigger] s[j] != '<' by {
                        if j < j0 {
                            assert(fold_eq(s[i + 1 + (j - i - 1)], name[j - i - 1]));
                        } else if j < e - 1 {
                            assert(is_ws(s[j]));
                        }
                    }
                },
                None => {},
            }
        }
    }
}

proof fn lemma_parse_nonempty(s: Seq<char>, pos: int, j: int)
    requires
        0 <= pos <= j,
        tag_role_at(s, j) is Some,
    ensures
        parse_from(s, pos).len() > 0,
    decreases s.len() - pos,
{
    lemma_tag_role_at_bounds(s, j);
    assert(first_open(s, pos) is Some) by {
        lemma_first_open_reaches(s, pos, j);
    }
    let (st, ne, e) = first_open(s, pos)->0;
    lemma_first_open_bounds(s, pos);
    if role_of_tag(s.subrange(st + 1, ne).map_values(|c: char| ascii_lower(c))) is None {
        // A tag that names no role ends before `j`: no `<` stands inside it.
        assert(st != j);
        lemma_first_open_reaches(s, pos, j);
        assert(st < j);
        lemma_alt_no_lt(s, st, 0);
        assert(s[j] == '<');
        assert(e <= j);
        lemma_parse_nonempty(s, e, j);
    }
}

proof fn lemma_tag_role_at_bounds(s: Seq<char>, j: int)
    requires
        tag_role_at(s, j) is Some,
    ensures
        0 <= j < s.len(),
        s[j] == '<',
{
}

/// The leftmost opening tag from `pos` starts no later than any opening tag at
/// or after `pos`.
proof fn lemma_first_open_reaches(s: Seq<char>, pos: int, j: int)
    requires
        0 <= pos <= j,
        open_tag_at(s, j) is Some,
    ensures
        first_open(s, pos) matches Some((st, ne, e)) && st <= j,
    decreases j - pos,
{
    if open_tag_at(s, pos) is None {
        lemma_first_open_reaches(s, pos + 1, j);
    }
}

/// The parser makes one segment per opening tag that names a role and that
/// it meets, in the order of the text: each segment's role is named by an
/// opening tag of the text, at strictly increasing positions (so there are
/// no more segments than such tags); and it makes a segment whenever the text
/// holds such a tag.
pub proof fn law_segments_from_tags(s: Seq<char>)
    ensures
        ({
            let ps = segment_starts(s, 0);
            let xs = parse_seq(s);
            &&& ps.len() == xs.len()
            &&& forall|i: int| 0 <= i < ps.len() ==> tag_role_at(s, #[trigger] ps[i]) == Some(xs[i].0)
            &&& forall|i: int, k: int| 0 <= i < k < ps.len() ==> #[trigger] ps[i] < #[trigger] ps[k]
        }),
        (exists|j: int| #[trigger] tag_role_at(s, j) is Some) <==> parse_seq(s).len() > 0,
{
    lemma_segment_starts(s, 0);
    if exists|j: int| #[trigger] tag_role_at(s, j) is Some {
        let j = choose|j: int| #[trigger] tag_role_at(s, j) is Some;
        lemma_tag_role_at_bounds(s, j);
        lemma_parse_nonempty(s, 0, j);
    }
    if parse_seq(s).len() > 0 {
        let p0 = segment_starts(s, 0)[0];
        assert(tag_role_at(s, p0) is Some);
    }
}

proof fn lemma_ws_end_extend(x: Seq<char>, q: Seq<char>, j: int)
    requires
        0 <= j <= x.len(),
        ws_end(x, j) < x.len(),
    ensures
        ws_end(x + q, j) == ws_end(x, j),
    decreases x.len() - j,
{
    let s = x + q;
    assert(s[j] == x[j]);
    if is_ws(x[j]) {
        lemma_ws_end_extend(x, q, j + 1);
    }
}

/// A match of the opening-tag pattern stays a match when text is appended.
proof fn lemma_alt_from_extend(x: Seq<char>, q: Seq<char>, i: int, k: int)
    requires
        0 <= i,
        alt_from(x, i, k) is Some,
    ensures
        alt_from(x + q, i, k) is Some,
    decreases 11 - k,
{
    let s = x + q;
    let name = role_tag(alternative(k));
    let j0 = i + 1 + name.len();
    if name_at(x, i + 1, name) && tag_close(x, j0) is Some {
        assert(name_at(s, i + 1, name)) by {
            assert forall|m: int| 0 <= m < name.len() implies #[trigger] fold_eq(s[i + 1 + m], name[m]) by {
                assert(s[i + 1 + m] == x[i + 1 + m]);
            }
        }
        crate::trajectory::lemma_ws_end(x, j0);
        lemma_ws_end_extend(x, q, j0);
        assert(s[ws_end(x, j0)] == x[ws_end(x, j0)]);
        assert(tag_close(s, j0) is Some);
    } else {
        lemma_alt_from_extend(x, q, i, k + 1);
        if name_at(s, i + 1, name) {
        }
    }
}

/// An opening tag inside `c` is an opening tag of any text that holds `c`.
proof fn lemma_open_tag_within(p: Seq<char>, c: Seq<char>, q: Seq<char>, j: int)
    requires
        0 <= j,
        open_tag_at(c, j) is Some,
    ensures
        open_tag_at(p + c + q, p.len() + j) is Some,
{
    assert(c[j] == '<');
    lemma_alt_from_extend(c, q, j, 0);
    assert((c + q)[j] == c[j]);
    assert(open_tag_at(c + q, j) is Some);
    lemma_alt_from_shift(p, c + q, j, 0);
    assert((p + (c + q))[p.len() + j] == (c + q)[j]);
    assert(p + (c + q) =~= p + c + q);
}

/// Where the trimmed text starts in `x`.
proof fn lemma_trim_offset(x: Seq<char>) -> (k: int)
    ensures
        0 <= k,
        k + trim_seq(x).len() <= x.len(),
        x.subrange(k, k + trim_seq(x).len()) == trim_seq(x),
    decreases x.len(),
{
    if x.len() > 0 && is_ws(x[0]) {
        let k = lemma_trim_offset(x.drop_first());
        assert(trim_start_seq(x) == trim_start_seq(x.drop_first()));
        assert(x.subrange(k + 1, k + 1 + trim_seq(x).len()) =~= x.drop_first().subrange(k, k + trim_seq(x).len()));
        k + 1
    } else {
        crate::text::lemma_trim_end_prefix(x);
        assert(trim_start_seq(x) == x);
        assert(x.subrange(0, trim_seq(x).len() as int) =~= trim_seq(x));
        0
    }
}

#[verifier::spinoff_prover]
proof fn lemma_body_content_tag_free(s: Seq<char>, role: Role, e: int)
    requires
        0 <= e <= s.len(),
    ensures
        forall|j: int| 0 <= j ==> #[trigger] open_tag_at(trim_seq(s.subrange(e, body_bounds(s, role, e).0)), j) is None,
{
    lemma_body_bounds(s, role, e);
    let ce = body_bounds(s, role, e).0;
    let body = s.subrange(e, ce);
    let c = trim_seq(body);
    let k = lemma_trim_offset(body);
    assert forall|j: int| 0 <= j implies #[trigger] open_tag_at(c, j) is None by {
        if open_tag_at(c, j) is Some {
            let p = s.take(e + k);
            let q = s.skip(e + k + c.len());
            assert(s =~= p + c + q) by {
                assert forall|m: int| e + k <= m < e + k + c.len() implies s[m] == c[m - e - k] by {
                    assert(body[m - e] == s[m]);
                    assert(body.subrange(k, k + c.len())[m - e - k] == body[m - e]);
                }
            }
            lemma_open_tag_within(p, c, q, j);
            assert(c[j] == '<');
            lemma_body_tag_free(s, role, e, e + k + j);
        }
    }
}

/// No opening tag starts within a body.
proof fn lemma_body_tag_free(s: Seq<char>, role: Role, e: int, j: int)
    requires
        0 <= e <= j < body_bounds(s, role, e).0,
    ensures
        open_tag_at(s, j) is None,
{
    lemma_first_open_bounds(s, e);
    if open_tag_at(s, j) is Some {
        lemma_first_open_reaches(s, e, j);
    }
}

proof fn lemma_parse_from_tag_free(s: Seq<char>, pos: int)
    requires
        0 <= pos,
    ensures
        forall|i: int, j: int|
            0 <= i < parse_from(s, pos).len() && 0 <= j ==> #[trigger] open_tag_at(parse_from(s, pos)[i].1, j) is None,
    decreases s.len() - pos,
{
    if pos <= s.len() {
        match first_open(s, pos) {
            None => {},
            Some((st, ne, e)) => {
                lemma_first_open_bounds(s, pos);
                match role_of_tag(s.subrange(st + 1, ne).map_values(|c: char| ascii_lower(c))) {
                    None => {
                        lemma_parse_from_tag_free(s, e);
                    },
                    Some(role) => {
                        lemma_body_bounds(s, role, e);
                        let (ce, next) = body_bounds(s, role, e);
                        lemma_parse_from_tag_free(s, next);
                        let c = trim_seq(s.subrange(e, ce));
                        lemma_body_content_tag_free(s, role, e);
                        let xs = parse_from(s, pos);
                        assert(xs == seq![(role, c)] + parse_from(s, next));
                        assert forall|i: int, j: int|
                            0 <= i < xs.len() && 0 <= j implies #[trigger] open_tag_at(xs[i].1, j) is None by {
                            if i > 0 {
                                assert(xs[i] == parse_from(s, next)[i - 1]);
                            }
                        }
                    },
                }
            },
        }
    }
}

/// No segment's content holds an opening tag.
pub proof fn law_contents_tag_free(s: Seq<char>)
    ensures
        forall|i: int, j: int|
            0 <= i < parse_seq(s).len() && 0 <= j ==> #[trigger] open_tag_at(parse_seq(s)[i].1, j) is None,
{
    lemma_parse_from_tag_free(s, 0);
}

} // verus!
