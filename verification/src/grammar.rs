//! The grammar-check tool's observation: the checker's matches applied to the
//! user's sentence, and explained.
use vstd::prelude::*;

use crate::text::{chars_of, decimal, push_decimal, push_range, push_str};

verus! {

/// A suggested replacement for a match.
#[derive(Debug, Clone)]
pub struct LtReplacement {
    pub value: String,
}

/// A problem the grammar checker found: a message, the span it covers (in
/// characters) and the replacements it suggests.
#[derive(Debug, Clone)]
pub struct LtMatch {
    pub message: String,
    pub short_message: String,
    pub offset: usize,
    pub length: usize,
    pub replacements: Vec<LtReplacement>,
}

/// The checking endpoint of a grammar service whose base URL is `base_url`.
pub fn check_endpoint(base_url: &str) -> (r: String)
    ensures
        r@ == base_url@ + "/check"@,
{
    let mut r = String::new();
    push_str(&mut r, base_url);
    push_str(&mut r, "/check");
    r
}

/// The observation when the checker found nothing.
pub const NO_SYNTAX_ERRORS: &'static str = "No syntax errors found.";

/// `order` with `i` put after every index whose offset is at least that of `i`.
pub open spec fn insert_desc(order: Seq<int>, i: int, offs: Seq<usize>) -> Seq<int>
    decreases order.len(),
{
    if order.len() == 0 {
        seq![i]
    } else if offs[order[0]] >= offs[i] {
        seq![order[0]] + insert_desc(order.drop_first(), i, offs)
    } else {
        seq![i] + order
    }
}

/// The order in which the first `n` matches are applied: by offset, last first;
/// matches at the same offset keep their order (a stable sort).
pub open spec fn sort_order(n: nat, offs: Seq<usize>) -> Seq<int>
    decreases n,
{
    if n == 0 {
        seq![]
    } else {
        insert_desc(sort_order((n - 1) as nat, offs), n - 1, offs)
    }
}

/// The offsets of the matches.
pub open spec fn offsets(ms: Seq<LtMatch>) -> Seq<usize> {
    ms.map_values(|m: LtMatch| m.offset)
}

/// `min(a, b)`.
pub open spec fn min(a: int, b: int) -> int {
    if a <= b {
        a
    } else {
        b
    }
}

/// One match applied: its span, cut to the text, replaced by its first
/// replacement; a match without replacement changes nothing.
pub open spec fn apply_one(text: Seq<char>, m: LtMatch) -> Seq<char> {
    if m.replacements@.len() == 0 {
        text
    } else {
        let start = min(m.offset as int, text.len() as int);
        let end = min(m.offset + m.length, text.len() as int);
        text.take(start) + m.replacements@[0].value@ + text.skip(end)
    }
}

/// The matches at `order` applied one after the other.
pub open spec fn apply_in_order(text: Seq<char>, ms: Seq<LtMatch>, order: Seq<int>) -> Seq<char>
    decreases order.len(),
{
    if order.len() == 0 {
        text
    } else {
        apply_in_order(apply_one(text, ms[order[0]]), ms, order.drop_first())
    }
}

/// The user's sentence with every suggested correction applied, last match first.
pub open spec fn corrected_text(text: Seq<char>, ms: Seq<LtMatch>) -> Seq<char> {
    apply_in_order(text, ms, sort_order(ms.len(), offsets(ms)))
}

/// The position at which `insert_desc` puts `i`.
proof fn lemma_insert_desc(order: Seq<int>, i: int, offs: Seq<usize>, p: int)
    requires
        0 <= p <= order.len(),
        forall|k: int| 0 <= k < p ==> offs[#[trigger] order[k]] >= offs[i],
        p == order.len() || offs[order[p]] < offs[i],
    ensures
        insert_desc(order, i, offs) == order.take(p) + seq![i] + order.skip(p),
    decreases order.len(),
{
    if order.len() == 0 {
        assert(order.take(p) + seq![i] + order.skip(p) =~= seq![i]);
    } else if p == 0 {
        assert(order.take(0) + seq![i] + order.skip(0) =~= seq![i] + order);
    } else {
        let t = order.drop_first();
        assert forall|k: int| 0 <= k < p - 1 implies offs[#[trigger] t[k]] >= offs[i] by {
            assert(t[k] == order[k + 1]);
        }
        if p - 1 < t.len() {
            assert(t[p - 1] == order[p]);
        }
        lemma_insert_desc(t, i, offs, p - 1);
        assert(seq![order[0]] + (t.take(p - 1) + seq![i] + t.skip(p - 1)) =~= order.take(p) + seq![i]
            + order.skip(p));
    }
}

proof fn lemma_insert_desc_len(order: Seq<int>, i: int, offs: Seq<usize>)
    ensures
        insert_desc(order, i, offs).len() == order.len() + 1,
    decreases order.len(),
{
    if order.len() > 0 && offs[order[0]] >= offs[i] {
        lemma_insert_desc_len(order.drop_first(), i, offs);
    }
}

proof fn lemma_sort_order_range(n: nat, offs: Seq<usize>)
    ensures
        sort_order(n, offs).len() == n,
        forall|k: int| 0 <= k < n ==> 0 <= #[trigger] sort_order(n, offs)[k] < n,
    decreases n,
{
    if n > 0 {
        let prev = sort_order((n - 1) as nat, offs);
        lemma_sort_order_range((n - 1) as nat, offs);
        lemma_insert_desc_range(prev, n - 1, offs, n as int);
    }
}

proof fn lemma_insert_desc_range(order: Seq<int>, i: int, offs: Seq<usize>, bound: int)
    requires
        0 <= i < bound,
        forall|k: int| 0 <= k < order.len() ==> 0 <= #[trigger] order[k] < bound,
    ensures
        insert_desc(order, i, offs).len() == order.len() + 1,
        forall|k: int| 0 <= k < order.len() + 1 ==> 0 <= #[trigger] insert_desc(order, i, offs)[k] < bound,
    decreases order.len(),
{
    lemma_insert_desc_len(order, i, offs);
    if order.len() > 0 && offs[order[0]] >= offs[i] {
        let t = order.drop_first();
        assert forall|k: int| 0 <= k < t.len() implies 0 <= #[trigger] t[k] < bound by {
            assert(t[k] == order[k + 1]);
        }
        lemma_insert_desc_range(t, i, offs, bound);
        let r = insert_desc(order, i, offs);
        assert forall|k: int| 0 <= k < order.len() + 1 implies 0 <= #[trigger] r[k] < bound by {
            if k > 0 {
                assert(r[k] == insert_desc(t, i, offs)[k - 1]);
            }
        }
    } else if order.len() > 0 {
        let r = insert_desc(order, i, offs);
        assert forall|k: int| 0 <= k < order.len() + 1 implies 0 <= #[trigger] r[k] < bound by {
            if k > 0 {
                assert(r[k] == order[k - 1]);
            }
        }
    }
}

/// `insert_desc` reads only the offsets of the indices it places.
proof fn lemma_insert_desc_offsets(order: Seq<int>, i: int, o1: Seq<usize>, o2: Seq<usize>)
    requires
        o1[i] == o2[i],
        forall|k: int| 0 <= k < order.len() ==> o1[#[trigger] order[k]] == o2[order[k]],
    ensures
        insert_desc(order, i, o1) == insert_desc(order, i, o2),
    decreases order.len(),
{
    if order.len() > 0 {
        let t = order.drop_first();
        assert forall|k: int| 0 <= k < t.len() implies o1[#[trigger] t[k]] == o2[t[k]] by {
            assert(t[k] == order[k + 1]);
        }
        assert(o1[order[0]] == o2[order[0]]);
        lemma_insert_desc_offsets(t, i, o1, o2);
    }
}

/// `sort_order` of the first `n` matches reads only their offsets.
proof fn lemma_sort_order_offsets(n: nat, o1: Seq<usize>, o2: Seq<usize>)
    requires
        forall|k: int| 0 <= k < n ==> o1[k] == o2[k],
    ensures
        sort_order(n, o1) == sort_order(n, o2),
    decreases n,
{
    if n > 0 {
        lemma_sort_order_offsets((n - 1) as nat, o1, o2);
        lemma_sort_order_range((n - 1) as nat, o1);
        let prev = sort_order((n - 1) as nat, o1);
        assert forall|k: int| 0 <= k < prev.len() implies o1[#[trigger] prev[k]] == o2[prev[k]] by {}
        lemma_insert_desc_offsets(prev, n - 1, o1, o2);
    }
}

/// The index that the `k`-th of the matches other than `i` has among all of them.
pub open spec fn skip_index(i: int, k: int) -> int {
    if k < i {
        k
    } else {
        k + 1
    }
}

/// Indices into the matches other than `i`, as indices into all of them.
pub open spec fn lift_order(order: Seq<int>, i: int) -> Seq<int> {
    order.map_values(|k: int| skip_index(i, k))
}

/// Placing a match commutes with renaming the indices around `i`.
proof fn lemma_insert_desc_lift(order: Seq<int>, k: int, i: int, offs: Seq<usize>, offs2: Seq<usize>)
    requires
        offs[skip_index(i, k)] == offs2[k],
        forall|j: int| 0 <= j < order.len() ==> offs[skip_index(i, #[trigger] order[j])] == offs2[order[j]],
    ensures
        insert_desc(lift_order(order, i), skip_index(i, k), offs) == lift_order(insert_desc(order, k, offs2), i),
    decreases order.len(),
{
    let lo = lift_order(order, i);
    if order.len() == 0 {
        assert(lift_order(seq![k], i) =~= seq![skip_index(i, k)]);
    } else {
        let t = order.drop_first();
        assert(lo[0] == skip_index(i, order[0]));
        assert(lo.drop_first() =~= lift_order(t, i));
        assert(offs[skip_index(i, order[0])] == offs2[order[0]]);
        if offs2[order[0]] >= offs2[k] {
            assert forall|j: int| 0 <= j < t.len() implies offs[skip_index(i, #[trigger] t[j])] == offs2[t[j]] by {
                assert(t[j] == order[j + 1]);
            }
            lemma_insert_desc_lift(t, k, i, offs, offs2);
            assert(lift_order(seq![order[0]] + insert_desc(t, k, offs2), i) =~= seq![skip_index(i, order[0])]
                + lift_order(insert_desc(t, k, offs2), i));
        } else {
            assert(lift_order(seq![k] + order, i) =~= seq![skip_index(i, k)] + lo);
        }
    }
}

/// With `i` the first of the matches that start last, it is applied first and
/// the others follow in their own order.
proof fn lemma_sort_order_peel(ms: Seq<LtMatch>, i: int, m: nat)
    requires
        0 <= i < ms.len(),
        m <= ms.len(),
        forall|j: int| 0 <= j < i ==> (#[trigger] ms[j]).offset < ms[i].offset,
        forall|j: int| i < j < ms.len() ==> (#[trigger] ms[j]).offset <= ms[i].offset,
    ensures
        m <= i ==> sort_order(m, offsets(ms)) == lift_order(sort_order(m, offsets(ms.remove(i))), i),
        m > i ==> sort_order(m, offsets(ms)) == seq![i] + lift_order(sort_order((m - 1) as nat, offsets(ms.remove(i))), i),
    decreases m,
{
    let offs = offsets(ms);
    let rest = ms.remove(i);
    let offs2 = offsets(rest);
    assert forall|k: int| 0 <= k < rest.len() implies offs[skip_index(i, k)] == #[trigger] offs2[k] by {
        assert(rest[k] == ms[skip_index(i, k)]);
    }
    if m <= i {
        assert forall|k: int| 0 <= k < m implies offs[k] == offs2[k] by {
            assert(rest[k] == ms[k]);
        }
        lemma_sort_order_offsets(m, offs, offs2);
        lemma_sort_order_range(m, offs2);
        let so = sort_order(m, offs2);
        assert(lift_order(so, i) =~= so);
    } else if m == i + 1 {
        lemma_sort_order_peel(ms, i, i as nat);
        lemma_sort_order_range(i as nat, offs);
        let prev = sort_order(i as nat, offs);
        if prev.len() > 0 {
            assert(prev[0] != i);
            assert(offs[prev[0]] == ms[prev[0]].offset);
        }
        assert(sort_order(m, offs) == insert_desc(prev, i, offs));
    } else {
        lemma_sort_order_peel(ms, i, (m - 1) as nat);
        let s2 = sort_order((m - 2) as nat, offs2);
        lemma_sort_order_range((m - 2) as nat, offs2);
        let ls = lift_order(s2, i);
        let whole = seq![i] + ls;
        assert(whole[0] == i);
        assert(whole.drop_first() =~= ls);
        assert(offs[m - 1] == ms[m - 1].offset);
        assert(skip_index(i, m - 2) == m - 1);
        assert forall|j: int| 0 <= j < s2.len() implies offs[skip_index(i, #[trigger] s2[j])] == offs2[s2[j]] by {}
        lemma_insert_desc_lift(s2, m - 2, i, offs, offs2);
        assert(sort_order(m, offs) == insert_desc(whole, m - 1, offs));
        assert(insert_desc(whole, m - 1, offs) == seq![i] + insert_desc(ls, m - 1, offs));
    }
}

/// Applying matches by indices renamed around `i` is applying the matches
/// other than `i`.
proof fn lemma_apply_lift(text: Seq<char>, ms: Seq<LtMatch>, i: int, order: Seq<int>)
    requires
        0 <= i < ms.len(),
        forall|j: int| 0 <= j < order.len() ==> 0 <= #[trigger] order[j] < ms.len() - 1,
    ensures
        apply_in_order(text, ms, lift_order(order, i)) == apply_in_order(text, ms.remove(i), order),
    decreases order.len(),
{
    if order.len() > 0 {
        let t = order.drop_first();
        let lo = lift_order(order, i);
        assert(lo[0] == skip_index(i, order[0]));
        assert(ms.remove(i)[order[0]] == ms[skip_index(i, order[0])]);
        assert(lo.drop_first() =~= lift_order(t, i));
        assert forall|j: int| 0 <= j < t.len() implies 0 <= #[trigger] t[j] < ms.len() - 1 by {
            assert(t[j] == order[j + 1]);
        }
        lemma_apply_lift(apply_one(text, ms[skip_index(i, order[0])]), ms, i, t);
    }
}

/// Without matches the sentence is unchanged.
pub proof fn law_no_matches(text: Seq<char>)
    ensures
        corrected_text(text, seq![]) == text,
{
}

/// One match: its span, cut to the sentence, is replaced by its first
/// suggested replacement; a match without replacement changes nothing.
pub proof fn law_single_match(text: Seq<char>, m: LtMatch)
    ensures
        m.replacements@.len() == 0 ==> corrected_text(text, seq![m]) == text,
        m.replacements@.len() > 0 ==> corrected_text(text, seq![m]) == text.take(
            if m.offset <= text.len() { m.offset as int } else { text.len() as int },
        ) + m.replacements@[0].value@ + text.skip(
            if m.offset + m.length <= text.len() { m.offset + m.length } else { text.len() as int },
        ),
{
    lemma_corrected_single(text, m);
}

proof fn lemma_corrected_single(text: Seq<char>, m: LtMatch)
    ensures
        corrected_text(text, seq![m]) == apply_one(text, m),
{
    let ms = seq![m];
    let offs = offsets(ms);
    assert(sort_order(0, offs) =~= Seq::<int>::empty());
    assert(sort_order(1, offs) =~= seq![0int]);
    assert(seq![0int].drop_first() =~= Seq::<int>::empty());
    assert(ms[0] == m);
    let once = apply_one(text, m);
    assert(apply_in_order(once, ms, Seq::<int>::empty()) == once);
    assert(apply_in_order(text, ms, seq![0int]) == apply_in_order(once, ms, Seq::<int>::empty()));
}

/// Every match is applied, last first: the first of the matches that start
/// last is applied to the sentence, and the others are then applied, the
/// same way, to what that gives.
pub proof fn law_last_match_first(text: Seq<char>, ms: Seq<LtMatch>, i: int)
    requires
        0 <= i < ms.len(),
        forall|j: int| 0 <= j < i ==> (#[trigger] ms[j]).offset < ms[i].offset,
        forall|j: int| i < j < ms.len() ==> (#[trigger] ms[j]).offset <= ms[i].offset,
    ensures
        corrected_text(text, ms) == corrected_text(corrected_text(text, seq![ms[i]]), ms.remove(i)),
{
    let n = ms.len();
    lemma_sort_order_peel(ms, i, n);
    let rest = ms.remove(i);
    let s2 = sort_order((n - 1) as nat, offsets(rest));
    lemma_sort_order_range((n - 1) as nat, offsets(rest));
    let whole = seq![i] + lift_order(s2, i);
    assert(whole[0] == i);
    assert(whole.drop_first() =~= lift_order(s2, i));
    let once = apply_one(text, ms[i]);
    lemma_apply_lift(once, ms, i, s2);
    lemma_corrected_single(text, ms[i]);
}

/// The order in which the matches are applied.
fn match_order(ms: &Vec<LtMatch>) -> (order: Vec<usize>)
    ensures
        order@.map_values(|k: usize| k as int) == sort_order(ms@.len(), offsets(ms@)),
        forall|k: int| 0 <= k < order@.len() ==> #[trigger] order@[k] < ms@.len(),
{
    let ghost offs = offsets(ms@);
    let mut order: Vec<usize> = Vec::new();
    let mut n: usize = 0;
    while n < ms.len()
        invariant
            n <= ms@.len(),
            offs == offsets(ms@),
            order@.map_values(|k: usize| k as int) == sort_order(n as nat, offs),
            forall|k: int| 0 <= k < order@.len() ==> #[trigger] order@[k] < n,
            order@.len() == n,
        decreases ms@.len() - n,
    {
        let ghost before = order@.map_values(|k: usize| k as int);
        let mut p: usize = 0;
        while p < order.len() && ms[order[p]].offset >= ms[n].offset
            invariant
                p <= order@.len(),
                n < ms@.len(),
                offs == offsets(ms@),
                order@.len() == n,
                before == order@.map_values(|k: usize| k as int),
                forall|k: int| 0 <= k < order@.len() ==> #[trigger] order@[k] < n,
                forall|k: int| 0 <= k < p ==> offs[#[trigger] before[k]] >= offs[n as int],
            decreases order@.len() - p,
        {
            assert(before[p as int] == order@[p as int] as int);
            p = p + 1;
        }
        proof {
            if p < order@.len() {
                assert(before[p as int] == order@[p as int] as int);
            }
            lemma_insert_desc(before, n as int, offs, p as int);
        }
        order.insert(p, n);
        proof {
            let after = order@.map_values(|k: usize| k as int);
            assert(after =~= before.take(p as int) + seq![n as int] + before.skip(p as int));
        }
        n = n + 1;
    }
    order
}

/// Applies one match to the characters of the text.
fn apply_match(text: Vec<char>, m: &LtMatch) -> (r: Vec<char>)
    requires
        m.replacements@.len() > 0 ==> m.offset + m.length <= usize::MAX,
    ensures
        r@ == apply_one(text@, *m),
{
    if m.replacements.len() == 0 {
        return text;
    }
    let len = text.len();
    let start = if m.offset < len {
        m.offset
    } else {
        len
    };
    let end = if m.offset + m.length < len {
        m.offset + m.length
    } else {
        len
    };
    let rep = chars_of(m.replacements[0].value.as_str());
    let mut r: Vec<char> = Vec::new();
    let mut i: usize = 0;
    while i < start
        invariant
            i <= start <= len,
            len == text@.len(),
            r@ == text@.take(i as int),
        decreases start - i,
    {
        r.push(text[i]);
        assert(text@.take(i + 1) =~= text@.take(i as int).push(text@[i as int]));
        i = i + 1;
    }
    let mut k: usize = 0;
    while k < rep.len()
        invariant
            k <= rep@.len(),
            r@ == text@.take(start as int) + rep@.take(k as int),
        decreases rep@.len() - k,
    {
        r.push(rep[k]);
        assert(rep@.take(k + 1) =~= rep@.take(k as int).push(rep@[k as int]));
        k = k + 1;
    }
    let mut j: usize = end;
    assert(rep@.take(rep@.len() as int) =~= rep@);
    assert(text@.skip(end as int).take(0) =~= Seq::<char>::empty());
    while j < len
        invariant
            end <= j <= len,
            len == text@.len(),
            r@ == text@.take(start as int) + rep@ + text@.subrange(end as int, j as int),
        decreases len - j,
    {
        r.push(text[j]);
        assert(text@.subrange(end as int, j + 1) =~= text@.subrange(end as int, j as int).push(
            text@[j as int],
        ));
        j = j + 1;
    }
    assert(text@.subrange(end as int, len as int) =~= text@.skip(end as int));
    r
}

/// The user's sentence with the suggested corrections applied.
pub fn apply_corrections(text: &str, matches: &Vec<LtMatch>) -> (r: String)
    requires
        forall|i: int| 0 <= i < matches@.len() ==> (#[trigger] matches@[i]).replacements@.len() > 0 ==> matches@[i].offset + matches@[i].length <= usize::MAX,
    ensures
        r@ == corrected_text(text@, matches@),
{
    let order = match_order(matches);
    let ghost ord = order@.map_values(|k: usize| k as int);
    let mut cur = chars_of(text);
    let mut i: usize = 0;
    assert(ord.skip(0) =~= ord);
    while i < order.len()
        invariant
            i <= order@.len(),
            ord == order@.map_values(|k: usize| k as int),
            forall|k: int| 0 <= k < order@.len() ==> #[trigger] order@[k] < matches@.len(),
            forall|i: int| 0 <= i < matches@.len() ==> (#[trigger] matches@[i]).replacements@.len() > 0 ==> matches@[i].offset + matches@[i].length <= usize::MAX,
            apply_in_order(cur@, matches@, ord.skip(i as int)) == apply_in_order(text@, matches@, ord),
        decreases order@.len() - i,
    {
        let ghost rest = ord.skip(i as int);
        assert(rest[0] == order@[i as int] as int);
        assert(rest.drop_first() =~= ord.skip(i + 1));
        let m = &matches[order[i]];
        cur = apply_match(cur, m);
        i = i + 1;
    }
    assert(ord.skip(i as int) =~= Seq::<int>::empty());
    let mut r = String::new();
    push_range(&mut r, &cur, 0, cur.len());
    assert(cur@.subrange(0, cur@.len() as int) =~= cur@);
    r
}

/// The name of a match: its short message, or its message when that is empty.
pub open spec fn label_of(m: LtMatch) -> Seq<char> {
    if m.short_message@.len() == 0 {
        m.message@
    } else {
        m.short_message@
    }
}

/// One line of the explanation of several matches.
pub open spec fn explain_line(i: nat, m: LtMatch) -> Seq<char> {
    if m.replacements@.len() > 0 {
        decimal(i + 1) + ". "@ + label_of(m) + " -> '"@ + m.replacements@[0].value@ + "'"@
    } else {
        decimal(i + 1) + ". "@ + label_of(m)
    }
}

/// The explanation lines of the first `n` matches, joined by newlines.
pub open spec fn explain_lines(ms: Seq<LtMatch>, n: nat) -> Seq<char>
    decreases n,
{
    if n == 0 {
        seq![]
    } else if n == 1 {
        explain_line(0, ms[0])
    } else {
        explain_lines(ms, (n - 1) as nat) + "\n"@ + explain_line((n - 1) as nat, ms[n - 1])
    }
}

/// The explanation of the matches.
pub open spec fn explanation(ms: Seq<LtMatch>) -> Seq<char> {
    if ms.len() == 1 {
        let m = ms[0];
        if m.replacements@.len() > 0 {
            "Found 1 error: "@ + label_of(m) + ". Suggested correction: '"@ + m.replacements@[0].value@
                + "'"@
        } else {
            "Found 1 error: "@ + label_of(m)
        }
    } else {
        "Found "@ + decimal(ms.len()) + " errors:\n"@ + explain_lines(ms, ms.len())
    }
}

fn push_label(out: &mut String, m: &LtMatch)
    ensures
        final(out)@ == old(out)@ + label_of(*m),
{
    if m.short_message.as_str().is_empty() {
        push_str(out, m.message.as_str());
    } else {
        push_str(out, m.short_message.as_str());
    }
}

/// The explanation line of match `m`, the `i`-th.
fn explain_line_text(i: usize, m: &LtMatch) -> (r: String)
    requires
        i < usize::MAX,
    ensures
        r@ == explain_line(i as nat, *m),
{
    let mut r = String::new();
    push_decimal(&mut r, i + 1);
    push_str(&mut r, ". ");
    push_label(&mut r, m);
    if m.replacements.len() > 0 {
        push_str(&mut r, " -> '");
        push_str(&mut r, m.replacements[0].value.as_str());
        push_str(&mut r, "'");
    }
    r
}

/// The explanation of the matches, as the model reads it.
pub fn explain(matches: &Vec<LtMatch>) -> (r: String)
    ensures
        r@ == explanation(matches@),
{
    let mut r = String::new();
    if matches.len() == 1 {
        let m = &matches[0];
        push_str(&mut r, "Found 1 error: ");
        push_label(&mut r, m);
        if m.replacements.len() > 0 {
            push_str(&mut r, ". Suggested correction: '");
            push_str(&mut r, m.replacements[0].value.as_str());
            push_str(&mut r, "'");
        }
        return r;
    }
    push_str(&mut r, "Found ");
    push_decimal(&mut r, matches.len());
    push_str(&mut r, " errors:\n");
    let ghost head = r@;
    let mut i: usize = 0;
    while i < matches.len()
        invariant
            i <= matches@.len(),
            r@ == head + explain_lines(matches@, i as nat),
        decreases matches@.len() - i,
    {
        let line = explain_line_text(i, &matches[i]);
        if i > 0 {
            push_str(&mut r, "\n");
        }
        push_str(&mut r, line.as_str());
        i = i + 1;
    }
    r
}

/// What the grammar checker reports to the model about `text`.
pub open spec fn grammar_observation_text(text: Seq<char>, ms: Seq<LtMatch>) -> Seq<char> {
    if ms.len() == 0 {
        NO_SYNTAX_ERRORS@
    } else {
        "Errors found in: '"@ + text + "'. Suggested correction: '"@ + corrected_text(text, ms)
            + "'. Details: "@ + explanation(ms)
    }
}

/// The observation of the grammar check of `text`, given the checker's matches.
pub fn grammar_observation(text: &str, matches: &Vec<LtMatch>) -> (r: String)
    requires
        forall|i: int| 0 <= i < matches@.len() ==> (#[trigger] matches@[i]).replacements@.len() > 0 ==> matches@[i].offset + matches@[i].length <= usize::MAX,
    ensures
        r@ == grammar_observation_text(text@, matches@),
{
    let mut r = String::new();
    if matches.len() == 0 {
        push_str(&mut r, NO_SYNTAX_ERRORS);
        return r;
    }
    let corrected = apply_corrections(text, matches);
    let explanation = explain(matches);
    push_str(&mut r, "Errors found in: '");
    push_str(&mut r, text);
    push_str(&mut r, "'. Suggested correction: '");
    push_str(&mut r, corrected.as_str());
    push_str(&mut r, "'. Details: ");
    push_str(&mut r, explanation.as_str());
    r
}

} // verus!
