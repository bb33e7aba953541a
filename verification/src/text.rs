//! Character-level text helpers shared by the parsers and prompt builders.
//!
//! Strings are modelled by their views, sequences of `char`.
use vstd::prelude::*;

verus! {

/// The Unicode `White_Space` property, the set that `char::is_whitespace`
/// and the `\s` class of `regex` both use.
pub open spec fn is_ws(c: char) -> bool {
    ||| ('\t' <= c && c <= '\r')
    ||| c == ' '
    ||| c == '\u{85}'
    ||| c == '\u{a0}'
    ||| c == '\u{1680}'
    ||| ('\u{2000}' <= c && c <= '\u{200a}')
    ||| c == '\u{2028}'
    ||| c == '\u{2029}'
    ||| c == '\u{202f}'
    ||| c == '\u{205f}'
    ||| c == '\u{3000}'
}

/// Whether `c` is Unicode white space (`char::is_whitespace`).
pub fn is_whitespace(c: char) -> (r: bool)
    ensures
        r == is_ws(c),
{
    ('\t' <= c && c <= '\r') || c == ' ' || c == '\u{85}' || c == '\u{a0}' || c == '\u{1680}'
        || ('\u{2000}' <= c && c <= '\u{200a}') || c == '\u{2028}' || c == '\u{2029}' || c
        == '\u{202f}' || c == '\u{205f}' || c == '\u{3000}'
}

/// `s` without its leading whitespace.
pub open spec fn trim_start_seq(s: Seq<char>) -> Seq<char>
    decreases s.len(),
{
    if s.len() > 0 && is_ws(s[0]) {
        trim_start_seq(s.drop_first())
    } else {
        s
    }
}

/// `s` without its trailing whitespace.
pub open spec fn trim_end_seq(s: Seq<char>) -> Seq<char>
    decreases s.len(),
{
    if s.len() > 0 && is_ws(s.last()) {
        trim_end_seq(s.drop_last())
    } else {
        s
    }
}

/// `s` without leading and trailing whitespace, as `str::trim` gives it.
pub open spec fn trim_seq(s: Seq<char>) -> Seq<char> {
    trim_end_seq(trim_start_seq(s))
}

/// Trimming the start drops exactly the leading run of whitespace, here `k` long.
pub proof fn lemma_trim_start_at(s: Seq<char>, k: int)
    requires
        0 <= k <= s.len(),
        forall|i: int| 0 <= i < k ==> is_ws(#[trigger] s[i]),
        k == s.len() || !is_ws(s[k]),
    ensures
        trim_start_seq(s) == s.skip(k),
    decreases k,
{
    if k == 0 {
        assert(s.skip(0) =~= s);
    } else {
        let t = s.drop_first();
        assert forall|i: int| 0 <= i < k - 1 implies is_ws(#[trigger] t[i]) by {
            assert(t[i] == s[i + 1]);
        }
        if k - 1 < t.len() {
            assert(t[k - 1] == s[k]);
        }
        lemma_trim_start_at(t, k - 1);
        assert(t.skip(k - 1) =~= s.skip(k));
    }
}

/// Trimming the end keeps exactly the prefix before the trailing run of whitespace.
pub proof fn lemma_trim_end_at(s: Seq<char>, k: int)
    requires
        0 <= k <= s.len(),
        forall|i: int| k <= i < s.len() ==> is_ws(#[trigger] s[i]),
        k == 0 || !is_ws(s[k - 1]),
    ensures
        trim_end_seq(s) == s.take(k),
    decreases s.len() - k,
{
    if k == s.len() {
        assert(s.take(k) =~= s);
    } else {
        let t = s.drop_last();
        assert forall|i: int| k <= i < t.len() implies is_ws(#[trigger] t[i]) by {
            assert(t[i] == s[i]);
        }
        if k > 0 {
            assert(t[k - 1] == s[k - 1]);
        }
        lemma_trim_end_at(t, k);
        assert(t.take(k) =~= s.take(k));
    }
}

/// The bounds of the trimmed part of `v[lo..hi]`.
pub fn trim_range(v: &Vec<char>, lo: usize, hi: usize) -> (r: (usize, usize))
    requires
        lo <= hi <= v@.len(),
    ensures
        lo <= r.0 <= r.1 <= hi,
        v@.subrange(r.0 as int, r.1 as int) == trim_seq(v@.subrange(lo as int, hi as int)),
{
    let mut a = lo;
    while a < hi && is_whitespace(v[a])
        invariant
            lo <= a <= hi <= v@.len(),
            forall|i: int| lo <= i < a ==> is_ws(#[trigger] v@[i]),
        decreases hi - a,
    {
        a = a + 1;
    }
    let mut b = hi;
    while b > a && is_whitespace(v[b - 1])
        invariant
            lo <= a <= b <= hi <= v@.len(),
            forall|i: int| b <= i < hi ==> is_ws(#[trigger] v@[i]),
        decreases b - a,
    {
        b = b - 1;
    }
    proof {
        let sub = v@.subrange(lo as int, hi as int);
        assert forall|i: int| 0 <= i < a - lo implies is_ws(#[trigger] sub[i]) by {
            assert(sub[i] == v@[lo + i]);
        }
        if a < hi {
            assert(sub[a - lo] == v@[a as int]);
        }
        lemma_trim_start_at(sub, a - lo);
        let mid = sub.skip(a - lo);
        assert(mid =~= v@.subrange(a as int, hi as int));
        assert forall|i: int| b - a <= i < mid.len() implies is_ws(#[trigger] mid[i]) by {
            assert(mid[i] == v@[a + i]);
        }
        if b > a {
            assert(mid[b - a - 1] == v@[b - 1]);
        }
        lemma_trim_end_at(mid, b - a);
        assert(mid.take(b - a) =~= v@.subrange(a as int, b as int));
    }
    (a, b)
}

/// Appends one character to a string (`String::push`).
#[verifier::external_body]
fn push_char(s: &mut String, c: char)
    ensures
        final(s)@ == old(s)@.push(c),
{
    s.push(c);
}

/// The characters of a string slice, in order.
pub fn chars_of(s: &str) -> (r: Vec<char>)
    ensures
        r@ == s@,
{
    let mut r: Vec<char> = Vec::new();
    for c in it: s.chars()
        invariant
            r@ == it.seq().take(it.index() as int),
    {
        r.push(c);
    }
    r
}

/// A string holding `v[lo..hi]`.
pub fn string_from(v: &Vec<char>, lo: usize, hi: usize) -> (r: String)
    requires
        lo <= hi <= v@.len(),
    ensures
        r@ == v@.subrange(lo as int, hi as int),
{
    let mut r = String::new();
    let mut i = lo;
    while i < hi
        invariant
            lo <= i <= hi <= v@.len(),
            r@ == v@.subrange(lo as int, i as int),
        decreases hi - i,
    {
        push_char(&mut r, v[i]);
        assert(v@.subrange(lo as int, i + 1) =~= v@.subrange(lo as int, i as int).push(v@[i as int]));
        i = i + 1;
    }
    r
}

/// Appends `v[lo..hi]` to `out`.
pub fn push_range(out: &mut String, v: &Vec<char>, lo: usize, hi: usize)
    requires
        lo <= hi <= v@.len(),
    ensures
        final(out)@ == old(out)@ + v@.subrange(lo as int, hi as int),
{
    let mut i = lo;
    while i < hi
        invariant
            lo <= i <= hi <= v@.len(),
            out@ == old(out)@ + v@.subrange(lo as int, i as int),
        decreases hi - i,
    {
        push_char(out, v[i]);
        assert(v@.subrange(lo as int, i + 1) =~= v@.subrange(lo as int, i as int).push(v@[i as int]));
        i = i + 1;
    }
}

/// Appends the characters of `s` to `out`.
pub fn push_str(out: &mut String, s: &str)
    ensures
        final(out)@ == old(out)@ + s@,
{
    let v = chars_of(s);
    push_range(out, &v, 0, v.len());
    assert(v@.subrange(0, v@.len() as int) =~= s@);
}

/// `str::trim`: the string without leading and trailing whitespace.
pub fn trim_str(s: &str) -> (r: String)
    ensures
        r@ == trim_seq(s@),
{
    let v = chars_of(s);
    let (a, b) = trim_range(&v, 0, v.len());
    assert(v@.subrange(0, v@.len() as int) =~= s@);
    string_from(&v, a, b)
}

/// Whether `p` occurs in `s` at index `i`.
pub open spec fn occurs_at(s: Seq<char>, i: int, p: Seq<char>) -> bool {
    0 <= i && i + p.len() <= s.len() && s.subrange(i, i + p.len()) == p
}

/// The first index at or after `from` where `p` occurs in `s`.
pub open spec fn find_from(s: Seq<char>, from: int, p: Seq<char>) -> Option<int>
    decreases s.len() + 1 - from,
{
    if from < 0 || from + p.len() > s.len() {
        None
    } else if occurs_at(s, from, p) {
        Some(from)
    } else {
        find_from(s, from + 1, p)
    }
}

/// A match found lies within the text, at or after the start of the search.
pub proof fn lemma_find_from_bounds(s: Seq<char>, from: int, p: Seq<char>)
    requires
        0 <= from,
    ensures
        find_from(s, from, p) matches Some(i) ==> from <= i && occurs_at(s, i, p) && (forall|j: int|
            from <= j < i ==> !occurs_at(s, j, p)),
        find_from(s, from, p) is None ==> forall|j: int| from <= j ==> !occurs_at(s, j, p),
    decreases s.len() + 1 - from,
{
    if from + p.len() > s.len() {
    } else if occurs_at(s, from, p) {
    } else {
        lemma_find_from_bounds(s, from + 1, p);
    }
}

/// Whether `p` occurs in `s` at index `i`.
pub fn matches_at(s: &Vec<char>, i: usize, p: &Vec<char>) -> (r: bool)
    ensures
        r == occurs_at(s@, i as int, p@),
{
    if i > s.len() || p.len() > s.len() - i {
        return false;
    }
    let n = s.len();
    let mut k: usize = 0;
    while k < p.len()
        invariant
            n == s@.len(),
            i + p@.len() <= s@.len(),
            k <= p@.len(),
            forall|j: int| 0 <= j < k ==> s@[i + j] == p@[j],
        decreases p@.len() - k,
    {
        if s[i + k] != p[k] {
            proof {
                if s@.subrange(i as int, i + p@.len()) == p@ {
                    assert(s@.subrange(i as int, i + p@.len())[k as int] == s@[i + k]);
                }
            }
            return false;
        }
        k = k + 1;
    }
    assert(s@.subrange(i as int, i + p@.len()) =~= p@);
    true
}

/// The first index at or after `from` where `p` occurs in `s`.
pub fn find_chars(s: &Vec<char>, from: usize, p: &Vec<char>) -> (r: Option<usize>)
    ensures
        r matches Some(i) ==> find_from(s@, from as int, p@) == Some(i as int),
        r is None ==> find_from(s@, from as int, p@) is None,
{
    let mut i = from;
    while i <= s.len() && p.len() <= s.len() - i
        invariant
            from <= i,
            find_from(s@, from as int, p@) == find_from(s@, i as int, p@),
        decreases s@.len() + 1 - i,
    {
        if matches_at(s, i, p) {
            return Some(i);
        }
        if i == s.len() {
            assert(find_from(s@, i + 1, p@) is None);
            return None;
        }
        i = i + 1;
    }
    None
}

/// `str::replace` with a non-empty pattern: every non-overlapping occurrence
/// of `p`, scanning left to right, replaced by `r`.
pub open spec fn replace_seq(s: Seq<char>, p: Seq<char>, r: Seq<char>) -> Seq<char>
    decreases s.len(),
{
    if p.len() == 0 || s.len() < p.len() {
        s
    } else if s.take(p.len() as int) == p {
        r + replace_seq(s.skip(p.len() as int), p, r)
    } else {
        seq![s[0]] + replace_seq(s.drop_first(), p, r)
    }
}

/// Replacing in two texts joined is replacing in each, when no occurrence of
/// the pattern straddles the join.
pub proof fn lemma_replace_split(x: Seq<char>, y: Seq<char>, p: Seq<char>, r: Seq<char>)
    requires
        p.len() > 0,
        forall|j: int| 0 <= j < x.len() < j + p.len() ==> !#[trigger] occurs_at(x + y, j, p),
    ensures
        replace_seq(x + y, p, r) == replace_seq(x, p, r) + replace_seq(y, p, r),
    decreases x.len(),
{
    let s = x + y;
    if x.len() == 0 {
        assert(s =~= y);
    } else if s.len() < p.len() {
        assert(replace_seq(x, p, r) == x);
        assert(replace_seq(y, p, r) == y);
    } else if s.take(p.len() as int) == p {
        assert(occurs_at(s, 0, p));
        assert(p.len() <= x.len());
        assert(x.take(p.len() as int) =~= s.take(p.len() as int));
        let x2 = x.skip(p.len() as int);
        assert(s.skip(p.len() as int) =~= x2 + y);
        assert forall|j: int| 0 <= j < x2.len() < j + p.len() implies !#[trigger] occurs_at(x2 + y, j, p) by {
            if occurs_at(x2 + y, j, p) {
                assert((x2 + y).subrange(j, j + p.len()) =~= s.subrange(j + p.len(), j + 2 * p.len()));
                assert(occurs_at(s, j + p.len(), p));
            }
        }
        lemma_replace_split(x2, y, p, r);
    } else {
        if x.len() >= p.len() {
            assert(x.take(p.len() as int) =~= s.take(p.len() as int));
        } else {
            assert(!occurs_at(s, 0, p));
            assert(s.subrange(0, p.len() as int) =~= s.take(p.len() as int));
        }
        let x2 = x.drop_first();
        assert(s.drop_first() =~= x2 + y);
        assert forall|j: int| 0 <= j < x2.len() < j + p.len() implies !#[trigger] occurs_at(x2 + y, j, p) by {
            if occurs_at(x2 + y, j, p) {
                assert((x2 + y).subrange(j, j + p.len()) =~= s.subrange(j + 1, j + 1 + p.len()));
                assert(occurs_at(s, j + 1, p));
            }
        }
        lemma_replace_split(x2, y, p, r);
        assert(seq![s[0]] + replace_seq(x2 + y, p, r) =~= (seq![x[0]] + replace_seq(x2, p, r)) + replace_seq(y, p, r));
    }
}

/// A text without the pattern's first character is left as it is.
pub proof fn lemma_replace_none(x: Seq<char>, p: Seq<char>, r: Seq<char>)
    requires
        p.len() > 0,
        forall|i: int| 0 <= i < x.len() ==> x[i] != p[0],
    ensures
        replace_seq(x, p, r) == x,
    decreases x.len(),
{
    if x.len() >= p.len() {
        assert(x.take(p.len() as int)[0] != p[0]);
        lemma_replace_none(x.drop_first(), p, r);
        assert(seq![x[0]] + x.drop_first() =~= x);
    }
}

/// Where the pattern occurs, the replacement appears.
pub proof fn lemma_replace_shows(x: Seq<char>, i: int, p: Seq<char>, r: Seq<char>) -> (k: int)
    requires
        p.len() > 0,
        occurs_at(x, i, p),
    ensures
        occurs_at(replace_seq(x, p, r), k, r),
    decreases x.len(),
{
    if x.take(p.len() as int) == p {
        assert((r + replace_seq(x.skip(p.len() as int), p, r)).subrange(0, r.len() as int) =~= r);
        0
    } else {
        assert(i != 0) by {
            if i == 0 {
                assert(x.subrange(0, p.len() as int) =~= x.take(p.len() as int));
            }
        }
        assert(x.drop_first().subrange(i - 1, i - 1 + p.len()) =~= x.subrange(i, i + p.len()));
        let k = lemma_replace_shows(x.drop_first(), i - 1, p, r);
        let out = seq![x[0]] + replace_seq(x.drop_first(), p, r);
        assert(out.subrange(k + 1, k + 1 + r.len()) =~= replace_seq(x.drop_first(), p, r).subrange(k, k + r.len()));
        k + 1
    }
}

/// `str::replace` with a non-empty pattern.
pub fn replace_str(s: &str, p: &str, r: &str) -> (out: String)
    requires
        p@.len() > 0,
    ensures
        out@ == replace_seq(s@, p@, r@),
{
    let sv = chars_of(s);
    let pv = chars_of(p);
    let mut out = String::new();
    let mut i: usize = 0;
    assert(sv@.skip(0) =~= sv@);
    while i < sv.len()
        invariant
            i <= sv@.len(),
            sv@ == s@,
            pv@ == p@,
            p@.len() > 0,
            out@ + replace_seq(sv@.skip(i as int), p@, r@) == replace_seq(s@, p@, r@),
        decreases sv@.len() - i,
    {
        let ghost rest = sv@.skip(i as int);
        if pv.len() > sv.len() - i {
            assert(replace_seq(rest, p@, r@) == rest);
            push_range(&mut out, &sv, i, sv.len());
            assert(sv@.subrange(i as int, sv@.len() as int) =~= rest);
            assert(sv@.skip(sv@.len() as int) =~= Seq::<char>::empty());
            i = sv.len();
        } else if matches_at(&sv, i, &pv) {
            assert(rest.take(p@.len() as int) =~= sv@.subrange(i as int, i + p@.len()));
            assert(rest.skip(p@.len() as int) =~= sv@.skip(i + p@.len()));
            push_str(&mut out, r);
            i = i + pv.len();
        } else {
            assert(rest.take(p@.len() as int) =~= sv@.subrange(i as int, i + p@.len()));
            assert(rest.drop_first() =~= sv@.skip(i + 1));
            push_char(&mut out, sv[i]);
            i = i + 1;
        }
    }
    assert(sv@.skip(i as int) =~= Seq::<char>::empty());
    out
}

/// The decimal digit for `d < 10`.
pub open spec fn digit_char(d: nat) -> char {
    (d + 48) as char
}

/// The decimal representation of `n`, as `Display` writes it.
pub open spec fn decimal(n: nat) -> Seq<char>
    decreases n,
{
    if n < 10 {
        seq![digit_char(n)]
    } else {
        decimal(n / 10).push(digit_char(n % 10))
    }
}

/// Appends the decimal representation of `n` to `out`.
pub fn push_decimal(out: &mut String, n: usize)
    ensures
        final(out)@ == old(out)@ + decimal(n as nat),
    decreases n,
{
    if n >= 10 {
        push_decimal(out, n / 10);
    }
    let d = (n % 10) as u8;
    push_char(out, (d + 48) as char);
    proof {
        if n >= 10 {
            assert(old(out)@ + decimal(n as nat) =~= old(out)@ + decimal((n / 10) as nat) + seq![
                digit_char((n % 10) as nat)]);
        } else {
            assert(old(out)@ + decimal(n as nat) =~= old(out)@ + seq![digit_char((n % 10) as nat)]);
        }
    }
}

/// ASCII lower-casing of one character, as `str::to_ascii_lowercase` does it.
pub open spec fn ascii_lower(c: char) -> char {
    if 'A' <= c && c <= 'Z' {
        ((c as u32) + 32) as char
    } else {
        c
    }
}

/// `c` in lower case when it is an ASCII letter (`char::to_ascii_lowercase`).
pub fn to_ascii_lower(c: char) -> (r: char)
    ensures
        r == ascii_lower(c),
{
    if 'A' <= c && c <= 'Z' {
        let u = c as u32;
        ((u + 32) as u8) as char
    } else {
        c
    }
}

/// Whether two strings hold the same characters.
pub fn str_eq(a: &str, b: &str) -> (r: bool)
    ensures
        r == (a@ == b@),
{
    let av = chars_of(a);
    let bv = chars_of(b);
    chars_eq(&av, &bv)
}

/// Whether two character vectors are equal.
pub fn chars_eq(a: &Vec<char>, b: &Vec<char>) -> (r: bool)
    ensures
        r == (a@ == b@),
{
    if a.len() != b.len() {
        return false;
    }
    let mut i: usize = 0;
    while i < a.len()
        invariant
            a@.len() == b@.len(),
            i <= a@.len(),
            forall|j: int| 0 <= j < i ==> a@[j] == b@[j],
        decreases a@.len() - i,
    {
        if a[i] != b[i] {
            return false;
        }
        i = i + 1;
    }
    assert(a@ =~= b@);
    true
}

proof fn lemma_trim_start_head(s: Seq<char>)
    ensures
        trim_start_seq(s).len() == 0 || !is_ws(trim_start_seq(s)[0]),
    decreases s.len(),
{
    if s.len() > 0 && is_ws(s[0]) {
        lemma_trim_start_head(s.drop_first());
    }
}

/// Trimming the end keeps a prefix that does not end in whitespace.
pub proof fn lemma_trim_end_prefix(s: Seq<char>)
    ensures
        trim_end_seq(s).len() <= s.len(),
        trim_end_seq(s) == s.take(trim_end_seq(s).len() as int),
        trim_end_seq(s).len() == 0 || !is_ws(trim_end_seq(s).last()),
    decreases s.len(),
{
    if s.len() > 0 && is_ws(s.last()) {
        let t = s.drop_last();
        lemma_trim_end_prefix(t);
        assert(t.take(trim_end_seq(t).len() as int) =~= s.take(trim_end_seq(t).len() as int));
    } else {
        assert(s.take(s.len() as int) =~= s);
    }
}

proof fn lemma_trim_start_len(s: Seq<char>)
    ensures
        trim_start_seq(s).len() <= s.len(),
    decreases s.len(),
{
    if s.len() > 0 && is_ws(s[0]) {
        lemma_trim_start_len(s.drop_first());
    }
}

/// Trimming never lengthens.
pub proof fn lemma_trim_len(s: Seq<char>)
    ensures
        trim_seq(s).len() <= s.len(),
{
    lemma_trim_start_len(s);
    lemma_trim_end_prefix(trim_start_seq(s));
}

/// Trimming twice is trimming once.
pub proof fn lemma_trim_idempotent(s: Seq<char>)
    ensures
        trim_seq(trim_seq(s)) == trim_seq(s),
{
    let a = trim_start_seq(s);
    let b = trim_end_seq(a);
    lemma_trim_start_head(s);
    lemma_trim_end_prefix(a);
    if b.len() > 0 {
        assert(b[0] == a[0]);
        assert(trim_start_seq(b) == b);
        assert(trim_end_seq(b) == b);
    } else {
        assert(trim_start_seq(b) == b);
        assert(trim_end_seq(b) == b);
    }
}

/// `s` trimmed, when that is not empty.
pub open spec fn nonblank_of(s: Seq<char>) -> Option<Seq<char>> {
    if trim_seq(s).len() > 0 {
        Some(trim_seq(s))
    } else {
        None
    }
}

/// `s` trimmed, when that is not empty.
pub fn nonblank(s: &str) -> (r: Option<String>)
    ensures
        match nonblank_of(s@) {
            Some(t) => r matches Some(x) && x@ == t,
            None => r is None,
        },
{
    let t = trim_str(s);
    if t.as_str().is_empty() {
        None
    } else {
        Some(t)
    }
}

} // verus!
