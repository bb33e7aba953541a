//! The decisions of the tool agents: what a tool call asks for, what the
//! model is told back, and how a profile update merges into the stored one.
use vstd::prelude::*;

use crate::grammar::NO_SYNTAX_ERRORS;
use crate::text::{chars_eq, chars_of, nonblank, nonblank_of, push_str};

verus! {

fn text_of(s: &str) -> (r: String)
    ensures
        r@ == s@,
{
    let mut r = String::new();
    push_str(&mut r, s);
    r
}

/// What the grammar agent checks: the trimmed body, or, when it is empty, the
/// observation that there is nothing wrong.
pub fn grammar_input(body: &str) -> (r: Result<String, String>)
    ensures
        match nonblank_of(body@) {
            Some(t) => r matches Ok(s) && s@ == t,
            None => r matches Err(o) && o@ == NO_SYNTAX_ERRORS@,
        },
{
    match nonblank(body) {
        Some(t) => Ok(t),
        None => Err(text_of(NO_SYNTAX_ERRORS)),
    }
}

/// The observation when the grammar checker could not be reached.
pub fn grammar_unavailable(err: &str) -> (r: String)
    ensures
        r@ == "grammar check unavailable: "@ + err@,
{
    let mut r = text_of("grammar check unavailable: ");
    push_str(&mut r, err);
    r
}

/// The observation when a search finds nothing.
pub const NO_RELEVANT_INFORMATION: &'static str = "No relevant information.";

/// What the search agent searches for: the trimmed body when it is not empty
/// and search is configured; otherwise the observation to give.
pub fn plan_web_search(body: &str, configured: bool) -> (r: Result<String, String>)
    ensures
        match nonblank_of(body@) {
            None => r matches Err(o) && o@ == "No relevant information. (empty query)"@,
            Some(q) => if configured {
                r matches Ok(s) && s@ == q
            } else {
                r matches Err(o) && o@ == "No relevant information. (web search is not configured)"@
            },
        },
{
    match nonblank(body) {
        None => Err(text_of("No relevant information. (empty query)")),
        Some(q) => if configured {
            Ok(q)
        } else {
            Err(text_of("No relevant information. (web search is not configured)"))
        },
    }
}

/// The observation when the search service failed.
pub fn search_error(err: &str) -> (r: String)
    ensures
        r@ == "Search error: "@ + err@,
{
    let mut r = text_of("Search error: ");
    push_str(&mut r, err);
    r
}

/// A web page the search found.
#[derive(Debug, Clone)]
pub struct SearchResult {
    pub title: String,
    pub url: String,
    pub content: String,
}

/// A search result as the model reads it: a Markdown link, then the text.
pub open spec fn result_entry(r: SearchResult) -> Seq<char> {
    "["@ + r.title@ + "]("@ + r.url@ + ")\n"@ + r.content@
}

/// The first `n` results, separated by blank lines.
pub open spec fn result_entries(rs: Seq<SearchResult>, n: nat) -> Seq<char>
    decreases n,
{
    if n == 0 {
        seq![]
    } else if n == 1 {
        result_entry(rs[0])
    } else {
        result_entries(rs, (n - 1) as nat) + "\n\n"@ + result_entry(rs[n - 1])
    }
}

/// The observation of a search.
pub open spec fn search_observation(rs: Seq<SearchResult>) -> Seq<char> {
    if rs.len() == 0 {
        NO_RELEVANT_INFORMATION@
    } else {
        result_entries(rs, rs.len())
    }
}

/// Nothing found gives the fixed observation; one result gives its entry:
/// the Markdown link, a line break and the text.
pub proof fn law_search_single(r: SearchResult)
    ensures
        search_observation(seq![]) == NO_RELEVANT_INFORMATION@,
        search_observation(seq![r]) == "["@ + r.title@ + "]("@ + r.url@ + ")\n"@ + r.content@,
{
    assert(seq![r][0] == r);
}

/// One more result adds its entry after a blank line and keeps all the
/// earlier entries as they were.
pub proof fn law_search_append(rs: Seq<SearchResult>, r: SearchResult)
    requires
        rs.len() > 0,
    ensures
        search_observation(rs.push(r)) == search_observation(rs) + "\n\n"@ + search_observation(seq![r]),
{
    lemma_result_entries_prefix(rs, r, rs.len());
    assert(rs.push(r)[rs.len() as int] == r);
    assert(seq![r][0] == r);
}

proof fn lemma_result_entries_prefix(rs: Seq<SearchResult>, r: SearchResult, n: nat)
    requires
        n <= rs.len(),
    ensures
        result_entries(rs.push(r), n) == result_entries(rs, n),
    decreases n,
{
    if n > 0 {
        lemma_result_entries_prefix(rs, r, (n - 1) as nat);
        assert(rs.push(r)[n - 1] == rs[n - 1]);
        assert(rs.push(r)[0] == rs[0]);
    }
}

/// Every result found appears in the observation, as its full entry.
pub proof fn law_search_every_result(rs: Seq<SearchResult>, k: int)
    requires
        0 <= k < rs.len(),
    ensures
        exists|p: int| 0 <= p && #[trigger] search_observation(rs).subrange(p, p + result_entry(rs[k]).len())
            == result_entry(rs[k]),
{
    lemma_entries_hold(rs, rs.len(), k);
    let e = result_entry(rs[k]);
    let whole = result_entries(rs, rs.len());
    assert(search_observation(rs) == whole);
    let p = choose|p: int| 0 <= p && p + e.len() <= whole.len() && #[trigger] whole.subrange(p, p + e.len()) == e;
    assert(search_observation(rs).subrange(p, p + e.len()) == e);
}

proof fn lemma_entries_hold(rs: Seq<SearchResult>, n: nat, k: int)
    requires
        0 <= k < n <= rs.len(),
    ensures
        exists|p: int| 0 <= p && p + result_entry(rs[k]).len() <= result_entries(rs, n).len()
            && #[trigger] result_entries(rs, n).subrange(p, p + result_entry(rs[k]).len()) == result_entry(rs[k]),
    decreases n,
{
    let e = result_entry(rs[k]);
    let whole = result_entries(rs, n);
    if n == 1 {
        assert(whole.subrange(0, e.len() as int) =~= e);
        assert(0 <= 0int && 0int + e.len() <= whole.len() && whole.subrange(0int, 0int + e.len()) == e);
    } else if k == n - 1 {
        let p = whole.len() - e.len();
        assert(whole.subrange(p, p + e.len()) =~= e);
        assert(0 <= p && p + e.len() <= whole.len() && whole.subrange(p, p + e.len()) == e);
    } else {
        lemma_entries_hold(rs, (n - 1) as nat, k);
        let prev = result_entries(rs, (n - 1) as nat);
        let p = choose|p: int| 0 <= p && p + e.len() <= prev.len() && #[trigger] prev.subrange(p, p + e.len()) == e;
        assert(whole.subrange(p, p + e.len()) =~= prev.subrange(p, p + e.len()));
        assert(0 <= p && p + e.len() <= whole.len() && whole.subrange(p, p + e.len()) == e);
    }
}

/// The observation of a search, given its results.
pub fn format_search_results(results: &Vec<SearchResult>) -> (r: String)
    ensures
        r@ == search_observation(results@),
{
    if results.len() == 0 {
        return text_of(NO_RELEVANT_INFORMATION);
    }
    let mut r = String::new();
    let mut i: usize = 0;
    while i < results.len()
        invariant
            i <= results@.len(),
            r@ == result_entries(results@, i as nat),
        decreases results@.len() - i,
    {
        if i > 0 {
            push_str(&mut r, "\n\n");
        }
        push_str(&mut r, "[");
        push_str(&mut r, results[i].title.as_str());
        push_str(&mut r, "](");
        push_str(&mut r, results[i].url.as_str());
        push_str(&mut r, ")\n");
        push_str(&mut r, results[i].content.as_str());
        i = i + 1;
    }
    r
}

/// The four texts a saved correction holds.
#[derive(Debug, Clone)]
pub struct CorrectionFields {
    pub original_text: String,
    pub corrected_text: String,
    pub explanation: String,
    pub improvement: String,
}

/// Whether a field is missing: absent or empty.
pub open spec fn missing(v: Option<Seq<char>>) -> bool {
    match v {
        Some(s) => s.len() == 0,
        None => true,
    }
}

/// The names of the missing fields, in the order the fields are required,
/// joined by ", ".
pub open spec fn missing_list(vals: Seq<Option<Seq<char>>>, names: Seq<Seq<char>>, n: nat) -> Seq<char>
    decreases n,
{
    if n == 0 {
        seq![]
    } else {
        let prev = missing_list(vals, names, (n - 1) as nat);
        if missing(vals[n - 1]) {
            if prev.len() == 0 {
                names[n - 1]
            } else {
                prev + ", "@ + names[n - 1]
            }
        } else {
            prev
        }
    }
}

/// The fields of a correction, in the order they are required.
pub open spec fn field_names() -> Seq<Seq<char>> {
    seq!["original_text"@, "corrected_text"@, "explanation"@, "improvement"@]
}

/// The character sequence of an optional string.
pub open spec fn str_opt_view(v: Option<&str>) -> Option<Seq<char>> {
    match v {
        Some(s) => Some(s@),
        None => None,
    }
}

/// Whether `r` is what saving a correction with the field values `vals` gives:
/// the four texts when none is missing, else the observation that names the
/// missing ones.
pub open spec fn correction_result(vals: Seq<Option<Seq<char>>>, r: Result<CorrectionFields, String>) -> bool {
    &&& any_missing(vals) ==> (r matches Err(m) && m@ == missing_message(vals))
    &&& !any_missing(vals) ==> (r matches Ok(f) && fields_are(f, vals))
}

/// Whether any of the four field values is missing.
pub open spec fn any_missing(vals: Seq<Option<Seq<char>>>) -> bool {
    missing(vals[0]) || missing(vals[1]) || missing(vals[2]) || missing(vals[3])
}

/// The observation that names the missing fields.
pub open spec fn missing_message(vals: Seq<Option<Seq<char>>>) -> Seq<char> {
    "Cannot save correction, missing fields: "@ + missing_list(vals, field_names(), 4) + "."@
}

/// Whether `f` holds the four (present) field values.
pub open spec fn fields_are(f: CorrectionFields, vals: Seq<Option<Seq<char>>>) -> bool {
    &&& f.original_text@ == vals[0]->0
    &&& f.corrected_text@ == vals[1]->0
    &&& f.explanation@ == vals[2]->0
    &&& f.improvement@ == vals[3]->0
}

/// The fields of a correction to save, or the observation that names the
/// missing ones.
pub fn correction_fields(
    original_text: Option<&str>,
    corrected_text: Option<&str>,
    explanation: Option<&str>,
    improvement: Option<&str>,
) -> (r: Result<CorrectionFields, String>)
    ensures
        correction_result(
            seq![
                str_opt_view(original_text),
                str_opt_view(corrected_text),
                str_opt_view(explanation),
                str_opt_view(improvement),
            ],
            r,
        ),
{
    let ghost vals = seq![
        str_opt_view(original_text),
        str_opt_view(corrected_text),
        str_opt_view(explanation),
        str_opt_view(improvement),
    ];
    let vs: [Option<&str>; 4] = [original_text, corrected_text, explanation, improvement];
    let names: [&str; 4] = ["original_text", "corrected_text", "explanation", "improvement"];
    let mut list = String::new();
    let mut any = false;
    let mut i: usize = 0;
    while i < 4
        invariant
            i <= 4,
            vals == seq![
                str_opt_view(original_text),
                str_opt_view(corrected_text),
                str_opt_view(explanation),
                str_opt_view(improvement),
            ],
            forall|k: int| 0 <= k < 4 ==> str_opt_view(#[trigger] vs@[k]) == vals[k],
            forall|k: int| 0 <= k < 4 ==> (#[trigger] names@[k])@ == field_names()[k],
            list@ == missing_list(vals, field_names(), i as nat),
            any == (exists|k: int| 0 <= k < i && missing(#[trigger] vals[k])),
            any == (list@.len() > 0),
        decreases 4 - i,
    {
        let is_missing = match vs[i] {
            Some(s) => s.is_empty(),
            None => true,
        };
        proof {
            reveal_strlit("original_text");
            reveal_strlit("corrected_text");
            reveal_strlit("explanation");
            reveal_strlit("improvement");
        }
        if is_missing {
            if any {
                push_str(&mut list, ", ");
            }
            push_str(&mut list, names[i]);
            any = true;
        }
        i = i + 1;
    }
    if any {
        let mut m = text_of("Cannot save correction, missing fields: ");
        push_str(&mut m, list.as_str());
        push_str(&mut m, ".");
        return Err(m);
    }
    Ok(CorrectionFields {
        original_text: text_of(original_text.unwrap()),
        corrected_text: text_of(corrected_text.unwrap()),
        explanation: text_of(explanation.unwrap()),
        improvement: text_of(improvement.unwrap()),
    })
}

/// Lexicographic order of strings by their characters (the order of `String`,
/// since UTF-8 keeps the order of code points).
pub open spec fn seq_lt(a: Seq<char>, b: Seq<char>) -> bool
    decreases a.len(),
{
    if a.len() == 0 {
        b.len() > 0
    } else if b.len() == 0 {
        false
    } else if a[0] != b[0] {
        a[0] < b[0]
    } else {
        seq_lt(a.drop_first(), b.drop_first())
    }
}

proof fn lemma_seq_lt_irreflexive(a: Seq<char>)
    ensures
        !seq_lt(a, a),
    decreases a.len(),
{
    if a.len() > 0 {
        lemma_seq_lt_irreflexive(a.drop_first());
    }
}

proof fn lemma_seq_lt_total(a: Seq<char>, b: Seq<char>)
    ensures
        a == b || seq_lt(a, b) || seq_lt(b, a),
        !(seq_lt(a, b) && seq_lt(b, a)),
    decreases a.len(),
{
    if a.len() > 0 && b.len() > 0 && a[0] == b[0] {
        lemma_seq_lt_total(a.drop_first(), b.drop_first());
        if a.drop_first() == b.drop_first() {
            assert(a =~= seq![a[0]] + a.drop_first());
            assert(b =~= seq![b[0]] + b.drop_first());
        }
    } else if a.len() == 0 && b.len() == 0 {
        assert(a =~= b);
    }
}

proof fn lemma_seq_lt_transitive(a: Seq<char>, b: Seq<char>, c: Seq<char>)
    requires
        seq_lt(a, b),
        seq_lt(b, c),
    ensures
        seq_lt(a, c),
    decreases a.len(),
{
    if a.len() > 0 && b.len() > 0 && c.len() > 0 && a[0] == b[0] && b[0] == c[0] {
        lemma_seq_lt_transitive(a.drop_first(), b.drop_first(), c.drop_first());
    }
}

proof fn lemma_push_contains(s: Seq<Seq<char>>, x: Seq<char>, y: Seq<char>)
    ensures
        s.push(x).contains(y) <==> (s.contains(y) || y == x),
{
    if s.push(x).contains(y) {
        let k = choose|k: int| 0 <= k < s.push(x).len() && s.push(x)[k] == y;
        if k < s.len() {
            assert(s[k] == y);
        }
    }
    if s.contains(y) {
        let k = choose|k: int| 0 <= k < s.len() && s[k] == y;
        assert(s.push(x)[k] == y);
    }
    if y == x {
        assert(s.push(x)[s.len() as int] == y);
    }
}

/// Whether `v` is strictly increasing.
pub open spec fn strictly_sorted(v: Seq<Seq<char>>) -> bool {
    forall|i: int, j: int| 0 <= i < j < v.len() ==> seq_lt(#[trigger] v[i], #[trigger] v[j])
}

/// Whether `a` comes before `b` (`<` on strings).
fn str_lt(a: &Vec<char>, b: &Vec<char>) -> (r: bool)
    ensures
        r == seq_lt(a@, b@),
{
    let mut i: usize = 0;
    assert(a@.skip(0) =~= a@);
    assert(b@.skip(0) =~= b@);
    while i < a.len() && i < b.len() && a[i] == b[i]
        invariant
            i <= a@.len(),
            i <= b@.len(),
            seq_lt(a@, b@) == seq_lt(a@.skip(i as int), b@.skip(i as int)),
        decreases a@.len() - i,
    {
        assert(a@.skip(i as int).drop_first() =~= a@.skip(i + 1));
        assert(b@.skip(i as int).drop_first() =~= b@.skip(i + 1));
        i = i + 1;
    }
    if i == a.len() {
        i < b.len()
    } else if i == b.len() {
        false
    } else {
        a[i] < b[i]
    }
}

/// The character sequences of strings.
pub open spec fn views_of(v: Seq<String>) -> Seq<Seq<char>> {
    v.map_values(|s: String| s@)
}

/// Adds `x` to a strictly increasing list of strings, keeping it so.
fn insert_sorted(list: &mut Vec<String>, x: &String)
    requires
        strictly_sorted(views_of(old(list)@)),
    ensures
        strictly_sorted(views_of(final(list)@)),
        forall|y: Seq<char>| views_of(final(list)@).contains(y) <==> (views_of(old(list)@).contains(y) || y == x@),
{
    let xv = chars_of(x.as_str());
    let ghost before = views_of(list@);
    let mut p: usize = 0;
    while p < list.len() && str_lt(&chars_of(list[p].as_str()), &xv)
        invariant
            p <= list@.len(),
            before == views_of(list@),
            xv@ == x@,
            forall|k: int| 0 <= k < p ==> seq_lt(#[trigger] before[k], x@),
        decreases list@.len() - p,
    {
        p = p + 1;
    }
    if p < list.len() && chars_eq(&chars_of(list[p].as_str()), &xv) {
        assert(before[p as int] == x@);
        assert forall|y: Seq<char>| views_of(list@).contains(y) <==> (before.contains(y) || y == x@) by {
            if y == x@ {
                assert(before[p as int] == y);
            }
        }
        return;
    }
    proof {
        if p < before.len() {
            lemma_seq_lt_total(before[p as int], x@);
        }
    }
    let mut s = String::new();
    push_str(&mut s, x.as_str());
    list.insert(p, s);
    proof {
        let after = views_of(list@);
        assert(after =~= before.take(p as int).push(x@) + before.skip(p as int));
        assert forall|i: int, j: int| 0 <= i < j < after.len() implies seq_lt(#[trigger] after[i], #[trigger] after[j]) by {
            if j < p {
            } else if j == p {
                assert(after[i] == before[i]);
            } else if i < p {
                assert(after[j] == before[j - 1]);
                assert(seq_lt(before[i], x@));
                lemma_seq_lt_transitive(before[i], x@, before[p as int]);
                if j - 1 > p {
                    lemma_seq_lt_transitive(before[i], before[p as int], before[j - 1]);
                }
            } else if i == p {
                assert(after[j] == before[j - 1]);
                if j - 1 > p {
                    lemma_seq_lt_transitive(x@, before[p as int], before[j - 1]);
                }
            } else {
                assert(after[i] == before[i - 1]);
                assert(after[j] == before[j - 1]);
            }
        }
        assert forall|y: Seq<char>| after.contains(y) <==> (before.contains(y) || y == x@) by {
            if before.contains(y) {
                let k = choose|k: int| 0 <= k < before.len() && before[k] == y;
                if k < p {
                    assert(after[k] == y);
                } else {
                    assert(after[k + 1] == y);
                }
            }
            if y == x@ {
                assert(after[p as int] == y);
            }
            if after.contains(y) {
                let k = choose|k: int| 0 <= k < after.len() && after[k] == y;
                if k < p {
                    assert(before[k] == y);
                } else if k > p {
                    assert(before[k - 1] == y);
                }
            }
        }
    }
}

/// A profile after an update: the stored one with the new facts put in.
#[derive(Debug, Clone)]
pub struct ProfileUpdate {
    pub first_name: String,
    pub location: Option<String>,
    /// The interests, each once, in increasing order.
    pub interests: Vec<String>,
}

/// The stored interests of a profile, none when it has none.
pub open spec fn stored_interests(v: Option<Vec<String>>) -> Seq<Seq<char>> {
    match v {
        Some(v) => views_of(v@),
        None => seq![],
    }
}

/// Merges new facts into a stored profile: a new name or location replaces the
/// stored one, and the interests become the sorted set of the stored and the new.
pub fn merge_profile(
    current_first_name: &str,
    current_location: Option<String>,
    current_interests: Option<Vec<String>>,
    name: Option<&str>,
    location: Option<&str>,
    interests_to_add: &Vec<String>,
) -> (r: ProfileUpdate)
    ensures
        r.first_name@ == match name {
            Some(n) => n@,
            None => current_first_name@,
        },
        crate::config::opt_view(r.location) == match location {
            Some(l) => Some(l@),
            None => crate::config::opt_view(current_location),
        },
        strictly_sorted(views_of(r.interests@)),
        forall|y: Seq<char>| #[trigger] stored_interests(current_interests).contains(y) ==> views_of(
            r.interests@,
        ).contains(y),
        forall|y: Seq<char>| #[trigger] views_of(interests_to_add@).contains(y) ==> views_of(
            r.interests@,
        ).contains(y),
        forall|y: Seq<char>| #[trigger] views_of(r.interests@).contains(y) ==> stored_interests(
            current_interests,
        ).contains(y) || views_of(interests_to_add@).contains(y),
{
    let first_name = match name {
        Some(n) => text_of(n),
        None => text_of(current_first_name),
    };
    let new_location = match location {
        Some(l) => Some(text_of(l)),
        None => current_location,
    };
    let current: Vec<String> = match current_interests {
        Some(v) => v,
        None => Vec::new(),
    };
    let mut interests: Vec<String> = Vec::new();
    let mut i: usize = 0;
    while i < current.len()
        invariant
            i <= current@.len(),
            strictly_sorted(views_of(interests@)),
            forall|y: Seq<char>| views_of(interests@).contains(y) <==> views_of(current@.take(i as int)).contains(y),
        decreases current@.len() - i,
    {
        insert_sorted(&mut interests, &current[i]);
        proof {
            assert(views_of(current@.take(i + 1)) =~= views_of(current@.take(i as int)).push(current@[i as int]@));
            assert forall|y: Seq<char>| views_of(interests@).contains(y) <==> views_of(current@.take(i + 1)).contains(y) by {
                lemma_push_contains(views_of(current@.take(i as int)), current@[i as int]@, y);
            }
        }
        i = i + 1;
    }
    assert(current@.take(i as int) =~= current@);
    let mut j: usize = 0;
    while j < interests_to_add.len()
        invariant
            j <= interests_to_add@.len(),
            i == current@.len(),
            current@.take(i as int) == current@,
            strictly_sorted(views_of(interests@)),
            forall|y: Seq<char>| views_of(interests@).contains(y) <==> (views_of(current@).contains(y)
                || views_of(interests_to_add@.take(j as int)).contains(y)),
        decreases interests_to_add@.len() - j,
    {
        insert_sorted(&mut interests, &interests_to_add[j]);
        proof {
            assert(views_of(interests_to_add@.take(j + 1)) =~= views_of(interests_to_add@.take(j as int)).push(
                interests_to_add@[j as int]@,
            ));
            assert forall|y: Seq<char>| views_of(interests@).contains(y) <==> (views_of(current@).contains(y)
                || views_of(interests_to_add@.take(j + 1)).contains(y)) by {
                lemma_push_contains(views_of(interests_to_add@.take(j as int)), interests_to_add@[j as int]@, y);
            }
        }
        j = j + 1;
    }
    assert(interests_to_add@.take(j as int) =~= interests_to_add@);
    ProfileUpdate { first_name, location: new_location, interests }
}

} // verus!
