//! Tool agents and the registry that finds them by name.
use vstd::prelude::*;

use crate::text::{push_str, str_eq};

verus! {

/// Who a tool call runs for.
#[derive(Debug, Clone)]
pub struct ToolContext {
    pub user_id: String,
    pub conversation_id: String,
}

impl ToolContext {
    #[must_use]
    pub fn new(user_id: &str, conversation_id: &str) -> (c: Self)
        ensures
            c.user_id@ == user_id@,
            c.conversation_id@ == conversation_id@,
    {
        let mut u = String::new();
        push_str(&mut u, user_id);
        let mut c = String::new();
        push_str(&mut c, conversation_id);
        ToolContext { user_id: u, conversation_id: c }
    }
}

/// The value of a hexadecimal digit, in either case.
pub open spec fn hex_value(c: char) -> Option<int> {
    if '0' <= c && c <= '9' {
        Some(c as int - '0' as int)
    } else if 'a' <= c && c <= 'f' {
        Some(c as int - 'a' as int + 10)
    } else if 'A' <= c && c <= 'F' {
        Some(c as int - 'A' as int + 10)
    } else {
        None
    }
}

/// The number the hexadecimal digits `d` write, most significant first.
pub open spec fn hex_number(d: Seq<char>) -> Option<int>
    decreases d.len(),
{
    if d.len() == 0 {
        Some(0)
    } else {
        match (hex_number(d.drop_last()), hex_value(d.last())) {
            (Some(h), Some(v)) => Some(h * 16 + v),
            _ => None,
        }
    }
}

/// The number a hyphenated UUID writes: 36 characters, hyphens at 8, 13, 18
/// and 23, hexadecimal digits elsewhere.
pub open spec fn hyphenated_number(s: Seq<char>) -> Option<int> {
    if s.len() == 36 && s[8] == '-' && s[13] == '-' && s[18] == '-' && s[23] == '-' {
        hex_number(
            s.subrange(0, 8) + s.subrange(9, 13) + s.subrange(14, 18) + s.subrange(19, 23) + s.subrange(24, 36),
        )
    } else {
        None
    }
}

/// The number a UUID written as `s` stands for, in any of the forms
/// `uuid::Uuid::parse_str` reads: 32 hexadecimal digits; hyphenated; hyphenated
/// in braces; or hyphenated after `urn:uuid:` in any letter case.
pub open spec fn uuid_number(s: Seq<char>) -> Option<int> {
    if s.len() == 32 {
        hex_number(s)
    } else if s.len() == 36 {
        hyphenated_number(s)
    } else if s.len() == 38 && s[0] == '{' && s[37] == '}' {
        hyphenated_number(s.subrange(1, 37))
    } else if s.len() == 45 && s.take(9).map_values(|c: char| crate::text::ascii_lower(c)) == "urn:uuid:"@ {
        hyphenated_number(s.skip(9))
    } else {
        None
    }
}

/// The 128 bits of the UUID that `s` writes, if it writes one.
pub open spec fn uuid_bits(s: Seq<char>) -> Option<u128> {
    match uuid_number(s) {
        Some(v) => Some(v as u128),
        None => None,
    }
}

/// The UUID that `s` writes, as its 128 bits (`uuid::Uuid::parse_str`, then
/// `Uuid::as_u128`, which reads the 32 digits most significant first); `None`
/// when `s` is not a UUID in any of the forms `uuid_bits` lists.
#[verifier::external_body]
pub(crate) fn parse_uuid(s: &str) -> (r: Option<u128>)
    ensures
        r == uuid_bits(s@),
{
    uuid::Uuid::parse_str(s).ok().map(|u| u.as_u128())
}

/// A tool agent, known by the tag name of the tool it serves.
pub trait ToolAgent {
    /// The tag name of the tool the agent serves.
    spec fn tool_name(&self) -> Seq<char>;

    /// The tag name of the tool the agent serves.
    fn name(&self) -> (r: &str)
        ensures
            r@ == self.tool_name(),
    ;
}

/// An agent together with the tag name of the tool it serves.
#[derive(Debug, Clone)]
pub struct NamedAgent<T> {
    pub name: String,
    pub agent: T,
}

impl<T> ToolAgent for NamedAgent<T> {
    open spec fn tool_name(&self) -> Seq<char> {
        self.name@
    }

    fn name(&self) -> (r: &str) {
        self.name.as_str()
    }
}

/// Whether no name occurs twice among `entries`.
pub open spec fn names_distinct<A>(entries: Seq<(String, A)>) -> bool {
    forall|i: int, j: int| 0 <= i < j < entries.len() ==> #[trigger] entries[i].0@ != #[trigger] entries[j].0@
}

/// The index of the last entry registered under `name`.
pub open spec fn entry_index<A>(entries: Seq<(String, A)>, name: Seq<char>) -> Option<int>
    decreases entries.len(),
{
    if entries.len() == 0 {
        None
    } else if entries.last().0@ == name {
        Some(entries.len() - 1)
    } else {
        entry_index(entries.drop_last(), name)
    }
}

/// The entry under a name is one that has the name; with distinct names it is
/// the only one.
pub proof fn lemma_entry_index<A>(entries: Seq<(String, A)>, name: Seq<char>)
    ensures
        entry_index(entries, name) matches Some(k) ==> 0 <= k < entries.len() && entries[k].0@ == name,
        entry_index(entries, name) is None ==> forall|j: int| 0 <= j < entries.len() ==> #[trigger] entries[j].0@ != name,
        names_distinct(entries) ==> forall|j: int| 0 <= j < entries.len() && #[trigger] entries[j].0@ == name ==> entry_index(entries, name) == Some(j),
    decreases entries.len(),
{
    if entries.len() > 0 {
        let t = entries.drop_last();
        lemma_entry_index(t, name);
        assert forall|j: int| 0 <= j < t.len() implies t[j] == entries[j] by {}
    }
}

/// Looking a name up depends only on the names, in order.
proof fn lemma_entry_index_names<A>(e1: Seq<(String, A)>, e2: Seq<(String, A)>, name: Seq<char>)
    requires
        e1.len() == e2.len(),
        forall|j: int| 0 <= j < e1.len() ==> #[trigger] e1[j].0@ == e2[j].0@,
    ensures
        entry_index(e1, name) == entry_index(e2, name),
    decreases e1.len(),
{
    if e1.len() > 0 {
        let (t1, t2) = (e1.drop_last(), e2.drop_last());
        assert forall|j: int| 0 <= j < t1.len() implies #[trigger] t1[j].0@ == t2[j].0@ by {
            assert(t1[j] == e1[j] && t2[j] == e2[j]);
        }
        assert(e1[e1.len() - 1].0@ == e2[e2.len() - 1].0@);
        lemma_entry_index_names(t1, t2, name);
    }
}

/// The index of the entry registered under `name`.
fn find_entry<A>(entries: &Vec<(String, A)>, name: &str) -> (r: Option<usize>)
    ensures
        match entry_index(entries@, name@) {
            Some(i) => r matches Some(k) && k as int == i,
            None => r is None,
        },
{
    let ghost es = entries@;
    let mut n = entries.len();
    assert(es.take(n as int) =~= es);
    while n > 0
        invariant
            n <= es.len(),
            es == entries@,
            entry_index(es, name@) == entry_index(es.take(n as int), name@),
        decreases n,
    {
        let ghost t = es.take(n as int);
        assert(t.last() == es[n - 1]);
        assert(t.drop_last() =~= es.take(n - 1));
        if str_eq(entries[n - 1].0.as_str(), name) {
            return Some(n - 1);
        }
        n = n - 1;
    }
    None
}

/// Tool agents by the name of the tool they serve; no name occurs twice.
pub struct ToolRegistry<A> {
    entries: Vec<(String, A)>,
}

impl<A> ToolRegistry<A> {
    #[verifier::type_invariant]
    spec fn names_unique(self) -> bool {
        names_distinct(self.entries@)
    }

    /// The (name, agent) entries, in the order their names were first registered.
    pub closed spec fn entries_view(self) -> Seq<(String, A)> {
        self.entries@
    }

    /// The (name, agent) entries; no name occurs twice.
    pub fn entries(&self) -> (r: &Vec<(String, A)>)
        ensures
            r@ == self.entries_view(),
            names_distinct(r@),
    {
        proof {
            use_type_invariant(self);
        }
        &self.entries
    }

    /// The number of names registered.
    pub fn len(&self) -> (n: usize)
        ensures
            n == self.entries_view().len(),
    {
        self.entries.len()
    }

    /// The agent registered under `name`.
    pub fn get(&self, name: &str) -> (r: Option<&A>)
        ensures
            match entry_index(self.entries_view(), name@) {
                Some(i) => r == Some(&self.entries_view()[i].1),
                None => r is None,
            },
    {
        proof {
            lemma_entry_index(self.entries@, name@);
        }
        match find_entry(&self.entries, name) {
            Some(i) => Some(&self.entries[i].1),
            None => None,
        }
    }
}

/// The index of the last of `agents` that serves the tool `name`.
pub open spec fn named_index<A: ToolAgent>(agents: Seq<A>, name: Seq<char>) -> Option<int>
    decreases agents.len(),
{
    if agents.len() == 0 {
        None
    } else if agents.last().tool_name() == name {
        Some(agents.len() - 1)
    } else {
        named_index(agents.drop_last(), name)
    }
}

proof fn lemma_named_index<A: ToolAgent>(agents: Seq<A>, name: Seq<char>)
    ensures
        named_index(agents, name) matches Some(i) ==> 0 <= i < agents.len() && agents[i].tool_name() == name,
        named_index(agents, name) is None ==> forall|i: int| 0 <= i < agents.len() ==> #[trigger] agents[i].tool_name() != name,
    decreases agents.len(),
{
    if agents.len() > 0 && agents.last().tool_name() != name {
        let t = agents.drop_last();
        lemma_named_index(t, name);
        assert forall|i: int| 0 <= i < t.len() implies t[i] == agents[i] by {}
    }
}

/// The tool names of `agents`, in order.
pub open spec fn tool_names<A: ToolAgent>(agents: Seq<A>) -> Seq<Seq<char>> {
    agents.map_values(|a: A| a.tool_name())
}

/// A registry built from a list of agents holds exactly one entry for each
/// distinct tool name among them.
pub proof fn law_registry_size<A: ToolAgent>(entries: Seq<(String, A)>, agents: Seq<A>)
    requires
        registry_of(entries, agents),
    ensures
        entries.len() == tool_names(agents).to_set().len(),
{
    let names = entries.map_values(|e: (String, A)| e.0@);
    assert(names.no_duplicates()) by {
        assert forall|i: int, j: int| 0 <= i < names.len() && 0 <= j < names.len() && i != j implies names[i] != names[j] by {
            if i < j {
                assert(entries[i].0@ != entries[j].0@);
            } else {
                assert(entries[j].0@ != entries[i].0@);
            }
        }
    }
    names.unique_seq_to_set();
    assert(names.to_set() =~= tool_names(agents).to_set()) by {
        assert forall|x: Seq<char>| names.to_set().contains(x) implies tool_names(agents).to_set().contains(x) by {
            let k = choose|k: int| 0 <= k < names.len() && names[k] == x;
            lemma_entry_index(entries, x);
            lemma_named_index(agents, x);
            assert(entries[k].0@ == x);
            let i = named_index(agents, x)->0;
            assert(tool_names(agents)[i] == x);
        }
        assert forall|x: Seq<char>| tool_names(agents).to_set().contains(x) implies names.to_set().contains(x) by {
            let i = choose|i: int| 0 <= i < tool_names(agents).len() && tool_names(agents)[i] == x;
            lemma_named_index(agents, x);
            assert(agents[i].tool_name() == x);
            lemma_entry_index(entries, x);
            let k = entry_index(entries, x)->0;
            assert(names[k] == x);
        }
    }
}

/// What a registry built from `agents` holds: no name twice, each entry under
/// its agent's tool name, an entry for a name exactly when some agent serves
/// that tool, and then the last such agent.
pub open spec fn registry_of<A: ToolAgent>(entries: Seq<(String, A)>, agents: Seq<A>) -> bool {
    &&& names_distinct(entries)
    &&& forall|k: int| 0 <= k < entries.len() ==> #[trigger] entries[k].0@ == entries[k].1.tool_name()
    &&& forall|name: Seq<char>|
        match named_index(agents, name) {
            Some(i) => #[trigger] entry_index(entries, name) matches Some(k) && entries[k].1 == agents[i],
            None => entry_index(entries, name) is None,
        }
}

/// A registry of the given agents under the names of the tools they serve:
/// a later agent for a tool replaces an earlier one, so each name occurs once
/// and looking it up finds the last agent that serves that tool.
#[must_use]
pub fn registry_from<A: ToolAgent>(agents: Vec<A>) -> (r: ToolRegistry<A>)
    ensures
        registry_of(r.entries_view(), agents@),
        r.entries_view().len() == tool_names(agents@).to_set().len(),
{
    let ghost orig = agents@;
    let mut agents = agents;
    let mut entries: Vec<(String, A)> = Vec::new();
    let ghost mut j: int = 0;
    assert(orig.skip(0) =~= orig);
    assert forall|name: Seq<char>| match named_index(orig.take(0), name) {
        Some(i) => #[trigger] entry_index(entries@, name) matches Some(k) && entries@[k].1 == orig[i],
        None => entry_index(entries@, name) is None,
    } by {
        assert(orig.take(0).len() == 0);
    }
    while agents.len() > 0
        invariant
            0 <= j <= orig.len(),
            j + agents@.len() == orig.len(),
            agents@ == orig.skip(j),
            registry_of(entries@, orig.take(j)),
        decreases agents@.len(),
    {
        let a = agents.remove(0);
        assert(a == orig[j]);
        let mut name = String::new();
        push_str(&mut name, a.name());
        let ghost before = entries@;
        let ghost pre = orig.take(j);
        let ghost post = orig.take(j + 1);
        assert(post.drop_last() =~= pre);
        assert(post.last() == a);
        proof {
            lemma_entry_index(before, name@);
        }
        match find_entry(&entries, name.as_str()) {
            Some(k) => {
                let ghost nm = name@;
                assert(before[k as int].0@ == nm);
                entries.set(k, (name, a));
                proof {
                    assert(entries@ == before.update(k as int, entries@[k as int]));
                    assert forall|i: int| 0 <= i < before.len() implies #[trigger] before[i].0@ == entries@[i].0@ by {
                        if i != k {
                            assert(entries@[i] == before[i]);
                        }
                    }
                    assert forall|x: Seq<char>| #[trigger] entry_index(entries@, x) == entry_index(before, x) by {
                        lemma_entry_index_names(before, entries@, x);
                    }
                    assert forall|i: int, m: int| 0 <= i < m < entries@.len() implies #[trigger] entries@[i].0@ != #[trigger] entries@[m].0@ by {
                        assert(before[i].0@ == entries@[i].0@ && before[m].0@ == entries@[m].0@);
                    }
                    assert forall|i: int| 0 <= i < entries@.len() implies #[trigger] entries@[i].0@ == entries@[i].1.tool_name() by {
                        if i != k {
                            assert(entries@[i] == before[i]);
                        }
                    }
                }
            },
            None => {
                entries.push((name, a));
                proof {
                    assert forall|i: int| 0 <= i < before.len() implies #[trigger] entries@[i] == before[i] by {}
                    assert forall|i: int, m: int| 0 <= i < m < entries@.len() implies #[trigger] entries@[i].0@ != #[trigger] entries@[m].0@ by {
                        if m == before.len() {
                            assert(before[i].0@ != a.tool_name());
                        } else {
                            assert(entries@[i] == before[i] && entries@[m] == before[m]);
                        }
                    }
                    assert forall|i: int| 0 <= i < entries@.len() implies #[trigger] entries@[i].0@ == entries@[i].1.tool_name() by {
                        if i < before.len() {
                            assert(entries@[i] == before[i]);
                        }
                    }
                    assert forall|x: Seq<char>| x != a.tool_name() implies #[trigger] entry_index(entries@, x) == entry_index(before, x) by {
                        assert(entries@.drop_last() =~= before);
                    }
                    assert(entry_index(entries@, a.tool_name()) == Some(before.len() as int));
                }
            },
        }
        proof {
            assert forall|x: Seq<char>| match named_index(post, x) {
                Some(i) => #[trigger] entry_index(entries@, x) matches Some(k) && entries@[k].1 == post[i],
                None => entry_index(entries@, x) is None,
            } by {
                lemma_named_index(pre, x);
                if x != a.tool_name() {
                    assert(named_index(post, x) == named_index(pre, x));
                    if let Some(i) = named_index(pre, x) {
                        assert(post[i] == pre[i]);
                        let k = entry_index(before, x)->0;
                        lemma_entry_index(before, x);
                        assert(entries@[k].1 == before[k].1);
                    }
                }
            }
        }
        proof {
            j = j + 1;
        }
        assert(agents@ =~= orig.skip(j));
    }
    assert(orig.take(j) =~= orig);
    proof {
        law_registry_size(entries@, orig);
    }
    ToolRegistry { entries }
}

} // verus!
