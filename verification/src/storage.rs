//! The remembered failures: for each project key (repository root and
//! branch), the list of tests that failed there last.
//!
//! The state is a map from key to a non-empty list of tests; a key whose list
//! becomes empty is removed. Reading and writing the state file is left to
//! the caller; this module holds the state and its updates.
use vstd::prelude::*;
use crate::text::{trim, trimmed};
use crate::{FailedTest, FailedTestView, tests_view};

verus! {

/// What the state stands for: each key's remembered tests.
pub type StateView = Map<Seq<char>, Seq<FailedTestView>>;

/// The remembered tests of one project key.
pub struct ProjectEntry {
    pub key: String,
    pub tests: Vec<FailedTest>,
}

/// The map that a list of entries stands for (a later entry wins, though
/// in a `StateMap` no key occurs twice).
pub open spec fn entries_view(s: Seq<ProjectEntry>) -> StateView
    decreases s.len(),
{
    if s.len() == 0 {
        Map::empty()
    } else {
        entries_view(s.drop_last()).insert(s.last().key@, tests_view(s.last().tests@))
    }
}

/// No key occurs twice.
pub open spec fn keys_distinct(s: Seq<ProjectEntry>) -> bool {
    forall|i: int, j: int| 0 <= i < j < s.len() ==> (#[trigger] s[i]).key@ != (#[trigger] s[j]).key@
}

/// The remembered failures of all projects.
pub struct StateMap {
    entries: Vec<ProjectEntry>,
}

impl View for StateMap {
    type V = StateView;

    open spec fn view(&self) -> StateView {
        self.as_map()
    }
}

/// The entry of a key is found at its index.
pub proof fn lemma_entries_lookup(s: Seq<ProjectEntry>, i: int)
    requires
        keys_distinct(s),
        0 <= i < s.len(),
    ensures
        entries_view(s).contains_key(s[i].key@),
        entries_view(s)[s[i].key@] == tests_view(s[i].tests@),
    decreases s.len(),
{
    if i < s.len() - 1 {
        let t = s.drop_last();
        assert(t[i] == s[i]);
        lemma_entries_lookup(t, i);
        assert(s[i].key@ != s[s.len() - 1].key@);
    }
}

/// A key that no entry holds is not in the map.
pub proof fn lemma_entries_absent(s: Seq<ProjectEntry>, k: Seq<char>)
    requires
        forall|i: int| 0 <= i < s.len() ==> (#[trigger] s[i]).key@ != k,
    ensures
        !entries_view(s).contains_key(k),
    decreases s.len(),
{
    if s.len() > 0 {
        let t = s.drop_last();
        assert forall|i: int| 0 <= i < t.len() implies (#[trigger] t[i]).key@ != k by {
            assert(t[i] == s[i]);
        }
        lemma_entries_absent(t, k);
        assert(s[s.len() - 1].key@ != k);
    }
}

/// With distinct keys the map has one key per entry.
pub proof fn lemma_entries_len(s: Seq<ProjectEntry>)
    requires
        keys_distinct(s),
    ensures
        entries_view(s).dom().finite(),
        entries_view(s).len() == s.len(),
    decreases s.len(),
{
    if s.len() > 0 {
        let t = s.drop_last();
        assert(keys_distinct(t)) by {
            assert forall|i: int, j: int| 0 <= i < j < t.len() implies (#[trigger] t[i]).key@ != (
            #[trigger] t[j]).key@ by {
                assert(t[i] == s[i] && t[j] == s[j]);
            }
        }
        lemma_entries_len(t);
        assert forall|i: int| 0 <= i < t.len() implies (#[trigger] t[i]).key@ != s.last().key@ by {
            assert(t[i] == s[i]);
        }
        lemma_entries_absent(t, s.last().key@);
    }
}

/// Replacing the entry of a key by another for the same key replaces its tests.
pub proof fn lemma_entries_update(s: Seq<ProjectEntry>, i: int, e: ProjectEntry)
    requires
        keys_distinct(s),
        0 <= i < s.len(),
        s[i].key@ == e.key@,
    ensures
        keys_distinct(s.update(i, e)),
        entries_view(s.update(i, e)) == entries_view(s).insert(e.key@, tests_view(e.tests@)),
    decreases s.len(),
{
    let u = s.update(i, e);
    assert(keys_distinct(u)) by {
        assert forall|a: int, b: int| 0 <= a < b < u.len() implies (#[trigger] u[a]).key@ != (
        #[trigger] u[b]).key@ by {
            assert(u[a].key@ == s[a].key@ && u[b].key@ == s[b].key@);
        }
    }
    let t = s.drop_last();
    if i == s.len() - 1 {
        assert(u.drop_last() =~= t);
        lemma_entries_absent_of_distinct(s);
        assert(entries_view(u) =~= entries_view(s).insert(e.key@, tests_view(e.tests@)));
    } else {
        assert(keys_distinct(t)) by {
            assert forall|a: int, b: int| 0 <= a < b < t.len() implies (#[trigger] t[a]).key@ != (
            #[trigger] t[b]).key@ by {
                assert(t[a] == s[a] && t[b] == s[b]);
            }
        }
        lemma_entries_update(t, i, e);
        assert(u.drop_last() =~= t.update(i, e));
        assert(u.last() == s.last());
        assert(s.last().key@ != e.key@);
        assert(entries_view(u) =~= entries_view(s).insert(e.key@, tests_view(e.tests@)));
    }
}

/// In a list with distinct keys, the last key does not occur before it.
pub proof fn lemma_entries_absent_of_distinct(s: Seq<ProjectEntry>)
    requires
        keys_distinct(s),
        s.len() > 0,
    ensures
        !entries_view(s.drop_last()).contains_key(s.last().key@),
{
    let t = s.drop_last();
    assert forall|j: int| 0 <= j < t.len() implies (#[trigger] t[j]).key@ != s.last().key@ by {
        assert(t[j] == s[j]);
    }
    lemma_entries_absent(t, s.last().key@);
}

/// Removing the entry of a key removes the key.
pub proof fn lemma_entries_remove(s: Seq<ProjectEntry>, i: int)
    requires
        keys_distinct(s),
        0 <= i < s.len(),
    ensures
        keys_distinct(s.remove(i)),
        entries_view(s.remove(i)) == entries_view(s).remove(s[i].key@),
    decreases s.len(),
{
    let r = s.remove(i);
    assert(keys_distinct(r)) by {
        assert forall|a: int, b: int| 0 <= a < b < r.len() implies (#[trigger] r[a]).key@ != (
        #[trigger] r[b]).key@ by {
            let a0 = if a < i { a } else { a + 1 };
            let b0 = if b < i { b } else { b + 1 };
            assert(r[a] == s[a0] && r[b] == s[b0]);
        }
    }
    let t = s.drop_last();
    lemma_entries_absent_of_distinct(s);
    if i == s.len() - 1 {
        assert(r =~= t);
        assert(entries_view(r) =~= entries_view(s).remove(s[i].key@));
    } else {
        assert(keys_distinct(t)) by {
            assert forall|a: int, b: int| 0 <= a < b < t.len() implies (#[trigger] t[a]).key@ != (
            #[trigger] t[b]).key@ by {
                assert(t[a] == s[a] && t[b] == s[b]);
            }
        }
        lemma_entries_remove(t, i);
        assert(r.drop_last() =~= t.remove(i));
        assert(r.last() == s.last());
        assert(t[i] == s[i]);
        assert(s.last().key@ != s[i].key@);
        assert(entries_view(r) =~= entries_view(s).remove(s[i].key@));
    }
}

/// Adding an entry for a new key adds that key.
pub proof fn lemma_entries_push(s: Seq<ProjectEntry>, e: ProjectEntry)
    requires
        keys_distinct(s),
        !entries_view(s).contains_key(e.key@),
    ensures
        keys_distinct(s.push(e)),
        entries_view(s.push(e)) == entries_view(s).insert(e.key@, tests_view(e.tests@)),
{
    let p = s.push(e);
    assert(p.drop_last() =~= s);
    assert forall|a: int, b: int| 0 <= a < b < p.len() implies (#[trigger] p[a]).key@ != (
    #[trigger] p[b]).key@ by {
        if b == s.len() {
            assert(p[a] == s[a]);
            if s[a].key@ == e.key@ {
                lemma_entries_lookup(s, a);
            }
        } else {
            assert(p[a] == s[a] && p[b] == s[b]);
        }
    }
}

/// A copy of a list of tests.
pub fn copy_tests(v: &Vec<FailedTest>) -> (r: Vec<FailedTest>)
    ensures
        tests_view(r@) == tests_view(v@),
{
    let mut r: Vec<FailedTest> = Vec::new();
    let mut i: usize = 0;
    while i < v.len()
        invariant
            i <= v@.len(),
            tests_view(r@) == tests_view(v@).take(i as int),
        decreases v@.len() - i,
    {
        let ghost before = r@;
        r.push(v[i].duplicate());
        assert(tests_view(r@) =~= tests_view(before).push(v@[i as int]@));
        assert(tests_view(v@).take(i + 1) =~= tests_view(v@).take(i as int).push(v@[i as int]@));
        i = i + 1;
    }
    assert(tests_view(v@).take(i as int) =~= tests_view(v@));
    r
}

impl StateMap {
    /// The map that the entries stand for.
    pub closed spec fn as_map(self) -> StateView {
        entries_view(self.entries@)
    }

    /// No key occurs twice.
    #[verifier::type_invariant]
    spec fn keys_are_distinct(self) -> bool {
        keys_distinct(self.entries@)
    }

    /// The empty state.
    pub fn new() -> (m: StateMap)
        ensures
            m@ == Map::<Seq<char>, Seq<FailedTestView>>::empty(),
    {
        StateMap { entries: Vec::new() }
    }

    /// The entries, one per key, in no particular order.
    pub fn entries(&self) -> (r: &Vec<ProjectEntry>)
        ensures
            entries_view(r@) == self@,
            keys_distinct(r@),
    {
        proof {
            use_type_invariant(self);
        }
        &self.entries
    }

    /// The index of the entry for `key`, if there is one.
    fn find(&self, key: &str) -> (r: Option<usize>)
        ensures
            match r {
                Some(i) => i < self.entries@.len() && self.entries@[i as int].key@ == key@,
                None => forall|i: int|
                    0 <= i < self.entries@.len() ==> (#[trigger] self.entries@[i]).key@ != key@,
            },
    {
        let k = String::from_str(key);
        let mut i: usize = 0;
        while i < self.entries.len()
            invariant
                i <= self.entries@.len(),
                k@ == key@,
                forall|j: int| 0 <= j < i ==> (#[trigger] self.entries@[j]).key@ != key@,
            decreases self.entries@.len() - i,
        {
            if self.entries[i].key == k {
                return Some(i);
            }
            i = i + 1;
        }
        None
    }

    /// How many keys have remembered tests.
    pub fn len(&self) -> (n: usize)
        ensures
            n == self@.len(),
    {
        proof {
            use_type_invariant(self);
            lemma_entries_len(self.entries@);
        }
        self.entries.len()
    }

    /// Whether no key has remembered tests.
    pub fn is_empty(&self) -> (b: bool)
        ensures
            b == (self@.len() == 0),
    {
        self.len() == 0
    }

    /// Whether `key` has remembered tests.
    pub fn contains_key(&self, key: &str) -> (b: bool)
        ensures
            b == self@.contains_key(key@),
    {
        proof {
            use_type_invariant(self);
        }
        match self.find(key) {
            Some(i) => {
                proof {
                    lemma_entries_lookup(self.entries@, i as int);
                }
                true
            },
            None => {
                proof {
                    lemma_entries_absent(self.entries@, key@);
                }
                false
            },
        }
    }

    /// The tests remembered for `key`, if any.
    pub fn get(&self, key: &str) -> (r: Option<&Vec<FailedTest>>)
        ensures
            match r {
                Some(v) => self@.contains_key(key@) && tests_view(v@) == self@[key@],
                None => !self@.contains_key(key@),
            },
    {
        proof {
            use_type_invariant(self);
        }
        match self.find(key) {
            Some(i) => {
                proof {
                    lemma_entries_lookup(self.entries@, i as int);
                }
                Some(&self.entries[i].tests)
            },
            None => {
                proof {
                    lemma_entries_absent(self.entries@, key@);
                }
                None
            },
        }
    }

    /// Remembers `tests` for `key`, replacing what was there.
    pub fn insert(&mut self, key: String, tests: Vec<FailedTest>)
        ensures
            final(self)@ == old(self)@.insert(key@, tests_view(tests@)),
    {
        proof {
            use_type_invariant(&*self);
        }
        let found = self.find(key.as_str());
        let mut entries: Vec<ProjectEntry> = Vec::new();
        std::mem::swap(&mut entries, &mut self.entries);
        let ghost s = entries@;
        let e = ProjectEntry { key, tests };
        match found {
            Some(i) => {
                proof {
                    lemma_entries_update(s, i as int, e);
                }
                entries.set(i, e);
            },
            None => {
                proof {
                    lemma_entries_absent(s, e.key@);
                    lemma_entries_push(s, e);
                }
                entries.push(e);
            },
        }
        self.entries = entries;
    }

    /// Forgets the tests remembered for `key`.
    pub fn remove(&mut self, key: &str)
        ensures
            final(self)@ == old(self)@.remove(key@),
    {
        proof {
            use_type_invariant(&*self);
        }
        match self.find(key) {
            Some(i) => {
                let mut entries: Vec<ProjectEntry> = Vec::new();
                std::mem::swap(&mut entries, &mut self.entries);
                proof {
                    lemma_entries_remove(entries@, i as int);
                }
                entries.remove(i);
                self.entries = entries;
            },
            None => {
                proof {
                    lemma_entries_absent(self.entries@, key@);
                    assert(self@.remove(key@) =~= self@);
                }
            },
        }
    }
}

/// Whether the text of a state file holds only whitespace, which stands for
/// the empty state.
pub fn state_text_is_blank(content: &str) -> (b: bool)
    ensures
        b == (trim(content@).len() == 0),
{
    let t = trimmed(content);
    t.as_str().is_empty()
}

/// The tests remembered for `key` in `m`: none when the key is absent.
pub open spec fn stored_tests(m: StateView, key: Seq<char>) -> Seq<FailedTestView> {
    if m.contains_key(key) {
        m[key]
    } else {
        seq![]
    }
}

/// `m` once `tests` are remembered for `key`: an empty list removes the key.
pub open spec fn with_tests(m: StateView, key: Seq<char>, tests: Seq<FailedTestView>) -> StateView {
    if tests.len() == 0 {
        m.remove(key)
    } else {
        m.insert(key, tests)
    }
}

/// No key maps to an empty list.
pub open spec fn no_empty_lists(m: StateView) -> bool {
    forall|k: Seq<char>| #[trigger] m.contains_key(k) ==> m[k].len() > 0
}

/// The failing tests remembered for the project `key`; none if it has no entry.
pub fn get_for_project(state: &StateMap, key: &str) -> (r: Vec<FailedTest>)
    ensures
        tests_view(r@) == stored_tests(state@, key@),
{
    match state.get(key) {
        Some(v) => copy_tests(v),
        None => {
            let r = Vec::new();
            assert(tests_view(r@) =~= Seq::<FailedTestView>::empty());
            r
        },
    }
}

/// Remembers `tests` as the failing tests of the project `key`; an empty list
/// removes the project's entry.
pub fn set_for_project(state: &mut StateMap, key: &str, tests: Vec<FailedTest>)
    ensures
        final(state)@ == with_tests(old(state)@, key@, tests_view(tests@)),
{
    if tests.len() == 0 {
        state.remove(key);
    } else {
        state.insert(String::from_str(key), tests);
    }
}

/// Forgets the failing tests of the project `key`.
pub fn clear_for_project(state: &mut StateMap, key: &str)
    ensures
        final(state)@ == old(state)@.remove(key@),
{
    let none: Vec<FailedTest> = Vec::new();
    assert(tests_view(none@) =~= Seq::<FailedTestView>::empty());
    set_for_project(state, key, none);
}

/// What is remembered for a key is read back as it was written.
pub proof fn law_read_after_write(m: StateView, key: Seq<char>, tests: Seq<FailedTestView>)
    ensures
        stored_tests(with_tests(m, key, tests), key) == tests,
{
}

/// Remembering tests for one key leaves every other key as it was.
pub proof fn law_other_keys_unchanged(
    m: StateView,
    key: Seq<char>,
    other: Seq<char>,
    tests: Seq<FailedTestView>,
)
    requires
        key != other,
    ensures
        stored_tests(with_tests(m, key, tests), other) == stored_tests(m, other),
{
}

/// Clearing a key is remembering an empty list for it, and afterwards the key
/// has no tests.
pub proof fn law_clear_is_empty_set(m: StateView, key: Seq<char>)
    ensures
        m.remove(key) == with_tests(m, key, seq![]),
        stored_tests(m.remove(key), key) == Seq::<FailedTestView>::empty(),
{
}

/// The last list remembered for a key is the one that counts.
pub proof fn law_last_write_wins(
    m: StateView,
    key: Seq<char>,
    first: Seq<FailedTestView>,
    second: Seq<FailedTestView>,
)
    ensures
        with_tests(with_tests(m, key, first), key, second) == with_tests(m, key, second),
{
    if second.len() == 0 {
        assert(with_tests(with_tests(m, key, first), key, second) =~= with_tests(m, key, second));
    } else {
        assert(with_tests(with_tests(m, key, first), key, second) =~= with_tests(m, key, second));
    }
}

/// No key is ever left with an empty list.
pub proof fn law_no_empty_lists(m: StateView, key: Seq<char>, tests: Seq<FailedTestView>)
    requires
        no_empty_lists(m),
    ensures
        no_empty_lists(with_tests(m, key, tests)),
{
}

} // verus!
