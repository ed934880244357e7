//! Values and sets that are keyed by variable names.

use vstd::prelude::*;
use vstd::string::*;

use crate::config::expression;
use crate::text::same_text;

verus! {

/// A value for each of a number of names.
#[derive(Debug, PartialEq, Eq)]
pub struct NameTable<V> {
    entries: Vec<(String, V)>,
}

/// What the first `n` entries hold: a later entry for a name hides an earlier
/// one.
pub open spec fn entries_map<V: View>(entries: Seq<(String, V)>, n: nat) -> Map<Seq<char>, V::V>
    decreases n,
{
    if n == 0 || n > entries.len() {
        Map::empty()
    } else {
        entries_map(entries, (n - 1) as nat).insert(entries[n - 1].0@, entries[n - 1].1@)
    }
}

impl<V: View> View for NameTable<V> {
    type V = Map<Seq<char>, V::V>;

    closed spec fn view(&self) -> Map<Seq<char>, V::V> {
        entries_map(self.entries@, self.entries@.len())
    }
}

proof fn lemma_absent_above<V: View>(entries: Seq<(String, V)>, name: Seq<char>, k: nat, n: nat)
    requires
        k <= n <= entries.len(),
        forall|i: int| k <= i < n ==> (#[trigger] entries[i]).0@ != name,
    ensures
        entries_map(entries, n).contains_key(name) == entries_map(entries, k).contains_key(name),
        entries_map(entries, n).contains_key(name) ==> entries_map(entries, n)[name] == entries_map(
            entries,
            k,
        )[name],
    decreases n,
{
    if k < n {
        assert(entries[n - 1].0@ != name);
        lemma_absent_above(entries, name, k, (n - 1) as nat);
    }
}

proof fn lemma_same_prefix<V: View>(a: Seq<(String, V)>, b: Seq<(String, V)>, n: nat)
    requires
        n <= a.len(),
        n <= b.len(),
        forall|i: int| 0 <= i < n ==> a[i] == b[i],
    ensures
        entries_map(a, n) == entries_map(b, n),
    decreases n,
{
    if n > 0 {
        lemma_same_prefix(a, b, (n - 1) as nat);
    }
}

proof fn lemma_replaced<V: View>(
    entries: Seq<(String, V)>,
    k: nat,
    entry: (String, V),
    n: nat,
)
    requires
        k < n <= entries.len(),
        entries[k as int].0@ == entry.0@,
        forall|i: int| k < i < n ==> (#[trigger] entries[i]).0@ != entry.0@,
    ensures
        entries_map(entries.update(k as int, entry), n) == entries_map(entries, n).insert(
            entry.0@,
            entry.1@,
        ),
    decreases n,
{
    let changed = entries.update(k as int, entry);
    if k == n - 1 {
        lemma_same_prefix(entries, changed, k);
        assert(entries_map(changed, n) =~= entries_map(entries, n).insert(entry.0@, entry.1@));
    } else {
        assert(entries[n - 1].0@ != entry.0@);
        lemma_replaced(entries, k, entry, (n - 1) as nat);
        assert(entries_map(changed, n) =~= entries_map(entries, n).insert(entry.0@, entry.1@));
    }
}

impl<V: View> NameTable<V> {
    /// A table without values.
    pub fn new() -> (r: Self)
        ensures
            r@ == Map::<Seq<char>, V::V>::empty(),
    {
        NameTable { entries: Vec::new() }
    }

    /// The value for `name`.
    pub fn get(&self, name: &str) -> (r: Option<&V>)
        ensures
            r is Some == self@.contains_key(name@),
            r matches Some(value) ==> value@ == self@[name@],
    {
        let mut left: usize = self.entries.len();
        while left > 0
            invariant
                left <= self.entries@.len(),
                forall|i: int|
                    left <= i < self.entries@.len() ==> (#[trigger] self.entries@[i]).0@ != name@,
            decreases left,
        {
            left = left - 1;
            if same_text(self.entries[left].0.as_str(), name) {
                proof {
                    lemma_absent_above(
                        self.entries@,
                        name@,
                        (left + 1) as nat,
                        self.entries@.len(),
                    );
                }
                return Some(&self.entries[left].1);
            }
        }
        proof {
            lemma_absent_above(self.entries@, name@, 0, self.entries@.len());
        }
        None
    }

    /// Whether there is a value for `name`.
    pub fn contains(&self, name: &str) -> (r: bool)
        ensures
            r == self@.contains_key(name@),
    {
        self.get(name).is_some()
    }

    /// Gives `name` the value, in place of any that it had.
    pub fn insert(&mut self, name: String, value: V)
        ensures
            final(self)@ == old(self)@.insert(name@, value@),
    {
        let ghost before = self.entries@;
        let mut left: usize = self.entries.len();
        while left > 0
            invariant
                left <= self.entries@.len(),
                self.entries@ == before,
                before == old(self).entries@,
                forall|i: int|
                    left <= i < self.entries@.len() ==> (#[trigger] self.entries@[i]).0@ != name@,
            decreases left,
        {
            left = left - 1;
            if same_text(self.entries[left].0.as_str(), name.as_str()) {
                proof {
                    lemma_replaced(before, left as nat, (name, value), before.len());
                }
                self.entries.set(left, (name, value));
                return;
            }
        }
        self.entries.push((name, value));
        proof {
            lemma_same_prefix(before, self.entries@, before.len());
        }
    }
}

/// A set of names.
#[derive(Debug, PartialEq, Eq)]
pub struct NameSet {
    names: Vec<String>,
}

impl View for NameSet {
    type V = Set<Seq<char>>;

    closed spec fn view(&self) -> Set<Seq<char>> {
        expression::texts(self.names@).to_set()
    }
}

impl NameSet {
    /// The empty set.
    pub fn new() -> (r: Self)
        ensures
            r@ == Set::<Seq<char>>::empty(),
    {
        let set = NameSet { names: Vec::new() };
        assert(set@ =~= Set::<Seq<char>>::empty());
        set
    }

    /// Whether `name` is in the set.
    pub fn contains(&self, name: &str) -> (r: bool)
        ensures
            r == self@.contains(name@),
    {
        let mut i: usize = 0;
        while i < self.names.len()
            invariant
                i <= self.names@.len(),
                forall|j: int| 0 <= j < i ==> (#[trigger] self.names@[j])@ != name@,
            decreases self.names.len() - i,
        {
            if same_text(self.names[i].as_str(), name) {
                assert(expression::texts(self.names@)[i as int] == name@);
                return true;
            }
            i = i + 1;
        }
        assert forall|j: int| 0 <= j < self.names@.len() implies expression::texts(self.names@)[j]
            != name@ by {
            assert(self.names@[j]@ != name@);
        }
        false
    }

    /// Whether the set is empty.
    pub fn is_empty(&self) -> (r: bool)
        ensures
            r == (self@ == Set::<Seq<char>>::empty()),
    {
        proof {
            if self.names@.len() > 0 {
                assert(expression::texts(self.names@)[0] == self.names@[0]@);
                assert(self@.contains(self.names@[0]@));
            } else {
                assert(self@ =~= Set::<Seq<char>>::empty());
            }
        }
        self.names.len() == 0
    }

    /// Adds `name` to the set.
    pub fn insert(&mut self, name: String)
        ensures
            final(self)@ == old(self)@.insert(name@),
    {
        let ghost before = self.names@;
        if !self.contains(name.as_str()) {
            self.names.push(name);
            assert(expression::texts(self.names@) =~= expression::texts(before).push(name@));
            assert forall|other: Seq<char>|
                expression::texts(self.names@).to_set().contains(other) == expression::texts(
                    before,
                ).to_set().insert(name@).contains(other) by {
                let old_texts = expression::texts(before);
                let new_texts = expression::texts(self.names@);
                if old_texts.contains(other) {
                    let j = choose|j: int| 0 <= j < old_texts.len() && old_texts[j] == other;
                    assert(new_texts[j] == other);
                }
                if other == name@ {
                    assert(new_texts[old_texts.len() as int] == other);
                }
            }
        }
        assert(self@ =~= old(self)@.insert(name@));
    }

    /// A copy of the set.
    pub fn duplicate(&self) -> (r: Self)
        ensures
            r@ == self@,
    {
        let mut names: Vec<String> = Vec::with_capacity(self.names.len());
        let mut i: usize = 0;
        while i < self.names.len()
            invariant
                i <= self.names@.len(),
                names@ == self.names@.take(i as int),
            decreases self.names.len() - i,
        {
            names.push(self.names[i].clone());
            i = i + 1;
            assert(names@ =~= self.names@.take(i as int));
        }
        assert(self.names@.take(self.names@.len() as int) =~= self.names@);
        NameSet { names }
    }

    /// Adds all of `names`.
    pub fn extend(&mut self, names: Vec<String>)
        ensures
            final(self)@ == old(self)@.union(expression::texts(names@).to_set()),
    {
        let ghost all = expression::texts(names@);
        let ghost before = self@;
        let mut i: usize = 0;
        assert(self@ =~= before.union(all.take(0).to_set()));
        while i < names.len()
            invariant
                i <= names@.len(),
                all == expression::texts(names@),
                self@ == before.union(all.take(i as int).to_set()),
            decreases names.len() - i,
        {
            self.insert(names[i].clone());
            proof {
                let shorter = all.take(i as int);
                let longer = all.take(i + 1);
                assert(longer =~= shorter.push(all[i as int]));
                assert forall|name: Seq<char>|
                    longer.to_set().contains(name) == shorter.to_set().insert(
                        all[i as int],
                    ).contains(name) by {
                    if shorter.contains(name) {
                        let j = choose|j: int| 0 <= j < shorter.len() && shorter[j] == name;
                        assert(longer[j] == name);
                    }
                    if name == all[i as int] {
                        assert(longer[i as int] == name);
                    }
                }
                assert(self@ =~= before.union(longer.to_set()));
            }
            i = i + 1;
        }
        assert(all.take(names@.len() as int) =~= all);
    }
}

/// A known value, with how many expansions led to it.
#[derive(Debug, PartialEq, Eq)]
pub struct ExpandedValue {
    pub text: String,
    pub depth: usize,
}

/// A known value, with its text as a sequence of characters.
pub struct ValueText {
    pub text: Seq<char>,
    pub depth: nat,
}

impl View for ExpandedValue {
    type V = ValueText;

    open spec fn view(&self) -> ValueText {
        ValueText { text: self.text@, depth: self.depth as nat }
    }
}

impl Clone for ExpandedValue {
    fn clone(&self) -> (r: Self)
        ensures
            r@ == self@,
    {
        ExpandedValue { text: self.text.clone(), depth: self.depth }
    }
}

impl NameTable<ExpandedValue> {
    /// A copy of the table.
    pub fn duplicate(&self) -> (r: Self)
        ensures
            r@ == self@,
    {
        let mut entries: Vec<(String, ExpandedValue)> = Vec::with_capacity(self.entries.len());
        let mut i: usize = 0;
        while i < self.entries.len()
            invariant
                i <= self.entries@.len(),
                entries@.len() == i,
                entries_map(entries@, i as nat) == entries_map(self.entries@, i as nat),
            decreases self.entries.len() - i,
        {
            let entry = (self.entries[i].0.clone(), self.entries[i].1.clone());
            let ghost shorter = entries@;
            entries.push(entry);
            proof {
                lemma_same_prefix(shorter, entries@, i as nat);
            }
            i = i + 1;
        }
        NameTable { entries }
    }
}

} // verus!
