//! The variables that a message is filtered with.

use vstd::prelude::*;
use vstd::slice::slice_to_vec;
use vstd::string::*;
use vstd::utf8::*;

use crate::config::variables::DEFAULT_LOCK_EXT;
use crate::text::{same_text, string_from_utf8, text_bytes};

verus! {

/// The variables and their values, in the order in which they were first set.
#[derive(Debug, PartialEq, Eq)]
pub struct RuntimeVariables {
    entries: Vec<(String, Vec<u8>)>,
}

pub open spec fn entry_models(entries: Seq<(String, Vec<u8>)>) -> Seq<(Seq<char>, Seq<u8>)> {
    Seq::new(entries.len(), |i: int| (entries[i].0@, entries[i].1@))
}

impl View for RuntimeVariables {
    type V = Seq<(Seq<char>, Seq<u8>)>;

    closed spec fn view(&self) -> Seq<(Seq<char>, Seq<u8>)> {
        entry_models(self.entries@)
    }
}

/// Whether no name stands twice.
pub open spec fn names_differ(entries: Seq<(Seq<char>, Seq<u8>)>) -> bool {
    forall|i: int, j: int|
        0 <= i < j < entries.len() ==> (#[trigger] entries[i]).0 != (#[trigger] entries[j]).0
}

/// Where a name stands from `i` on: at the end, where it does not.
pub open spec fn place_of(entries: Seq<(Seq<char>, Seq<u8>)>, name: Seq<char>, i: int) -> int
    decreases entries.len() - i,
{
    if 0 <= i < entries.len() && entries[i].0 != name {
        place_of(entries, name, i + 1)
    } else {
        i
    }
}

/// The value of a variable, where it has one.
pub open spec fn value_of(entries: Seq<(Seq<char>, Seq<u8>)>, name: Seq<char>) -> Option<Seq<u8>> {
    let place = place_of(entries, name, 0);
    if place < entries.len() {
        Some(entries[place].1)
    } else {
        None
    }
}

/// The value of a variable as text, where it has one that is.
pub open spec fn text_of(entries: Seq<(Seq<char>, Seq<u8>)>, name: Seq<char>) -> Option<Seq<char>> {
    match value_of(entries, name) {
        Some(bytes) => if valid_utf8(bytes) {
            Some(decode_utf8(bytes))
        } else {
            None
        },
        None => None,
    }
}

/// The texts of the variables that have one.
pub open spec fn texts(entries: Seq<(Seq<char>, Seq<u8>)>) -> Map<Seq<char>, Seq<char>> {
    Map::new(
        |name: Seq<char>| text_of(entries, name) is Some,
        |name: Seq<char>| text_of(entries, name)->0,
    )
}

/// The variables once one has been set.
pub open spec fn with_value(
    entries: Seq<(Seq<char>, Seq<u8>)>,
    name: Seq<char>,
    value: Seq<u8>,
) -> Seq<(Seq<char>, Seq<u8>)> {
    let place = place_of(entries, name, 0);
    if place < entries.len() {
        entries.update(place, (name, value))
    } else {
        entries.push((name, value))
    }
}

proof fn lemma_place(entries: Seq<(Seq<char>, Seq<u8>)>, name: Seq<char>, i: int)
    requires
        0 <= i <= entries.len(),
    ensures
        i <= place_of(entries, name, i) <= entries.len(),
        place_of(entries, name, i) < entries.len() ==> entries[place_of(entries, name, i)].0
            == name,
        forall|j: int| i <= j < place_of(entries, name, i) ==> (#[trigger] entries[j]).0 != name,
    decreases entries.len() - i,
{
    if i < entries.len() && entries[i].0 != name {
        lemma_place(entries, name, i + 1);
    }
}

/// Setting a variable gives it the value, leaves every other one as it was,
/// and leaves no name twice.
pub proof fn setting_a_variable_changes_it_alone(
    entries: Seq<(Seq<char>, Seq<u8>)>,
    name: Seq<char>,
    value: Seq<u8>,
    other: Seq<char>,
)
    requires
        names_differ(entries),
    ensures
        value_of(with_value(entries, name, value), name) == Some(value),
        other != name ==> value_of(with_value(entries, name, value), other) == value_of(
            entries,
            other,
        ),
        names_differ(with_value(entries, name, value)),
{
    let after = with_value(entries, name, value);
    lemma_place(entries, name, 0);
    lemma_place(after, name, 0);
    lemma_place(entries, other, 0);
    lemma_place(after, other, 0);
    let place = place_of(entries, name, 0);
    assert(after[place].0 == name && after[place].1 == value);
    assert(place_of(after, name, 0) == place) by {
        assert forall|j: int| 0 <= j < place implies (#[trigger] after[j]).0 != name by {
            assert(after[j] == entries[j]);
        }
    }
    if other != name {
        let before = place_of(entries, other, 0);
        let now = place_of(after, other, 0);
        if before < entries.len() {
            assert(after[before] == entries[before]);
            if now < before {
                assert(after[now] == entries[now] || now == place);
            }
        } else if now < after.len() {
            assert(now != place);
            assert(after[now] == entries[now]);
        }
    }
    assert forall|i: int, j: int| 0 <= i < j < after.len() implies (#[trigger] after[i]).0 != (
    #[trigger] after[j]).0 by {
        if i == place {
            if j < entries.len() {
                assert(entries[i].0 != entries[j].0);
            }
        } else if j == place {
            if place < entries.len() {
                assert(entries[i].0 != entries[j].0);
            } else {
                assert(entries[i].0 != name);
            }
        } else {
            assert(entries[i].0 != entries[j].0);
        }
    }
}

impl RuntimeVariables {
    /// The variables, by the order in which they were first set.
    pub fn entries(&self) -> (r: &[(String, Vec<u8>)])
        ensures
            entry_models(r@) == self@,
    {
        self.entries.as_slice()
    }

    fn find(&self, name: &str) -> (r: usize)
        ensures
            r == place_of(self@, name@, 0),
            r <= self@.len(),
    {
        let mut i: usize = 0;
        while i < self.entries.len() && !same_text(self.entries[i].0.as_str(), name)
            invariant
                i <= self.entries@.len(),
                self@.len() == self.entries@.len(),
                forall|j: int|
                    0 <= j < self.entries@.len() ==> (#[trigger] self@[j]).0
                        == self.entries@[j].0@,
                place_of(self@, name@, 0) == place_of(self@, name@, i as int),
            decreases self.entries.len() - i,
        {
            i = i + 1;
        }
        i
    }

    /// The value of a variable.
    pub fn get_bytes(&self, name: &str) -> (r: Option<&[u8]>)
        ensures
            match value_of(self@, name@) {
                Some(value) => r matches Some(found) && found@ == value,
                None => r is None,
            },
    {
        let place = self.find(name);
        if place < self.entries.len() {
            Some(self.entries[place].1.as_slice())
        } else {
            None
        }
    }

    /// The value of a variable, where it is text.
    pub fn get(&self, name: &str) -> (r: Option<String>)
        ensures
            match text_of(self@, name@) {
                Some(value) => r matches Some(found) && found@ == value,
                None => r is None,
            },
    {
        match self.get_bytes(name) {
            Some(bytes) => match string_from_utf8(slice_to_vec(bytes)) {
                Some(found) => {
                    proof {
                        encode_utf8_decode_utf8(found@);
                    }
                    Some(found)
                },
                None => None,
            },
            None => None,
        }
    }

    /// Sets a variable to these bytes.
    pub fn set_bytes(&mut self, name: &str, value: Vec<u8>)
        ensures
            final(self)@ == with_value(old(self)@, name@, value@),
    {
        let ghost before = self@;
        let place = self.find(name);
        if place < self.entries.len() {
            let _ = self.entries.remove(place);
            self.entries.insert(place, (name.to_owned(), value));
        } else {
            self.entries.push((name.to_owned(), value));
        }
        assert(self@ =~= with_value(before, name@, value@));
    }

    /// Sets a variable to a text.
    pub fn set(&mut self, name: &str, value: &str)
        ensures
            final(self)@ == with_value(old(self)@, name@, encode_utf8(value@)),
    {
        self.set_bytes(name, text_bytes(value));
    }
}

/// The variables that always have a value.
pub open spec fn default_variables() -> Seq<(Seq<char>, Seq<u8>)> {
    with_value(
        with_value(
            with_value(
                with_value(Seq::empty(), "LINEBUF"@, encode_utf8("2048"@)),
                "TIMEOUT"@,
                encode_utf8("960"@),
            ),
            "UMASK"@,
            encode_utf8("077"@),
        ),
        "LOCKEXT"@,
        encode_utf8(DEFAULT_LOCK_EXT@),
    )
}

impl Default for RuntimeVariables {
    fn default() -> (r: Self)
        ensures
            r@ == default_variables(),
    {
        let mut variables = RuntimeVariables { entries: Vec::new() };
        assert(variables@ =~= Seq::empty());
        variables.set("LINEBUF", "2048");
        variables.set("TIMEOUT", "960");
        variables.set("UMASK", "077");
        variables.set("LOCKEXT", DEFAULT_LOCK_EXT);
        variables
    }
}

} // verus!
