//! Positional arguments.

use vstd::prelude::*;
use vstd::string::*;

use crate::config::expression;
use crate::config::variables;
use crate::text::{self, counted, numbered, parse_usize, same_text, text_len, to_chars, is_ascii_digit};

verus! {

pub const MAX_POSITIONAL_ARGUMENTS: usize = 256;

pub const MAX_POSITIONAL_ARGUMENT_LEN: usize = 64 * 1024;

pub const MAX_POSITIONAL_ARGUMENT_BYTES: usize = 256 * 1024;

/// The arguments that a caller passed, in order.
#[derive(Debug, PartialEq, Eq)]
pub struct PositionalArguments {
    values: Vec<String>,
    bytes: usize,
}

/// Why an argument was refused.
#[derive(Debug, PartialEq, Eq)]
pub struct PositionalArgumentError {
    message: String,
}

impl View for PositionalArgumentError {
    type V = Seq<char>;

    closed spec fn view(&self) -> Seq<char> {
        self.message@
    }
}

impl PositionalArgumentError {
    pub fn message(&self) -> (r: &str)
        ensures
            r@ == self@,
    {
        self.message.as_str()
    }
}

impl View for PositionalArguments {
    type V = Seq<Seq<char>>;

    closed spec fn view(&self) -> Seq<Seq<char>> {
        expression::texts(self.values@)
    }
}

/// How many bytes the first `n` texts take together.
pub open spec fn total_bytes(texts: Seq<Seq<char>>, n: nat) -> nat
    decreases n,
{
    if n == 0 || n > texts.len() {
        0
    } else {
        total_bytes(texts, (n - 1) as nat) + text::byte_len(texts[n - 1])
    }
}

proof fn lemma_total_prefix(a: Seq<Seq<char>>, b: Seq<Seq<char>>, n: nat)
    requires
        n <= a.len(),
        n <= b.len(),
        forall|i: int| 0 <= i < n ==> a[i] == b[i],
    ensures
        total_bytes(a, n) == total_bytes(b, n),
    decreases n,
{
    if n > 0 {
        lemma_total_prefix(a, b, (n - 1) as nat);
    }
}

impl PositionalArguments {
    /// The arguments stay within their number and their size.
    pub closed spec fn wf(&self) -> bool {
        &&& self.bytes == total_bytes(self@, self@.len())
        &&& self.bytes <= MAX_POSITIONAL_ARGUMENT_BYTES
        &&& self@.len() <= MAX_POSITIONAL_ARGUMENTS
    }

    /// No arguments.
    pub fn new() -> (r: Self)
        ensures
            r.wf(),
            r@ == Seq::<Seq<char>>::empty(),
    {
        let none = PositionalArguments { values: Vec::new(), bytes: 0 };
        assert(none@ =~= Seq::<Seq<char>>::empty());
        none
    }

    /// Adds an argument behind the others, or refuses it and changes nothing.
    pub fn push(&mut self, value: String) -> (r: Result<(), PositionalArgumentError>)
        requires
            old(self).wf(),
        ensures
            final(self).wf(),
            match argument_fault(old(self)@, value@) {
                None => r is Ok && final(self)@ == old(self)@.push(value@),
                Some(message) => r matches Err(error) && error@ == message && final(self)@ == old(
                    self,
                )@,
            },
    {
        if self.values.len() == MAX_POSITIONAL_ARGUMENTS {
            return Err(
                PositionalArgumentError {
                    message: counted("too many -a/--argument values; hard limit is ", MAX_POSITIONAL_ARGUMENTS),
                },
            );
        }
        let length = text_len(value.as_str());
        if length > MAX_POSITIONAL_ARGUMENT_LEN {
            return Err(
                PositionalArgumentError {
                    message: numbered(
                        "-a/--argument value exceeds the hard limit of ",
                        MAX_POSITIONAL_ARGUMENT_LEN,
                        " bytes",
                    ),
                },
            );
        }
        let bytes: usize = self.bytes + length;
        if bytes > MAX_POSITIONAL_ARGUMENT_BYTES {
            return Err(
                PositionalArgumentError {
                    message: numbered(
                        "positional arguments exceed the aggregate hard limit of ",
                        MAX_POSITIONAL_ARGUMENT_BYTES,
                        " bytes",
                    ),
                },
            );
        }
        let ghost before = self@;
        self.values.push(value);
        self.bytes = bytes;
        proof {
            assert(self@ =~= before.push(value@));
            lemma_total_prefix(before, self@, before.len());
        }
        Ok(())
    }

    pub fn len(&self) -> (r: usize)
        ensures
            r == self@.len(),
    {
        self.values.len()
    }

    pub fn is_empty(&self) -> (r: bool)
        ensures
            r == (self@.len() == 0),
    {
        self.values.len() == 0
    }

    /// The argument at `index`, which counts from 0.
    pub fn get(&self, index: usize) -> (r: Option<&str>)
        ensures
            if index < self@.len() {
                r matches Some(value) && value@ == self@[index as int]
            } else {
                r is None
            },
    {
        if index < self.values.len() {
            Some(self.values[index].as_str())
        } else {
            None
        }
    }
}

/// However many arguments are offered, there are never more of them, nor more
/// bytes in all, than may be.
pub proof fn arguments_stay_within_their_limits(arguments: PositionalArguments)
    requires
        arguments.wf(),
    ensures
        arguments@.len() <= MAX_POSITIONAL_ARGUMENTS,
        total_bytes(arguments@, arguments@.len()) <= MAX_POSITIONAL_ARGUMENT_BYTES,
{
}

/// Why another argument is refused, if it is.
pub open spec fn argument_fault(arguments: Seq<Seq<char>>, value: Seq<char>) -> Option<Seq<char>> {
    if arguments.len() == MAX_POSITIONAL_ARGUMENTS {
        Some(
            "too many -a/--argument values; hard limit is "@ + text::decimal(
                MAX_POSITIONAL_ARGUMENTS as nat,
            ),
        )
    } else if text::byte_len(value) > MAX_POSITIONAL_ARGUMENT_LEN {
        Some(
            "-a/--argument value exceeds the hard limit of "@ + text::decimal(
                MAX_POSITIONAL_ARGUMENT_LEN as nat,
            ) + " bytes"@,
        )
    } else if total_bytes(arguments, arguments.len()) + text::byte_len(value)
        > MAX_POSITIONAL_ARGUMENT_BYTES {
        Some(
            "positional arguments exceed the aggregate hard limit of "@ + text::decimal(
                MAX_POSITIONAL_ARGUMENT_BYTES as nat,
            ) + " bytes"@,
        )
    } else {
        None
    }
}

/// The names of positional parameters: `#` and the numbers from 1 through
/// [`MAX_POSITIONAL_ARGUMENTS`].
pub open spec fn positional_name(name: Seq<char>) -> bool {
    ||| name == "#"@
    ||| name.len() > 0 && variables::all_digits(name) && (text::unsigned_number(
        name,
        usize::MAX as nat,
    ) matches Some(index) && 1 <= index <= MAX_POSITIONAL_ARGUMENTS)
}

/// Whether `name` names a positional parameter.
pub fn is_positional_parameter_name(name: &str) -> (r: bool)
    ensures
        r == positional_name(name@),
{
    if same_text(name, "#") {
        return true;
    }
    let chars = to_chars(name);
    if chars.len() == 0 {
        return false;
    }
    let mut i: usize = 0;
    while i < chars.len()
        invariant
            i <= chars@.len(),
            chars@ == name@,
            name@ != "#"@,
            forall|j: int| 0 <= j < i ==> text::ascii_digit(#[trigger] chars@[j]),
        decreases chars.len() - i,
    {
        if !is_ascii_digit(chars[i]) {
            assert(!text::ascii_digit(chars@[i as int]));
            return false;
        }
        i = i + 1;
    }
    match parse_usize(chars.as_slice()) {
        Some(index) => 1 <= index && index <= MAX_POSITIONAL_ARGUMENTS,
        None => false,
    }
}

} // verus!
