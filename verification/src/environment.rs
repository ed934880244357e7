//! The environment that commands run in, and the shell that may run them.

use vstd::prelude::*;
use vstd::slice::slice_to_vec;
use vstd::string::*;
use vstd::utf8::*;

use crate::config::arguments::{
    self, is_positional_parameter_name, MAX_POSITIONAL_ARGUMENTS,
};
use crate::config::variables::{
    self, assignment_value_limit, variable_policy, VariableSource,
};
use crate::config::{MAX_ASSIGNMENT_NAME_LEN, MAX_ASSIGNMENT_VALUE_LEN, MAX_SHELL_SETTING_LEN};
use crate::delivery::maildir::{self, split_path};
use crate::config::expression;
use crate::runtime::{self, RuntimeVariables};
use crate::text::{
    self, decimal_text, ends_with, has_char, is_variable_name, numbered, parse_usize, same_text,
    string_from_utf8, text3, text_bytes, text_len, to_chars,
};

verus! {

pub const DEFAULT_SHELL: &'static str = "/bin/sh";

pub const DEFAULT_SHELL_FLAGS: &'static str = "-c";

pub const DEFAULT_PATH: &'static str = "/usr/bin:/bin";

pub const MAX_CHILD_ENVIRONMENT_VARIABLES: usize = 512;

pub const MAX_CHILD_ENVIRONMENT_BYTES: usize = 256 * 1024;

/// What a command finds: its variables, and its arguments.
#[derive(Debug, PartialEq, Eq)]
pub struct ProcessEnvironment {
    values: Vec<(String, Vec<u8>)>,
    positional_arguments: Vec<Vec<u8>>,
}

pub struct EnvironmentModel {
    pub values: Seq<(Seq<char>, Seq<u8>)>,
    pub arguments: Seq<Seq<u8>>,
}

pub open spec fn byte_models(values: Seq<Vec<u8>>) -> Seq<Seq<u8>> {
    Seq::new(values.len(), |i: int| values[i]@)
}

impl View for ProcessEnvironment {
    type V = EnvironmentModel;

    closed spec fn view(&self) -> EnvironmentModel {
        EnvironmentModel {
            values: runtime::entry_models(self.values@),
            arguments: byte_models(self.positional_arguments@),
        }
    }
}

/// Why an environment could not be made.
#[derive(Debug, PartialEq, Eq)]
pub struct ProcessEnvironmentError {
    message: String,
}

impl View for ProcessEnvironmentError {
    type V = Seq<char>;

    closed spec fn view(&self) -> Seq<char> {
        self.message@
    }
}

impl ProcessEnvironmentError {
    fn new(message: String) -> (r: Self)
        ensures
            r@ == message@,
    {
        ProcessEnvironmentError { message }
    }

    pub fn message(&self) -> (r: &str)
        ensures
            r@ == self@,
    {
        self.message.as_str()
    }
}

/// How long the value of a variable may be in an environment.
pub open spec fn entry_limit(name: Seq<char>) -> usize {
    match variables::policy_of(name).target_for(VariableSource::RcFile) {
        Some(target) => variables::value_limit(target),
        None => MAX_ASSIGNMENT_VALUE_LEN,
    }
}

/// Why a variable cannot be in an environment.
pub open spec fn entry_fault(name: Seq<char>, value: Seq<u8>) -> Option<Seq<char>> {
    if text::byte_len(name) > MAX_ASSIGNMENT_NAME_LEN || !text::variable_name(name) {
        Some("child environment contains an invalid variable name"@)
    } else if value.contains(0u8) {
        Some("child environment variable "@ + name + " contains NUL"@)
    } else if value.len() > entry_limit(name) {
        Some(
            "child environment variable "@ + name + " exceeds the hard limit of "@ + text::decimal(
                entry_limit(name) as nat,
            ) + " bytes"@,
        )
    } else {
        None
    }
}

fn has_nul(bytes: &[u8]) -> (r: bool)
    ensures
        r == bytes@.contains(0u8),
{
    let mut i: usize = 0;
    while i < bytes.len()
        invariant
            i <= bytes@.len(),
            forall|j: int| 0 <= j < i ==> #[trigger] bytes@[j] != 0,
        decreases bytes.len() - i,
    {
        if bytes[i] == 0 {
            assert(bytes@[i as int] == 0u8);
            return true;
        }
        i = i + 1;
    }
    false
}

fn validate_entry(name: &str, value: &[u8]) -> (r: Result<(), ProcessEnvironmentError>)
    ensures
        match entry_fault(name@, value@) {
            Some(message) => r matches Err(error) && error@ == message,
            None => r is Ok,
        },
{
    let chars = to_chars(name);
    if text_len(name) > MAX_ASSIGNMENT_NAME_LEN || !is_variable_name(chars.as_slice()) {
        return Err(
            ProcessEnvironmentError::new(
                "child environment contains an invalid variable name".to_owned(),
            ),
        );
    }
    if has_nul(value) {
        return Err(
            ProcessEnvironmentError::new(
                text3("child environment variable ", name, " contains NUL"),
            ),
        );
    }
    let limit = match variable_policy(name).assignment_target(VariableSource::RcFile) {
        Some(target) => assignment_value_limit(target),
        None => MAX_ASSIGNMENT_VALUE_LEN,
    };
    if value.len() > limit {
        let start = text3("child environment variable ", name, " exceeds the hard limit of ");
        return Err(ProcessEnvironmentError::new(numbered(start.as_str(), limit, " bytes")));
    }
    Ok(())
}

/// The variables of an environment that come from the first `n` of a
/// message's. Arguments do not become variables.
pub open spec fn passed_on(entries: Seq<(Seq<char>, Seq<u8>)>, n: nat) -> Result<
    Seq<(Seq<char>, Seq<u8>)>,
    Seq<char>,
>
    decreases n,
{
    if n == 0 || n > entries.len() {
        Ok(Seq::empty())
    } else {
        let (name, value) = entries[n - 1];
        match passed_on(entries, (n - 1) as nat) {
            Err(message) => Err(message),
            Ok(before) => if arguments::positional_name(name) {
                Ok(before)
            } else {
                match entry_fault(name, value) {
                    Some(message) => Err(message),
                    None => Ok(before.push((name, value))),
                }
            },
        }
    }
}

proof fn lemma_first_entry_fault(entries: Seq<(Seq<char>, Seq<u8>)>, n: nat, m: nat)
    requires
        n <= m <= entries.len(),
        passed_on(entries, n) is Err,
    ensures
        passed_on(entries, m) == passed_on(entries, n),
    decreases m,
{
    if n < m {
        lemma_first_entry_fault(entries, n, (m - 1) as nat);
    }
}

/// The variables, with one for a name that has none.
pub open spec fn with_default(
    values: Seq<(Seq<char>, Seq<u8>)>,
    name: Seq<char>,
    value: Seq<char>,
) -> Seq<(Seq<char>, Seq<u8>)> {
    if runtime::value_of(values, name) is Some {
        values
    } else {
        values.push((name, encode_utf8(value)))
    }
}

/// The variables, with those that every command finds.
pub open spec fn with_defaults(values: Seq<(Seq<char>, Seq<u8>)>) -> Seq<(Seq<char>, Seq<u8>)> {
    with_default(
        with_default(
            with_default(values, "SHELL"@, DEFAULT_SHELL@),
            "SHELLFLAGS"@,
            DEFAULT_SHELL_FLAGS@,
        ),
        "PATH"@,
        DEFAULT_PATH@,
    )
}

/// How many bytes the first `n` variables take, or what is wrong with that.
pub open spec fn size_of(values: Seq<(Seq<char>, Seq<u8>)>, n: nat) -> Result<nat, Seq<char>>
    decreases n,
{
    if n == 0 || n > values.len() {
        Ok(0)
    } else {
        match size_of(values, (n - 1) as nat) {
            Err(message) => Err(message),
            Ok(before) => {
                let size = before + text::byte_len(values[n - 1].0) + values[n - 1].1.len() + 2;
                if size > usize::MAX {
                    Err("child environment size overflows"@)
                } else if size > MAX_CHILD_ENVIRONMENT_BYTES {
                    Err(
                        "child environment exceeds the hard limit of "@ + text::decimal(
                            MAX_CHILD_ENVIRONMENT_BYTES as nat,
                        ) + " bytes"@,
                    )
                } else {
                    Ok(size)
                }
            },
        }
    }
}

proof fn lemma_first_size_fault(values: Seq<(Seq<char>, Seq<u8>)>, n: nat, m: nat)
    requires
        n <= m <= values.len(),
        size_of(values, n) is Err,
    ensures
        size_of(values, m) == size_of(values, n),
    decreases m,
{
    if n < m {
        lemma_first_size_fault(values, n, (m - 1) as nat);
    }
}

/// What is wrong with the variables taken together.
pub open spec fn aggregate_fault(values: Seq<(Seq<char>, Seq<u8>)>) -> Option<Seq<char>> {
    if values.len() > MAX_CHILD_ENVIRONMENT_VARIABLES {
        Some(
            "child environment variable count exceeds the hard limit of "@ + text::decimal(
                MAX_CHILD_ENVIRONMENT_VARIABLES as nat,
            ),
        )
    } else {
        match size_of(values, values.len()) {
            Err(message) => Some(message),
            Ok(_) => None,
        }
    }
}

fn validate_aggregate(values: &Vec<(String, Vec<u8>)>) -> (r: Result<(), ProcessEnvironmentError>)
    ensures
        match aggregate_fault(runtime::entry_models(values@)) {
            Some(message) => r matches Err(error) && error@ == message,
            None => r is Ok,
        },
{
    let ghost models = runtime::entry_models(values@);
    if values.len() > MAX_CHILD_ENVIRONMENT_VARIABLES {
        return Err(
            ProcessEnvironmentError::new(
                text::counted(
                    "child environment variable count exceeds the hard limit of ",
                    MAX_CHILD_ENVIRONMENT_VARIABLES,
                ),
            ),
        );
    }
    let mut size: usize = 0;
    let mut i: usize = 0;
    while i < values.len()
        invariant
            i <= values@.len() <= MAX_CHILD_ENVIRONMENT_VARIABLES,
            models == runtime::entry_models(values@),
            size <= MAX_CHILD_ENVIRONMENT_BYTES,
            size_of(models, i as nat) == Ok::<nat, Seq<char>>(size as nat),
        decreases values.len() - i,
    {
        assert(models[i as int] == (values@[i as int].0@, values@[i as int].1@));
        let longer = match size.checked_add(text_len(values[i].0.as_str())) {
            Some(named) => match named.checked_add(values[i].1.len()) {
                Some(full) => full.checked_add(2),
                None => None,
            },
            None => None,
        };
        match longer {
            None => {
                proof {
                    lemma_first_size_fault(models, (i + 1) as nat, models.len());
                }
                return Err(
                    ProcessEnvironmentError::new("child environment size overflows".to_owned()),
                );
            },
            Some(total) => {
                if total > MAX_CHILD_ENVIRONMENT_BYTES {
                    proof {
                        lemma_first_size_fault(models, (i + 1) as nat, models.len());
                    }
                    return Err(
                        ProcessEnvironmentError::new(
                            numbered(
                                "child environment exceeds the hard limit of ",
                                MAX_CHILD_ENVIRONMENT_BYTES,
                                " bytes",
                            ),
                        ),
                    );
                }
                size = total;
            },
        }
        i = i + 1;
    }
    Ok(())
}

/// How many arguments there are, or what is wrong with their number.
pub open spec fn argument_count(entries: Seq<(Seq<char>, Seq<u8>)>) -> Result<nat, Seq<char>> {
    let shown = match runtime::text_of(entries, "#"@) {
        Some(value) => value,
        None => "0"@,
    };
    match text::unsigned_number(shown, usize::MAX as nat) {
        None => Err("invalid positional argument count"@),
        Some(count) => if count > MAX_POSITIONAL_ARGUMENTS {
            Err("positional argument count exceeds its hard limit"@)
        } else {
            Ok(count)
        },
    }
}

/// The argument of this number, empty where it has no value.
pub open spec fn argument_of(entries: Seq<(Seq<char>, Seq<u8>)>, n: nat) -> Seq<u8> {
    match runtime::value_of(entries, text::decimal(n)) {
        Some(value) => value,
        None => Seq::empty(),
    }
}

/// The first `n` arguments, or what is wrong with one.
pub open spec fn arguments_of(entries: Seq<(Seq<char>, Seq<u8>)>, n: nat) -> Result<
    Seq<Seq<u8>>,
    Seq<char>,
>
    decreases n,
{
    if n == 0 {
        Ok(Seq::empty())
    } else {
        match arguments_of(entries, (n - 1) as nat) {
            Err(message) => Err(message),
            Ok(before) => if argument_of(entries, n).contains(0u8) {
                Err("positional argument contains NUL"@)
            } else {
                Ok(before.push(argument_of(entries, n)))
            },
        }
    }
}

proof fn lemma_first_argument_fault(entries: Seq<(Seq<char>, Seq<u8>)>, n: nat, m: nat)
    requires
        n <= m,
        arguments_of(entries, n) is Err,
    ensures
        arguments_of(entries, m) == arguments_of(entries, n),
    decreases m,
{
    if n < m {
        lemma_first_argument_fault(entries, n, (m - 1) as nat);
    }
}

/// The environment that these variables make.
pub open spec fn environment_of(entries: Seq<(Seq<char>, Seq<u8>)>) -> Result<
    EnvironmentModel,
    Seq<char>,
> {
    match passed_on(entries, entries.len()) {
        Err(message) => Err(message),
        Ok(passed) => {
            let values = with_defaults(passed);
            match aggregate_fault(values) {
                Some(message) => Err(message),
                None => match argument_count(entries) {
                    Err(message) => Err(message),
                    Ok(count) => match arguments_of(entries, count) {
                        Err(message) => Err(message),
                        Ok(arguments) => Ok(EnvironmentModel { values, arguments }),
                    },
                },
            }
        },
    }
}

/// Where a name stands among values: at the end, where it does not.
fn find_value(values: &Vec<(String, Vec<u8>)>, name: &str) -> (r: usize)
    ensures
        r == runtime::place_of(runtime::entry_models(values@), name@, 0),
        r <= values@.len(),
{
    let ghost models = runtime::entry_models(values@);
    let mut i: usize = 0;
    while i < values.len() && !same_text(values[i].0.as_str(), name)
        invariant
            i <= values@.len(),
            models == runtime::entry_models(values@),
            forall|j: int| 0 <= j < values@.len() ==> (#[trigger] models[j]).0 == values@[j].0@,
            runtime::place_of(models, name@, 0) == runtime::place_of(models, name@, i as int),
        decreases values.len() - i,
    {
        i = i + 1;
    }
    i
}

fn insert_default(values: &mut Vec<(String, Vec<u8>)>, name: &str, value: &str)
    ensures
        runtime::entry_models(final(values)@) == with_default(
            runtime::entry_models(old(values)@),
            name@,
            value@,
        ),
{
    let ghost before = values@;
    if find_value(values, name) >= values.len() {
        let entry = (name.to_owned(), text_bytes(value));
        values.push(entry);
        assert(runtime::entry_models(values@) =~= runtime::entry_models(before).push(
            (name@, encode_utf8(value@)),
        ));
    }
}

/// Passes a message's variables on.
fn pass_on(variables: &RuntimeVariables) -> (r: Result<
    Vec<(String, Vec<u8>)>,
    ProcessEnvironmentError,
>)
    ensures
        match passed_on(variables@, variables@.len()) {
            Ok(values) => r matches Ok(found) && runtime::entry_models(found@) == values,
            Err(message) => r matches Err(error) && error@ == message,
        },
{
    let entries = variables.entries();
    let ghost models = runtime::entry_models(entries@);
    let mut values: Vec<(String, Vec<u8>)> = Vec::new();
    assert(runtime::entry_models(values@) =~= Seq::empty());
    let mut i: usize = 0;
    while i < entries.len()
        invariant
            i <= entries@.len(),
            models == runtime::entry_models(entries@),
            models == variables@,
            passed_on(models, i as nat) == Ok::<Seq<(Seq<char>, Seq<u8>)>, Seq<char>>(
                runtime::entry_models(values@),
            ),
        decreases entries.len() - i,
    {
        assert(models[i as int] == (entries@[i as int].0@, entries@[i as int].1@));
        let name = entries[i].0.as_str();
        if !is_positional_parameter_name(name) {
            match validate_entry(name, entries[i].1.as_slice()) {
                Ok(()) => {},
                Err(error) => {
                    proof {
                        lemma_first_entry_fault(models, (i + 1) as nat, models.len());
                    }
                    return Err(error);
                },
            }
            let ghost before = values@;
            let entry = (entries[i].0.clone(), slice_to_vec(entries[i].1.as_slice()));
            values.push(entry);
            assert(runtime::entry_models(values@) =~= runtime::entry_models(before).push(
                models[i as int],
            ));
        }
        i = i + 1;
    }
    Ok(values)
}

/// Collects the arguments.
fn collect_arguments(variables: &RuntimeVariables) -> (r: Result<
    Vec<Vec<u8>>,
    ProcessEnvironmentError,
>)
    ensures
        match argument_count(variables@) {
            Err(message) => r matches Err(error) && error@ == message,
            Ok(count) => match arguments_of(variables@, count) {
                Err(message) => r matches Err(error) && error@ == message,
                Ok(arguments) => r matches Ok(found) && byte_models(found@) == arguments,
            },
        },
{
    let shown = match variables.get("#") {
        Some(value) => value,
        None => "0".to_owned(),
    };
    let chars = to_chars(shown.as_str());
    let count = match parse_usize(chars.as_slice()) {
        Some(count) => count,
        None => {
            return Err(
                ProcessEnvironmentError::new("invalid positional argument count".to_owned()),
            );
        },
    };
    if count > MAX_POSITIONAL_ARGUMENTS {
        return Err(
            ProcessEnvironmentError::new(
                "positional argument count exceeds its hard limit".to_owned(),
            ),
        );
    }
    let mut collected: Vec<Vec<u8>> = Vec::new();
    assert(byte_models(collected@) =~= Seq::empty());
    let mut index: usize = 0;
    while index < count
        invariant
            index <= count <= MAX_POSITIONAL_ARGUMENTS,
            argument_count(variables@) == Ok::<nat, Seq<char>>(count as nat),
            arguments_of(variables@, index as nat) == Ok::<Seq<Seq<u8>>, Seq<char>>(
                byte_models(collected@),
            ),
        decreases count - index,
    {
        index = index + 1;
        let name = decimal_text(index);
        let value = match variables.get_bytes(name.as_str()) {
            Some(bytes) => slice_to_vec(bytes),
            None => Vec::new(),
        };
        assert(value@ =~= argument_of(variables@, index as nat));
        if has_nul(value.as_slice()) {
            proof {
                lemma_first_argument_fault(variables@, index as nat, count as nat);
            }
            return Err(
                ProcessEnvironmentError::new("positional argument contains NUL".to_owned()),
            );
        }
        let ghost before = collected@;
        collected.push(value);
        assert(byte_models(collected@) =~= byte_models(before).push(value@));
    }
    Ok(collected)
}

impl ProcessEnvironment {
    /// Makes the environment of a message's commands. Nothing of the
    /// environment of this process goes into it.
    pub fn from_runtime(variables: &RuntimeVariables) -> (r: Result<Self, ProcessEnvironmentError>)
        ensures
            match environment_of(variables@) {
                Ok(model) => r matches Ok(found) && found@ == model,
                Err(message) => r matches Err(error) && error@ == message,
            },
    {
        let mut values = match pass_on(variables) {
            Ok(values) => values,
            Err(error) => {
                return Err(error);
            },
        };
        insert_default(&mut values, "SHELL", DEFAULT_SHELL);
        insert_default(&mut values, "SHELLFLAGS", DEFAULT_SHELL_FLAGS);
        insert_default(&mut values, "PATH", DEFAULT_PATH);
        match validate_aggregate(&values) {
            Ok(()) => {},
            Err(error) => {
                return Err(error);
            },
        }
        match collect_arguments(variables) {
            Ok(positional_arguments) => Ok(ProcessEnvironment { values, positional_arguments }),
            Err(error) => Err(error),
        }
    }

    /// The value of a variable, where it is text.
    pub fn get(&self, name: &str) -> (r: Option<String>)
        ensures
            match runtime::text_of(self@.values, name@) {
                Some(value) => r matches Some(found) && found@ == value,
                None => r is None,
            },
    {
        let place = find_value(&self.values, name);
        if place >= self.values.len() {
            return None;
        }
        match string_from_utf8(slice_to_vec(self.values[place].1.as_slice())) {
            Some(found) => {
                proof {
                    encode_utf8_decode_utf8(found@);
                }
                Some(found)
            },
            None => None,
        }
    }

    /// The variables.
    pub fn values(&self) -> (r: &[(String, Vec<u8>)])
        ensures
            runtime::entry_models(r@) == self@.values,
    {
        self.values.as_slice()
    }

    /// The arguments.
    pub fn positional_arguments(&self) -> (r: &[Vec<u8>])
        ensures
            byte_models(r@) == self@.arguments,
    {
        self.positional_arguments.as_slice()
    }
}

/// Which shell may run commands.
#[derive(Debug, PartialEq, Eq)]
pub struct ShellPolicy {
    approved_path: Option<String>,
}

impl View for ShellPolicy {
    type V = Option<Seq<char>>;

    closed spec fn view(&self) -> Option<Seq<char>> {
        crate::config::recipe::optional_text(self.approved_path)
    }
}

/// A shell that may run a command, and its flags.
#[derive(Debug, PartialEq, Eq)]
pub struct ShellInvocation {
    path: String,
    flags: String,
}

impl ShellInvocation {
    pub closed spec fn shell(&self) -> (Seq<char>, Seq<char>) {
        (self.path@, self.flags@)
    }

    pub fn path(&self) -> (r: &str)
        ensures
            r@ == self.shell().0,
    {
        self.path.as_str()
    }

    pub fn flags(&self) -> (r: &str)
        ensures
            r@ == self.shell().1,
    {
        self.flags.as_str()
    }
}

/// Why a shell may not run a command.
#[derive(Debug, PartialEq, Eq)]
pub struct ShellPolicyError {
    message: String,
}

impl View for ShellPolicyError {
    type V = Seq<char>;

    closed spec fn view(&self) -> Seq<char> {
        self.message@
    }
}

impl ShellPolicyError {
    fn told(message: &str) -> (r: Self)
        ensures
            r@ == message@,
    {
        ShellPolicyError { message: message.to_owned() }
    }

    pub fn message(&self) -> (r: &str)
        ensures
            r@ == self@,
    {
        self.message.as_str()
    }
}

/// Whether a piece of a path names an entry and nothing else.
pub open spec fn plain_pieces(pieces: Seq<Seq<char>>) -> bool {
    forall|i: int| 0 <= i < pieces.len() ==> maildir::names_entry(#[trigger] pieces[i])
}

/// Why a path is not one that a shell may have.
pub open spec fn shell_path_fault(path: Seq<char>) -> Option<Seq<char>> {
    if path.len() == 0 || text::byte_len(path) > MAX_SHELL_SETTING_LEN || path.contains('\0') {
        Some("approved shell must be a non-empty bounded path without NUL"@)
    } else if path[0] != '/' || text::closes_with(path, '/') || !plain_pieces(
        maildir::segments(text::rest_of(path), 0),
    ) {
        Some("approved shell must be an absolute path without '.' or '..' components"@)
    } else {
        None
    }
}

fn validate_shell_path(path: &str) -> (r: Result<(), ShellPolicyError>)
    ensures
        match shell_path_fault(path@) {
            Some(message) => r matches Err(error) && error@ == message,
            None => r is Ok,
        },
{
    let chars = to_chars(path);
    if chars.len() == 0 || text_len(path) > MAX_SHELL_SETTING_LEN || has_char(
        chars.as_slice(),
        '\0',
    ) {
        return Err(
            ShellPolicyError::told("approved shell must be a non-empty bounded path without NUL"),
        );
    }
    let mut valid = chars[0] == '/' && !ends_with(chars.as_slice(), '/');
    let pieces = split_path(vstd::slice::slice_subrange(chars.as_slice(), 1, chars.len()));
    let ghost models = expression::texts(pieces@);
    let ghost outer = path@[0] == '/' && !text::closes_with(path@, '/');
    let mut i: usize = 0;
    while i < pieces.len()
        invariant
            i <= pieces@.len(),
            path@.len() > 0,
            models == expression::texts(pieces@),
            models == maildir::segments(text::rest_of(path@), 0),
            outer == (path@[0] == '/' && !text::closes_with(path@, '/')),
            valid == (outer && forall|j: int|
                0 <= j < i ==> maildir::names_entry(#[trigger] models[j])),
        decreases pieces.len() - i,
    {
        assert(models[i as int] == pieces@[i as int]@);
        let piece = pieces[i].as_str();
        if piece.is_empty() || same_text(piece, ".") || same_text(piece, "..") {
            assert(!maildir::names_entry(models[i as int]));
            valid = false;
        }
        i = i + 1;
    }
    if !valid {
        return Err(
            ShellPolicyError::told(
                "approved shell must be an absolute path without '.' or '..' components",
            ),
        );
    }
    Ok(())
}

/// Which shell runs a command, and with which flags.
pub open spec fn authorized(approved: Option<Seq<char>>, environment: EnvironmentModel) -> Result<
    (Seq<char>, Seq<char>),
    Seq<char>,
> {
    match approved {
        None => Err("shell execution is disabled by operator policy"@),
        Some(path) => if runtime::text_of(environment.values, "SHELL"@) != Some(path) {
            Err("configured SHELL does not match the operator-approved shell"@)
        } else {
            Ok((path, runtime::text_of(environment.values, "SHELLFLAGS"@)->0))
        },
    }
}

impl ShellPolicy {
    /// No shell may run commands.
    pub fn disabled() -> (r: Self)
        ensures
            r@ is None,
    {
        ShellPolicy { approved_path: None }
    }

    /// The shell at this path may run commands.
    pub fn approve(path: &str) -> (r: Result<Self, ShellPolicyError>)
        ensures
            match shell_path_fault(path@) {
                Some(message) => r matches Err(error) && error@ == message,
                None => r matches Ok(policy) && policy@ == Some(path@),
            },
    {
        match validate_shell_path(path) {
            Ok(()) => Ok(ShellPolicy { approved_path: Some(path.to_owned()) }),
            Err(error) => Err(error),
        }
    }

    /// The shell that runs the commands of an environment, where it is the one
    /// that may.
    pub fn authorize(&self, environment: &ProcessEnvironment) -> (r: Result<
        ShellInvocation,
        ShellPolicyError,
    >)
        requires
            self@ matches Some(approved) ==> {
                &&& runtime::text_of(environment@.values, "SHELL"@) is Some
                &&& runtime::text_of(environment@.values, "SHELL"@)->0 == approved
                    ==> runtime::text_of(environment@.values, "SHELLFLAGS"@) is Some
            },
        ensures
            match authorized(self@, environment@) {
                Ok(shell) => r matches Ok(found) && found.shell() == shell,
                Err(message) => r matches Err(error) && error@ == message,
            },
    {
        let approved = match &self.approved_path {
            Some(path) => path,
            None => {
                return Err(
                    ShellPolicyError::told("shell execution is disabled by operator policy"),
                );
            },
        };
        let configured = match environment.get("SHELL") {
            Some(configured) => configured,
            None => String::new(),
        };
        if !same_text(configured.as_str(), approved.as_str()) {
            return Err(
                ShellPolicyError::told(
                    "configured SHELL does not match the operator-approved shell",
                ),
            );
        }
        let flags = match environment.get("SHELLFLAGS") {
            Some(flags) => flags,
            None => String::new(),
        };
        Ok(ShellInvocation { path: configured, flags })
    }
}

proof fn lemma_default_is_there(
    values: Seq<(Seq<char>, Seq<u8>)>,
    name: Seq<char>,
    default_name: Seq<char>,
    value: Seq<char>,
)
    requires
        runtime::value_of(values, name) is Some || name == default_name,
    ensures
        runtime::value_of(with_default(values, default_name, value), name) is Some,
{
    let after = with_default(values, default_name, value);
    lemma_found(after, name, 0);
    if runtime::value_of(values, name) is Some {
        lemma_found(values, name, 0);
        let place = runtime::place_of(values, name, 0);
        assert(after[place] == values[place]);
    } else {
        assert(after[values.len() as int].0 == name);
    }
}

proof fn lemma_found(values: Seq<(Seq<char>, Seq<u8>)>, name: Seq<char>, i: int)
    requires
        0 <= i <= values.len(),
    ensures
        i <= runtime::place_of(values, name, i) <= values.len(),
        runtime::place_of(values, name, i) < values.len() ==> values[runtime::place_of(
            values,
            name,
            i,
        )].0 == name,
        forall|j: int| i <= j < runtime::place_of(values, name, i) ==> (#[trigger] values[j]).0
            != name,
    decreases values.len() - i,
{
    if i < values.len() && values[i].0 != name {
        lemma_found(values, name, i + 1);
    }
}

/// Every environment has a shell, flags for it, and a search path.
pub proof fn every_environment_has_a_shell(entries: Seq<(Seq<char>, Seq<u8>)>)
    requires
        environment_of(entries) is Ok,
    ensures
        ({
            let values = environment_of(entries)->Ok_0.values;
            &&& runtime::value_of(values, "SHELL"@) is Some
            &&& runtime::value_of(values, "SHELLFLAGS"@) is Some
            &&& runtime::value_of(values, "PATH"@) is Some
        }),
{
    let passed = passed_on(entries, entries.len())->Ok_0;
    let one = with_default(passed, "SHELL"@, DEFAULT_SHELL@);
    let two = with_default(one, "SHELLFLAGS"@, DEFAULT_SHELL_FLAGS@);
    lemma_default_is_there(passed, "SHELL"@, "SHELL"@, DEFAULT_SHELL@);
    lemma_default_is_there(one, "SHELL"@, "SHELLFLAGS"@, DEFAULT_SHELL_FLAGS@);
    lemma_default_is_there(two, "SHELL"@, "PATH"@, DEFAULT_PATH@);
    lemma_default_is_there(one, "SHELLFLAGS"@, "SHELLFLAGS"@, DEFAULT_SHELL_FLAGS@);
    lemma_default_is_there(two, "SHELLFLAGS"@, "PATH"@, DEFAULT_PATH@);
    lemma_default_is_there(two, "PATH"@, "PATH"@, DEFAULT_PATH@);
}

/// No command finds more variables or more bytes than its environment may
/// hold.
pub proof fn environments_are_bounded(entries: Seq<(Seq<char>, Seq<u8>)>)
    requires
        environment_of(entries) is Ok,
    ensures
        ({
            let environment = environment_of(entries)->Ok_0;
            &&& environment.values.len() <= MAX_CHILD_ENVIRONMENT_VARIABLES
            &&& size_of(environment.values, environment.values.len()) is Ok
            &&& size_of(environment.values, environment.values.len())->Ok_0
                <= MAX_CHILD_ENVIRONMENT_BYTES
            &&& environment.arguments.len() <= MAX_POSITIONAL_ARGUMENTS
        }),
{
    let environment = environment_of(entries)->Ok_0;
    assert(size_of(environment.values, environment.values.len()) is Ok);
    lemma_argument_number(entries, argument_count(entries)->Ok_0);
}

proof fn lemma_argument_number(entries: Seq<(Seq<char>, Seq<u8>)>, n: nat)
    requires
        arguments_of(entries, n) is Ok,
    ensures
        arguments_of(entries, n)->Ok_0.len() == n,
    decreases n,
{
    if n > 0 {
        lemma_argument_number(entries, (n - 1) as nat);
    }
}

/// A command finds nothing but what the message's variables and the defaults
/// give it.
pub proof fn environments_hold_nothing_else(entries: Seq<(Seq<char>, Seq<u8>)>, i: int)
    requires
        environment_of(entries) is Ok,
        0 <= i < environment_of(entries)->Ok_0.values.len(),
    ensures
        ({
            let value = environment_of(entries)->Ok_0.values[i];
            ||| entries.contains(value)
            ||| value == ("SHELL"@, encode_utf8(DEFAULT_SHELL@))
            ||| value == ("SHELLFLAGS"@, encode_utf8(DEFAULT_SHELL_FLAGS@))
            ||| value == ("PATH"@, encode_utf8(DEFAULT_PATH@))
        }),
{
    let passed = passed_on(entries, entries.len())->Ok_0;
    lemma_passed_on(entries, entries.len());
    let values = environment_of(entries)->Ok_0.values;
    if i < passed.len() {
        assert(values[i] == passed[i]);
    }
}

proof fn lemma_passed_on(entries: Seq<(Seq<char>, Seq<u8>)>, n: nat)
    requires
        n <= entries.len(),
        passed_on(entries, n) is Ok,
    ensures
        forall|i: int|
            0 <= i < passed_on(entries, n)->Ok_0.len() ==> entries.contains(
                #[trigger] passed_on(entries, n)->Ok_0[i],
            ),
    decreases n,
{
    if n > 0 {
        lemma_passed_on(entries, (n - 1) as nat);
        let before = passed_on(entries, (n - 1) as nat)->Ok_0;
        let after = passed_on(entries, n)->Ok_0;
        assert forall|i: int| 0 <= i < after.len() implies entries.contains(
            #[trigger] after[i],
        ) by {
            if i < before.len() {
                assert(after[i] == before[i]);
            } else {
                assert(after[i] == entries[n - 1]);
            }
        }
    }
}

} // verus!
