//! Evaluation of expressions: what they write, how deep the expansions behind
//! it go, and which variables they assign on the way.

use vstd::prelude::*;
use vstd::slice::slice_to_vec;
use vstd::string::*;
use vstd::utf8::*;

use crate::bounded_bytes::{self, BoundedBytes, BoundedBytesError};
use crate::config::errors::{self, ExpansionError, Fault};
use crate::config::expression::{
    self, ExpressionModel, OperationModel, ParameterOperation, PartModel, ShellExpression,
    ShellPart,
};
use crate::config::shell_pattern::{self, Edge, PatternError, Selection};
use crate::config::tables::{ExpandedValue, NameTable, ValueText};
use crate::config::variables::{self, variable_policy, VariablePolicy};
use crate::config::MAX_EXPANSION_DEPTH;
use crate::runtime::{self, RuntimeVariables};
use crate::text::{
    self, counted, decimal_text, from_chars, numbered, same_text, string_from_utf8, text3, text_bytes,
    to_chars,
};

verus! {

/// How the depth of a result is counted.
#[derive(Debug, Clone, Copy, PartialEq, Eq, Structural)]
pub enum EvaluationDepth {
    Uncounted,
    ExpansionChain,
    SyntaxNesting,
}

/// What an expression is evaluated for.
#[derive(Debug, Clone, Copy, PartialEq, Eq, Structural)]
pub enum Purpose {
    /// Values that are known before any message is read.
    Configuration,
    /// Text that a message's way through the recipes selects.
    RuntimeText,
    /// Bytes that a message's way through the recipes selects.
    RuntimeBytes,
    /// A condition that is expanded before it is read.
    ShellCondition,
}

/// Where the values of variables come from.
#[derive(Clone, Copy)]
pub enum Values<'a> {
    Known(&'a NameTable<ExpandedValue>),
    Text(TextValues<'a>),
    Bytes(&'a NameTable<Vec<u8>>),
}

/// Where the texts of variables come from.
#[derive(Clone, Copy)]
pub enum TextValues<'a> {
    Known(&'a NameTable<ExpandedValue>),
    Given(&'a NameTable<String>),
    Runtime(&'a RuntimeVariables),
}

/// The texts of known values.
pub open spec fn known_texts(values: Map<Seq<char>, ValueText>) -> Map<Seq<char>, Seq<char>> {
    values.map_values(|value: ValueText| value.text)
}

impl<'a> View for TextValues<'a> {
    type V = Map<Seq<char>, Seq<char>>;

    open spec fn view(&self) -> Map<Seq<char>, Seq<char>> {
        match self {
            TextValues::Known(table) => known_texts(table@),
            TextValues::Given(table) => table@,
            TextValues::Runtime(variables) => runtime::texts(variables@),
        }
    }
}

impl<'a> TextValues<'a> {
    /// The text of the variable `name`.
    pub fn get(&self, name: &str) -> (r: Option<String>)
        ensures
            r is Some == self@.contains_key(name@),
            r matches Some(text) ==> text@ == self@[name@],
    {
        match self {
            TextValues::Known(table) => match table.get(name) {
                Some(value) => Some(value.text.clone()),
                None => None,
            },
            TextValues::Given(table) => match table.get(name) {
                Some(value) => Some(value.clone()),
                None => None,
            },
            TextValues::Runtime(variables) => variables.get(name),
        }
    }
}

/// What an expression is evaluated in.
#[derive(Clone, Copy)]
pub struct EvaluationContext<'a> {
    pub purpose: Purpose,
    pub line: usize,
    pub values: Values<'a>,
}

/// The value of a variable, with how many expansions led to it.
pub struct VariableValue {
    pub bytes: Vec<u8>,
    pub depth: usize,
}

/// A variable's value as a sequence of bytes.
pub struct ValueBytes {
    pub bytes: Seq<u8>,
    pub depth: nat,
}

impl View for VariableValue {
    type V = ValueBytes;

    open spec fn view(&self) -> ValueBytes {
        ValueBytes { bytes: self.bytes@, depth: self.depth as nat }
    }
}

/// What evaluating an expression gives.
#[derive(Debug, PartialEq, Eq)]
pub struct EvaluationResult {
    pub bytes: Vec<u8>,
    pub depth: usize,
    pub assignments: Vec<(String, Vec<u8>)>,
}

/// What evaluating an expression gives, as sequences.
pub struct Evaluated {
    pub bytes: Seq<u8>,
    pub depth: nat,
    pub assignments: Seq<(Seq<char>, Seq<u8>)>,
}

pub open spec fn assignment_models(assignments: Seq<(String, Vec<u8>)>) -> Seq<
    (Seq<char>, Seq<u8>),
> {
    Seq::new(assignments.len(), |i: int| (assignments[i].0@, assignments[i].1@))
}

impl View for EvaluationResult {
    type V = Evaluated;

    open spec fn view(&self) -> Evaluated {
        Evaluated {
            bytes: self.bytes@,
            depth: self.depth as nat,
            assignments: assignment_models(self.assignments@),
        }
    }
}

/// An evaluation context with its values as a map.
pub struct ContextModel {
    pub purpose: Purpose,
    pub line: nat,
    pub values: Map<Seq<char>, ValueBytes>,
}

pub open spec fn known_bytes(values: Map<Seq<char>, ValueText>) -> Map<Seq<char>, ValueBytes> {
    values.map_values(
        |value: ValueText| ValueBytes { bytes: encode_utf8(value.text), depth: value.depth },
    )
}

pub open spec fn text_values(values: Map<Seq<char>, Seq<char>>) -> Map<Seq<char>, ValueBytes> {
    values.map_values(|text: Seq<char>| ValueBytes { bytes: encode_utf8(text), depth: 0 })
}

pub open spec fn byte_values(values: Map<Seq<char>, Seq<u8>>) -> Map<Seq<char>, ValueBytes> {
    values.map_values(|bytes: Seq<u8>| ValueBytes { bytes, depth: 0 })
}

impl<'a> View for Values<'a> {
    type V = Map<Seq<char>, ValueBytes>;

    open spec fn view(&self) -> Map<Seq<char>, ValueBytes> {
        match self {
            Values::Known(table) => known_bytes(table@),
            Values::Text(texts) => text_values(texts@),
            Values::Bytes(table) => byte_values(table@),
        }
    }
}

impl<'a> View for EvaluationContext<'a> {
    type V = ContextModel;

    open spec fn view(&self) -> ContextModel {
        ContextModel { purpose: self.purpose, line: self.line as nat, values: self.values@ }
    }
}

impl ContextModel {
    /// How this context counts depth.
    pub open spec fn depth_mode(self) -> EvaluationDepth {
        match self.purpose {
            Purpose::Configuration => EvaluationDepth::ExpansionChain,
            Purpose::RuntimeText => EvaluationDepth::SyntaxNesting,
            Purpose::RuntimeBytes | Purpose::ShellCondition => EvaluationDepth::Uncounted,
        }
    }

    /// The value of a variable.
    pub open spec fn value_of(self, name: Seq<char>) -> Option<ValueBytes> {
        if self.values.contains_key(name) {
            Some(self.values[name])
        } else {
            None
        }
    }

    /// The fault of a reference to a variable that has no value.
    pub open spec fn missing(self, name: Seq<char>) -> Fault {
        errors::fault(
            self.line,
            match self.purpose {
                Purpose::RuntimeText => "runtime variable "@ + name + " is not set"@,
                Purpose::Configuration => if variables::policy_of(name) is RuntimeOnly {
                    "runtime variable "@ + name + " is not available in this context"@
                } else {
                    "variable "@ + name + " is not defined"@
                },
                _ => "variable "@ + name + " is not defined"@,
            },
        )
    }

    /// The fault of a parameter that has to have a value and has none.
    pub open spec fn required(self, name: Seq<char>) -> Fault {
        errors::fault(self.line, "parameter "@ + name + " is unset or empty"@)
    }

    pub open spec fn pattern_fault(self, error: PatternError) -> Fault {
        errors::fault(self.line, pattern_message(error))
    }

    /// The fault of a command.
    pub open spec fn no_command(self) -> Fault {
        errors::fault(
            self.line,
            match self.purpose {
                Purpose::RuntimeText => "expression cannot be evaluated here"@,
                Purpose::ShellCondition => "command substitution requires ordered evaluation"@,
                _ => "expression is not valid in this context"@,
            },
        )
    }

    /// The fault of a quoted variable where there is no condition.
    pub open spec fn no_quoted_variable(self) -> Fault {
        errors::fault(
            self.line,
            match self.purpose {
                Purpose::RuntimeText => "expression cannot be evaluated here"@,
                _ => "expression is not valid in this context"@,
            },
        )
    }

    pub open spec fn depth_exceeded(self) -> Fault {
        depth_fault(self.line)
    }

    pub open spec fn depth_overflow(self) -> Fault {
        errors::fault(self.line, "variable expansion depth overflows"@)
    }
}

pub open spec fn depth_fault(line: nat) -> Fault {
    errors::fault(
        line,
        "variable expansion exceeds the hard depth limit of "@ + text::decimal(
            MAX_EXPANSION_DEPTH as nat,
        ),
    )
}

pub open spec fn pattern_message(error: PatternError) -> Seq<char> {
    match error {
        PatternError::TooComplex { attempted } => "shell pattern requires "@ + text::decimal(
            attempted as nat,
        ) + (" steps, exceeding the hard limit of "@ + text::decimal(
            shell_pattern::MAX_PATTERN_STEPS as nat,
        )),
    }
}

/// The fault of a result that outgrows `limit`.
pub open spec fn length_fault(line: nat, error: BoundedBytesError, limit: usize) -> Fault {
    errors::fault(
        line,
        match error {
            BoundedBytesError::LengthOverflow => "expanded value length overflows"@,
            BoundedBytesError::LimitExceeded { attempted } => limit_message(limit),
        },
    )
}

pub open spec fn limit_message(limit: usize) -> Seq<char> {
    "expanded value exceeds the hard limit of "@ + text::decimal(limit as nat) + " bytes"@
}

pub(crate) fn length_error(line: usize, error: BoundedBytesError, limit: usize) -> (r: ExpansionError)
    ensures
        r@ == length_fault(line as nat, error, limit),
{
    match error {
        BoundedBytesError::LengthOverflow => ExpansionError::told(
            line,
            "expanded value length overflows",
        ),
        BoundedBytesError::LimitExceeded { .. } => ExpansionError::new(
            line,
            numbered("expanded value exceeds the hard limit of ", limit, " bytes"),
        ),
    }
}

pub(crate) fn depth_error(line: usize) -> (r: ExpansionError)
    ensures
        r@ == depth_fault(line as nat),
{
    ExpansionError::new(
        line,
        counted("variable expansion exceeds the hard depth limit of ", MAX_EXPANSION_DEPTH),
    )
}

/// Appends the chunks from `i` on, one by one.
pub open spec fn extended_by(
    output: Seq<u8>,
    limit: usize,
    chunks: Seq<Seq<u8>>,
    i: int,
) -> Result<Seq<u8>, BoundedBytesError>
    decreases chunks.len() - i,
{
    if i < 0 || i >= chunks.len() {
        Ok(output)
    } else {
        match bounded_bytes::extension(output, limit, chunks[i]) {
            Ok(longer) => extended_by(longer, limit, chunks, i + 1),
            Err(error) => Err(error),
        }
    }
}

/// The bytes that mean something in a pattern: `*`, `?`, `[` and `\`.
pub open spec fn pattern_special(byte: u8) -> bool {
    byte == 42 || byte == 63 || byte == 91 || byte == 92
}

/// The bytes from `i` on, each behind a backslash where it means something in
/// a pattern.
pub open spec fn quoted_from(
    output: Seq<u8>,
    limit: usize,
    bytes: Seq<u8>,
    i: int,
) -> Result<Seq<u8>, BoundedBytesError>
    decreases bytes.len() - i,
{
    if i < 0 || i >= bytes.len() {
        Ok(output)
    } else {
        let before = if pattern_special(bytes[i]) {
            bounded_bytes::extension(output, limit, seq![92u8])
        } else {
            Ok(output)
        };
        match before {
            Ok(quoted) => match bounded_bytes::extension(quoted, limit, seq![bytes[i]]) {
                Ok(longer) => quoted_from(longer, limit, bytes, i + 1),
                Err(error) => Err(error),
            },
            Err(error) => Err(error),
        }
    }
}

/// What a nested result of at most `limit` bytes is, with every byte quoted
/// that means something in a pattern.
pub open spec fn pattern_quoted(context: ContextModel, bytes: Seq<u8>, limit: usize) -> Result<
    Seq<u8>,
    Fault,
> {
    match quoted_from(Seq::empty(), limit, bytes, 0) {
        Ok(quoted) => Ok(quoted),
        Err(error) => Err(length_fault(context.line, error, limit)),
    }
}

/// The last value that was assigned to `name` among the first `n`
/// assignments.
pub open spec fn assigned_value(
    assignments: Seq<(Seq<char>, Seq<u8>)>,
    name: Seq<char>,
    n: nat,
) -> Option<Seq<u8>>
    decreases n,
{
    if n == 0 || n > assignments.len() {
        None
    } else if assignments[n - 1].0 == name {
        Some(assignments[n - 1].1)
    } else {
        assigned_value(assignments, name, (n - 1) as nat)
    }
}

/// The first place from `i` on of an assignment to `name`.
pub open spec fn assignment_place(
    assignments: Seq<(Seq<char>, Seq<u8>)>,
    name: Seq<char>,
    i: int,
) -> Option<int>
    decreases assignments.len() - i,
{
    if i < 0 || i >= assignments.len() {
        None
    } else if assignments[i].0 == name {
        Some(i)
    } else {
        assignment_place(assignments, name, i + 1)
    }
}

/// The assignments once `name` has been given `value`.
pub open spec fn assigned(
    assignments: Seq<(Seq<char>, Seq<u8>)>,
    name: Seq<char>,
    value: Seq<u8>,
) -> Seq<(Seq<char>, Seq<u8>)> {
    match assignment_place(assignments, name, 0) {
        Some(i) => assignments.update(i, (name, value)),
        None => assignments.push((name, value)),
    }
}

pub open spec fn larger(a: nat, b: nat) -> nat {
    if a > b {
        a
    } else {
        b
    }
}

/// The depth that a selected value adds to the result.
pub open spec fn selected_depth(
    context: ContextModel,
    value_depth: nat,
    nesting: nat,
    used_word: bool,
    empty_value: bool,
) -> Result<nat, Fault> {
    let depth = match context.depth_mode() {
        EvaluationDepth::Uncounted => Ok(0nat),
        EvaluationDepth::ExpansionChain => if value_depth >= usize::MAX {
            Err(context.depth_overflow())
        } else {
            Ok(value_depth + 1)
        },
        EvaluationDepth::SyntaxNesting => if used_word {
            Ok(value_depth)
        } else if empty_value {
            Ok(nesting)
        } else {
            Ok(nesting + 1)
        },
    };
    match depth {
        Ok(depth) => if depth > MAX_EXPANSION_DEPTH {
            Err(context.depth_exceeded())
        } else {
            Ok(depth)
        },
        Err(error) => Err(error),
    }
}

/// The depth that a result starts from.
pub open spec fn initial_depth(context: ContextModel, nesting: nat) -> nat {
    if context.depth_mode() is SyntaxNesting {
        nesting
    } else {
        0
    }
}

/// A result that goes on with `value`.
pub open spec fn followed_by(
    context: ContextModel,
    so_far: Evaluated,
    limit: usize,
    value: Seq<u8>,
) -> Result<Evaluated, Fault> {
    match bounded_bytes::extension(so_far.bytes, limit, value) {
        Ok(bytes) => Ok(Evaluated { bytes, ..so_far }),
        Err(error) => Err(length_fault(context.line, error, limit)),
    }
}

/// Evaluates an expression on its own, after `assignments`.
pub open spec fn evaluated_at(
    context: ContextModel,
    expression: ExpressionModel,
    limit: usize,
    nesting: nat,
    assignments: Seq<(Seq<char>, Seq<u8>)>,
) -> Result<Evaluated, Fault>
    decreases expression, 1nat, 0nat,
{
    if nesting > MAX_EXPANSION_DEPTH {
        Err(context.depth_exceeded())
    } else {
        evaluated_parts(
            context,
            expression.parts,
            0,
            limit,
            nesting,
            Evaluated {
                bytes: Seq::empty(),
                depth: initial_depth(context, nesting),
                assignments,
            },
        )
    }
}

/// Evaluates the parts from `i` on, behind what is there so far.
pub open spec fn evaluated_parts(
    context: ContextModel,
    parts: Seq<PartModel>,
    i: nat,
    limit: usize,
    nesting: nat,
    so_far: Evaluated,
) -> Result<Evaluated, Fault>
    decreases parts, 1nat, parts.len() - i,
{
    if i >= parts.len() {
        Ok(so_far)
    } else {
        match evaluated_part(context, parts[i as int], limit, nesting, so_far) {
            Ok(next) => evaluated_parts(context, parts, i + 1, limit, nesting, next),
            Err(error) => Err(error),
        }
    }
}

/// Evaluates a word inside a reference, in the room that is left.
pub open spec fn evaluated_word(
    context: ContextModel,
    word: ExpressionModel,
    limit: usize,
    nesting: nat,
    so_far: Evaluated,
) -> Result<Evaluated, Fault>
    decreases word, 2nat, 0nat,
{
    evaluated_at(
        context,
        word,
        (limit - so_far.bytes.len()) as usize,
        nesting + 1,
        so_far.assignments,
    )
}

/// The value that a reference starts from: what the expression assigned
/// itself goes before what the context holds.
pub open spec fn found_value(
    context: ContextModel,
    name: Seq<char>,
    assignments: Seq<(Seq<char>, Seq<u8>)>,
) -> Option<ValueBytes> {
    match assigned_value(assignments, name, assignments.len()) {
        Some(bytes) => Some(ValueBytes { bytes, depth: 0 }),
        None => context.value_of(name),
    }
}

pub open spec fn selection_of(longest: bool) -> Selection {
    if longest {
        Selection::Longest
    } else {
        Selection::Shortest
    }
}

/// Evaluates one part behind what is there so far.
pub open spec fn evaluated_part(
    context: ContextModel,
    part: PartModel,
    limit: usize,
    nesting: nat,
    so_far: Evaluated,
) -> Result<Evaluated, Fault>
    decreases part, 0nat, 0nat,
{
    match part {
        PartModel::Literal(text) => followed_by(context, so_far, limit, encode_utf8(text)),
        PartModel::Command(_) => Err(context.no_command()),
        PartModel::RegexQuotedVariable(name) => if context.purpose is ShellCondition {
            match context.value_of(name) {
                None => Err(context.missing(name)),
                Some(value) => match regex_escaped(
                    value.bytes,
                    (limit - so_far.bytes.len()) as usize,
                ) {
                    Ok(escaped) => followed_by(context, so_far, limit, escaped),
                    Err(error) => Err(
                        length_fault(
                            context.line,
                            error,
                            (limit - so_far.bytes.len()) as usize,
                        ),
                    ),
                },
            }
        } else {
            Err(context.no_quoted_variable())
        },
        PartModel::PatternQuote(expression) => {
            let room = (limit - so_far.bytes.len()) as usize;
            match evaluated_at(context, expression, room, nesting, so_far.assignments) {
                Err(error) => Err(error),
                Ok(value) => match pattern_quoted(context, value.bytes, room) {
                    Err(error) => Err(error),
                    Ok(quoted) => followed_by(
                        context,
                        Evaluated {
                            bytes: so_far.bytes,
                            depth: larger(so_far.depth, value.depth),
                            assignments: value.assignments,
                        },
                        limit,
                        quoted,
                    ),
                },
            }
        },
        PartModel::Variable { name, operation } => {
            let found = found_value(context, name, so_far.assignments);
            let is_set = found is Some;
            let is_empty = found is Some && found->0.bytes.len() == 0;
            match operation {
                OperationModel::Length => match found {
                    None => Err(context.missing(name)),
                    Some(value) => followed_by(
                        context,
                        Evaluated { depth: larger(so_far.depth, value.depth), ..so_far },
                        limit,
                        encode_utf8(text::decimal(value.bytes.len())),
                    ),
                },
                OperationModel::RemovePrefix { pattern, longest } => match found {
                    None => Err(context.missing(name)),
                    Some(value) => match evaluated_word(context, pattern, limit, nesting, so_far) {
                        Err(error) => Err(error),
                        Ok(word) => transformed(
                            context,
                            so_far,
                            limit,
                            value,
                            word,
                            shell_pattern::removed(
                                value.bytes,
                                word.bytes,
                                Edge::Prefix,
                                selection_of(longest),
                            ),
                        ),
                    },
                },
                OperationModel::RemoveSuffix { pattern, longest } => match found {
                    None => Err(context.missing(name)),
                    Some(value) => match evaluated_word(context, pattern, limit, nesting, so_far) {
                        Err(error) => Err(error),
                        Ok(word) => transformed(
                            context,
                            so_far,
                            limit,
                            value,
                            word,
                            shell_pattern::removed(
                                value.bytes,
                                word.bytes,
                                Edge::Suffix,
                                selection_of(longest),
                            ),
                        ),
                    },
                },
                OperationModel::ChangeCase { pattern, direction, all } => match found {
                    None => Err(context.missing(name)),
                    Some(value) => match evaluated_word(context, pattern, limit, nesting, so_far) {
                        Err(error) => Err(error),
                        Ok(word) => transformed(
                            context,
                            so_far,
                            limit,
                            value,
                            word,
                            shell_pattern::case_changed(value.bytes, word.bytes, all, direction),
                        ),
                    },
                },
                _ => if operation is ErrorIfUnsetOrEmpty && (!is_set || is_empty) {
                    Err(context.required(name))
                } else {
                    match operation.selected_word(is_set, is_empty) {
                        Some(word) => match evaluated_word(context, word, limit, nesting, so_far) {
                            Err(error) => Err(error),
                            Ok(value) => selected(
                                context,
                                Evaluated { assignments: value.assignments, ..so_far },
                                limit,
                                nesting,
                                ValueBytes { bytes: value.bytes, depth: value.depth },
                                true,
                                false,
                                if operation is AssignIfUnsetOrEmpty {
                                    Some(name)
                                } else {
                                    None
                                },
                            ),
                        },
                        None => if operation.uses_value_when_word_is_not_selected() {
                            match found {
                                None => Err(context.missing(name)),
                                Some(value) => selected(
                                    context,
                                    so_far,
                                    limit,
                                    nesting,
                                    value,
                                    false,
                                    value.bytes.len() == 0,
                                    None,
                                ),
                            }
                        } else {
                            selected(
                                context,
                                so_far,
                                limit,
                                nesting,
                                ValueBytes { bytes: Seq::empty(), depth: 0 },
                                false,
                                true,
                                None,
                            )
                        },
                    }
                },
            }
        },
    }
}

/// A result that goes on with what an operation made of a value.
pub open spec fn transformed(
    context: ContextModel,
    so_far: Evaluated,
    limit: usize,
    value: ValueBytes,
    word: Evaluated,
    outcome: Result<Seq<u8>, PatternError>,
) -> Result<Evaluated, Fault> {
    match outcome {
        Err(error) => Err(context.pattern_fault(error)),
        Ok(bytes) => followed_by(
            context,
            Evaluated {
                bytes: so_far.bytes,
                depth: larger(larger(so_far.depth, value.depth), word.depth),
                assignments: word.assignments,
            },
            limit,
            bytes,
        ),
    }
}

/// A result that goes on with a selected value, which is assigned to
/// `target` where there is one.
pub open spec fn selected(
    context: ContextModel,
    so_far: Evaluated,
    limit: usize,
    nesting: nat,
    value: ValueBytes,
    used_word: bool,
    empty_value: bool,
    target: Option<Seq<char>>,
) -> Result<Evaluated, Fault> {
    let assignments = match target {
        Some(name) => assigned(so_far.assignments, name, value.bytes),
        None => so_far.assignments,
    };
    match selected_depth(context, value.depth, nesting, used_word, empty_value) {
        Err(error) => Err(error),
        Ok(depth) => followed_by(
            context,
            Evaluated { bytes: so_far.bytes, depth: larger(so_far.depth, depth), assignments },
            limit,
            value.bytes,
        ),
    }
}

/// The characters that a regular expression gives a meaning.
pub open spec fn regex_special(c: char) -> bool {
    c == '\\' || c == '.' || c == '+' || c == '*' || c == '?' || c == '(' || c == ')' || c == '|'
        || c == '[' || c == ']' || c == '{' || c == '}' || c == '^' || c == '$'
}

/// The chunks that write the characters from `i` on as a regular expression
/// that matches them.
pub open spec fn escaped_chars(chars: Seq<char>, n: nat) -> Seq<Seq<u8>>
    decreases n,
{
    if n == 0 || n > chars.len() {
        Seq::empty()
    } else {
        let before = escaped_chars(chars, (n - 1) as nat);
        let marked = if regex_special(chars[n - 1]) {
            before.push(encode_utf8("\\"@))
        } else {
            before
        };
        marked.push(encode_utf8(seq![chars[n - 1]]))
    }
}

/// A hexadecimal digit.
pub open spec fn hex_char(d: nat) -> char {
    if d < 10 {
        (48 + d) as char
    } else {
        (87 + d) as char
    }
}

/// A byte as a regular expression writes it in hexadecimal.
pub open spec fn hex_escape(byte: u8) -> Seq<u8> {
    encode_utf8("\\x"@.push(hex_char(byte as nat / 16)).push(hex_char(byte as nat % 16)))
}

pub open spec fn escaped_bytes(bytes: Seq<u8>, n: nat) -> Seq<Seq<u8>>
    decreases n,
{
    if n == 0 || n > bytes.len() {
        Seq::empty()
    } else {
        escaped_bytes(bytes, (n - 1) as nat).push(hex_escape(bytes[n - 1]))
    }
}

/// The chunks of a regular expression that matches exactly `value`.
pub open spec fn escape_chunks(value: Seq<u8>) -> Seq<Seq<u8>> {
    let start = seq![encode_utf8("(?:)"@)];
    if valid_utf8(value) {
        start + escaped_chars(decode_utf8(value), decode_utf8(value).len())
    } else {
        start.push(encode_utf8("(?-u:"@)) + escaped_bytes(value, value.len()).push(
            encode_utf8(")"@),
        )
    }
}

/// A regular expression of at most `limit` bytes that matches exactly
/// `value`.
pub open spec fn regex_escaped(value: Seq<u8>, limit: usize) -> Result<Seq<u8>, BoundedBytesError> {
    extended_by(Seq::empty(), limit, escape_chunks(value), 0)
}

impl<'a> EvaluationContext<'a> {
    /// How this context counts depth.
    pub fn depth_mode(&self) -> (r: EvaluationDepth)
        ensures
            r == self@.depth_mode(),
    {
        match self.purpose {
            Purpose::Configuration => EvaluationDepth::ExpansionChain,
            Purpose::RuntimeText => EvaluationDepth::SyntaxNesting,
            Purpose::RuntimeBytes | Purpose::ShellCondition => EvaluationDepth::Uncounted,
        }
    }

    /// The value of a variable.
    pub fn variable(&self, name: &str) -> (r: Option<VariableValue>)
        ensures
            match self@.value_of(name@) {
                Some(value) => r matches Some(found) && found@ == value,
                None => r is None,
            },
    {
        match self.values {
            Values::Known(table) => match table.get(name) {
                Some(value) => Some(
                    VariableValue { bytes: text_bytes(value.text.as_str()), depth: value.depth },
                ),
                None => None,
            },
            Values::Text(texts) => match texts.get(name) {
                Some(value) => Some(
                    VariableValue { bytes: text_bytes(value.as_str()), depth: 0 },
                ),
                None => None,
            },
            Values::Bytes(table) => match table.get(name) {
                Some(value) => Some(
                    VariableValue { bytes: slice_to_vec(value.as_slice()), depth: 0 },
                ),
                None => None,
            },
        }
    }

    fn missing_variable(&self, name: &str) -> (r: ExpansionError)
        ensures
            r@ == self@.missing(name@),
    {
        match self.purpose {
            Purpose::RuntimeText => ExpansionError::new(
                self.line,
                text3("runtime variable ", name, " is not set"),
            ),
            Purpose::Configuration => if variable_policy(name) == VariablePolicy::RuntimeOnly {
                ExpansionError::new(
                    self.line,
                    text3("runtime variable ", name, " is not available in this context"),
                )
            } else {
                ExpansionError::new(self.line, text3("variable ", name, " is not defined"))
            },
            _ => ExpansionError::new(self.line, text3("variable ", name, " is not defined")),
        }
    }

    fn required_parameter(&self, name: &str) -> (r: ExpansionError)
        ensures
            r@ == self@.required(name@),
    {
        ExpansionError::new(self.line, text3("parameter ", name, " is unset or empty"))
    }

    fn pattern_error(&self, error: PatternError) -> (r: ExpansionError)
        ensures
            r@ == self@.pattern_fault(error),
    {
        match error {
            PatternError::TooComplex { attempted } => {
                let rest = counted(" steps, exceeding the hard limit of ", shell_pattern::MAX_PATTERN_STEPS);
                ExpansionError::new(
                    self.line,
                    numbered("shell pattern requires ", attempted, rest.as_str()),
                )
            },
        }
    }

    fn unsupported_command(&self) -> (r: ExpansionError)
        ensures
            r@ == self@.no_command(),
    {
        match self.purpose {
            Purpose::RuntimeText => ExpansionError::told(
                self.line,
                "expression cannot be evaluated here",
            ),
            Purpose::ShellCondition => ExpansionError::told(
                self.line,
                "command substitution requires ordered evaluation",
            ),
            _ => ExpansionError::told(self.line, "expression is not valid in this context"),
        }
    }

    fn unsupported_quoted_variable(&self) -> (r: ExpansionError)
        ensures
            r@ == self@.no_quoted_variable(),
    {
        match self.purpose {
            Purpose::RuntimeText => ExpansionError::told(
                self.line,
                "expression cannot be evaluated here",
            ),
            _ => ExpansionError::told(self.line, "expression is not valid in this context"),
        }
    }
}

/// Appends `value`, whole or not at all.
fn append(output: &mut BoundedBytes, value: &[u8], limit: usize, line: usize) -> (r: Result<
    (),
    ExpansionError,
>)
    requires
        old(output).wf(),
        old(output).bound() == limit,
    ensures
        final(output).wf(),
        final(output).bound() == limit,
        match bounded_bytes::extension(old(output)@, limit, value@) {
            Ok(bytes) => r is Ok && final(output)@ == bytes,
            Err(error) => r matches Err(found) && found@ == length_fault(
                line as nat,
                error,
                limit,
            ),
        },
{
    match output.try_extend(value) {
        Ok(()) => Ok(()),
        Err(error) => Err(length_error(line, error, limit)),
    }
}

/// Appends `value` to a vector, whole or not at all.
pub(crate) fn push_bounded(output: &mut Vec<u8>, value: &[u8], limit: usize, line: usize) -> (r:
    Result<(), ExpansionError>)
    ensures
        match bounded_bytes::extension(old(output)@, limit, value@) {
            Ok(bytes) => r is Ok && final(output)@ == bytes,
            Err(error) => r matches Err(found) && found@ == length_fault(
                line as nat,
                error,
                limit,
            ),
        },
{
    match BoundedBytes::try_extend_vec(output, limit, value) {
        Ok(()) => Ok(()),
        Err(error) => Err(length_error(line, error, limit)),
    }
}

fn quote_pattern_bytes(bytes: &[u8], limit: usize, context: &EvaluationContext<'_>) -> (r: Result<
    Vec<u8>,
    ExpansionError,
>)
    ensures
        match pattern_quoted(context@, bytes@, limit) {
            Ok(quoted) => r matches Ok(found) && found@ == quoted,
            Err(error) => r matches Err(found) && found@ == error,
        },
{
    let mut quoted: Vec<u8> = Vec::new();
    let mut i: usize = 0;
    while i < bytes.len()
        invariant
            i <= bytes@.len(),
            quoted_from(Seq::empty(), limit, bytes@, 0) == quoted_from(
                quoted@,
                limit,
                bytes@,
                i as int,
            ),
        decreases bytes.len() - i,
    {
        let byte = bytes[i];
        if byte == 42 || byte == 63 || byte == 91 || byte == 92 {
            let slash: [u8; 1] = [92u8];
            assert(slash@ =~= seq![92u8]);
            match push_bounded(&mut quoted, &slash, limit, context.line) {
                Ok(()) => {},
                Err(error) => {
                    return Err(error);
                },
            }
        }
        let one: [u8; 1] = [byte];
        assert(one@ =~= seq![byte]);
        match push_bounded(&mut quoted, &one, limit, context.line) {
            Ok(()) => {},
            Err(error) => {
                return Err(error);
            },
        }
        i = i + 1;
    }
    Ok(quoted)
}

fn find_assigned(assignments: &Vec<(String, Vec<u8>)>, name: &str) -> (r: Option<Vec<u8>>)
    ensures
        match assigned_value(
            assignment_models(assignments@),
            name@,
            assignments@.len(),
        ) {
            Some(bytes) => r matches Some(found) && found@ == bytes,
            None => r is None,
        },
{
    let ghost models = assignment_models(assignments@);
    let mut left: usize = assignments.len();
    while left > 0
        invariant
            left <= assignments@.len(),
            models == assignment_models(assignments@),
            assigned_value(models, name@, assignments@.len()) == assigned_value(
                models,
                name@,
                left as nat,
            ),
        decreases left,
    {
        if same_text(assignments[left - 1].0.as_str(), name) {
            return Some(slice_to_vec(assignments[left - 1].1.as_slice()));
        }
        left = left - 1;
    }
    None
}

fn record_assignment(assignments: &mut Vec<(String, Vec<u8>)>, name: &str, value: &[u8])
    ensures
        assignment_models(final(assignments)@) == assigned(
            assignment_models(old(assignments)@),
            name@,
            value@,
        ),
{
    let ghost before = assignments@;
    let ghost models = assignment_models(before);
    let mut i: usize = 0;
    while i < assignments.len()
        invariant
            i <= assignments@.len(),
            assignments@ == before,
            before == old(assignments)@,
            models == assignment_models(before),
            assignment_place(models, name@, 0) == assignment_place(models, name@, i as int),
        decreases assignments.len() - i,
    {
        if same_text(assignments[i].0.as_str(), name) {
            assignments.set(i, (name.to_owned(), slice_to_vec(value)));
            assert(assignment_models(assignments@) =~= models.update(i as int, (name@, value@)));
            return;
        }
        i = i + 1;
    }
    assignments.push((name.to_owned(), slice_to_vec(value)));
    assert(assignment_models(assignments@) =~= models.push((name@, value@)));
}

fn depth_of_selected(
    context: &EvaluationContext<'_>,
    value_depth: usize,
    nesting: usize,
    used_word: bool,
    empty_value: bool,
) -> (r: Result<usize, ExpansionError>)
    requires
        nesting <= MAX_EXPANSION_DEPTH,
    ensures
        match selected_depth(
            context@,
            value_depth as nat,
            nesting as nat,
            used_word,
            empty_value,
        ) {
            Ok(depth) => r == Ok::<usize, ExpansionError>(depth as usize) && depth
                <= MAX_EXPANSION_DEPTH,
            Err(error) => r matches Err(found) && found@ == error,
        },
{
    let depth: usize = match context.depth_mode() {
        EvaluationDepth::Uncounted => 0,
        EvaluationDepth::ExpansionChain => if value_depth == usize::MAX {
            return Err(
                ExpansionError::told(context.line, "variable expansion depth overflows"),
            );
        } else {
            value_depth + 1
        },
        EvaluationDepth::SyntaxNesting => if used_word {
            value_depth
        } else if empty_value {
            nesting
        } else {
            nesting + 1
        },
    };
    if depth > MAX_EXPANSION_DEPTH {
        return Err(depth_error(context.line));
    }
    Ok(depth)
}

fn larger_of(a: usize, b: usize) -> (r: usize)
    ensures
        r == larger(a as nat, b as nat),
{
    if a > b {
        a
    } else {
        b
    }
}

/// Evaluates an expression: the bytes that it writes, of which there may be
/// at most `limit`, and the assignments that it makes.
pub fn evaluate(expression: &ShellExpression, limit: usize, context: &EvaluationContext<'_>) -> (r:
    Result<EvaluationResult, ExpansionError>)
    ensures
        match evaluated_at(context@, expression@, limit, 0, Seq::empty()) {
            Ok(evaluated) => r matches Ok(found) && found@ == evaluated,
            Err(error) => r matches Err(found) && found@ == error,
        },
{
    let mut assignments: Vec<(String, Vec<u8>)> = Vec::new();
    assert(assignment_models(assignments@) =~= Seq::empty());
    match evaluate_at(expression, limit, 0, context, &mut assignments) {
        Ok(value) => Ok(EvaluationResult { bytes: value.bytes, depth: value.depth, assignments }),
        Err(error) => Err(error),
    }
}

fn evaluate_at(
    expression: &ShellExpression,
    limit: usize,
    nesting: usize,
    context: &EvaluationContext<'_>,
    assignments: &mut Vec<(String, Vec<u8>)>,
) -> (r: Result<VariableValue, ExpansionError>)
    ensures
        match evaluated_at(
            context@,
            expression@,
            limit,
            nesting as nat,
            assignment_models(old(assignments)@),
        ) {
            Ok(evaluated) => r matches Ok(value) && (Evaluated {
                bytes: value.bytes@,
                depth: value.depth as nat,
                assignments: assignment_models(final(assignments)@),
            }) == evaluated,
            Err(error) => r matches Err(found) && found@ == error,
        },
    decreases expression, 1nat,
{
    if nesting > MAX_EXPANSION_DEPTH {
        return Err(depth_error(context.line));
    }
    proof {
        expression::lemma_expression_parts(*expression);
    }
    let mut output = BoundedBytes::with_capacity(limit, 0);
    let mut depth: usize = match context.depth_mode() {
        EvaluationDepth::SyntaxNesting => nesting,
        _ => 0,
    };
    let ghost whole = evaluated_at(
        context@,
        expression@,
        limit,
        nesting as nat,
        assignment_models(assignments@),
    );
    let mut i: usize = 0;
    while i < expression.parts.len()
        invariant
            i <= expression.parts@.len(),
            nesting <= MAX_EXPANSION_DEPTH,
            output.wf(),
            output.bound() == limit,
            expression@.parts.len() == expression.parts@.len(),
            forall|j: int|
                0 <= j < expression.parts@.len() ==> #[trigger] expression@.parts[j]
                    == expression.parts@[j]@,
            whole == evaluated_at(
                context@,
                expression@,
                limit,
                nesting as nat,
                assignment_models(old(assignments)@),
            ),
            whole == evaluated_parts(
                context@,
                expression@.parts,
                i as nat,
                limit,
                nesting as nat,
                Evaluated {
                    bytes: output@,
                    depth: depth as nat,
                    assignments: assignment_models(assignments@),
                },
            ),
        decreases expression.parts.len() - i,
    {
        assert(expression@.parts[i as int] == expression.parts@[i as int]@);
        match evaluate_part(
            &expression.parts[i],
            limit,
            nesting,
            context,
            &mut output,
            depth,
            assignments,
        ) {
            Ok(deeper) => {
                depth = deeper;
            },
            Err(error) => {
                return Err(error);
            },
        }
        i = i + 1;
    }
    Ok(VariableValue { bytes: output.into_vec(), depth })
}

/// Evaluates a word in the room that is left behind `output`.
fn evaluate_word(
    word: &ShellExpression,
    output: &BoundedBytes,
    limit: usize,
    nesting: usize,
    context: &EvaluationContext<'_>,
    assignments: &mut Vec<(String, Vec<u8>)>,
) -> (r: Result<VariableValue, ExpansionError>)
    requires
        output.wf(),
        output.bound() == limit,
        nesting <= MAX_EXPANSION_DEPTH,
    ensures
        forall|depth: nat|
            match #[trigger] evaluated_word(
                context@,
                word@,
                limit,
                nesting as nat,
                Evaluated {
                    bytes: output@,
                    depth,
                    assignments: assignment_models(old(assignments)@),
                },
            ) {
                Ok(evaluated) => r matches Ok(value) && (Evaluated {
                    bytes: value.bytes@,
                    depth: value.depth as nat,
                    assignments: assignment_models(final(assignments)@),
                }) == evaluated,
                Err(error) => r matches Err(found) && found@ == error,
            },
    decreases word, 2nat,
{
    let room: usize = limit - output.len();
    evaluate_at(word, room, nesting + 1, context, assignments)
}

fn evaluate_part(
    part: &ShellPart,
    limit: usize,
    nesting: usize,
    context: &EvaluationContext<'_>,
    output: &mut BoundedBytes,
    depth: usize,
    assignments: &mut Vec<(String, Vec<u8>)>,
) -> (r: Result<usize, ExpansionError>)
    requires
        old(output).wf(),
        old(output).bound() == limit,
        nesting <= MAX_EXPANSION_DEPTH,
    ensures
        final(output).wf(),
        final(output).bound() == limit,
        match evaluated_part(
            context@,
            part@,
            limit,
            nesting as nat,
            Evaluated {
                bytes: old(output)@,
                depth: depth as nat,
                assignments: assignment_models(old(assignments)@),
            },
        ) {
            Ok(evaluated) => r matches Ok(deeper) && (Evaluated {
                bytes: final(output)@,
                depth: deeper as nat,
                assignments: assignment_models(final(assignments)@),
            }) == evaluated,
            Err(error) => r matches Err(found) && found@ == error,
        },
    decreases part, 0nat,
{
    match part {
        ShellPart::Literal(text) => {
            let bytes = text_bytes(text.as_str());
            match append(output, bytes.as_slice(), limit, context.line) {
                Ok(()) => Ok(depth),
                Err(error) => Err(error),
            }
        },
        ShellPart::Command(_) => Err(context.unsupported_command()),
        ShellPart::RegexQuotedVariable(name) => {
            match context.purpose {
                Purpose::ShellCondition => {},
                _ => {
                    return Err(context.unsupported_quoted_variable());
                },
            }
            let room: usize = limit - output.len();
            match context.variable(name.as_str()) {
                None => Err(context.missing_variable(name.as_str())),
                Some(value) => {
                    let mut escaped: Vec<u8> = Vec::new();
                    match push_regex_escaped(
                        &mut escaped,
                        value.bytes.as_slice(),
                        room,
                        context.line,
                    ) {
                        Ok(()) => {},
                        Err(error) => {
                            return Err(error);
                        },
                    }
                    match append(output, escaped.as_slice(), limit, context.line) {
                        Ok(()) => Ok(depth),
                        Err(error) => Err(error),
                    }
                },
            }
        },
        ShellPart::PatternQuote(expression) => {
            let room: usize = limit - output.len();
            let value = match evaluate_at(expression, room, nesting, context, assignments) {
                Ok(value) => value,
                Err(error) => {
                    return Err(error);
                },
            };
            let quoted = match quote_pattern_bytes(value.bytes.as_slice(), room, context) {
                Ok(quoted) => quoted,
                Err(error) => {
                    return Err(error);
                },
            };
            match append(output, quoted.as_slice(), limit, context.line) {
                Ok(()) => Ok(larger_of(depth, value.depth)),
                Err(error) => Err(error),
            }
        },
        ShellPart::Variable { name, operation } => evaluate_variable(
            name.as_str(),
            operation,
            limit,
            nesting,
            context,
            output,
            depth,
            assignments,
        ),
    }
}

/// Appends what an operation made of a value.
fn append_transformed(
    outcome: Result<Vec<u8>, PatternError>,
    value_depth: usize,
    word_depth: usize,
    limit: usize,
    context: &EvaluationContext<'_>,
    output: &mut BoundedBytes,
    depth: usize,
) -> (r: Result<usize, ExpansionError>)
    requires
        old(output).wf(),
        old(output).bound() == limit,
    ensures
        final(output).wf(),
        final(output).bound() == limit,
        match outcome {
            Err(error) => r matches Err(found) && found@ == context@.pattern_fault(error),
            Ok(bytes) => match bounded_bytes::extension(old(output)@, limit, bytes@) {
                Ok(longer) => r matches Ok(deeper) && final(output)@ == longer && deeper == larger(
                    larger(depth as nat, value_depth as nat),
                    word_depth as nat,
                ),
                Err(error) => r matches Err(found) && found@ == length_fault(
                    context@.line,
                    error,
                    limit,
                ),
            },
        },
{
    match outcome {
        Ok(bytes) => match append(output, bytes.as_slice(), limit, context.line) {
            Ok(()) => Ok(larger_of(larger_of(depth, value_depth), word_depth)),
            Err(error) => Err(error),
        },
        Err(error) => Err(context.pattern_error(error)),
    }
}

fn evaluate_variable(
    name: &str,
    operation: &ParameterOperation,
    limit: usize,
    nesting: usize,
    context: &EvaluationContext<'_>,
    output: &mut BoundedBytes,
    depth: usize,
    assignments: &mut Vec<(String, Vec<u8>)>,
) -> (r: Result<usize, ExpansionError>)
    requires
        old(output).wf(),
        old(output).bound() == limit,
        nesting <= MAX_EXPANSION_DEPTH,
    ensures
        final(output).wf(),
        final(output).bound() == limit,
        match evaluated_part(
            context@,
            PartModel::Variable { name: name@, operation: operation@ },
            limit,
            nesting as nat,
            Evaluated {
                bytes: old(output)@,
                depth: depth as nat,
                assignments: assignment_models(old(assignments)@),
            },
        ) {
            Ok(evaluated) => r matches Ok(deeper) && (Evaluated {
                bytes: final(output)@,
                depth: deeper as nat,
                assignments: assignment_models(final(assignments)@),
            }) == evaluated,
            Err(error) => r matches Err(found) && found@ == error,
        },
    decreases operation, 0nat,
{
    let ghost so_far = Evaluated {
        bytes: output@,
        depth: depth as nat,
        assignments: assignment_models(assignments@),
    };
    let found = match find_assigned(assignments, name) {
        Some(bytes) => Some(VariableValue { bytes, depth: 0 }),
        None => context.variable(name),
    };
    assert(match found_value(context@, name@, so_far.assignments) {
        Some(value) => found matches Some(given) && given@ == value,
        None => found is None,
    });
    let is_set = found.is_some();
    let is_empty = match &found {
        Some(value) => value.bytes.len() == 0,
        None => false,
    };
    match operation {
        ParameterOperation::Length => match found {
            None => {
                return Err(context.missing_variable(name));
            },
            Some(value) => {
                let digits = decimal_text(value.bytes.len());
                let bytes = text_bytes(digits.as_str());
                return match append(output, bytes.as_slice(), limit, context.line) {
                    Ok(()) => Ok(larger_of(depth, value.depth)),
                    Err(error) => Err(error),
                };
            },
        },
        ParameterOperation::RemovePrefix { pattern, longest } => match found {
            None => {
                return Err(context.missing_variable(name));
            },
            Some(value) => {
                let word = match evaluate_word(
                    pattern,
                    output,
                    limit,
                    nesting,
                    context,
                    assignments,
                ) {
                    Ok(word) => word,
                    Err(error) => {
                        assert(evaluated_word(context@, pattern@, limit, nesting as nat, so_far)
                            == Err::<Evaluated, Fault>(error@));
                        return Err(error);
                    },
                };
                assert(evaluated_word(context@, pattern@, limit, nesting as nat, so_far) is Ok);
                let outcome = shell_pattern::remove(
                    value.bytes.as_slice(),
                    word.bytes.as_slice(),
                    Edge::Prefix,
                    if *longest {
                        Selection::Longest
                    } else {
                        Selection::Shortest
                    },
                );
                return append_transformed(
                    outcome,
                    value.depth,
                    word.depth,
                    limit,
                    context,
                    output,
                    depth,
                );
            },
        },
        ParameterOperation::RemoveSuffix { pattern, longest } => match found {
            None => {
                return Err(context.missing_variable(name));
            },
            Some(value) => {
                let word = match evaluate_word(
                    pattern,
                    output,
                    limit,
                    nesting,
                    context,
                    assignments,
                ) {
                    Ok(word) => word,
                    Err(error) => {
                        assert(evaluated_word(context@, pattern@, limit, nesting as nat, so_far)
                            == Err::<Evaluated, Fault>(error@));
                        return Err(error);
                    },
                };
                assert(evaluated_word(context@, pattern@, limit, nesting as nat, so_far) is Ok);
                let outcome = shell_pattern::remove(
                    value.bytes.as_slice(),
                    word.bytes.as_slice(),
                    Edge::Suffix,
                    if *longest {
                        Selection::Longest
                    } else {
                        Selection::Shortest
                    },
                );
                return append_transformed(
                    outcome,
                    value.depth,
                    word.depth,
                    limit,
                    context,
                    output,
                    depth,
                );
            },
        },
        ParameterOperation::ChangeCase { pattern, direction, all } => match found {
            None => {
                return Err(context.missing_variable(name));
            },
            Some(value) => {
                let word = match evaluate_word(
                    pattern,
                    output,
                    limit,
                    nesting,
                    context,
                    assignments,
                ) {
                    Ok(word) => word,
                    Err(error) => {
                        assert(evaluated_word(context@, pattern@, limit, nesting as nat, so_far)
                            == Err::<Evaluated, Fault>(error@));
                        return Err(error);
                    },
                };
                assert(evaluated_word(context@, pattern@, limit, nesting as nat, so_far) is Ok);
                let outcome = shell_pattern::transform_matching_bytes(
                    value.bytes.as_slice(),
                    word.bytes.as_slice(),
                    *all,
                    *direction,
                );
                return append_transformed(
                    outcome,
                    value.depth,
                    word.depth,
                    limit,
                    context,
                    output,
                    depth,
                );
            },
        },
        _ => {},
    }
    let required = matches!(operation, ParameterOperation::ErrorIfUnsetOrEmpty(_));
    if required && (!is_set || is_empty) {
        return Err(context.required_parameter(name));
    }
    let assigns = matches!(operation, ParameterOperation::AssignIfUnsetOrEmpty(_));
    match operation.selected_word(is_set, is_empty) {
        Some(word) => {
            let value = match evaluate_word(word, output, limit, nesting, context, assignments) {
                Ok(value) => value,
                Err(error) => {
                    assert(evaluated_word(context@, word@, limit, nesting as nat, so_far) == Err::<
                        Evaluated,
                        Fault,
                    >(error@));
                    return Err(error);
                },
            };
            assert(evaluated_word(context@, word@, limit, nesting as nat, so_far) is Ok);
            if assigns {
                record_assignment(assignments, name, value.bytes.as_slice());
            }
            append_selected(value, true, false, limit, nesting, context, output, depth)
        },
        None => if operation.uses_value_when_word_is_not_selected() {
            match found {
                None => Err(context.missing_variable(name)),
                Some(value) => {
                    let empty = value.bytes.len() == 0;
                    append_selected(value, false, empty, limit, nesting, context, output, depth)
                },
            }
        } else {
            let nothing = VariableValue { bytes: Vec::new(), depth: 0 };
            append_selected(nothing, false, true, limit, nesting, context, output, depth)
        },
    }
}

/// Appends a selected value.
fn append_selected(
    value: VariableValue,
    used_word: bool,
    empty_value: bool,
    limit: usize,
    nesting: usize,
    context: &EvaluationContext<'_>,
    output: &mut BoundedBytes,
    depth: usize,
) -> (r: Result<usize, ExpansionError>)
    requires
        old(output).wf(),
        old(output).bound() == limit,
        nesting <= MAX_EXPANSION_DEPTH,
    ensures
        final(output).wf(),
        final(output).bound() == limit,
        match selected_depth(
            context@,
            value.depth as nat,
            nesting as nat,
            used_word,
            empty_value,
        ) {
            Err(error) => r matches Err(found) && found@ == error,
            Ok(added) => match bounded_bytes::extension(old(output)@, limit, value.bytes@) {
                Ok(longer) => r matches Ok(deeper) && final(output)@ == longer && deeper == larger(
                    depth as nat,
                    added,
                ),
                Err(error) => r matches Err(found) && found@ == length_fault(
                    context@.line,
                    error,
                    limit,
                ),
            },
        },
{
    let added = match depth_of_selected(context, value.depth, nesting, used_word, empty_value) {
        Ok(added) => added,
        Err(error) => {
            return Err(error);
        },
    };
    match append(output, value.bytes.as_slice(), limit, context.line) {
        Ok(()) => Ok(larger_of(depth, added)),
        Err(error) => Err(error),
    }
}

fn is_regex_special(c: char) -> (r: bool)
    ensures
        r == regex_special(c),
{
    c == '\\' || c == '.' || c == '+' || c == '*' || c == '?' || c == '(' || c == ')' || c == '|'
        || c == '[' || c == ']' || c == '{' || c == '}' || c == '^' || c == '$'
}

fn hex_digit(d: u8) -> (r: char)
    requires
        d < 16,
    ensures
        r == hex_char(d as nat),
{
    if d < 10 {
        (48 + d) as char
    } else {
        (87 + d) as char
    }
}

proof fn lemma_chunks_step(
    output: Seq<u8>,
    limit: usize,
    chunks: Seq<Seq<u8>>,
    more: Seq<Seq<u8>>,
    i: int,
)
    requires
        0 <= i <= chunks.len(),
        extended_by(output, limit, chunks, i) is Err,
    ensures
        extended_by(output, limit, chunks + more, i) == extended_by(output, limit, chunks, i),
    decreases chunks.len() - i,
{
    if i < chunks.len() {
        assert((chunks + more)[i] == chunks[i]);
        match bounded_bytes::extension(output, limit, chunks[i]) {
            Ok(longer) => lemma_chunks_step(longer, limit, chunks, more, i + 1),
            Err(_) => {},
        }
    }
}

proof fn lemma_chunks_push(
    output: Seq<u8>,
    limit: usize,
    chunks: Seq<Seq<u8>>,
    chunk: Seq<u8>,
    i: int,
)
    requires
        0 <= i <= chunks.len(),
    ensures
        extended_by(output, limit, chunks.push(chunk), i) == match extended_by(
            output,
            limit,
            chunks,
            i,
        ) {
            Ok(longer) => bounded_bytes::extension(longer, limit, chunk),
            Err(error) => Err(error),
        },
    decreases chunks.len() - i,
{
    let all = chunks.push(chunk);
    if i < chunks.len() {
        assert(all[i] == chunks[i]);
        match bounded_bytes::extension(output, limit, chunks[i]) {
            Ok(longer) => lemma_chunks_push(longer, limit, chunks, chunk, i + 1),
            Err(_) => {},
        }
    } else {
        assert(all[i] == chunk);
        match bounded_bytes::extension(output, limit, chunk) {
            Ok(longer) => {
                assert(extended_by(longer, limit, all, i + 1) == Ok::<_, BoundedBytesError>(
                    longer,
                ));
            },
            Err(_) => {},
        }
    }
}

/// Appends one more chunk of a whole that begins with `chunks`.
fn push_chunk(
    output: &mut Vec<u8>,
    value: &[u8],
    limit: usize,
    line: usize,
    start: Ghost<Seq<u8>>,
    chunks: Ghost<Seq<Seq<u8>>>,
    whole: Ghost<Seq<Seq<u8>>>,
) -> (r: Result<(), ExpansionError>)
    requires
        extended_by(start@, limit, chunks@, 0) == Ok::<_, BoundedBytesError>(old(output)@),
        chunks@.push(value@).is_prefix_of(whole@),
    ensures
        match r {
            Ok(()) => extended_by(start@, limit, chunks@.push(value@), 0) == Ok::<
                _,
                BoundedBytesError,
            >(final(output)@),
            Err(found) => extended_by(start@, limit, whole@, 0) matches Err(error) && found@
                == length_fault(line as nat, error, limit),
        },
{
    proof {
        lemma_chunks_push(start@, limit, chunks@, value@, 0);
    }
    match push_bounded(output, value, limit, line) {
        Ok(()) => Ok(()),
        Err(error) => {
            proof {
                let some = chunks@.push(value@);
                let more = whole@.skip(some.len() as int);
                assert(some + more =~= whole@);
                lemma_chunks_step(start@, limit, some, more, 0);
            }
            Err(error)
        },
    }
}

proof fn lemma_escaped_chars_prefix(chars: Seq<char>, n: nat, m: nat)
    requires
        n <= m <= chars.len(),
    ensures
        escaped_chars(chars, n).is_prefix_of(escaped_chars(chars, m)),
    decreases m,
{
    if n < m {
        lemma_escaped_chars_prefix(chars, n, (m - 1) as nat);
    }
}

proof fn lemma_escaped_bytes_prefix(bytes: Seq<u8>, n: nat, m: nat)
    requires
        n <= m <= bytes.len(),
    ensures
        escaped_bytes(bytes, n).is_prefix_of(escaped_bytes(bytes, m)),
    decreases m,
{
    if n < m {
        lemma_escaped_bytes_prefix(bytes, n, (m - 1) as nat);
    }
}

/// Appends a regular expression that matches exactly `value`.
pub fn push_regex_escaped(output: &mut Vec<u8>, value: &[u8], limit: usize, line: usize) -> (r:
    Result<(), ExpansionError>)
    ensures
        match extended_by(old(output)@, limit, escape_chunks(value@), 0) {
            Ok(bytes) => r is Ok && final(output)@ == bytes,
            Err(error) => r matches Err(found) && found@ == length_fault(
                line as nat,
                error,
                limit,
            ),
        },
{
    let ghost start = output@;
    let ghost whole = escape_chunks(value@);
    let ghost mut done: Seq<Seq<u8>> = Seq::empty();
    let opening = text_bytes("(?:)");
    assert(done.push(opening@).is_prefix_of(whole));
    match push_chunk(
        output,
        opening.as_slice(),
        limit,
        line,
        Ghost(start),
        Ghost(done),
        Ghost(whole),
    ) {
        Ok(()) => {},
        Err(error) => {
            return Err(error);
        },
    }
    proof {
        done = done.push(opening@);
        assert(done =~= seq![opening@]);
    }
    match string_from_utf8(slice_to_vec(value)) {
        Some(given) => {
            let chars = to_chars(given.as_str());
            proof {
                encode_utf8_decode_utf8(given@);
                assert(chars@ == decode_utf8(value@));
            }
            let mut i: usize = 0;
            assert(done =~= seq![opening@] + escaped_chars(chars@, 0));
            while i < chars.len()
                invariant
                    i <= chars@.len(),
                    whole == seq![opening@] + escaped_chars(chars@, chars@.len()),
                    done == seq![opening@] + escaped_chars(chars@, i as nat),
                    start == old(output)@,
                    whole == escape_chunks(value@),
                    extended_by(start, limit, done, 0) == Ok::<_, BoundedBytesError>(output@),
                decreases chars.len() - i,
            {
                let c = chars[i];
                proof {
                    lemma_escaped_chars_prefix(chars@, (i + 1) as nat, chars@.len());
                    assert((seq![opening@] + escaped_chars(chars@, (i + 1) as nat)).is_prefix_of(
                        whole,
                    ));
                }
                if is_regex_special(c) {
                    let slash = text_bytes("\\");
                    proof {
                        assert(done.push(slash@) =~= seq![opening@] + escaped_chars(
                            chars@,
                            i as nat,
                        ).push(slash@));
                        assert(done.push(slash@).is_prefix_of(whole));
                    }
                    match push_chunk(
                        output,
                        slash.as_slice(),
                        limit,
                        line,
                        Ghost(start),
                        Ghost(done),
                        Ghost(whole),
                    ) {
                        Ok(()) => {},
                        Err(error) => {
                            return Err(error);
                        },
                    }
                    proof {
                        done = done.push(slash@);
                    }
                }
                let one: [char; 1] = [c];
                let spelled = from_chars(&one);
                assert(one@ =~= seq![c]);
                let encoded = text_bytes(spelled.as_str());
                assert(done.push(encoded@) =~= seq![opening@] + escaped_chars(
                    chars@,
                    (i + 1) as nat,
                ));
                match push_chunk(
                    output,
                    encoded.as_slice(),
                    limit,
                    line,
                    Ghost(start),
                    Ghost(done),
                    Ghost(whole),
                ) {
                    Ok(()) => {},
                    Err(error) => {
                        return Err(error);
                    },
                }
                proof {
                    done = done.push(encoded@);
                }
                i = i + 1;
            }
            assert(done =~= whole);
            Ok(())
        },
        None => {
            let group = text_bytes("(?-u:");
            let closing = text_bytes(")");
            let ghost head = seq![opening@].push(group@);
            assert(whole =~= head + escaped_bytes(value@, value@.len()).push(closing@));
            assert(done.push(group@) =~= head);
            match push_chunk(
                output,
                group.as_slice(),
                limit,
                line,
                Ghost(start),
                Ghost(done),
                Ghost(whole),
            ) {
                Ok(()) => {},
                Err(error) => {
                    return Err(error);
                },
            }
            proof {
                done = done.push(group@);
                assert(done =~= head + escaped_bytes(value@, 0));
            }
            let mut i: usize = 0;
            while i < value.len()
                invariant
                    i <= value@.len(),
                    whole == head + escaped_bytes(value@, value@.len()).push(closing@),
                    done == head + escaped_bytes(value@, i as nat),
                    start == old(output)@,
                    whole == escape_chunks(value@),
                    extended_by(start, limit, done, 0) == Ok::<_, BoundedBytesError>(output@),
                decreases value.len() - i,
            {
                let byte = value[i];
                let mut escape = "\\x".to_owned();
                escape.push(hex_digit(byte / 16));
                escape.push(hex_digit(byte % 16));
                let encoded = text_bytes(escape.as_str());
                proof {
                    lemma_escaped_bytes_prefix(value@, (i + 1) as nat, value@.len());
                    assert(encoded@ == hex_escape(byte));
                    assert(done.push(encoded@) =~= head + escaped_bytes(value@, (i + 1) as nat));
                    assert(done.push(encoded@).is_prefix_of(whole));
                }
                match push_chunk(
                    output,
                    encoded.as_slice(),
                    limit,
                    line,
                    Ghost(start),
                    Ghost(done),
                    Ghost(whole),
                ) {
                    Ok(()) => {},
                    Err(error) => {
                        return Err(error);
                    },
                }
                proof {
                    done = done.push(encoded@);
                }
                i = i + 1;
            }
            assert(done.push(closing@) =~= whole);
            push_chunk(
                output,
                closing.as_slice(),
                limit,
                line,
                Ghost(start),
                Ghost(done),
                Ghost(whole),
            )
        },
    }
}

} // verus!
