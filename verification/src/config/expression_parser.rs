//! Reading expressions.

use vstd::prelude::*;
use vstd::slice::slice_subrange;
use vstd::string::*;

use crate::config::arguments::{self, is_positional_parameter_name, MAX_POSITIONAL_ARGUMENTS};
use crate::config::errors::{self, ExpansionError, Fault};
use crate::config::expression::{
    self, CaseDirection, ExpressionModel, OperationModel, ParameterOperation, PartModel,
    ShellExpression, ShellPart,
};
use crate::config::shell_eval::{self, depth_error};
use crate::config::variables::{self, variable_policy, AssignmentTarget, VariablePolicy};
use crate::config::MAX_EXPANSION_DEPTH;
use crate::text::{
    self, counted, from_chars, is_ascii_digit, is_name_continue, is_name_start, is_variable_name,
    parse_usize, same_text, text2, text3, to_chars, trimmed_start,
};

verus! {

/// The two forms of expression.
#[derive(Debug, Clone, Copy, PartialEq, Eq, Structural)]
pub enum ExpressionSyntax {
    /// Words with quotes, in which backquoted commands may stand.
    Ordinary { allow_commands: bool },
    /// The text of a condition that is expanded before it is read.
    ShellCondition,
}

/// Inside which quotes a character stands.
#[derive(Debug, Clone, Copy, PartialEq, Eq, Structural)]
pub enum QuoteMode {
    Unquoted,
    Single,
    Double,
}

impl ExpressionSyntax {
    pub open spec fn takes_commands(self) -> bool {
        match self {
            ExpressionSyntax::Ordinary { allow_commands } => allow_commands,
            ExpressionSyntax::ShellCondition => true,
        }
    }

    /// Whether a backslash takes away the meaning of the character `c` behind
    /// it.
    pub open spec fn strips(self, quote: QuoteMode, c: char) -> bool {
        match self {
            ExpressionSyntax::Ordinary { allow_commands } => match quote {
                QuoteMode::Unquoted => true,
                QuoteMode::Double => c == '$' || c == '`' || c == '"' || c == '\\' || c == '\n',
                QuoteMode::Single => false,
            },
            ExpressionSyntax::ShellCondition => c == '$' || c == '`' || c == '"' || c == '\\',
        }
    }

    pub open spec fn open_command(self) -> Seq<char> {
        match self {
            ExpressionSyntax::Ordinary { allow_commands } =>
                "unterminated backquoted command in expression"@,
            ExpressionSyntax::ShellCondition =>
                "unterminated backquoted command in shell-expanded condition"@,
        }
    }

    fn allows_commands(self) -> (r: bool)
        ensures
            r == self.takes_commands(),
    {
        match self {
            ExpressionSyntax::Ordinary { allow_commands } => allow_commands,
            ExpressionSyntax::ShellCondition => true,
        }
    }

    fn escapes(self, quote: QuoteMode, c: char) -> (r: bool)
        ensures
            r == self.strips(quote, c),
    {
        match self {
            ExpressionSyntax::Ordinary { .. } => match quote {
                QuoteMode::Unquoted => true,
                QuoteMode::Double => c == '$' || c == '`' || c == '"' || c == '\\' || c == '\n',
                QuoteMode::Single => false,
            },
            ExpressionSyntax::ShellCondition => c == '$' || c == '`' || c == '"' || c == '\\',
        }
    }

    fn unterminated_command_message(self) -> (r: &'static str)
        ensures
            r@ == self.open_command(),
    {
        match self {
            ExpressionSyntax::Ordinary { .. } => "unterminated backquoted command in expression",
            ExpressionSyntax::ShellCondition =>
                "unterminated backquoted command in shell-expanded condition",
        }
    }
}

/// What is read, and how.
pub struct Source {
    pub input: Seq<char>,
    pub line: nat,
    pub syntax: ExpressionSyntax,
}

/// Where reading stops, and inside what it started.
#[derive(Debug, Clone, Copy, PartialEq, Eq, Structural)]
pub struct Bounds {
    pub stop_at_brace: bool,
    pub stop_at_word: bool,
    pub initial_quote: QuoteMode,
    pub pattern_word: bool,
}

/// What has been read so far.
pub struct Progress {
    pub index: int,
    pub quote: QuoteMode,
    pub parts: Seq<PartModel>,
    pub literal: Seq<char>,
    pub started: bool,
}

/// Whether a character stands at `index`, and is `c`.
pub open spec fn char_at(input: Seq<char>, index: int, c: char) -> bool {
    0 <= index < input.len() && input[index] == c
}

/// Whether the two characters from `index` on are `a` and `b`.
pub open spec fn pair_at(input: Seq<char>, index: int, a: char, b: char) -> bool {
    char_at(input, index, a) && char_at(input, index + 1, b)
}

/// The characters that mean something in a pattern.
pub open spec fn pattern_char(c: char) -> bool {
    c == '*' || c == '?' || c == '[' || c == '\\'
}

/// Literal text with one more character, quoted where a pattern would give it
/// a meaning that it does not have.
pub open spec fn with_char(literal: Seq<char>, c: char, pattern_quoted: bool) -> Seq<char> {
    if pattern_quoted && pattern_char(c) {
        literal.push('\\').push(c)
    } else {
        literal.push(c)
    }
}

/// Parts that go on with literal text.
pub open spec fn with_literal(parts: Seq<PartModel>, literal: Seq<char>) -> Seq<PartModel> {
    if literal.len() == 0 {
        parts
    } else if parts.len() > 0 && parts.last() is Literal {
        parts.drop_last().push(PartModel::Literal(parts.last()->Literal_0 + literal))
    } else {
        parts.push(PartModel::Literal(literal))
    }
}

/// A part, quoted where a pattern would give its value a meaning that it does
/// not have.
pub open spec fn quoted_part(part: PartModel, pattern_quoted: bool) -> PartModel {
    if pattern_quoted {
        PartModel::PatternQuote(ExpressionModel { parts: seq![part] })
    } else {
        part
    }
}

/// Where a backquoted command that goes on at `index` ends.
pub open spec fn command_end(input: Seq<char>, index: int, escaped: bool) -> int
    decreases input.len() - index,
{
    if index < 0 || index >= input.len() {
        input.len() as int
    } else if escaped {
        command_end(input, index + 1, false)
    } else if input[index] == '\\' {
        command_end(input, index + 1, true)
    } else if input[index] == '`' {
        index
    } else {
        command_end(input, index + 1, false)
    }
}

/// The backquoted command that starts at `index`, and where reading goes on.
pub open spec fn command_at(source: Source, index: int) -> Result<(PartModel, int), Fault> {
    let end = command_end(source.input, index + 1, false);
    if end >= source.input.len() {
        Err(errors::fault(source.line, source.syntax.open_command()))
    } else {
        Ok((PartModel::Command(source.input.subrange(index + 1, end)), end + 1))
    }
}

/// Where the digits from `index` on end.
pub open spec fn digits_end(input: Seq<char>, index: int) -> int
    decreases input.len() - index,
{
    if 0 <= index < input.len() && text::ascii_digit(input[index]) {
        digits_end(input, index + 1)
    } else {
        index
    }
}

/// Where a name's characters from `index` on end.
pub open spec fn name_rest_end(input: Seq<char>, index: int) -> int
    decreases input.len() - index,
{
    if 0 <= index < input.len() && text::name_continue(input[index]) {
        name_rest_end(input, index + 1)
    } else {
        index
    }
}

/// Where the name that starts at `index` ends: there, when none does.
pub open spec fn name_end(input: Seq<char>, index: int) -> int {
    if 0 <= index < input.len() && text::name_start(input[index]) {
        name_rest_end(input, index + 1)
    } else {
        index
    }
}

/// The positional parameter whose digits start at `index`.
pub open spec fn positional_at(source: Source, index: int) -> Result<(Seq<char>, int), Fault> {
    let end = digits_end(source.input, index);
    let name = source.input.subrange(index, end);
    match text::unsigned_number(name, usize::MAX as nat) {
        None => Err(errors::fault(source.line, "positional parameter index is too large"@)),
        Some(number) => if 1 <= number <= MAX_POSITIONAL_ARGUMENTS {
            Ok((name, end))
        } else {
            Err(
                errors::fault(
                    source.line,
                    "positional parameter index must be from 1 through "@ + text::decimal(
                        MAX_POSITIONAL_ARGUMENTS as nat,
                    ),
                ),
            )
        },
    }
}

/// The operators that a word follows.
#[derive(Debug, Clone, Copy, PartialEq, Eq, Structural)]
pub enum Operator {
    DefaultIfUnset,
    DefaultIfUnsetOrEmpty,
    AlternateIfSet,
    AlternateIfSetAndNotEmpty,
    AssignIfUnsetOrEmpty,
    ErrorIfUnsetOrEmpty,
    RemovePrefix(bool),
    RemoveSuffix(bool),
    ChangeCase(CaseDirection, bool),
}

impl Operator {
    /// Whether the operator's word is a pattern.
    pub open spec fn takes_pattern(self) -> bool {
        self is RemovePrefix || self is RemoveSuffix || self is ChangeCase
    }

    /// The operation that the operator and its word make.
    pub open spec fn applied(self, word: ExpressionModel) -> OperationModel {
        match self {
            Operator::DefaultIfUnset => OperationModel::DefaultIfUnset(word),
            Operator::DefaultIfUnsetOrEmpty => OperationModel::DefaultIfUnsetOrEmpty(word),
            Operator::AlternateIfSet => OperationModel::AlternateIfSet(word),
            Operator::AlternateIfSetAndNotEmpty => OperationModel::AlternateIfSetAndNotEmpty(word),
            Operator::AssignIfUnsetOrEmpty => OperationModel::AssignIfUnsetOrEmpty(word),
            Operator::ErrorIfUnsetOrEmpty => OperationModel::ErrorIfUnsetOrEmpty(word),
            Operator::RemovePrefix(longest) => OperationModel::RemovePrefix {
                pattern: word,
                longest,
            },
            Operator::RemoveSuffix(longest) => OperationModel::RemoveSuffix {
                pattern: word,
                longest,
            },
            Operator::ChangeCase(direction, all) => OperationModel::ChangeCase {
                pattern: word,
                direction,
                all,
            },
        }
    }

    fn is_pattern(self) -> (r: bool)
        ensures
            r == self.takes_pattern(),
    {
        match self {
            Operator::RemovePrefix(_) => true,
            Operator::RemoveSuffix(_) => true,
            Operator::ChangeCase(_, _) => true,
            _ => false,
        }
    }

    fn apply(self, word: ShellExpression) -> (r: ParameterOperation)
        ensures
            r@ == self.applied(word@),
    {
        match self {
            Operator::DefaultIfUnset => ParameterOperation::DefaultIfUnset(word),
            Operator::DefaultIfUnsetOrEmpty => ParameterOperation::DefaultIfUnsetOrEmpty(word),
            Operator::AlternateIfSet => ParameterOperation::AlternateIfSet(word),
            Operator::AlternateIfSetAndNotEmpty => ParameterOperation::AlternateIfSetAndNotEmpty(
                word,
            ),
            Operator::AssignIfUnsetOrEmpty => ParameterOperation::AssignIfUnsetOrEmpty(word),
            Operator::ErrorIfUnsetOrEmpty => ParameterOperation::ErrorIfUnsetOrEmpty(word),
            Operator::RemovePrefix(longest) => ParameterOperation::RemovePrefix {
                pattern: word,
                longest,
            },
            Operator::RemoveSuffix(longest) => ParameterOperation::RemoveSuffix {
                pattern: word,
                longest,
            },
            Operator::ChangeCase(direction, all) => ParameterOperation::ChangeCase {
                pattern: word,
                direction,
                all,
            },
        }
    }
}

/// The operator at `index`, and its width.
pub open spec fn operator_at(input: Seq<char>, index: int) -> Option<(Operator, int)> {
    if pair_at(input, index, ':', '-') {
        Some((Operator::DefaultIfUnsetOrEmpty, 2))
    } else if pair_at(input, index, ':', '+') {
        Some((Operator::AlternateIfSetAndNotEmpty, 2))
    } else if pair_at(input, index, ':', '=') {
        Some((Operator::AssignIfUnsetOrEmpty, 2))
    } else if pair_at(input, index, ':', '?') {
        Some((Operator::ErrorIfUnsetOrEmpty, 2))
    } else if pair_at(input, index, '#', '#') {
        Some((Operator::RemovePrefix(true), 2))
    } else if pair_at(input, index, '%', '%') {
        Some((Operator::RemoveSuffix(true), 2))
    } else if pair_at(input, index, '^', '^') {
        Some((Operator::ChangeCase(CaseDirection::Upper, true), 2))
    } else if pair_at(input, index, ',', ',') {
        Some((Operator::ChangeCase(CaseDirection::Lower, true), 2))
    } else if char_at(input, index, '#') {
        Some((Operator::RemovePrefix(false), 1))
    } else if char_at(input, index, '%') {
        Some((Operator::RemoveSuffix(false), 1))
    } else if char_at(input, index, '^') {
        Some((Operator::ChangeCase(CaseDirection::Upper, false), 1))
    } else if char_at(input, index, ',') {
        Some((Operator::ChangeCase(CaseDirection::Lower, false), 1))
    } else if char_at(input, index, '-') {
        Some((Operator::DefaultIfUnset, 1))
    } else if char_at(input, index, '+') {
        Some((Operator::AlternateIfSet, 1))
    } else {
        None
    }
}

/// The expression that starts at `index`, and where it ends.
pub open spec fn until_at(source: Source, nesting: nat, bounds: Bounds, index: int) -> Result<
    (ExpressionModel, int),
    Fault,
>
    decreases MAX_EXPANSION_DEPTH + 1 - nesting, source.input.len() - index, 4nat,
{
    if nesting > MAX_EXPANSION_DEPTH {
        Err(shell_eval::depth_fault(source.line))
    } else {
        until_from(
            source,
            nesting,
            bounds,
            Progress {
                index,
                quote: bounds.initial_quote,
                parts: Seq::empty(),
                literal: Seq::empty(),
                started: false,
            },
        )
    }
}

/// What reading that stops at the progress made gives.
pub open spec fn stopped(source: Source, bounds: Bounds, progress: Progress) -> Result<
    (ExpressionModel, int),
    Fault,
> {
    if progress.quote != bounds.initial_quote {
        Err(
            errors::fault(
                source.line,
                if progress.quote is Single {
                    "unterminated single-quoted expression"@
                } else {
                    "unterminated double-quoted expression"@
                },
            ),
        )
    } else if bounds.stop_at_brace && progress.index >= source.input.len() {
        Err(errors::fault(source.line, "variable reference is missing '}'"@))
    } else {
        Ok(
            (
                ExpressionModel { parts: with_literal(progress.parts, progress.literal) },
                progress.index,
            ),
        )
    }
}

/// Whether reading stops before the character at the progress made.
pub open spec fn stops_before(bounds: Bounds, progress: Progress, c: char) -> bool {
    ||| bounds.stop_at_brace && progress.quote == bounds.initial_quote && c == '}'
    ||| bounds.stop_at_word && progress.quote is Unquoted && (c == ' ' || c == '\t' || (c == '#'
        && !progress.started))
}

/// What one step of reading does.
pub enum Step {
    /// Reading stops here.
    Stop,
    /// Reading fails.
    Fail(Fault),
    /// Reading goes on.
    Next(Progress),
}

/// The step at the progress made. `reference` is what the text there is as a
/// reference, which counts where a `$` stands.
pub open spec fn step(
    source: Source,
    bounds: Bounds,
    progress: Progress,
    reference: Result<(Option<PartModel>, int), Fault>,
) -> Step {
    let Progress { index, quote, parts, literal, started } = progress;
    let c = source.input[index];
    let foreign = bounds.pattern_word && quote != bounds.initial_quote;
    if stops_before(bounds, progress, c) {
        Step::Stop
    } else if source.syntax is Ordinary && quote is Unquoted && c == '\'' {
        Step::Next(
            Progress { index: index + 1, quote: QuoteMode::Single, started: true, ..progress },
        )
    } else if source.syntax is Ordinary && quote is Single && c == '\'' {
        Step::Next(Progress { index: index + 1, quote: QuoteMode::Unquoted, ..progress })
    } else if source.syntax is Ordinary && quote is Unquoted && c == '"' {
        Step::Next(
            Progress { index: index + 1, quote: QuoteMode::Double, started: true, ..progress },
        )
    } else if source.syntax is Ordinary && quote is Double && c == '"' {
        Step::Next(Progress { index: index + 1, quote: QuoteMode::Unquoted, ..progress })
    } else if quote is Single {
        Step::Next(
            Progress {
                index: index + 1,
                literal: with_char(literal, c, foreign),
                started: true,
                ..progress
            },
        )
    } else if c == '\\' {
        if index + 1 < source.input.len() && source.syntax.strips(quote, source.input[index + 1]) {
            Step::Next(
                Progress {
                    index: index + 2,
                    literal: with_char(literal, source.input[index + 1], bounds.pattern_word),
                    started: true,
                    ..progress
                },
            )
        } else {
            Step::Next(
                Progress {
                    index: index + 1,
                    literal: with_char(literal, '\\', foreign),
                    started: true,
                    ..progress
                },
            )
        }
    } else if source.syntax.takes_commands() && c == '`' {
        match command_at(source, index) {
            Err(error) => Step::Fail(error),
            Ok((part, next)) => Step::Next(
                Progress {
                    index: next,
                    quote,
                    parts: with_literal(parts, literal).push(quoted_part(part, foreign)),
                    literal: Seq::empty(),
                    started: true,
                },
            ),
        }
    } else if c != '$' {
        Step::Next(
            Progress {
                index: index + 1,
                literal: with_char(literal, c, foreign),
                started: true,
                ..progress
            },
        )
    } else {
        match reference {
            Err(error) => Step::Fail(error),
            Ok((Some(part), next)) => Step::Next(
                Progress {
                    index: next,
                    quote,
                    parts: with_literal(parts, literal).push(quoted_part(part, foreign)),
                    literal: Seq::empty(),
                    started: true,
                },
            ),
            Ok((None, next)) => Step::Next(
                Progress {
                    index: next,
                    quote,
                    parts: with_literal(parts, literal),
                    literal: seq!['$'],
                    started: true,
                },
            ),
        }
    }
}

/// What the rest of an expression gives, behind the progress made.
#[verifier::opaque]
pub open spec fn until_from(
    source: Source,
    nesting: nat,
    bounds: Bounds,
    progress: Progress,
) -> Result<(ExpressionModel, int), Fault>
    decreases MAX_EXPANSION_DEPTH + 1 - nesting, source.input.len() - progress.index, 3nat,
{
    if progress.index < 0 || progress.index >= source.input.len() || nesting
        > MAX_EXPANSION_DEPTH {
        stopped(source, bounds, progress)
    } else {
        match step(
            source,
            bounds,
            progress,
            variable_at(source, nesting, progress.quote, bounds.pattern_word, progress.index),
        ) {
            Step::Stop => stopped(source, bounds, progress),
            Step::Fail(error) => Err(error),
            Step::Next(next) => if progress.index < next.index <= source.input.len() {
                until_from(source, nesting, bounds, next)
            } else {
                stopped(source, bounds, progress)
            },
        }
    }
}

pub proof fn lemma_until_from(source: Source, nesting: nat, bounds: Bounds, progress: Progress)
    ensures
        until_from(source, nesting, bounds, progress) == (if progress.index < 0 || progress.index
            >= source.input.len() || nesting > MAX_EXPANSION_DEPTH {
            stopped(source, bounds, progress)
        } else {
            match step(
                source,
                bounds,
                progress,
                variable_at(source, nesting, progress.quote, bounds.pattern_word, progress.index),
            ) {
                Step::Stop => stopped(source, bounds, progress),
                Step::Fail(error) => Err(error),
                Step::Next(next) => if progress.index < next.index <= source.input.len() {
                    until_from(source, nesting, bounds, next)
                } else {
                    stopped(source, bounds, progress)
                },
            }
        }),
{
    reveal_with_fuel(until_from, 2);
}

pub proof fn lemma_until_at(source: Source, nesting: nat, bounds: Bounds, index: int)
    requires
        nesting <= MAX_EXPANSION_DEPTH,
    ensures
        until_at(source, nesting, bounds, index) == until_from(
            source,
            nesting,
            bounds,
            Progress {
                index,
                quote: bounds.initial_quote,
                parts: Seq::empty(),
                literal: Seq::empty(),
                started: false,
            },
        ),
{
    reveal_with_fuel(until_from, 1);
    reveal_with_fuel(until_at, 2);
}

/// The reference whose `$` stands at `index`, and where reading goes on. In a
/// condition a `$` that starts no reference is literal.
pub open spec fn variable_at(
    source: Source,
    nesting: nat,
    quote: QuoteMode,
    pattern_word: bool,
    index: int,
) -> Result<(Option<PartModel>, int), Fault>
    decreases MAX_EXPANSION_DEPTH + 1 - nesting, source.input.len() - index, 2nat,
{
    let condition = source.syntax is ShellCondition;
    let escaped = condition && char_at(source.input, index + 1, '\\');
    let start = if escaped {
        index + 2
    } else {
        index + 1
    };
    if start >= source.input.len() {
        if escaped {
            Err(
                errors::fault(
                    source.line,
                    "regex-escaped condition variable is missing its name"@,
                ),
            )
        } else if condition {
            Ok((None, start))
        } else {
            Err(errors::fault(source.line, "'$' must be followed by NAME or {NAME}"@))
        }
    } else {
        let first = source.input[start];
        if first == '{' {
            if escaped {
                Err(
                    errors::fault(
                        source.line,
                        "regex-escaped condition variables use $\\NAME syntax"@,
                    ),
                )
            } else {
                match braced_at(source, nesting, quote, pattern_word, start) {
                    Err(error) => Err(error),
                    Ok((name, operation, next)) => referred(
                        source,
                        escaped,
                        name,
                        operation,
                        next,
                    ),
                }
            }
        } else if text::ascii_digit(first) {
            if escaped {
                Err(
                    errors::fault(
                        source.line,
                        "regex-escaped positional parameters are not supported"@,
                    ),
                )
            } else {
                match positional_at(source, start) {
                    Err(error) => Err(error),
                    Ok((name, next)) => referred(
                        source,
                        escaped,
                        name,
                        OperationModel::Value,
                        next,
                    ),
                }
            }
        } else if first == '#' {
            if escaped {
                Err(errors::fault(source.line, "regex-escaped argument count is not supported"@))
            } else {
                referred(source, escaped, "#"@, OperationModel::Value, start + 1)
            }
        } else if !text::name_start(first) {
            if condition {
                if first == '?' || first == '$' || first == '-' || first == '=' || first == '@'
                    || first == '*' {
                    Err(
                        errors::fault(
                            source.line,
                            "unsupported special parameter in shell-expanded condition"@,
                        ),
                    )
                } else {
                    Ok((None, start))
                }
            } else {
                Err(errors::fault(source.line, "unsupported special parameter in expression"@))
            }
        } else {
            let end = name_end(source.input, start);
            referred(
                source,
                escaped,
                source.input.subrange(start, end),
                OperationModel::Value,
                end,
            )
        }
    }
}

/// A reference to `name`, unless the variable has no counterpart here.
pub open spec fn referred(
    source: Source,
    escaped: bool,
    name: Seq<char>,
    operation: OperationModel,
    next: int,
) -> Result<(Option<PartModel>, int), Fault> {
    if !arguments::positional_name(name) && variables::policy_of(name) is Unsupported {
        Err(errors::fault(source.line, "procmail variable "@ + name + " is not supported"@))
    } else if escaped {
        Ok((Some(PartModel::RegexQuotedVariable(name)), next))
    } else {
        Ok((Some(PartModel::Variable { name, operation }), next))
    }
}

/// The name and the operation of the reference whose `{` stands at `index`.
pub open spec fn braced_at(
    source: Source,
    nesting: nat,
    quote: QuoteMode,
    pattern_word: bool,
    index: int,
) -> Result<(Seq<char>, OperationModel, int), Fault>
    decreases MAX_EXPANSION_DEPTH + 1 - nesting, source.input.len() - index, 1nat,
{
    let input = source.input;
    let first = index + 1;
    if pair_at(input, first, '#', '}') {
        Ok(("#"@, OperationModel::Value, first + 2))
    } else if char_at(input, first, '#') {
        let end = name_end(input, first + 1);
        let name = input.subrange(first + 1, end);
        if !text::variable_name(name) {
            Err(errors::fault(source.line, "variable reference contains an invalid name"@))
        } else if !char_at(input, end, '}') {
            Err(errors::fault(source.line, "${#NAME} does not accept a trailing expression"@))
        } else {
            Ok((name, OperationModel::Length, end + 1))
        }
    } else if 0 <= first < input.len() && text::ascii_digit(input[first]) {
        match positional_at(source, first) {
            Err(error) => Err(error),
            Ok((name, end)) => if !char_at(input, end, '}') {
                Err(
                    errors::fault(source.line, "positional parameter does not accept an operator"@),
                )
            } else {
                Ok((name, OperationModel::Value, end + 1))
            },
        }
    } else {
        let end = name_end(input, first);
        let name = input.subrange(first, end);
        if !text::variable_name(name) {
            Err(errors::fault(source.line, "variable reference contains an invalid name"@))
        } else {
            match operator_at(input, end) {
                Some((operator, width)) => if operator is AssignIfUnsetOrEmpty
                    && variables::policy_of(name) != VariablePolicy::RcOrCommandLine(
                    AssignmentTarget::User,
                ) {
                    Err(
                        errors::fault(
                            source.line,
                            "parameter assignment cannot modify protected variable "@ + name,
                        ),
                    )
                } else {
                    match word_at(
                        source,
                        nesting,
                        quote,
                        pattern_word || operator.takes_pattern(),
                        end + width,
                    ) {
                        Err(error) => Err(error),
                        Ok((word, next)) => Ok((name, operator.applied(word), next)),
                    }
                },
                None => if char_at(input, end, '}') {
                    Ok((name, OperationModel::Value, end + 1))
                } else {
                    Err(errors::fault(source.line, "unsupported parameter expansion operator"@))
                },
            }
        }
    }
}

/// The word of an operator, which starts at `index`, and what follows its
/// closing brace.
pub open spec fn word_at(
    source: Source,
    nesting: nat,
    quote: QuoteMode,
    pattern_word: bool,
    index: int,
) -> Result<(ExpressionModel, int), Fault>
    decreases MAX_EXPANSION_DEPTH + 1 - nesting, 0int, 0nat,
{
    if nesting > MAX_EXPANSION_DEPTH {
        Err(shell_eval::depth_fault(source.line))
    } else {
        match until_at(
            source,
            nesting + 1,
            Bounds {
                stop_at_brace: true,
                stop_at_word: false,
                initial_quote: quote,
                pattern_word,
            },
            index,
        ) {
            Err(error) => Err(error),
            Ok((word, next)) => if char_at(source.input, next, '}') {
                Ok((word, next + 1))
            } else {
                Err(errors::fault(source.line, "variable reference is missing '}'"@))
            },
        }
    }
}

/// Appends literal text to parts.
pub(crate) fn push_literal_part(parts: &mut Vec<ShellPart>, literal: &str)
    ensures
        expression::models_of(final(parts)@) == with_literal(
            expression::models_of(old(parts)@),
            literal@,
        ),
{
    if literal.is_empty() {
        return;
    }
    let ghost before = parts@;
    proof {
        expression::lemma_models_of(before, arbitrary());
    }
    if parts.len() > 0 && matches!(parts[parts.len() - 1], ShellPart::Literal(_)) {
        match parts.pop() {
            Some(ShellPart::Literal(previous)) => {
                let mut longer = previous;
                longer.append(literal);
                let part = ShellPart::Literal(longer);
                proof {
                    expression::lemma_models_of(parts@, part);
                    assert(parts@ =~= before.drop_last());
                }
                parts.push(part);
            },
            _ => {},
        }
    } else {
        let part = ShellPart::Literal(literal.to_owned());
        proof {
            expression::lemma_models_of(before, part);
        }
        parts.push(part);
    }
}

fn push_expression_character(literal: &mut String, c: char, pattern_quoted: bool)
    ensures
        final(literal)@ == with_char(old(literal)@, c, pattern_quoted),
{
    if pattern_quoted && (c == '*' || c == '?' || c == '[' || c == '\\') {
        literal.push('\\');
    }
    literal.push(c);
}

fn char_is(input: &[char], index: usize, c: char) -> (r: bool)
    ensures
        r == char_at(input@, index as int, c),
{
    index < input.len() && input[index] == c
}

fn pair_is(input: &[char], index: usize, a: char, b: char) -> (r: bool)
    ensures
        r == pair_at(input@, index as int, a, b),
{
    index < input.len() && input[index] == a && index + 1 < input.len() && input[index + 1] == b
}

fn find_operator(input: &[char], index: usize) -> (r: Option<(Operator, usize)>)
    ensures
        match operator_at(input@, index as int) {
            Some((operator, width)) => r == Some((operator, width as usize)) && 0 <= width && index
                + width <= input@.len(),
            None => r is None,
        },
{
    if pair_is(input, index, ':', '-') {
        Some((Operator::DefaultIfUnsetOrEmpty, 2))
    } else if pair_is(input, index, ':', '+') {
        Some((Operator::AlternateIfSetAndNotEmpty, 2))
    } else if pair_is(input, index, ':', '=') {
        Some((Operator::AssignIfUnsetOrEmpty, 2))
    } else if pair_is(input, index, ':', '?') {
        Some((Operator::ErrorIfUnsetOrEmpty, 2))
    } else if pair_is(input, index, '#', '#') {
        Some((Operator::RemovePrefix(true), 2))
    } else if pair_is(input, index, '%', '%') {
        Some((Operator::RemoveSuffix(true), 2))
    } else if pair_is(input, index, '^', '^') {
        Some((Operator::ChangeCase(CaseDirection::Upper, true), 2))
    } else if pair_is(input, index, ',', ',') {
        Some((Operator::ChangeCase(CaseDirection::Lower, true), 2))
    } else if char_is(input, index, '#') {
        Some((Operator::RemovePrefix(false), 1))
    } else if char_is(input, index, '%') {
        Some((Operator::RemoveSuffix(false), 1))
    } else if char_is(input, index, '^') {
        Some((Operator::ChangeCase(CaseDirection::Upper, false), 1))
    } else if char_is(input, index, ',') {
        Some((Operator::ChangeCase(CaseDirection::Lower, false), 1))
    } else if char_is(input, index, '-') {
        Some((Operator::DefaultIfUnset, 1))
    } else if char_is(input, index, '+') {
        Some((Operator::AlternateIfSet, 1))
    } else {
        None
    }
}

/// Reads expressions out of one piece of text.
struct ExpressionParser<'a> {
    input: &'a [char],
    line: usize,
    syntax: ExpressionSyntax,
}

impl<'a> View for ExpressionParser<'a> {
    type V = Source;

    closed spec fn view(&self) -> Source {
        Source { input: self.input@, line: self.line as nat, syntax: self.syntax }
    }
}

impl<'a> ExpressionParser<'a> {
    fn parse_command(&self, index: usize) -> (r: Result<(ShellPart, usize), ExpansionError>)
        requires
            index < self@.input.len(),
        ensures
            match command_at(self@, index as int) {
                Ok((part, next)) => r matches Ok(found) && found.0@ == part && found.1 == next
                    && index < next <= self@.input.len(),
                Err(error) => r matches Err(found) && found@ == error,
            },
    {
        let _length = self.input.len();
        let start: usize = index + 1;
        let mut end: usize = start;
        let mut escaped = false;
        while end < self.input.len() && (escaped || self.input[end] != '`')
            invariant
                start <= end <= self.input@.len(),
                command_end(self.input@, start as int, false) == command_end(
                    self.input@,
                    end as int,
                    escaped,
                ),
            decreases self.input.len() - end,
        {
            if escaped {
                escaped = false;
            } else if self.input[end] == '\\' {
                escaped = true;
            }
            end = end + 1;
        }
        if end == self.input.len() {
            return Err(
                ExpansionError::told(self.line, self.syntax.unterminated_command_message()),
            );
        }
        let command = from_chars(slice_subrange(self.input, start, end));
        Ok((ShellPart::Command(command), end + 1))
    }

    fn parse_positional_parameter(&self, index: usize) -> (r: Result<
        (String, usize),
        ExpansionError,
    >)
        requires
            index <= self@.input.len(),
        ensures
            match positional_at(self@, index as int) {
                Ok((name, next)) => r matches Ok(found) && found.0@ == name && found.1 == next
                    && index <= next <= self@.input.len() && (index < self@.input.len()
                    && text::ascii_digit(self@.input[index as int]) ==> index < next),
                Err(error) => r matches Err(found) && found@ == error,
            },
    {
        let mut end: usize = index;
        while end < self.input.len() && is_ascii_digit(self.input[end])
            invariant
                index <= end <= self.input@.len(),
                digits_end(self.input@, index as int) == digits_end(self.input@, end as int),
            decreases self.input.len() - end,
        {
            end = end + 1;
        }
        let name = slice_subrange(self.input, index, end);
        match parse_usize(name) {
            None => Err(ExpansionError::told(self.line, "positional parameter index is too large")),
            Some(number) => if 1 <= number && number <= MAX_POSITIONAL_ARGUMENTS {
                Ok((from_chars(name), end))
            } else {
                Err(
                    ExpansionError::new(
                        self.line,
                        counted("positional parameter index must be from 1 through ", MAX_POSITIONAL_ARGUMENTS),
                    ),
                )
            },
        }
    }

    fn parse_name(&self, index: usize) -> (r: usize)
        requires
            index <= self@.input.len(),
        ensures
            r == name_end(self@.input, index as int),
            index <= r <= self@.input.len(),
            index < self@.input.len() && text::name_start(self@.input[index as int]) ==> index < r,
    {
        if index < self.input.len() && is_name_start(self.input[index]) {
            let mut end: usize = index + 1;
            while end < self.input.len() && is_name_continue(self.input[end])
                invariant
                    index < end <= self.input@.len(),
                    name_rest_end(self.input@, index + 1) == name_rest_end(
                        self.input@,
                        end as int,
                    ),
                decreases self.input.len() - end,
            {
                end = end + 1;
            }
            end
        } else {
            index
        }
    }

    fn parse_parameter_word(
        &self,
        nesting: usize,
        quote: QuoteMode,
        pattern_word: bool,
        index: usize,
    ) -> (r: Result<(ShellExpression, usize), ExpansionError>)
        requires
            index <= self@.input.len(),
            nesting <= MAX_EXPANSION_DEPTH,
        ensures
            match word_at(self@, nesting as nat, quote, pattern_word, index as int) {
                Ok((word, next)) => r matches Ok(found) && found.0@ == word && found.1 == next
                    && index <= next <= self@.input.len(),
                Err(error) => r matches Err(found) && found@ == error,
            },
        decreases MAX_EXPANSION_DEPTH + 1 - nesting, 0int, 0nat,
    {
        let bounds = Bounds {
            stop_at_brace: true,
            stop_at_word: false,
            initial_quote: quote,
            pattern_word,
        };
        let _length = self.input.len();
        match self.parse_until(nesting + 1, bounds, index) {
            Err(error) => Err(error),
            Ok((word, next)) => if char_is(self.input, next, '}') {
                Ok((word, next + 1))
            } else {
                Err(ExpansionError::told(self.line, "variable reference is missing '}'"))
            },
        }
    }

    fn parse_braced_variable(
        &self,
        nesting: usize,
        quote: QuoteMode,
        pattern_word: bool,
        index: usize,
    ) -> (r: Result<(String, ParameterOperation, usize), ExpansionError>)
        requires
            index < self@.input.len(),
            nesting <= MAX_EXPANSION_DEPTH,
        ensures
            match braced_at(self@, nesting as nat, quote, pattern_word, index as int) {
                Ok((name, operation, next)) => r matches Ok(found) && found.0@ == name && found.1@
                    == operation && found.2 == next && index < next <= self@.input.len(),
                Err(error) => r matches Err(found) && found@ == error,
            },
        decreases MAX_EXPANSION_DEPTH + 1 - nesting, self@.input.len() - index, 1nat,
    {
        let _length = self.input.len();
        let first: usize = index + 1;
        if pair_is(self.input, first, '#', '}') {
            return Ok(("#".to_owned(), ParameterOperation::Value, first + 2));
        }
        if char_is(self.input, first, '#') {
            let end = self.parse_name(first + 1);
            let name = slice_subrange(self.input, first + 1, end);
            if !is_variable_name(name) {
                return Err(
                    ExpansionError::told(self.line, "variable reference contains an invalid name"),
                );
            }
            if !char_is(self.input, end, '}') {
                return Err(
                    ExpansionError::told(
                        self.line,
                        "${#NAME} does not accept a trailing expression",
                    ),
                );
            }
            return Ok((from_chars(name), ParameterOperation::Length, end + 1));
        }
        if first < self.input.len() && is_ascii_digit(self.input[first]) {
            return match self.parse_positional_parameter(first) {
                Err(error) => Err(error),
                Ok((name, end)) => if !char_is(self.input, end, '}') {
                    Err(
                        ExpansionError::told(
                            self.line,
                            "positional parameter does not accept an operator",
                        ),
                    )
                } else {
                    Ok((name, ParameterOperation::Value, end + 1))
                },
            };
        }
        let end = self.parse_name(first);
        let name_chars = slice_subrange(self.input, first, end);
        if !is_variable_name(name_chars) {
            return Err(
                ExpansionError::told(self.line, "variable reference contains an invalid name"),
            );
        }
        let name = from_chars(name_chars);
        match find_operator(self.input, end) {
            Some((operator, width)) => {
                if operator == Operator::AssignIfUnsetOrEmpty && variable_policy(name.as_str())
                    != VariablePolicy::RcOrCommandLine(AssignmentTarget::User) {
                    return Err(
                        ExpansionError::new(
                            self.line,
                            text2("parameter assignment cannot modify protected variable ", name.as_str()),
                        ),
                    );
                }
                match self.parse_parameter_word(
                    nesting,
                    quote,
                    pattern_word || operator.is_pattern(),
                    end + width,
                ) {
                    Err(error) => Err(error),
                    Ok((word, next)) => Ok((name, operator.apply(word), next)),
                }
            },
            None => if char_is(self.input, end, '}') {
                Ok((name, ParameterOperation::Value, end + 1))
            } else {
                Err(ExpansionError::told(self.line, "unsupported parameter expansion operator"))
            },
        }
    }

    fn refer(
        &self,
        escaped: bool,
        name: String,
        operation: ParameterOperation,
        next: usize,
    ) -> (r: Result<(Option<ShellPart>, usize), ExpansionError>)
        ensures
            match referred(self@, escaped, name@, operation@, next as int) {
                Ok((part, following)) => r matches Ok(found) && found.1 == following
                    && following == next && match part {
                    Some(model) => found.0 matches Some(given) && given@ == model,
                    None => found.0 is None,
                },
                Err(error) => r matches Err(found) && found@ == error,
            },
    {
        if !is_positional_parameter_name(name.as_str()) && variable_policy(name.as_str())
            == VariablePolicy::Unsupported {
            return Err(
                ExpansionError::new(
                    self.line,
                    text3("procmail variable ", name.as_str(), " is not supported"),
                ),
            );
        }
        if escaped {
            Ok((Some(ShellPart::RegexQuotedVariable(name)), next))
        } else {
            Ok((Some(ShellPart::Variable { name, operation }), next))
        }
    }

    fn parse_variable(
        &self,
        nesting: usize,
        quote: QuoteMode,
        pattern_word: bool,
        index: usize,
    ) -> (r: Result<(Option<ShellPart>, usize), ExpansionError>)
        requires
            index < self@.input.len(),
            nesting <= MAX_EXPANSION_DEPTH,
        ensures
            match variable_at(self@, nesting as nat, quote, pattern_word, index as int) {
                Ok((part, next)) => r matches Ok(found) && found.1 == next && index < next
                    <= self@.input.len() && match part {
                    Some(model) => found.0 matches Some(given) && given@ == model,
                    None => found.0 is None,
                },
                Err(error) => r matches Err(found) && found@ == error,
            },
        decreases MAX_EXPANSION_DEPTH + 1 - nesting, self@.input.len() - index, 2nat,
    {
        let _length = self.input.len();
        let condition = self.syntax == ExpressionSyntax::ShellCondition;
        let escaped = condition && char_is(self.input, index + 1, '\\');
        let start: usize = if escaped {
            index + 2
        } else {
            index + 1
        };
        if start >= self.input.len() {
            if escaped {
                return Err(
                    ExpansionError::told(
                        self.line,
                        "regex-escaped condition variable is missing its name",
                    ),
                );
            }
            if condition {
                return Ok((None, start));
            }
            return Err(ExpansionError::told(self.line, "'$' must be followed by NAME or {NAME}"));
        }
        let first = self.input[start];
        if first == '{' {
            if escaped {
                return Err(
                    ExpansionError::told(
                        self.line,
                        "regex-escaped condition variables use $\\NAME syntax",
                    ),
                );
            }
            return match self.parse_braced_variable(nesting, quote, pattern_word, start) {
                Err(error) => Err(error),
                Ok((name, operation, next)) => self.refer(escaped, name, operation, next),
            };
        }
        if is_ascii_digit(first) {
            if escaped {
                return Err(
                    ExpansionError::told(
                        self.line,
                        "regex-escaped positional parameters are not supported",
                    ),
                );
            }
            return match self.parse_positional_parameter(start) {
                Err(error) => Err(error),
                Ok((name, next)) => self.refer(escaped, name, ParameterOperation::Value, next),
            };
        }
        if first == '#' {
            if escaped {
                return Err(
                    ExpansionError::told(
                        self.line,
                        "regex-escaped argument count is not supported",
                    ),
                );
            }
            return self.refer(escaped, "#".to_owned(), ParameterOperation::Value, start + 1);
        }
        if !is_name_start(first) {
            if condition {
                if first == '?' || first == '$' || first == '-' || first == '=' || first == '@'
                    || first == '*' {
                    return Err(
                        ExpansionError::told(
                            self.line,
                            "unsupported special parameter in shell-expanded condition",
                        ),
                    );
                }
                return Ok((None, start));
            }
            return Err(
                ExpansionError::told(self.line, "unsupported special parameter in expression"),
            );
        }
        let end = self.parse_name(start);
        let name = from_chars(slice_subrange(self.input, start, end));
        self.refer(escaped, name, ParameterOperation::Value, end)
    }

    fn finish(
        &self,
        bounds: Bounds,
        index: usize,
        quote: QuoteMode,
        parts: Vec<ShellPart>,
        literal: &str,
        started: Ghost<bool>,
    ) -> (r: Result<(ShellExpression, usize), ExpansionError>)
        requires
            index <= self@.input.len(),
        ensures
            match stopped(
                self@,
                bounds,
                Progress {
                    index: index as int,
                    quote,
                    parts: expression::models_of(parts@),
                    literal: literal@,
                    started: started@,
                },
            ) {
                Ok((model, next)) => r matches Ok(found) && found.0@ == model && found.1 == next
                    && next == index,
                Err(error) => r matches Err(found) && found@ == error,
            },
    {
        let mut all = parts;
        push_literal_part(&mut all, literal);
        if quote != bounds.initial_quote {
            return Err(
                ExpansionError::told(
                    self.line,
                    if quote == QuoteMode::Single {
                        "unterminated single-quoted expression"
                    } else {
                        "unterminated double-quoted expression"
                    },
                ),
            );
        }
        if bounds.stop_at_brace && index == self.input.len() {
            return Err(ExpansionError::told(self.line, "variable reference is missing '}'"));
        }
        Ok((ShellExpression { parts: all }, index))
    }

    fn parse_until(&self, nesting: usize, bounds: Bounds, start: usize) -> (r: Result<
        (ShellExpression, usize),
        ExpansionError,
    >)
        requires
            start <= self@.input.len(),
        ensures
            match until_at(self@, nesting as nat, bounds, start as int) {
                Ok((model, next)) => r matches Ok(found) && found.0@ == model && found.1 == next
                    && start <= next <= self@.input.len(),
                Err(error) => r matches Err(found) && found@ == error,
            },
        decreases MAX_EXPANSION_DEPTH + 1 - nesting, self@.input.len() - start, 4nat,
    {
        if nesting > MAX_EXPANSION_DEPTH {
            return Err(depth_error(self.line));
        }
        let mut parts: Vec<ShellPart> = Vec::new();
        let mut literal = String::new();
        let mut quote = bounds.initial_quote;
        let mut started = false;
        let mut index: usize = start;
        let ghost whole = until_at(self@, nesting as nat, bounds, start as int);
        proof {
            expression::lemma_models_of(parts@, arbitrary());
            assert(expression::models_of(parts@) =~= Seq::empty());
            assert(literal@ =~= Seq::empty());
            lemma_until_at(self@, nesting as nat, bounds, start as int);
        }
        while index < self.input.len()
            invariant
                start <= index <= self@.input.len(),
                self@.input == self.input@,
                self@.syntax == self.syntax,
                self@.line == self.line,
                nesting <= MAX_EXPANSION_DEPTH,
                whole == until_at(self@, nesting as nat, bounds, start as int),
                whole == until_from(
                    self@,
                    nesting as nat,
                    bounds,
                    Progress {
                        index: index as int,
                        quote,
                        parts: expression::models_of(parts@),
                        literal: literal@,
                        started,
                    },
                ),
            decreases self.input.len() - index,
        {
            proof {
                lemma_until_from(
                    self@,
                    nesting as nat,
                    bounds,
                    Progress {
                        index: index as int,
                        quote,
                        parts: expression::models_of(parts@),
                        literal: literal@,
                        started,
                    },
                );
            }
            let c = self.input[index];
            let foreign = bounds.pattern_word && quote != bounds.initial_quote;
            if bounds.stop_at_brace && quote == bounds.initial_quote && c == '}' {
                return self.finish(bounds, index, quote, parts, literal.as_str(), Ghost(started));
            }
            if bounds.stop_at_word && quote == QuoteMode::Unquoted {
                if c == ' ' || c == '\t' || (c == '#' && !started) {
                    return self.finish(
                        bounds,
                        index,
                        quote,
                        parts,
                        literal.as_str(),
                        Ghost(started),
                    );
                }
            }
            let ordinary = matches!(self.syntax, ExpressionSyntax::Ordinary { .. });
            if ordinary && quote == QuoteMode::Unquoted && c == '\'' {
                started = true;
                quote = QuoteMode::Single;
                index = index + 1;
                continue ;
            }
            if ordinary && quote == QuoteMode::Single && c == '\'' {
                quote = QuoteMode::Unquoted;
                index = index + 1;
                continue ;
            }
            if ordinary && quote == QuoteMode::Unquoted && c == '"' {
                started = true;
                quote = QuoteMode::Double;
                index = index + 1;
                continue ;
            }
            if ordinary && quote == QuoteMode::Double && c == '"' {
                quote = QuoteMode::Unquoted;
                index = index + 1;
                continue ;
            }
            if quote == QuoteMode::Single {
                push_expression_character(&mut literal, c, foreign);
                started = true;
                index = index + 1;
                continue ;
            }
            if c == '\\' {
                started = true;
                if index + 1 < self.input.len() && self.syntax.escapes(
                    quote,
                    self.input[index + 1],
                ) {
                    push_expression_character(
                        &mut literal,
                        self.input[index + 1],
                        bounds.pattern_word,
                    );
                    index = index + 2;
                } else {
                    push_expression_character(&mut literal, '\\', foreign);
                    index = index + 1;
                }
                continue ;
            }
            if self.syntax.allows_commands() && c == '`' {
                started = true;
                let (part, next) = match self.parse_command(index) {
                    Ok(found) => found,
                    Err(error) => {
                        return Err(error);
                    },
                };
                push_literal_part(&mut parts, literal.as_str());
                literal = String::new();
                let whole_part = quote_part(part, foreign);
                proof {
                    expression::lemma_models_of(parts@, whole_part);
                    assert(literal@ =~= Seq::empty());
                }
                parts.push(whole_part);
                index = next;
                continue ;
            }
            if c != '$' {
                push_expression_character(&mut literal, c, foreign);
                started = true;
                index = index + 1;
                continue ;
            }
            started = true;
            let (reference, next) = match self.parse_variable(
                nesting,
                quote,
                bounds.pattern_word,
                index,
            ) {
                Ok(found) => found,
                Err(error) => {
                    return Err(error);
                },
            };
            push_literal_part(&mut parts, literal.as_str());
            literal = String::new();
            assert(literal@ =~= Seq::empty());
            match reference {
                Some(part) => {
                    let whole_part = quote_part(part, foreign);
                    proof {
                        expression::lemma_models_of(parts@, whole_part);
                    }
                    parts.push(whole_part);
                },
                None => {
                    literal.push('$');
                    assert(literal@ =~= seq!['$']);
                },
            }
            index = next;
        }
        proof {
            lemma_until_from(
                self@,
                nesting as nat,
                bounds,
                Progress {
                    index: index as int,
                    quote,
                    parts: expression::models_of(parts@),
                    literal: literal@,
                    started,
                },
            );
        }
        self.finish(bounds, index, quote, parts, literal.as_str(), Ghost(started))
    }
}

fn quote_part(part: ShellPart, pattern_quoted: bool) -> (r: ShellPart)
    ensures
        r@ == quoted_part(part@, pattern_quoted),
{
    if pattern_quoted {
        let mut parts: Vec<ShellPart> = Vec::new();
        proof {
            expression::lemma_models_of(parts@, part);
        }
        parts.push(part);
        proof {
            assert(expression::models_of(parts@) =~= seq![part@]);
        }
        ShellPart::PatternQuote(Box::new(ShellExpression { parts }))
    } else {
        part
    }
}

/// What a whole text is as an expression.
pub open spec fn whole_expression(
    input: Seq<char>,
    line: nat,
    syntax: ExpressionSyntax,
) -> Result<ExpressionModel, Fault> {
    match until_at(
        Source { input, line, syntax },
        0,
        Bounds {
            stop_at_brace: false,
            stop_at_word: false,
            initial_quote: QuoteMode::Unquoted,
            pattern_word: false,
        },
        0,
    ) {
        Ok((model, next)) => Ok(model),
        Err(error) => Err(error),
    }
}

fn parse_whole(input: &str, line: usize, syntax: ExpressionSyntax) -> (r: Result<
    ShellExpression,
    ExpansionError,
>)
    ensures
        match whole_expression(input@, line as nat, syntax) {
            Ok(model) => r matches Ok(found) && found@ == model,
            Err(error) => r matches Err(found) && found@ == error,
        },
{
    let chars = to_chars(input);
    let parser = ExpressionParser { input: chars.as_slice(), line, syntax };
    let bounds = Bounds {
        stop_at_brace: false,
        stop_at_word: false,
        initial_quote: QuoteMode::Unquoted,
        pattern_word: false,
    };
    match parser.parse_until(0, bounds, 0) {
        Ok((found, _)) => Ok(found),
        Err(error) => Err(error),
    }
}

/// The expression that an ordinary text is.
pub open spec fn ordinary_expression(input: Seq<char>, line: nat) -> Result<
    ExpressionModel,
    Fault,
> {
    whole_expression(input, line, ExpressionSyntax::Ordinary { allow_commands: false })
}

/// Reads an expression without commands.
pub fn parse_expression(input: &str, line: usize) -> (r: Result<ShellExpression, ExpansionError>)
    ensures
        match ordinary_expression(input@, line as nat) {
            Ok(model) => r matches Ok(found) && found@ == model,
            Err(error) => r matches Err(found) && found@ == error,
        },
{
    parse_whole(input, line, ExpressionSyntax::Ordinary { allow_commands: false })
}

/// Reads the text of a condition that is expanded before it is read.
pub fn parse_shell_condition_expression(input: &str, line: usize) -> (r: Result<
    ShellExpression,
    ExpansionError,
>)
    ensures
        match whole_expression(input@, line as nat, ExpressionSyntax::ShellCondition) {
            Ok(model) => r matches Ok(found) && found@ == model,
            Err(error) => r matches Err(found) && found@ == error,
        },
{
    parse_whole(input, line, ExpressionSyntax::ShellCondition)
}

/// The expression that a text is, when the order of its evaluation matters.
pub open spec fn ordered_expression(input: Seq<char>, line: nat) -> Result<
    Option<ExpressionModel>,
    Fault,
> {
    match whole_expression(input, line, ExpressionSyntax::Ordinary { allow_commands: true }) {
        Ok(model) => Ok(
            if model.requires_ordered_evaluation() {
                Some(model)
            } else {
                None
            },
        ),
        Err(error) => Err(error),
    }
}

/// Reads an expression, and keeps it when the order of its evaluation
/// matters.
pub fn parse_command_expression(input: &str, line: usize) -> (r: Result<
    Option<ShellExpression>,
    ExpansionError,
>)
    ensures
        match ordered_expression(input@, line as nat) {
            Ok(Some(model)) => r matches Ok(Some(found)) && found@ == model,
            Ok(None) => r matches Ok(None),
            Err(error) => r matches Err(found) && found@ == error,
        },
{
    match parse_whole(input, line, ExpressionSyntax::Ordinary { allow_commands: true }) {
        Ok(found) => if found.requires_ordered_evaluation() {
            Ok(Some(found))
        } else {
            Ok(None)
        },
        Err(error) => Err(error),
    }
}

/// The first word of an assignment's value.
pub struct ParsedAssignmentWord {
    pub source: String,
    pub expression: ShellExpression,
}

/// How an assignment tells of an unterminated quotation.
pub open spec fn assignment_message(message: Seq<char>) -> Seq<char> {
    if message == "unterminated single-quoted expression"@ {
        "unterminated single-quoted assignment value"@
    } else if message == "unterminated double-quoted expression"@ {
        "unterminated double-quoted assignment value"@
    } else if message == "unterminated backquoted command in expression"@ {
        "unterminated backquoted command in assignment value"@
    } else {
        message
    }
}

/// The word that an assignment's value is: its text and its expression.
pub open spec fn assignment_word(input: Seq<char>, line: nat) -> Result<
    (Seq<char>, ExpressionModel),
    Fault,
> {
    match until_at(
        Source { input, line, syntax: ExpressionSyntax::Ordinary { allow_commands: true } },
        0,
        Bounds {
            stop_at_brace: false,
            stop_at_word: true,
            initial_quote: QuoteMode::Unquoted,
            pattern_word: false,
        },
        0,
    ) {
        Err(error) => Err(errors::fault(error.line, assignment_message(error.message))),
        Ok((model, next)) => {
            let trailing = text::trim_start(input.subrange(next, input.len() as int));
            if trailing.len() > 0 && trailing[0] != '#' {
                Err(
                    errors::fault(line, "assignment value contains more than one shell word"@),
                )
            } else {
                Ok((input.subrange(0, next), model))
            }
        },
    }
}

/// Reads the word that an assignment's value is.
pub fn parse_assignment_word(input: &[char], line: usize) -> (r: Result<
    ParsedAssignmentWord,
    ExpansionError,
>)
    ensures
        match assignment_word(input@, line as nat) {
            Ok((source, model)) => r matches Ok(found) && found.source@ == source
                && found.expression@ == model,
            Err(error) => r matches Err(found) && found@ == error,
        },
{
    let parser = ExpressionParser {
        input,
        line,
        syntax: ExpressionSyntax::Ordinary { allow_commands: true },
    };
    let bounds = Bounds {
        stop_at_brace: false,
        stop_at_word: true,
        initial_quote: QuoteMode::Unquoted,
        pattern_word: false,
    };
    let (found, next) = match parser.parse_until(0, bounds, 0) {
        Ok(found) => found,
        Err(error) => {
            let message = if same_text(
                error.message.as_str(),
                "unterminated single-quoted expression",
            ) {
                "unterminated single-quoted assignment value".to_owned()
            } else if same_text(error.message.as_str(), "unterminated double-quoted expression") {
                "unterminated double-quoted assignment value".to_owned()
            } else if same_text(
                error.message.as_str(),
                "unterminated backquoted command in expression",
            ) {
                "unterminated backquoted command in assignment value".to_owned()
            } else {
                error.message
            };
            return Err(ExpansionError::new(error.line, message));
        },
    };
    let trailing = trimmed_start(slice_subrange(input, next, input.len()));
    if trailing.len() > 0 && trailing[0] != '#' {
        return Err(
            ExpansionError::told(line, "assignment value contains more than one shell word"),
        );
    }
    Ok(
        ParsedAssignmentWord {
            source: from_chars(slice_subrange(input, 0, next)),
            expression: found,
        },
    )
}

/// Whether a character has a meaning of its own in a word.
pub open spec fn shell_char(c: char) -> bool {
    c == '\\' || c == '"' || c == '\'' || c == '$' || c == '`'
}

/// Whether a text holds no character with a meaning of its own.
pub open spec fn plain_text(source: Seq<char>) -> bool {
    forall|i: int| 0 <= i < source.len() ==> !shell_char(#[trigger] source[i])
}

/// The expression of a text that stands for itself.
pub open spec fn literal_expression(text: Seq<char>) -> ExpressionModel {
    ExpressionModel { parts: with_literal(Seq::empty(), text) }
}

proof fn lemma_plain_text(source: Source, bounds: Bounds, progress: Progress)
    requires
        plain_text(source.input),
        !bounds.stop_at_brace,
        !bounds.stop_at_word,
        bounds.initial_quote is Unquoted,
        !bounds.pattern_word,
        0 <= progress.index <= source.input.len(),
        progress.quote is Unquoted,
        progress.parts == Seq::<PartModel>::empty(),
        progress.literal == source.input.take(progress.index),
    ensures
        until_from(source, 0, bounds, progress) == Ok::<(ExpressionModel, int), Fault>(
            (literal_expression(source.input), source.input.len() as int),
        ),
    decreases source.input.len() - progress.index,
{
    lemma_until_from(source, 0, bounds, progress);
    let index = progress.index;
    if index < source.input.len() {
        assert(!shell_char(source.input[index]));
        let next = Progress {
            index: index + 1,
            literal: progress.literal.push(source.input[index]),
            started: true,
            ..progress
        };
        assert(source.input.take(index + 1) =~= source.input.take(index).push(source.input[index]));
        lemma_plain_text(source, bounds, next);
    } else {
        assert(source.input.take(index) =~= source.input);
    }
}

/// A text that holds no backslash, quote, backquote or `$` stands for itself,
/// in every syntax.
pub proof fn plain_text_stands_for_itself(input: Seq<char>, line: nat, syntax: ExpressionSyntax)
    requires
        plain_text(input),
    ensures
        whole_expression(input, line, syntax) == Ok::<ExpressionModel, Fault>(
            literal_expression(input),
        ),
{
    let source = Source { input, line, syntax };
    let bounds = Bounds {
        stop_at_brace: false,
        stop_at_word: false,
        initial_quote: QuoteMode::Unquoted,
        pattern_word: false,
    };
    lemma_until_at(source, 0, bounds, 0);
    let start = Progress {
        index: 0,
        quote: QuoteMode::Unquoted,
        parts: Seq::empty(),
        literal: Seq::empty(),
        started: false,
    };
    assert(input.take(0) =~= Seq::<char>::empty());
    lemma_plain_text(source, bounds, start);
}

proof fn lemma_single_quoted(source: Source, bounds: Bounds, progress: Progress, text: Seq<char>)
    requires
        source.syntax is Ordinary,
        source.input == seq!['\''] + text + seq!['\''],
        !text.contains('\''),
        !bounds.stop_at_brace,
        bounds.initial_quote is Unquoted,
        !bounds.pattern_word,
        1 <= progress.index <= text.len() + 1,
        progress.quote is Single,
        progress.parts == Seq::<PartModel>::empty(),
        progress.literal == text.take(progress.index - 1),
    ensures
        until_from(source, 0, bounds, progress) == Ok::<(ExpressionModel, int), Fault>(
            (literal_expression(text), source.input.len() as int),
        ),
    decreases source.input.len() - progress.index,
{
    lemma_until_from(source, 0, bounds, progress);
    let index = progress.index;
    if index < text.len() + 1 {
        assert(source.input[index] == text[index - 1]);
        assert(text.contains(text[index - 1]));
        let next = Progress {
            index: index + 1,
            literal: progress.literal.push(source.input[index]),
            started: true,
            ..progress
        };
        assert(text.take(index) =~= text.take(index - 1).push(text[index - 1]));
        lemma_single_quoted(source, bounds, next, text);
    } else {
        assert(source.input[index] == '\'');
        assert(text.take(index - 1) =~= text);
        let last = Progress { index: index + 1, quote: QuoteMode::Unquoted, ..progress };
        lemma_until_from(source, 0, bounds, last);
    }
}

/// A text in single quotes stands for itself, whatever it holds.
pub proof fn single_quoted_text_stands_for_itself(text: Seq<char>, line: nat, allow_commands: bool)
    requires
        !text.contains('\''),
    ensures
        whole_expression(
            seq!['\''] + text + seq!['\''],
            line,
            ExpressionSyntax::Ordinary { allow_commands },
        ) == Ok::<ExpressionModel, Fault>(literal_expression(text)),
{
    let input = seq!['\''] + text + seq!['\''];
    let source = Source { input, line, syntax: ExpressionSyntax::Ordinary { allow_commands } };
    let bounds = Bounds {
        stop_at_brace: false,
        stop_at_word: false,
        initial_quote: QuoteMode::Unquoted,
        pattern_word: false,
    };
    lemma_until_at(source, 0, bounds, 0);
    let start = Progress {
        index: 0,
        quote: QuoteMode::Unquoted,
        parts: Seq::empty(),
        literal: Seq::empty(),
        started: false,
    };
    lemma_until_from(source, 0, bounds, start);
    assert(input[0] == '\'');
    let opened = Progress { index: 1, quote: QuoteMode::Single, started: true, ..start };
    assert(text.take(0) =~= Seq::<char>::empty());
    lemma_single_quoted(source, bounds, opened, text);
}

proof fn lemma_reading_goes_on(source: Source, nesting: nat, bounds: Bounds, progress: Progress)
    requires
        0 <= progress.index <= source.input.len(),
    ensures
        until_from(source, nesting, bounds, progress) matches Ok((_, end)) ==> progress.index <= end
            <= source.input.len(),
    decreases source.input.len() - progress.index,
{
    lemma_until_from(source, nesting, bounds, progress);
    if progress.index < source.input.len() && nesting <= MAX_EXPANSION_DEPTH {
        let reference = variable_at(
            source,
            nesting,
            progress.quote,
            bounds.pattern_word,
            progress.index,
        );
        if let Step::Next(next) = step(source, bounds, progress, reference) {
            if progress.index < next.index <= source.input.len() {
                lemma_reading_goes_on(source, nesting, bounds, next);
            }
        }
    }
}

proof fn lemma_plain_word(source: Source, bounds: Bounds, progress: Progress, end: int)
    requires
        source.syntax is Ordinary,
        !bounds.stop_at_brace,
        bounds.initial_quote is Unquoted,
        !bounds.pattern_word,
        0 <= progress.index <= source.input.len(),
        progress.quote is Unquoted,
        progress.parts == Seq::<PartModel>::empty(),
        progress.literal == source.input.take(progress.index),
        until_from(source, 0, bounds, progress) is Ok,
        until_from(source, 0, bounds, progress)->Ok_0.1 == end,
        plain_text(source.input.take(end)),
    ensures
        until_from(source, 0, bounds, progress)->Ok_0.0 == literal_expression(
            source.input.take(end),
        ),
    decreases source.input.len() - progress.index,
{
    lemma_until_from(source, 0, bounds, progress);
    let index = progress.index;
    if index < source.input.len() {
        let reference = variable_at(source, 0, progress.quote, bounds.pattern_word, index);
        if let Step::Next(next) = step(source, bounds, progress, reference) {
            if index < next.index <= source.input.len() {
                lemma_reading_goes_on(source, 0, bounds, next);
                assert(source.input.take(end)[index] == source.input[index]);
                assert(!shell_char(source.input[index]));
                assert(source.input.take(index + 1) =~= source.input.take(index).push(
                    source.input[index],
                ));
                lemma_plain_word(source, bounds, next, end);
            }
        }
    }
}

/// An assignment's word that holds no backslash, quote, backquote or `$` stands
/// for itself.
pub proof fn plain_words_stand_for_themselves(input: Seq<char>, line: nat)
    requires
        assignment_word(input, line) is Ok,
        plain_text(assignment_word(input, line)->Ok_0.0),
    ensures
        assignment_word(input, line)->Ok_0.1 == literal_expression(
            assignment_word(input, line)->Ok_0.0,
        ),
{
    let source = Source { input, line, syntax: ExpressionSyntax::Ordinary { allow_commands: true } };
    let bounds = Bounds {
        stop_at_brace: false,
        stop_at_word: true,
        initial_quote: QuoteMode::Unquoted,
        pattern_word: false,
    };
    lemma_until_at(source, 0, bounds, 0);
    let start = Progress {
        index: 0,
        quote: QuoteMode::Unquoted,
        parts: Seq::empty(),
        literal: Seq::empty(),
        started: false,
    };
    let end = until_from(source, 0, bounds, start)->Ok_0.1;
    lemma_reading_goes_on(source, 0, bounds, start);
    assert(input.take(0) =~= Seq::<char>::empty());
    assert(input.take(end) =~= input.subrange(0, end));
    lemma_plain_word(source, bounds, start, end);
}

} // verus!
