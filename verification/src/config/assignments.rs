//! Assignments in an rc file.

use vstd::prelude::*;
use vstd::slice::slice_subrange;
use vstd::string::*;

use crate::config::errors::{self, ParseError, Refusal};
use crate::config::expression::{self, ExpressionModel, ShellExpression};
use crate::config::expression_parser::{self, parse_assignment_word, parse_expression};
use crate::config::recipe::{
    self, Assignment, AssignmentModel, CommandAssignment, CommandAssignmentModel, RcFileExpression,
    RcFileModel, Statement, StatementModel,
};
use crate::config::variables::{
    self, assignment_value_limit, variable_policy, AssignmentTarget, VariablePolicy, VariableSource,
};
use crate::config::{MAX_ASSIGNMENT_NAME_LEN, MAX_ASSIGNMENT_VALUE_LEN};
use crate::text::{
    self, chars_are, chars_len, from_chars, is_variable_name, numbered, same_text, split_at_char,
    text3, text_len, trimmed, trimmed_start,
};

verus! {

/// Whether a message says that a value is not one whole word.
pub open spec fn word_fault(message: Seq<char>) -> bool {
    message == "unterminated single-quoted assignment value"@ || message
        == "unterminated double-quoted assignment value"@ || message
        == "unterminated backquoted command in assignment value"@ || message
        == "assignment value contains more than one shell word"@
}

fn is_word_fault(message: &str) -> (r: bool)
    ensures
        r == word_fault(message@),
{
    same_text(message, "unterminated single-quoted assignment value") || same_text(
        message,
        "unterminated double-quoted assignment value",
    ) || same_text(message, "unterminated backquoted command in assignment value") || same_text(
        message,
        "assignment value contains more than one shell word",
    )
}

/// The word after an assignment's `=`, and its expression. A word in which
/// only a reference cannot be read is kept as it stands: it is refused when it
/// is expanded.
pub open spec fn value_word(input: Seq<char>, line: nat) -> Result<
    (Seq<char>, Option<ExpressionModel>),
    Refusal,
> {
    match expression_parser::assignment_word(input, line) {
        Ok((source, model)) => Ok((source, Some(model))),
        Err(error) => if word_fault(error.message) || expression_parser::ordinary_expression(
            input,
            line,
        ) is Ok {
            Err(errors::refusal(error.line, error.message))
        } else {
            Ok((input, None))
        },
    }
}

fn parse_value_word(input: &[char], line: usize) -> (r: Result<
    (String, Option<ShellExpression>),
    ParseError,
>)
    ensures
        match value_word(input@, line as nat) {
            Ok((source, model)) => r matches Ok(found) && found.0@ == source
                && recipe::expansion_model(found.1) == model,
            Err(error) => r matches Err(found) && found@ == error,
        },
{
    match parse_assignment_word(input, line) {
        Ok(word) => Ok((word.source, Some(word.expression))),
        Err(error) => {
            let source = from_chars(input);
            let refused = is_word_fault(error.message.as_str()) || match parse_expression(
                source.as_str(),
                line,
            ) {
                Ok(_) => true,
                Err(_) => false,
            };
            if refused {
                Err(ParseError::new(error.line, error.message))
            } else {
                Ok((source, None))
            }
        },
    }
}

fn is_plain_word(source: &[char]) -> (r: bool)
    ensures
        r == expression_parser::plain_text(source@),
{
    let mut i: usize = 0;
    while i < source.len()
        invariant
            i <= source@.len(),
            forall|j: int| 0 <= j < i ==> !expression_parser::shell_char(#[trigger] source@[j]),
        decreases source.len() - i,
    {
        let c = source[i];
        if c == '\\' || c == '"' || c == '\'' || c == '$' || c == '`' {
            assert(expression_parser::shell_char(source@[i as int]));
            return false;
        }
        i = i + 1;
    }
    true
}

/// Whether a word is one quoted string.
pub open spec fn is_quoted(source: Seq<char>) -> bool {
    source.len() >= 2 && (source[0] == '"' || source[0] == '\'') && source.last() == source[0]
        && !source.subrange(1, source.len() - 1).contains(source[0])
}

/// A word without the quotes around it.
pub open spec fn unquoted(source: Seq<char>) -> Seq<char> {
    if is_quoted(source) {
        source.subrange(1, source.len() - 1)
    } else {
        source
    }
}

fn without_quotes(source: &[char]) -> (r: &[char])
    ensures
        r@ == unquoted(source@),
{
    let length = source.len();
    if length < 2 || (source[0] != '"' && source[0] != '\'') || source[length - 1] != source[0] {
        return source;
    }
    let inner = slice_subrange(source, 1, length - 1);
    if text::has_char(inner, source[0]) {
        source
    } else {
        inner
    }
}

/// The value that an assignment keeps of its word.
pub open spec fn kept_value(
    source: Seq<char>,
    model: Option<ExpressionModel>,
    target: AssignmentTarget,
) -> Seq<char> {
    match model {
        None => source,
        Some(found) => match expression::parts_text(found.parts, found.parts.len()) {
            Some(literal) => if target.steers_parsing() {
                literal
            } else {
                unquoted(source)
            },
            None => unquoted(source),
        },
    }
}

/// The name and the value of an assignment.
pub open spec fn assignment_parts(line: Seq<char>) -> Option<(Seq<char>, Seq<char>)> {
    match text::split_once(line, '=') {
        Some(parts) => Some(parts),
        None => if line == "HOST"@ {
            Some(("HOST"@, ""@))
        } else {
            None
        },
    }
}

/// The assignment to `name` of what `input` starts with.
pub open spec fn assignment_to(name: Seq<char>, input: Seq<char>, line: nat) -> Result<
    AssignmentModel,
    Refusal,
> {
    let policy = variables::policy_of(name);
    match value_word(input, line) {
        Err(error) => Err(error),
        Ok((source, model)) => if text::byte_len(source) > MAX_ASSIGNMENT_VALUE_LEN {
            Err(
                errors::refusal(
                    line,
                    "assignment value exceeds the hard limit of "@ + text::decimal(
                        MAX_ASSIGNMENT_VALUE_LEN as nat,
                    ) + " bytes"@,
                ),
            )
        } else if policy is Unsupported {
            Err(errors::refusal(line, "procmail variable "@ + name + " is not supported"@))
        } else {
            match policy.target_for(VariableSource::RcFile) {
                None => Err(
                    errors::refusal(line, "variable "@ + name + " cannot be assigned in an rc file"@),
                ),
                Some(target) => {
                    let value = kept_value(source, model, target);
                    let limit = variables::value_limit(target);
                    if text::byte_len(value) > limit {
                        let kind = if target.path_kind() is Some {
                            " path exceeds the hard limit of "@
                        } else {
                            " value exceeds the hard limit of "@
                        };
                        Err(
                            errors::refusal(
                                line,
                                name + kind + text::decimal(limit as nat) + " bytes"@,
                            ),
                        )
                    } else {
                        Ok(
                            AssignmentModel {
                                line,
                                name,
                                value,
                                target,
                                expansion: if expression_parser::plain_text(source) {
                                    None
                                } else {
                                    model
                                },
                            },
                        )
                    }
                },
            }
        },
    }
}

/// The assignment on a line, if it is one.
pub open spec fn assignment_on(line: Seq<char>, line_number: nat) -> Result<
    Option<AssignmentModel>,
    Refusal,
> {
    match assignment_parts(line) {
        None => Ok(None),
        Some((name, value)) => if text::byte_len(text::trim(name)) > MAX_ASSIGNMENT_NAME_LEN {
            Err(
                errors::refusal(
                    line_number,
                    "assignment name exceeds the hard limit of "@ + text::decimal(
                        MAX_ASSIGNMENT_NAME_LEN as nat,
                    ) + " bytes"@,
                ),
            )
        } else if !text::variable_name(text::trim(name)) {
            Ok(None)
        } else {
            match assignment_to(text::trim(name), text::trim_start(value), line_number) {
                Ok(assignment) => Ok(Some(assignment)),
                Err(error) => Err(error),
            }
        },
    }
}

/// Reads the assignment to `name` of what `input` starts with.
fn parse_assignment_to(name: String, input: &[char], line: usize) -> (r: Result<
    Assignment,
    ParseError,
>)
    ensures
        errors::parsed_as(r, assignment_to(name@, input@, line as nat)),
{
    let (source, expression) = match parse_value_word(input, line) {
        Ok(found) => found,
        Err(error) => {
            return Err(error);
        },
    };
    if text_len(source.as_str()) > MAX_ASSIGNMENT_VALUE_LEN {
        return Err(
            ParseError::new(
                line,
                numbered(
                    "assignment value exceeds the hard limit of ",
                    MAX_ASSIGNMENT_VALUE_LEN,
                    " bytes",
                ),
            ),
        );
    }
    let policy = variable_policy(name.as_str());
    if let VariablePolicy::Unsupported = policy {
        return Err(
            ParseError::new(
                line,
                text3("procmail variable ", name.as_str(), " is not supported"),
            ),
        );
    }
    let target = match policy.assignment_target(VariableSource::RcFile) {
        Some(target) => target,
        None => {
            return Err(
                ParseError::new(
                    line,
                    text3("variable ", name.as_str(), " cannot be assigned in an rc file"),
                ),
            );
        },
    };
    let word = text::to_chars(source.as_str());
    let literal = match &expression {
        Some(found) => {
            if target.controls_rc_parsing() {
                found.literal_text()
            } else {
                None
            }
        },
        None => None,
    };
    let value = match literal {
        Some(text) => text,
        None => match &expression {
            Some(_) => from_chars(without_quotes(word.as_slice())),
            None => source,
        },
    };
    let limit = assignment_value_limit(target);
    if text_len(value.as_str()) > limit {
        let kind = match target.path() {
            Some(_) => " path exceeds the hard limit of ",
            None => " value exceeds the hard limit of ",
        };
        let start = text::text2(name.as_str(), kind);
        return Err(ParseError::new(line, numbered(start.as_str(), limit, " bytes")));
    }
    let expansion = if is_plain_word(word.as_slice()) {
        None
    } else {
        expression
    };
    Ok(Assignment { line, name, value, target, expansion })
}

/// Reads the assignment on a line, if it is one.
pub fn parse_assignment(line: &[char], line_number: usize) -> (r: Result<
    Option<Assignment>,
    ParseError,
>)
    ensures
        match assignment_on(line@, line_number as nat) {
            Ok(Some(assignment)) => r matches Ok(Some(found)) && found@ == assignment,
            Ok(None) => r matches Ok(None),
            Err(error) => r matches Err(found) && found@ == error,
        },
{
    let host = ['H', 'O', 'S', 'T'];
    let empty: [char; 0] = [];
    let (name, value) = match split_at_char(line, '=') {
        Some(parts) => parts,
        None => {
            if !chars_are(line, "HOST") {
                return Ok(None);
            }
            proof {
                reveal_strlit("HOST");
                reveal_strlit("");
                assert(host@ =~= "HOST"@);
                assert(empty@ =~= ""@);
            }
            (host.as_slice(), empty.as_slice())
        },
    };
    let name = trimmed(name);
    if chars_len(name) > MAX_ASSIGNMENT_NAME_LEN {
        return Err(
            ParseError::new(
                line_number,
                numbered(
                    "assignment name exceeds the hard limit of ",
                    MAX_ASSIGNMENT_NAME_LEN,
                    " bytes",
                ),
            ),
        );
    }
    if !is_variable_name(name) {
        return Ok(None);
    }
    match parse_assignment_to(from_chars(name), trimmed_start(value), line_number) {
        Ok(assignment) => Ok(Some(assignment)),
        Err(error) => Err(error),
    }
}

/// The statement that an assignment is, in a block of this depth.
pub open spec fn assignment_statement(assignment: AssignmentModel, depth: nat) -> Result<
    StatementModel,
    Refusal,
> {
    if depth != 0 && assignment.target.steers_parsing() {
        Err(
            errors::refusal(
                assignment.line,
                "variable "@ + assignment.name + " cannot be assigned inside a recipe block"@,
            ),
        )
    } else {
        match assignment.expansion {
            Some(expression) if expression.has_commands() => if assignment.target.steers_parsing() {
                Err(
                    errors::refusal(
                        assignment.line,
                        "variable "@ + assignment.name
                            + " cannot be set from command output because it controls rc parsing"@,
                    ),
                )
            } else {
                Ok(
                    StatementModel::CommandAssignment(
                        CommandAssignmentModel {
                            line: assignment.line,
                            name: assignment.name,
                            source: assignment.value,
                            target: assignment.target,
                            expression,
                        },
                    ),
                )
            },
            expansion => {
                let file = RcFileModel {
                    line: assignment.line,
                    value: assignment.value,
                    expansion,
                };
                if assignment.name == "INCLUDERC"@ {
                    Ok(StatementModel::Include(file))
                } else if assignment.name == "SWITCHRC"@ {
                    Ok(StatementModel::Switch(file))
                } else {
                    Ok(StatementModel::Assignment(assignment))
                }
            },
        }
    }
}

/// Makes the statement that an assignment is, in a block of this depth.
pub fn classify_assignment(assignment: Assignment, depth: usize) -> (r: Result<
    Statement,
    ParseError,
>)
    ensures
        errors::parsed_as(r, assignment_statement(assignment@, depth as nat)),
{
    let ghost model = assignment@;
    let Assignment { line, name, value, target, expansion } = assignment;
    if depth != 0 && target.controls_rc_parsing() {
        return Err(
            ParseError::new(
                line,
                text3("variable ", name.as_str(), " cannot be assigned inside a recipe block"),
            ),
        );
    }
    let runs_commands = match &expansion {
        Some(expression) => expression.has_commands(),
        None => false,
    };
    if runs_commands {
        if target.controls_rc_parsing() {
            return Err(
                ParseError::new(
                    line,
                    text3(
                        "variable ",
                        name.as_str(),
                        " cannot be set from command output because it controls rc parsing",
                    ),
                ),
            );
        }
        if let Some(expression) = expansion {
            let found = CommandAssignment { line, name, source: value, target, expression };
            assert(found@ == (CommandAssignmentModel {
                line: model.line,
                name: model.name,
                source: model.value,
                target: model.target,
                expression: model.expansion->0,
            }));
            return Ok(Statement::CommandAssignment(found));
        }
        return Err(ParseError::told(line, "parsed assignment expression is missing"));
    }
    if same_text(name.as_str(), "INCLUDERC") {
        return Ok(Statement::Include(RcFileExpression { line, value, expansion }));
    }
    if same_text(name.as_str(), "SWITCHRC") {
        return Ok(Statement::Switch(RcFileExpression { line, value, expansion }));
    }
    Ok(Statement::Assignment(Assignment { line, name, value, target, expansion }))
}

/// An assignment whose value is kept without an expression is expanded from its
/// text: a plain word to itself, and a word with a reference that cannot be
/// read to the fault of that reference, never to a value.
pub proof fn values_without_an_expression_expand_from_their_text(
    name: Seq<char>,
    input: Seq<char>,
    line: nat,
)
    requires
        assignment_to(name, input, line) is Ok,
        assignment_to(name, input, line)->Ok_0.expansion is None,
    ensures
        ({
            let value = assignment_to(name, input, line)->Ok_0.value;
            let expanded = expression_parser::ordinary_expression(value, line);
            if expression_parser::plain_text(value) {
                expanded == Ok::<ExpressionModel, errors::Fault>(
                    expression_parser::literal_expression(value),
                )
            } else {
                expanded is Err
            }
        }),
{
    let (source, model) = value_word(input, line)->Ok_0;
    if let Some(found) = model {
        expression_parser::plain_words_stand_for_themselves(input, line);
        expression_parser::plain_text_stands_for_itself(
            source,
            line,
            expression_parser::ExpressionSyntax::Ordinary { allow_commands: false },
        );
        lemma_unquoted_plain(source);
        assert(found.parts =~= expression_parser::with_literal(Seq::empty(), source));
        if source.len() == 0 {
            assert(expression::parts_text(found.parts, found.parts.len()) == Some(source)) by {
                assert(source =~= Seq::<char>::empty());
            }
        } else {
            reveal_with_fuel(expression::parts_text, 3);
            assert(Seq::<char>::empty() + source =~= source);
        }
    } else if expression_parser::plain_text(source) {
        expression_parser::plain_text_stands_for_itself(
            source,
            line,
            expression_parser::ExpressionSyntax::Ordinary { allow_commands: false },
        );
    }
}

proof fn lemma_unquoted_plain(source: Seq<char>)
    requires
        expression_parser::plain_text(source),
    ensures
        unquoted(source) == source,
{
    if is_quoted(source) {
        assert(expression_parser::shell_char(source[0]));
    }
}

} // verus!
