//! Actions of recipes: destinations, commands whose output is captured, and
//! what a recipe's flags allow.

use vstd::prelude::*;
use vstd::slice::slice_subrange;
use vstd::string::*;

use crate::config::errors::{self, ParseError, Refusal};
use crate::config::expression_parser::{self, parse_command_expression};
use crate::config::header_actions::{self, validate_header_action_recipe};
use crate::config::recipe::{
    self, ActionInput, ActionMode, ChildStatusMode, Condition, ConditionKind, ConditionKindModel,
    ConditionModel, Destination, DestinationKind, DestinationModel, PathExpression, PathModel,
    WriteErrorMode,
};
use crate::config::recipe_header::{self, check_path_length, RecipeHeader, RecipeHeaderModel};
use crate::config::variables::{
    self, variable_policy, AssignmentTarget, VariablePolicy, VariableSource,
};
use crate::config::MAX_ASSIGNMENT_NAME_LEN;
use crate::text::{
    self, chars_are, chars_len, ends_with, from_chars, is_ascii_white_space, is_variable_name,
    numbered, starts_with, strip_text, text3, trimmed,
};

verus! {

/// Whether white space of ASCII stands from `i` on, outside of backquoted
/// commands and not after a backslash.
pub open spec fn blank_outside_commands(
    action: Seq<char>,
    i: int,
    in_command: bool,
    escaped: bool,
) -> bool
    decreases action.len() - i,
{
    if i < 0 || i >= action.len() {
        false
    } else if escaped {
        blank_outside_commands(action, i + 1, in_command, false)
    } else if action[i] == '\\' {
        blank_outside_commands(action, i + 1, in_command, true)
    } else if action[i] == '`' {
        blank_outside_commands(action, i + 1, !in_command, false)
    } else if !in_command && text::ascii_white_space(action[i]) {
        true
    } else {
        blank_outside_commands(action, i + 1, in_command, false)
    }
}

fn destination_has_literal_whitespace(action: &[char]) -> (r: bool)
    ensures
        r == blank_outside_commands(action@, 0, false, false),
{
    let mut in_command = false;
    let mut escaped = false;
    let mut i: usize = 0;
    while i < action.len()
        invariant
            i <= action@.len(),
            blank_outside_commands(action@, 0, false, false) == blank_outside_commands(
                action@,
                i as int,
                in_command,
                escaped,
            ),
        decreases action.len() - i,
    {
        let c = action[i];
        if escaped {
            escaped = false;
        } else if c == '\\' {
            escaped = true;
        } else if c == '`' {
            in_command = !in_command;
        } else if !in_command && is_ascii_white_space(c) {
            return true;
        }
        i = i + 1;
    }
    false
}

/// The refusal of a destination that may be several.
pub open spec fn several_destinations(action: Seq<char>, line: nat) -> Option<Refusal> {
    if !text::begins(action, "mbox:"@) && !text::begins(action, "maildir:"@)
        && blank_outside_commands(action, 0, false, false) {
        Some(errors::refusal(line, "multiple unmarked mailbox destinations are not supported"@))
    } else {
        None
    }
}

fn validate_destination_syntax(action: &[char], line: usize) -> (r: Result<(), ParseError>)
    ensures
        errors::refused_as(r, several_destinations(action@, line as nat)),
{
    if strip_text(action, "mbox:").is_none() && strip_text(action, "maildir:").is_none()
        && destination_has_literal_whitespace(action) {
        return Err(
            ParseError::told(line, "multiple unmarked mailbox destinations are not supported"),
        );
    }
    Ok(())
}

/// The path of a destination as it is written.
pub open spec fn destination_path(path: Seq<char>, line: nat, typed_destination: bool) -> Result<
    PathModel,
    Refusal,
> {
    let source = text::trim(path);
    if source.len() == 0 {
        Err(errors::refusal(line, "destination path is empty"@))
    } else if let Some(error) = recipe_header::path_too_long(
        source,
        line,
        "destination path"@,
    ) {
        Err(error)
    } else {
        match expression_parser::ordered_expression(source, line) {
            Err(error) => Err(errors::refusal(error.line, error.message)),
            Ok(expansion) => Ok(
                PathModel {
                    source,
                    base: None,
                    line,
                    runtime_dependent: expansion is Some,
                    runtime_base: false,
                    typed_destination,
                    expansion,
                },
            ),
        }
    }
}

fn parse_destination_path(path: &[char], line: usize, typed_destination: bool) -> (r: Result<
    PathExpression,
    ParseError,
>)
    ensures
        errors::parsed_as(r, destination_path(path@, line as nat, typed_destination)),
{
    let source = trimmed(path);
    if source.len() == 0 {
        return Err(ParseError::told(line, "destination path is empty"));
    }
    match check_path_length(source, line, "destination path") {
        Ok(()) => {},
        Err(error) => {
            return Err(error);
        },
    }
    let source = from_chars(source);
    match parse_command_expression(source.as_str(), line) {
        Err(error) => Err(ParseError::new(error.line, error.message)),
        Ok(expansion) => {
            let runtime_dependent = expansion.is_some();
            Ok(
                PathExpression {
                    source,
                    base: None,
                    line,
                    runtime_dependent,
                    runtime_base: false,
                    typed_destination,
                    expansion,
                },
            )
        },
    }
}

/// What an unmarked destination is refused with.
pub open spec fn ambiguous_destination() -> Seq<char> {
    "destination type is ambiguous; use an explicit maildir: or mbox: prefix, or a trailing '/' for Maildir"@
}

/// The destination that an action names.
#[verifier::opaque]
pub open spec fn destination_of(action: Seq<char>, line: nat) -> Result<
    DestinationModel,
    Refusal,
> {
    let (kind, path, typed) = if text::begins(action, "mbox:"@) {
        (DestinationKind::Mbox, text::after_prefix(action, "mbox:"@), true)
    } else if text::begins(action, "maildir:"@) {
        (DestinationKind::Maildir, text::after_prefix(action, "maildir:"@), true)
    } else if text::closes_with(action, '/') {
        (DestinationKind::Maildir, action, false)
    } else {
        (DestinationKind::File, action, false)
    };
    match destination_path(path, line, typed) {
        Err(error) => Err(error),
        Ok(path) => if kind is File && path.source != "/dev/null"@ {
            Err(errors::refusal(line, ambiguous_destination()))
        } else {
            Ok(DestinationModel { kind, path })
        },
    }
}

/// Reads the destination that an action names. Only a path whose kind of
/// mailbox is certain is one.
pub fn parse_destination(action: &[char], line: usize) -> (r: Result<Destination, ParseError>)
    ensures
        errors::parsed_as(r, destination_of(action@, line as nat)),
{
    proof {
        reveal(destination_of);
    }
    if let Some(path) = strip_text(action, "mbox:") {
        return match parse_destination_path(path, line, true) {
            Ok(path) => Ok(Destination::Mbox(path)),
            Err(error) => Err(error),
        };
    }
    if let Some(path) = strip_text(action, "maildir:") {
        return match parse_destination_path(path, line, true) {
            Ok(path) => Ok(Destination::Maildir(path)),
            Err(error) => Err(error),
        };
    }
    let path = match parse_destination_path(action, line, false) {
        Ok(path) => path,
        Err(error) => {
            return Err(error);
        },
    };
    if ends_with(action, '/') {
        return Ok(Destination::Maildir(path));
    }
    if text::same_text(path.source.as_str(), "/dev/null") {
        Ok(Destination::File(path))
    } else {
        Err(
            ParseError::told(
                line,
                "destination type is ambiguous; use an explicit maildir: or mbox: prefix, or a trailing '/' for Maildir",
            ),
        )
    }
}

/// Where `=|` stands from `i` on: at the end, where it does not.
pub open spec fn capture_mark(action: Seq<char>, i: int) -> int
    decreases action.len() - i,
{
    if i < 0 || i + 1 >= action.len() {
        action.len() as int
    } else if action[i] == '=' && action[i + 1] == '|' {
        i
    } else {
        capture_mark(action, i + 1)
    }
}

/// What stands before and after the first `=|`.
pub open spec fn capture_parts(action: Seq<char>) -> Option<(Seq<char>, Seq<char>)> {
    let mark = capture_mark(action, 0);
    if mark < action.len() {
        Some((action.subrange(0, mark), action.subrange(mark + 2, action.len() as int)))
    } else {
        None
    }
}

/// Parts an action at its first `=|`.
pub fn split_capture(action: &[char]) -> (r: Option<(&[char], &[char])>)
    ensures
        match capture_parts(action@) {
            Some(parts) => r matches Some(found) && found.0@ == parts.0 && found.1@ == parts.1,
            None => r is None,
        },
{
    let length = action.len();
    let mut i: usize = 0;
    while i < length && length - i > 1
        invariant
            length == action@.len(),
            i <= action@.len(),
            capture_mark(action@, 0) == capture_mark(action@, i as int),
        decreases length - i,
    {
        if action[i] == '=' && action[i + 1] == '|' {
            return Some((slice_subrange(action, 0, i), slice_subrange(action, i + 2, length)));
        }
        i = i + 1;
    }
    None
}

/// The variable that takes the output of a command, where an action says so.
#[verifier::opaque]
pub open spec fn capture_of(action: Seq<char>, line: nat) -> Result<
    Option<(Seq<char>, AssignmentTarget)>,
    Refusal,
> {
    match capture_parts(action) {
        None => Ok(None),
        Some((before, _)) => {
            let name = text::trim(before);
            let policy = variables::policy_of(name);
            if !text::variable_name(name) {
                Ok(None)
            } else if text::byte_len(name) > MAX_ASSIGNMENT_NAME_LEN {
                Err(
                    errors::refusal(
                        line,
                        "assignment name exceeds the hard limit of "@ + text::decimal(
                            MAX_ASSIGNMENT_NAME_LEN as nat,
                        ) + " bytes"@,
                    ),
                )
            } else if policy is Unsupported {
                Err(errors::refusal(line, "procmail variable "@ + name + " is not supported"@))
            } else {
                match policy.target_for(VariableSource::RcFile) {
                    None => Err(
                        errors::refusal(line, "variable "@ + name + " cannot be assigned"@),
                    ),
                    Some(target) => Ok(Some((name, target))),
                }
            }
        },
    }
}

/// Reads the variable that takes the output of a command, where an action says
/// so.
pub fn parse_capture_action_prefix(action: &[char], line: usize) -> (r: Result<
    Option<(String, AssignmentTarget)>,
    ParseError,
>)
    ensures
        match capture_of(action@, line as nat) {
            Ok(Some((name, target))) => r matches Ok(Some(found)) && found.0@ == name && found.1
                == target,
            Ok(None) => r matches Ok(None),
            Err(error) => r matches Err(found) && found@ == error,
        },
{
    proof {
        reveal(capture_of);
    }
    let name = match split_capture(action) {
        Some((before, _)) => trimmed(before),
        None => {
            return Ok(None);
        },
    };
    if !is_variable_name(name) {
        return Ok(None);
    }
    if chars_len(name) > MAX_ASSIGNMENT_NAME_LEN {
        return Err(
            ParseError::new(
                line,
                numbered(
                    "assignment name exceeds the hard limit of ",
                    MAX_ASSIGNMENT_NAME_LEN,
                    " bytes",
                ),
            ),
        );
    }
    let name = from_chars(name);
    let policy = variable_policy(name.as_str());
    if let VariablePolicy::Unsupported = policy {
        return Err(
            ParseError::new(
                line,
                text3("procmail variable ", name.as_str(), " is not supported"),
            ),
        );
    }
    match policy.assignment_target(VariableSource::RcFile) {
        Some(target) => Ok(Some((name, target))),
        None => Err(
            ParseError::new(line, text3("variable ", name.as_str(), " cannot be assigned")),
        ),
    }
}

/// What is wrong with the line where a recipe's action should stand.
#[verifier::opaque]
pub open spec fn misplaced_action(action: Seq<char>, recipe_line: nat, line: nat) -> Option<
    Refusal,
> {
    if text::begins_with(action, '!') {
        Some(errors::refusal(line, "forward actions are not supported"@))
    } else if action == "}"@ {
        Some(errors::refusal(line, "closing recipe block has no matching opening block"@))
    } else if text::begins_with(action, ':') {
        Some(errors::refusal(recipe_line, "recipe has no action"@))
    } else if action.len() == 0 {
        Some(errors::refusal(line, "recipe action is empty"@))
    } else {
        None
    }
}

/// Refuses a line that cannot be a recipe's action.
pub fn check_action_line(action: &[char], recipe_line: usize, line: usize) -> (r: Result<
    (),
    ParseError,
>)
    ensures
        errors::refused_as(r, misplaced_action(action@, recipe_line as nat, line as nat)),
{
    proof {
        reveal(misplaced_action);
    }
    if starts_with(action, '!') {
        return Err(ParseError::told(line, "forward actions are not supported"));
    }
    if chars_are(action, "}") {
        return Err(ParseError::told(line, "closing recipe block has no matching opening block"));
    }
    if starts_with(action, ':') {
        return Err(ParseError::told(recipe_line, "recipe has no action"));
    }
    if action.len() == 0 {
        return Err(ParseError::told(line, "recipe action is empty"));
    }
    Ok(())
}

/// Whether a condition may run a program.
pub open spec fn may_run_program(kind: ConditionKindModel) -> bool {
    kind is Program || kind is ShellExpanded
}

/// Whether one of the conditions may run a program.
pub open spec fn some_may_run_program(conditions: Seq<ConditionModel>) -> bool {
    exists|i: int| 0 <= i < conditions.len() && may_run_program((#[trigger] conditions[i]).kind)
}

fn has_program_condition(conditions: &Vec<Condition>) -> (r: bool)
    ensures
        r == some_may_run_program(recipe::condition_models(conditions@)),
{
    let ghost models = recipe::condition_models(conditions@);
    let mut i: usize = 0;
    while i < conditions.len()
        invariant
            i <= conditions@.len(),
            models == recipe::condition_models(conditions@),
            forall|j: int| 0 <= j < i ==> !may_run_program((#[trigger] models[j]).kind),
        decreases conditions.len() - i,
    {
        assert(models[i as int] == conditions@[i as int]@);
        match conditions[i].kind {
            ConditionKind::Program(_) | ConditionKind::ShellExpanded(_) => {
                return true;
            },
            _ => {},
        }
        i = i + 1;
    }
    false
}

/// The kinds of action, as far as a recipe's flags depend on them.
#[derive(Debug, Clone, Copy, PartialEq, Eq, Structural)]
pub enum ActionKind {
    Command,
    Headers,
    Block,
    Other,
}

/// The kind of an action.
pub open spec fn kind_of_action(action: Seq<char>, is_capture: bool) -> ActionKind {
    if is_capture || text::begins_with(action, '|') {
        ActionKind::Command
    } else if action == "headers {"@ {
        ActionKind::Headers
    } else if action == "{"@ {
        ActionKind::Block
    } else {
        ActionKind::Other
    }
}

/// Tells the kind of an action.
pub fn classify_action(action: &[char], is_capture: bool) -> (r: ActionKind)
    ensures
        r == kind_of_action(action@, is_capture),
{
    if is_capture || starts_with(action, '|') {
        ActionKind::Command
    } else if chars_are(action, "headers {") {
        ActionKind::Headers
    } else if chars_are(action, "{") {
        ActionKind::Block
    } else {
        ActionKind::Other
    }
}

/// Why a recipe's flags and lockfile do not go with its action.
#[verifier::opaque]
pub open spec fn unfit_action(
    kind: ActionKind,
    action: Seq<char>,
    header: RecipeHeaderModel,
    conditions: Seq<ConditionModel>,
    recipe_line: nat,
    line: nat,
) -> Option<Refusal> {
    let options = header.options;
    match kind {
        ActionKind::Command => None,
        ActionKind::Headers => header_actions::header_recipe_fault(
            header.flags,
            header.lock,
            recipe_line,
        ),
        _ => if kind is Other && several_destinations(action, line) is Some {
            several_destinations(action, line)
        } else if kind is Other && options.write_errors is Ignore {
            Some(
                errors::refusal(
                    recipe_line,
                    "recipe flag 'i' is not supported for filesystem delivery because it may publish an incomplete message"@,
                ),
            )
        } else if !(options.action_input is Message) || !(options.action_mode is Deliver) || (
        !some_may_run_program(conditions) && !(options.child_status is Ignore)) {
            Some(
                errors::refusal(
                    recipe_line,
                    "flags h, b, and f require a pipe action; flags w and W require a pipe action or program condition"@,
                ),
            )
        } else {
            None
        },
    }
}

/// Refuses an action that a recipe's flags and lockfile do not go with.
pub fn check_action(
    kind: ActionKind,
    action: &[char],
    header: &RecipeHeader,
    conditions: &Vec<Condition>,
    recipe_line: usize,
    line: usize,
) -> (r: Result<(), ParseError>)
    ensures
        errors::refused_as(
            r,
            unfit_action(
                kind,
                action@,
                header@,
                recipe::condition_models(conditions@),
                recipe_line as nat,
                line as nat,
            ),
        ),
{
    proof {
        reveal(unfit_action);
    }
    if kind == ActionKind::Command {
        return Ok(());
    }
    if kind == ActionKind::Headers {
        return validate_header_action_recipe(header.flags.as_str(), &header.lock, recipe_line);
    }
    let options = header.options;
    if kind == ActionKind::Other {
        match validate_destination_syntax(action, line) {
            Ok(()) => {},
            Err(error) => {
                return Err(error);
            },
        }
        if options.write_errors == WriteErrorMode::Ignore {
            return Err(
                ParseError::told(
                    recipe_line,
                    "recipe flag 'i' is not supported for filesystem delivery because it may publish an incomplete message",
                ),
            );
        }
    }
    if options.action_input != ActionInput::Message || options.action_mode != ActionMode::Deliver
        || (!has_program_condition(conditions) && options.child_status != ChildStatusMode::Ignore) {
        return Err(
            ParseError::told(
                recipe_line,
                "flags h, b, and f require a pipe action; flags w and W require a pipe action or program condition",
            ),
        );
    }
    Ok(())
}

/// A recipe that is accepted never asks to ignore write errors while it
/// delivers to a mailbox, so that no mailbox is given an incomplete message.
pub proof fn accepted_deliveries_fail_on_write_errors(
    action: Seq<char>,
    header: RecipeHeaderModel,
    conditions: Seq<ConditionModel>,
    recipe_line: nat,
    line: nat,
)
    requires
        unfit_action(ActionKind::Other, action, header, conditions, recipe_line, line) is None,
    ensures
        header.options.write_errors is Fail,
        header.options.action_mode is Deliver,
        header.options.action_input is Message,
{
    reveal(unfit_action);
}

} // verus!
