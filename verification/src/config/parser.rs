//! Rc files: lines, statements, recipes and blocks.

use vstd::prelude::*;
use vstd::slice::slice_subrange;
use vstd::string::*;

use crate::config::action_parser::{
    self, check_action, check_action_line, classify_action, parse_capture_action_prefix,
    parse_destination, split_capture, ActionKind,
};
use crate::config::assignments::{self, classify_assignment, parse_assignment};
use crate::config::conditions::{
    self, parse_command_continuation, parse_condition, parse_condition_continuation,
};
use crate::config::errors::{self, ParseError, Refusal};
use crate::config::header_actions::{self, is_silent_line, parse_header_action};
use crate::config::limits::{self, AssignmentUse, ParseBudget};
use crate::config::recipe::{
    self, ActionModel, CaptureAction, CaptureModel, CaseMode, Condition, ConditionModel, Config,
    ConfigModel, ContinuationMode, PathExpression, PipeAction, Recipe, RecipeAction, RecipeModel,
    RecipeOptions, Statement, StatementModel,
};
use crate::config::recipe_header::{
    self, parse_recipe_header, RecipeHeader, RecipeHeaderModel,
};
use crate::config::variables::AssignmentTarget;
use crate::config::MAX_RC_SIZE;
use crate::text::{
    self, chars_are, find_char, numbered, starts_with, strip_text, text_len, to_chars, trimmed,
    trimmed_start,
};

verus! {

/// A line without the carriage return before its end.
pub open spec fn without_return(line: Seq<char>) -> Seq<char> {
    if text::closes_with(line, '\r') {
        line.drop_last()
    } else {
        line
    }
}

/// The lines of the text from `start` on. A line ends with a line feed, or
/// with a carriage return and a line feed; the last one may lack its end.
pub open spec fn lines_from(input: Seq<char>, start: int) -> Seq<Seq<char>>
    decreases input.len() - start,
{
    if start < 0 || start >= input.len() {
        Seq::empty()
    } else {
        let end = text::find_from(input, '\n', start);
        if start <= end < input.len() {
            seq![without_return(input.subrange(start, end))] + lines_from(input, end + 1)
        } else {
            seq![input.subrange(start, input.len() as int)]
        }
    }
}

/// Parts a text into lines.
pub fn split_lines(input: &[char]) -> (r: Vec<Vec<char>>)
    ensures
        text::line_texts(r@) == lines_from(input@, 0),
{
    let mut lines: Vec<Vec<char>> = Vec::new();
    let mut start: usize = 0;
    let length = input.len();
    assert(text::line_texts(lines@) + lines_from(input@, 0) =~= lines_from(input@, 0));
    while start < length
        invariant
            length == input@.len(),
            start <= input@.len(),
            text::line_texts(lines@) + lines_from(input@, start as int) == lines_from(input@, 0),
        decreases length - start,
    {
        proof {
            text::lemma_find_from(input@, '\n', start as int);
        }
        let ghost before = lines@;
        let end = find_char(input, '\n', start);
        if end < length {
            let line = if end > start && input[end - 1] == '\r' {
                slice_subrange(input, start, end - 1)
            } else {
                slice_subrange(input, start, end)
            };
            assert(line@ =~= without_return(input@.subrange(start as int, end as int)));
            lines.push(copied(line));
            assert(text::line_texts(lines@) =~= text::line_texts(before).push(line@));
            assert(text::line_texts(lines@) + lines_from(input@, end + 1) =~= text::line_texts(
                before,
            ) + lines_from(input@, start as int));
            start = end + 1;
        } else {
            let line = slice_subrange(input, start, length);
            lines.push(copied(line));
            assert(text::line_texts(lines@) =~= text::line_texts(before).push(line@));
            assert(text::line_texts(lines@) + Seq::<Seq<char>>::empty() =~= text::line_texts(before)
                + lines_from(input@, start as int));
            start = length;
        }
    }
    assert(text::line_texts(lines@) + Seq::<Seq<char>>::empty() =~= text::line_texts(lines@));
    lines
}

fn copied(chars: &[char]) -> (r: Vec<char>)
    ensures
        r@ == chars@,
{
    let mut result: Vec<char> = Vec::new();
    let mut i: usize = 0;
    while i < chars.len()
        invariant
            i <= chars@.len(),
            result@ == chars@.take(i as int),
        decreases chars.len() - i,
    {
        result.push(chars[i]);
        i = i + 1;
        assert(chars@.take(i as int) =~= chars@.take(i - 1).push(chars@[i - 1]));
    }
    assert(chars@.take(chars@.len() as int) =~= chars@);
    result
}

/// The conditions of a recipe, how many of them are regular expressions, and
/// the line after them.
pub struct ConditionList {
    pub conditions: Vec<Condition>,
    pub regexes: usize,
    pub next: usize,
}

pub struct ConditionListModel {
    pub conditions: Seq<ConditionModel>,
    pub regexes: nat,
    pub next: int,
}

impl View for ConditionList {
    type V = ConditionListModel;

    open spec fn view(&self) -> ConditionListModel {
        ConditionListModel {
            conditions: recipe::condition_models(self.conditions@),
            regexes: self.regexes as nat,
            next: self.next as int,
        }
    }
}

/// The conditions of a recipe from line `index` on, after `conditions`, of
/// which `regexes` are regular expressions.
#[verifier::opaque]
pub open spec fn conditions_from(
    lines: Seq<Seq<char>>,
    index: int,
    conditions: Seq<ConditionModel>,
    regexes: nat,
    case_sensitive: bool,
    budget: ParseBudget,
) -> Result<ConditionListModel, Refusal>
    decreases lines.len() - index,
{
    let list = ConditionListModel { conditions, regexes, next: index };
    if index < 0 || index >= lines.len() {
        Ok(list)
    } else {
        let line = text::trim(lines[index]);
        let number = (index + 1) as nat;
        if let Some(error) = limits::over_linebuf(lines[index], number, budget.limits.linebuf) {
            Err(error)
        } else if header_actions::silent_line(line) {
            conditions_from(lines, index + 1, conditions, regexes, case_sensitive, budget)
        } else if !text::begins_with(line, '*') {
            Ok(list)
        } else if let Some(error) = budget.no_condition(conditions.len(), number) {
            Err(error)
        } else {
            match conditions::condition_at(lines, index, budget.limits.linebuf) {
                Err(error) => Err(error),
                Ok((source, next)) => match conditions::condition_of(
                    source,
                    number,
                    case_sensitive,
                    regexes,
                    budget,
                ) {
                    Err(error) => Err(error),
                    Ok((condition, is_regex)) => if next <= index || next > lines.len() {
                        Ok(list)
                    } else {
                        conditions_from(
                            lines,
                            next,
                            conditions.push(condition),
                            if is_regex {
                                regexes + 1
                            } else {
                                regexes
                            },
                            case_sensitive,
                            budget,
                        )
                    },
                },
            }
        }
    }
}

/// Reads the conditions of a recipe from line `first` on.
fn parse_conditions(
    lines: &Vec<Vec<char>>,
    first: usize,
    case_sensitive: bool,
    budget: &ParseBudget,
) -> (r: Result<ConditionList, ParseError>)
    requires
        first <= lines@.len(),
    ensures
        errors::parsed_as(
            r,
            conditions_from(
                text::line_texts(lines@),
                first as int,
                Seq::empty(),
                0,
                case_sensitive,
                *budget,
            ),
        ),
        r matches Ok(list) ==> first <= list.next <= lines@.len(),
{
    proof {
        reveal(conditions_from);
    }
    let ghost texts = text::line_texts(lines@);
    let count = lines.len();
    let mut conditions: Vec<Condition> = Vec::new();
    let mut regexes: usize = 0;
    let mut index: usize = first;
    let ghost whole = conditions_from(
        texts,
        first as int,
        Seq::empty(),
        0,
        case_sensitive,
        *budget,
    );
    assert(recipe::condition_models(conditions@) =~= Seq::empty());
    while index < count
        invariant
            count == lines@.len(),
            first <= index <= lines@.len(),
            texts == text::line_texts(lines@),
            regexes <= conditions@.len(),
            whole == conditions_from(
                texts,
                first as int,
                Seq::empty(),
                0,
                case_sensitive,
                *budget,
            ),
            whole == conditions_from(
                texts,
                index as int,
                recipe::condition_models(conditions@),
                regexes as nat,
                case_sensitive,
                *budget,
            ),
        decreases lines@.len() - index,
    {
        proof {
            reveal(conditions_from);
        }
        assert(texts[index as int] == lines@[index as int]@);
        match budget.check_line(lines[index].as_slice(), index + 1) {
            Ok(()) => {},
            Err(error) => {
                return Err(error);
            },
        }
        let line = trimmed(lines[index].as_slice());
        if is_silent_line(line) {
            index = index + 1;
            continue ;
        }
        if !starts_with(line, '*') {
            return Ok(ConditionList { conditions, regexes, next: index });
        }
        let taken = conditions.len();
        match budget.check_condition(taken, index + 1) {
            Ok(()) => {},
            Err(error) => {
                return Err(error);
            },
        }
        let (source, next) = match parse_condition_continuation(lines, index, budget.linebuf()) {
            Ok(found) => found,
            Err(error) => {
                return Err(error);
            },
        };
        match parse_condition(source.as_slice(), index + 1, case_sensitive, regexes, budget) {
            Ok((condition, is_regex)) => {
                let ghost before = conditions@;
                conditions.push(condition);
                assert(recipe::condition_models(conditions@) =~= recipe::condition_models(
                    before,
                ).push(condition@));
                if is_regex {
                    regexes = regexes + 1;
                }
            },
            Err(error) => {
                return Err(error);
            },
        }
        index = next;
    }
    Ok(ConditionList { conditions, regexes, next: index })
}

/// A recipe up to its action.
pub struct RecipeHead {
    pub header: RecipeHeader,
    pub list: ConditionList,
}

pub struct RecipeHeadModel {
    pub header: RecipeHeaderModel,
    pub list: ConditionListModel,
}

impl View for RecipeHead {
    type V = RecipeHeadModel;

    open spec fn view(&self) -> RecipeHeadModel {
        RecipeHeadModel { header: self.header@, list: self.list@ }
    }
}

/// The recipe that starts on line `start`, up to its action.
#[verifier::opaque]
pub open spec fn head_at(lines: Seq<Seq<char>>, start: int, budget: ParseBudget) -> Result<
    RecipeHeadModel,
    Refusal,
> {
    let first = text::trim(lines[start]);
    let number = (start + 1) as nat;
    if !text::begins(first, ":0"@) {
        Err(errors::refusal(number, "only ':0' recipes are supported"@))
    } else {
        match recipe_header::header_of(text::after_prefix(first, ":0"@), number) {
            Err(error) => Err(error),
            Ok(header) => match conditions_from(
                lines,
                start + 1,
                Seq::empty(),
                0,
                header.options.case_mode is Sensitive,
                budget,
            ) {
                Err(error) => Err(error),
                Ok(list) => if list.next >= lines.len() {
                    Err(errors::refusal(number, "recipe has no action"@))
                } else {
                    Ok(RecipeHeadModel { header, list })
                },
            },
        }
    }
}

fn parse_recipe_head(lines: &Vec<Vec<char>>, start: usize, budget: &ParseBudget) -> (r: Result<
    RecipeHead,
    ParseError,
>)
    requires
        start < lines@.len(),
    ensures
        errors::parsed_as(r, head_at(text::line_texts(lines@), start as int, *budget)),
        r matches Ok(head) ==> start < head.list.next < lines@.len(),
{
    proof {
        reveal(head_at);
    }
    let count = lines.len();
    assert(text::line_texts(lines@)[start as int] == lines@[start as int]@);
    let rest = match strip_text(trimmed(lines[start].as_slice()), ":0") {
        Some(rest) => rest,
        None => {
            return Err(ParseError::told(start + 1, "only ':0' recipes are supported"));
        },
    };
    let header = match parse_recipe_header(rest, start + 1) {
        Ok(header) => header,
        Err(error) => {
            return Err(error);
        },
    };
    let case_sensitive = header.options.case_mode == CaseMode::Sensitive;
    let list = match parse_conditions(lines, start + 1, case_sensitive, budget) {
        Ok(list) => list,
        Err(error) => {
            return Err(error);
        },
    };
    if list.next >= count {
        return Err(ParseError::told(start + 1, "recipe has no action"));
    }
    Ok(RecipeHead { header, list })
}

/// The options of a recipe with an action of this kind.
pub open spec fn settled_options(options: RecipeOptions, kind: ActionKind) -> RecipeOptions {
    if kind is Headers {
        RecipeOptions { continuation: ContinuationMode::Continue, ..options }
    } else {
        options
    }
}

/// An action that is no block, on line `index`, and the line after it.
#[verifier::opaque]
pub open spec fn plain_action(
    lines: Seq<Seq<char>>,
    index: int,
    action: Seq<char>,
    capture: Option<(Seq<char>, AssignmentTarget)>,
    kind: ActionKind,
    budget: ParseBudget,
) -> (Result<(ActionModel, int), Refusal>, ParseBudget) {
    let line = (index + 1) as nat;
    let linebuf = budget.limits.linebuf;
    match capture {
        Some((name, target)) => {
            let (refused, charged) = budget.with_assignment(line, AssignmentUse::CaptureAction);
            if let Some(error) = refused {
                (Err(error), charged)
            } else {
                match action_parser::capture_parts(action) {
                    None => (Err(errors::refusal(line, "capture action is malformed"@)), charged),
                    Some((_, command)) => match conditions::command_from(
                        lines,
                        index,
                        index,
                        text::trim_start(command),
                        Seq::empty(),
                        linebuf,
                        "capture action command"@,
                    ) {
                        Err(error) => (Err(error), charged),
                        Ok((command, next)) => (
                            Ok(
                                (
                                    ActionModel::Capture(
                                        CaptureModel { line, name, target, command },
                                    ),
                                    next,
                                ),
                            ),
                            charged,
                        ),
                    },
                }
            }
        },
        None => match kind {
            ActionKind::Command => match conditions::command_from(
                lines,
                index,
                index,
                text::trim_start(text::rest_of(text::trim_start(lines[index]))),
                Seq::empty(),
                linebuf,
                "pipe command"@,
            ) {
                Err(error) => (Err(error), budget),
                Ok((command, next)) => (Ok((ActionModel::Pipe(command), next)), budget),
            },
            ActionKind::Headers => match header_actions::operations_from(
                lines,
                index,
                index + 1,
                Seq::empty(),
                linebuf,
            ) {
                Err(error) => (Err(error), budget),
                Ok((operations, next)) => (Ok((ActionModel::Headers(operations), next)), budget),
            },
            _ => if text::begins_with(action, '{') {
                (
                    Err(
                        errors::refusal(
                            line,
                            "opening recipe block must be a standalone '{' action"@,
                        ),
                    ),
                    budget,
                )
            } else {
                match action_parser::destination_of(action, line) {
                    Err(error) => (Err(error), budget),
                    Ok(destination) => (
                        Ok((ActionModel::Deliver(destination), index + 1)),
                        budget,
                    ),
                }
            },
        },
    }
}

/// Reads an action that is no block.
fn parse_plain_action(
    lines: &Vec<Vec<char>>,
    index: usize,
    action: &[char],
    capture: Option<(String, AssignmentTarget)>,
    kind: ActionKind,
    budget: &mut ParseBudget,
) -> (r: Result<(RecipeAction, usize), ParseError>)
    requires
        index < lines@.len(),
        action@ == text::trim(lines@[index as int]@),
        capture is None ==> kind == action_parser::kind_of_action(action@, false),
    ensures
        ({
            let (expected, after) = plain_action(
                text::line_texts(lines@),
                index as int,
                action@,
                capture_model(capture),
                kind,
                *old(budget),
            );
            &&& *final(budget) == after
            &&& match expected {
                Ok((found, next)) => r matches Ok(parsed) && parsed.0@ == found && parsed.1 == next
                    && index < parsed.1 <= lines@.len(),
                Err(error) => r matches Err(found) && found@ == error,
            }
        }),
{
    proof {
        reveal(plain_action);
    }
    let _count = lines.len();
    assert(text::line_texts(lines@)[index as int] == lines@[index as int]@);
    if let Some((name, target)) = capture {
        match budget.charge_assignment(index + 1, AssignmentUse::CaptureAction) {
            Ok(()) => {},
            Err(error) => {
                return Err(error);
            },
        }
        let first = match split_capture(action) {
            Some((_, command)) => trimmed_start(command),
            None => {
                return Err(ParseError::told(index + 1, "capture action is malformed"));
            },
        };
        return match parse_command_continuation(
            lines,
            index,
            first,
            budget.linebuf(),
            "capture action command",
        ) {
            Ok((command, next)) => Ok(
                (
                    RecipeAction::Capture(CaptureAction { line: index + 1, name, target, command }),
                    next,
                ),
            ),
            Err(error) => Err(error),
        };
    }
    if kind == ActionKind::Command {
        let written = trimmed_start(lines[index].as_slice());
        proof {
            lemma_trim_keeps_start(lines@[index as int]@);
        }
        let first = trimmed_start(slice_subrange(written, 1, written.len()));
        return match parse_command_continuation(
            lines,
            index,
            first,
            budget.linebuf(),
            "pipe command",
        ) {
            Ok((command, next)) => Ok((RecipeAction::Pipe(PipeAction { command }), next)),
            Err(error) => Err(error),
        };
    }
    if kind == ActionKind::Headers {
        return match parse_header_action(lines, index, budget.linebuf()) {
            Ok((headers, next)) => Ok((RecipeAction::Headers(headers), next)),
            Err(error) => Err(error),
        };
    }
    if starts_with(action, '{') {
        return Err(
            ParseError::told(index + 1, "opening recipe block must be a standalone '{' action"),
        );
    }
    match parse_destination(action, index + 1) {
        Ok(destination) => Ok((RecipeAction::Deliver(destination), index + 1)),
        Err(error) => Err(error),
    }
}

proof fn lemma_trim_end_keeps_start(s: Seq<char>)
    ensures
        text::trim_end(s).len() <= s.len(),
        text::trim_end(s).len() > 0 ==> text::trim_end(s)[0] == s[0],
    decreases s.len(),
{
    if s.len() > 0 && text::white_space(s[s.len() - 1]) {
        lemma_trim_end_keeps_start(s.subrange(0, s.len() - 1));
    }
}

/// What a line starts with, once it is trimmed at both ends, it starts with
/// trimmed at its start alone.
proof fn lemma_trim_keeps_start(s: Seq<char>)
    ensures
        text::trim(s).len() <= text::trim_start(s).len(),
        text::trim(s).len() > 0 ==> text::trim(s)[0] == text::trim_start(s)[0],
{
    lemma_trim_end_keeps_start(text::trim_start(s));
}

/// Why a recipe cannot have a block.
pub open spec fn block_fault(header: RecipeHeaderModel, recipe_line: nat) -> Option<Refusal> {
    if header.lock == Some(Seq::<char>::empty()) {
        Some(
            errors::refusal(
                recipe_line,
                "an implicit local lockfile cannot be derived for a recipe block"@,
            ),
        )
    } else if header.options.continuation is Continue {
        Some(
            errors::refusal(
                recipe_line,
                "copy flag 'c' on recipe blocks is not supported yet"@,
            ),
        )
    } else {
        None
    }
}

fn check_block(header: &RecipeHeader, recipe_line: usize) -> (r: Result<(), ParseError>)
    ensures
        errors::refused_as(r, block_fault(header@, recipe_line as nat)),
{
    if let Some(lock) = &header.lock {
        if text_len(lock.as_str()) == 0 {
            proof {
                lemma_no_bytes(lock@);
                assert(lock@ =~= Seq::<char>::empty());
            }
            return Err(
                ParseError::told(
                    recipe_line,
                    "an implicit local lockfile cannot be derived for a recipe block",
                ),
            );
        }
        proof {
            lemma_no_bytes(lock@);
        }
    }
    if header.options.continuation == ContinuationMode::Continue {
        return Err(
            ParseError::told(recipe_line, "copy flag 'c' on recipe blocks is not supported yet"),
        );
    }
    Ok(())
}

proof fn lemma_no_bytes(s: Seq<char>)
    ensures
        text::byte_len(s) == 0 <==> s.len() == 0,
{
    reveal_with_fuel(vstd::utf8::encode_utf8, 2);
}

/// The lockfile of a recipe as it is written.
pub open spec fn lock_path(lock: Option<Seq<char>>) -> Option<recipe::PathModel> {
    match lock {
        Some(source) => Some(recipe::plain_path(source)),
        None => None,
    }
}

/// A recipe up to its action, the variable that takes the action's output, and
/// the kind of the action.
pub struct RecipeOpening {
    pub header: RecipeHeader,
    pub conditions: Vec<Condition>,
    pub index: usize,
    pub capture: Option<(String, AssignmentTarget)>,
    pub kind: ActionKind,
}

pub struct OpeningModel {
    pub header: RecipeHeaderModel,
    pub conditions: Seq<ConditionModel>,
    pub index: int,
    pub capture: Option<(Seq<char>, AssignmentTarget)>,
    pub kind: ActionKind,
}

/// An optional variable as a model.
pub open spec fn capture_model(capture: Option<(String, AssignmentTarget)>) -> Option<
    (Seq<char>, AssignmentTarget),
> {
    match capture {
        Some((name, target)) => Some((name@, target)),
        None => None,
    }
}

impl View for RecipeOpening {
    type V = OpeningModel;

    open spec fn view(&self) -> OpeningModel {
        OpeningModel {
            header: self.header@,
            conditions: recipe::condition_models(self.conditions@),
            index: self.index as int,
            capture: capture_model(self.capture),
            kind: self.kind,
        }
    }
}

/// The recipe that starts on line `start`, as far as the kind of its action,
/// and what is counted then.
#[verifier::opaque]
pub open spec fn opening_at(lines: Seq<Seq<char>>, start: int, budget: ParseBudget) -> (
    Result<OpeningModel, Refusal>,
    ParseBudget,
) {
    match head_at(lines, start, budget) {
        Err(error) => (Err(error), budget),
        Ok(head) => {
            let index = head.list.next;
            let line = (index + 1) as nat;
            let recipe_line = (start + 1) as nat;
            let (refused, counted) = budget.with_contents(
                head.list.conditions.len(),
                head.list.regexes,
                recipe_line,
            );
            let action = text::trim(lines[index]);
            if let Some(error) = refused {
                (Err(error), counted)
            } else if let Some(error) = action_parser::misplaced_action(
                action,
                recipe_line,
                line,
            ) {
                (Err(error), counted)
            } else {
                match action_parser::capture_of(action, line) {
                    Err(error) => (Err(error), counted),
                    Ok(capture) => {
                        let kind = action_parser::kind_of_action(action, capture is Some);
                        let unfit = action_parser::unfit_action(
                            kind,
                            action,
                            head.header,
                            head.list.conditions,
                            recipe_line,
                            line,
                        );
                        if let Some(error) = unfit {
                            (Err(error), counted)
                        } else {
                            (
                                Ok(
                                    OpeningModel {
                                        header: head.header,
                                        conditions: head.list.conditions,
                                        index,
                                        capture,
                                        kind,
                                    },
                                ),
                                counted,
                            )
                        }
                    },
                }
            }
        },
    }
}

/// Reads the recipe that starts on line `start`, as far as the kind of its
/// action.
fn parse_opening(lines: &Vec<Vec<char>>, start: usize, budget: &mut ParseBudget) -> (r: Result<
    RecipeOpening,
    ParseError,
>)
    requires
        start < lines@.len(),
    ensures
        ({
            let (expected, after) = opening_at(
                text::line_texts(lines@),
                start as int,
                *old(budget),
            );
            &&& *final(budget) == after
            &&& errors::parsed_as(r, expected)
        }),
        r matches Ok(opening) ==> {
            &&& start < opening.index < lines@.len()
            &&& opening.kind == action_parser::kind_of_action(
                text::trim(lines@[opening.index as int]@),
                opening.capture is Some,
            )
        },
{
    proof {
        reveal(opening_at);
    }
    let _count = lines.len();
    let ghost texts = text::line_texts(lines@);
    let head = match parse_recipe_head(lines, start, budget) {
        Ok(head) => head,
        Err(error) => {
            return Err(error);
        },
    };
    let RecipeHead { header, list } = head;
    let ConditionList { conditions, regexes, next: index } = list;
    match budget.record_recipe_contents(conditions.len(), regexes, start + 1) {
        Ok(()) => {},
        Err(error) => {
            return Err(error);
        },
    }
    assert(texts[index as int] == lines@[index as int]@);
    let action = trimmed(lines[index].as_slice());
    match check_action_line(action, start + 1, index + 1) {
        Ok(()) => {},
        Err(error) => {
            return Err(error);
        },
    }
    let capture = match parse_capture_action_prefix(action, index + 1) {
        Ok(capture) => capture,
        Err(error) => {
            return Err(error);
        },
    };
    let kind = classify_action(action, capture.is_some());
    match check_action(kind, action, &header, &conditions, start + 1, index + 1) {
        Ok(()) => {},
        Err(error) => {
            return Err(error);
        },
    }
    Ok(RecipeOpening { header, conditions, index, capture, kind })
}

/// The recipe that starts on line `start` with this opening and action.
pub open spec fn completed(opening: OpeningModel, start: int, action: ActionModel) -> RecipeModel {
    RecipeModel {
        line: (start + 1) as nat,
        action_line: (opening.index + 1) as nat,
        options: settled_options(opening.header.options, opening.kind),
        lock: lock_path(opening.header.lock),
        conditions: opening.conditions,
        action,
    }
}

/// The recipe that starts on line `start`, the line after it, and what is
/// counted then.
#[verifier::opaque]
pub open spec fn recipe_at(
    lines: Seq<Seq<char>>,
    start: int,
    depth: nat,
    budget: ParseBudget,
) -> (Result<(RecipeModel, int), Refusal>, ParseBudget)
    decreases lines.len() - start, 0nat,
{
    let (opened, counted) = opening_at(lines, start, budget);
    match opened {
        Err(error) => (Err(error), counted),
        Ok(opening) => {
            let index = opening.index;
            let (found, after) = if opening.kind is Block && start < index < lines.len() {
                block_at(lines, start, index, opening.header, depth, counted)
            } else {
                plain_action(
                    lines,
                    index,
                    text::trim(lines[index]),
                    opening.capture,
                    opening.kind,
                    counted,
                )
            };
            match found {
                Err(error) => (Err(error), after),
                Ok((action, next)) => (Ok((completed(opening, start, action), next)), after),
            }
        },
    }
}

/// The block that opens on line `index` in the recipe on line `start`, the
/// line after it, and what is counted then.
#[verifier::opaque]
pub open spec fn block_at(
    lines: Seq<Seq<char>>,
    start: int,
    index: int,
    header: RecipeHeaderModel,
    depth: nat,
    budget: ParseBudget,
) -> (Result<(ActionModel, int), Refusal>, ParseBudget)
    decreases lines.len() - index, 2nat,
{
    match budget.nested(depth, (index + 1) as nat) {
        Err(error) => (Err(error), budget),
        Ok(next_depth) => if index >= lines.len() {
            (Err(errors::refusal(lines.len(), "recipe block has no closing brace"@)), budget)
        } else if let Some(error) = block_fault(header, (start + 1) as nat) {
            (Err(error), budget)
        } else {
            let (found, after) = statements_from(
                lines,
                index + 1,
                next_depth,
                Seq::empty(),
                budget,
            );
            match found {
                Err(error) => (Err(error), after),
                Ok((statements, next)) => (Ok((ActionModel::Block(statements), next)), after),
            }
        },
    }
}

/// The statement that an assignment on line `index` is, and what is counted
/// then.
#[verifier::opaque]
pub open spec fn assignment_at(
    lines: Seq<Seq<char>>,
    index: int,
    depth: nat,
    budget: ParseBudget,
) -> (Result<StatementModel, Refusal>, ParseBudget) {
    let number = (index + 1) as nat;
    match assignments::assignment_on(text::trim_start(lines[index]), number) {
        Err(error) => (Err(error), budget),
        Ok(None) => (
            Err(
                errors::refusal(
                    number,
                    "expected an assignment or a recipe beginning with ':0'"@,
                ),
            ),
            budget,
        ),
        Ok(Some(assignment)) => {
            let (refused, counted) = budget.with_assignment(number, AssignmentUse::Statement);
            if let Some(error) = refused {
                (Err(error), counted)
            } else {
                match assignments::assignment_statement(assignment, depth) {
                    Err(error) => (Err(error), counted),
                    Ok(StatementModel::Assignment(found)) => {
                        let (refused, after) = counted.assigned(found);
                        match refused {
                            Some(error) => (Err(error), after),
                            None => (Ok(StatementModel::Assignment(found)), after),
                        }
                    },
                    Ok(statement) => (Ok(statement), counted),
                }
            }
        },
    }
}

/// The statements of a block of this depth from line `index` on, after
/// `statements`, the line after the block, and what is counted then.
#[verifier::opaque]
pub open spec fn statements_from(
    lines: Seq<Seq<char>>,
    index: int,
    depth: nat,
    statements: Seq<StatementModel>,
    budget: ParseBudget,
) -> (Result<(Seq<StatementModel>, int), Refusal>, ParseBudget)
    decreases lines.len() - index, 1nat,
{
    if index < 0 || index >= lines.len() {
        if depth > 0 {
            (
                Err(
                    errors::refusal(
                        if lines.len() > 0 {
                            lines.len()
                        } else {
                            1
                        },
                        "recipe block has no closing brace"@,
                    ),
                ),
                budget,
            )
        } else {
            (Ok((statements, index)), budget)
        }
    } else {
        let line = text::trim(lines[index]);
        let number = (index + 1) as nat;
        if let Some(error) = limits::over_linebuf(lines[index], number, budget.limits.linebuf) {
            (Err(error), budget)
        } else if header_actions::silent_line(line) {
            statements_from(lines, index + 1, depth, statements, budget)
        } else if line == "}"@ {
            if depth == 0 {
                (
                    Err(
                        errors::refusal(
                            number,
                            "closing recipe block has no matching opening block"@,
                        ),
                    ),
                    budget,
                )
            } else {
                (Ok((statements, index + 1)), budget)
            }
        } else if let Some(error) = budget.no_statement(number) {
            (Err(error), budget)
        } else if text::begins_with(line, ':') {
            let (refused, counted) = budget.with_recipe(number);
            if let Some(error) = refused {
                (Err(error), counted)
            } else {
                let (found, after) = recipe_at(lines, index, depth, counted);
                match found {
                    Err(error) => (Err(error), after),
                    Ok((recipe, next)) => if next <= index || next > lines.len() {
                        (Ok((statements, index)), after)
                    } else {
                        statements_from(
                            lines,
                            next,
                            depth,
                            statements.push(StatementModel::Recipe(recipe)),
                            after,
                        )
                    },
                }
            }
        } else {
            let (found, after) = assignment_at(lines, index, depth, budget);
            match found {
                Err(error) => (Err(error), after),
                Ok(statement) => statements_from(
                    lines,
                    index + 1,
                    depth,
                    statements.push(statement),
                    after,
                ),
            }
        }
    }
}

/// Reads the assignment on line `index`.
fn parse_assignment_statement(
    lines: &Vec<Vec<char>>,
    index: usize,
    depth: usize,
    budget: &mut ParseBudget,
) -> (r: Result<Statement, ParseError>)
    requires
        index < lines@.len(),
    ensures
        ({
            let (expected, after) = assignment_at(
                text::line_texts(lines@),
                index as int,
                depth as nat,
                *old(budget),
            );
            &&& *final(budget) == after
            &&& errors::parsed_as(r, expected)
        }),
{
    proof {
        reveal(assignment_at);
    }
    let _count = lines.len();
    assert(text::line_texts(lines@)[index as int] == lines@[index as int]@);
    let assignment = match parse_assignment(trimmed_start(lines[index].as_slice()), index + 1) {
        Ok(Some(assignment)) => assignment,
        Ok(None) => {
            return Err(
                ParseError::told(
                    index + 1,
                    "expected an assignment or a recipe beginning with ':0'",
                ),
            );
        },
        Err(error) => {
            return Err(error);
        },
    };
    match budget.charge_assignment(index + 1, AssignmentUse::Statement) {
        Ok(()) => {},
        Err(error) => {
            return Err(error);
        },
    }
    let statement = match classify_assignment(assignment, depth) {
        Ok(statement) => statement,
        Err(error) => {
            return Err(error);
        },
    };
    if let Statement::Assignment(found) = &statement {
        match budget.apply_assignment(found) {
            Ok(()) => {},
            Err(error) => {
                return Err(error);
            },
        }
    }
    Ok(statement)
}

/// Reads the recipe that starts on line `start`.
fn parse_recipe(
    lines: &Vec<Vec<char>>,
    start: usize,
    depth: usize,
    budget: &mut ParseBudget,
) -> (r: Result<(Recipe, usize), ParseError>)
    requires
        start < lines@.len(),
    ensures
        ({
            let (expected, after) = recipe_at(
                text::line_texts(lines@),
                start as int,
                depth as nat,
                *old(budget),
            );
            &&& *final(budget) == after
            &&& match expected {
                Ok((found, next)) => r matches Ok(parsed) && parsed.0@ == found && parsed.1 == next
                    && start < parsed.1 <= lines@.len(),
                Err(error) => r matches Err(found) && found@ == error,
            }
        }),
    decreases lines@.len() - start, 0nat,
{
    proof {
        reveal(recipe_at);
        reveal(block_at);
    }
    let _count = lines.len();
    let ghost texts = text::line_texts(lines@);
    let opening = match parse_opening(lines, start, budget) {
        Ok(opening) => opening,
        Err(error) => {
            return Err(error);
        },
    };
    let ghost model = opening@;
    let RecipeOpening { header, conditions, index, capture, kind } = opening;
    assert(texts[index as int] == lines@[index as int]@);
    let (action, next) = if kind == ActionKind::Block {
        match parse_block(lines, start, index, &header, depth, budget) {
            Ok(found) => found,
            Err(error) => {
                return Err(error);
            },
        }
    } else {
        let written = trimmed(lines[index].as_slice());
        match parse_plain_action(lines, index, written, capture, kind, budget) {
            Ok(found) => found,
            Err(error) => {
                return Err(error);
            },
        }
    };
    let RecipeHeader { options, lock, .. } = header;
    let options = if kind == ActionKind::Headers {
        RecipeOptions { continuation: ContinuationMode::Continue, ..options }
    } else {
        options
    };
    let lock = match lock {
        Some(source) => Some(PathExpression::from(source)),
        None => None,
    };
    let recipe = Recipe {
        line: start + 1,
        action_line: index + 1,
        options,
        lock,
        conditions,
        action,
    };
    assert(recipe@ == completed(model, start as int, action@));
    Ok((recipe, next))
}

/// Reads the block that opens on line `index`.
fn parse_block(
    lines: &Vec<Vec<char>>,
    start: usize,
    index: usize,
    header: &RecipeHeader,
    depth: usize,
    budget: &mut ParseBudget,
) -> (r: Result<(RecipeAction, usize), ParseError>)
    requires
        start < index < lines@.len(),
    ensures
        ({
            let (expected, after) = block_at(
                text::line_texts(lines@),
                start as int,
                index as int,
                header@,
                depth as nat,
                *old(budget),
            );
            &&& *final(budget) == after
            &&& match expected {
                Ok((found, next)) => r matches Ok(parsed) && parsed.0@ == found && parsed.1 == next
                    && index < parsed.1 <= lines@.len(),
                Err(error) => r matches Err(found) && found@ == error,
            }
        }),
    decreases lines@.len() - index, 2nat,
{
    proof {
        reveal(block_at);
        reveal(statements_from);
    }
    let _count = lines.len();
    let next_depth = match budget.check_nesting(depth, index + 1) {
        Ok(next_depth) => next_depth,
        Err(error) => {
            return Err(error);
        },
    };
    match check_block(header, start + 1) {
        Ok(()) => {},
        Err(error) => {
            return Err(error);
        },
    }
    match parse_statements(lines, index + 1, next_depth, budget) {
        Ok((statements, next)) => Ok((RecipeAction::Block(statements), next)),
        Err(error) => Err(error),
    }
}

/// Reads the statements of a block of this depth, from line `first` on.
fn parse_statements(
    lines: &Vec<Vec<char>>,
    first: usize,
    depth: usize,
    budget: &mut ParseBudget,
) -> (r: Result<(Vec<Statement>, usize), ParseError>)
    requires
        first <= lines@.len(),
    ensures
        ({
            let (expected, after) = statements_from(
                text::line_texts(lines@),
                first as int,
                depth as nat,
                Seq::empty(),
                *old(budget),
            );
            &&& *final(budget) == after
            &&& match expected {
                Ok((found, next)) => r matches Ok(parsed) && recipe::models_of(parsed.0@) == found
                    && parsed.1 == next && first <= parsed.1 <= lines@.len(),
                Err(error) => r matches Err(found) && found@ == error,
            }
        }),
    decreases lines@.len() - first, 1nat,
{
    proof {
        reveal(statements_from);
    }
    let ghost texts = text::line_texts(lines@);
    let count = lines.len();
    let ghost whole = statements_from(
        texts,
        first as int,
        depth as nat,
        Seq::empty(),
        *budget,
    );
    let mut statements: Vec<Statement> = Vec::new();
    let mut index: usize = first;
    proof {
        recipe::lemma_models_push(statements@, arbitrary());
    }
    while index < count
        invariant
            count == lines@.len(),
            first <= index <= lines@.len(),
            texts == text::line_texts(lines@),
            whole == statements_from(
                texts,
                first as int,
                depth as nat,
                Seq::empty(),
                *old(budget),
            ),
            whole == statements_from(
                texts,
                index as int,
                depth as nat,
                recipe::models_of(statements@),
                *budget,
            ),
        decreases lines@.len() - index,
    {
        proof {
            reveal(statements_from);
            reveal(recipe_at);
        }
        assert(texts[index as int] == lines@[index as int]@);
        match budget.check_line(lines[index].as_slice(), index + 1) {
            Ok(()) => {},
            Err(error) => {
                return Err(error);
            },
        }
        let line = trimmed(lines[index].as_slice());
        if is_silent_line(line) {
            index = index + 1;
            continue ;
        }
        if chars_are(line, "}") {
            if depth == 0 {
                return Err(
                    ParseError::told(
                        index + 1,
                        "closing recipe block has no matching opening block",
                    ),
                );
            }
            return Ok((statements, index + 1));
        }
        match budget.check_statement(index + 1) {
            Ok(()) => {},
            Err(error) => {
                return Err(error);
            },
        }
        if starts_with(line, ':') {
            match budget.charge_recipe(index + 1) {
                Ok(()) => {},
                Err(error) => {
                    return Err(error);
                },
            }
            match parse_recipe(lines, index, depth, budget) {
                Ok((recipe, next)) => {
                    let statement = Statement::Recipe(recipe);
                    proof {
                        recipe::lemma_models_push(statements@, statement);
                    }
                    statements.push(statement);
                    index = next;
                },
                Err(error) => {
                    return Err(error);
                },
            }
        } else {
            match parse_assignment_statement(lines, index, depth, budget) {
                Ok(statement) => {
                    proof {
                        recipe::lemma_models_push(statements@, statement);
                    }
                    statements.push(statement);
                    index = index + 1;
                },
                Err(error) => {
                    return Err(error);
                },
            }
        }
    }
    if depth > 0 {
        let last = if count > 0 {
            count
        } else {
            1
        };
        return Err(ParseError::told(last, "recipe block has no closing brace"));
    }
    Ok((statements, index))
}

/// The configuration that a text is, and what is counted then.
pub open spec fn config_of(input: Seq<char>, budget: ParseBudget) -> (
    Result<ConfigModel, Refusal>,
    ParseBudget,
) {
    if text::byte_len(input) > MAX_RC_SIZE {
        (
            Err(
                errors::over_limit(
                    1,
                    "rc file exceeds the hard limit of "@ + text::decimal(MAX_RC_SIZE as nat)
                        + " bytes"@,
                ),
            ),
            budget,
        )
    } else {
        let (found, after) = statements_from(
            lines_from(input, 0),
            0,
            0,
            Seq::empty(),
            budget,
        );
        match found {
            Err(error) => (Err(error), after),
            Ok((statements, _)) => match limits::counted_since(after.counts, budget.counts) {
                Err(error) => (Err(error), after),
                Ok(parse_counts) => (
                    Ok(
                        ConfigModel {
                            statements,
                            initial_variables: Seq::empty(),
                            parse_counts,
                            initial_linebuf: budget.limits.linebuf,
                        },
                    ),
                    after,
                ),
            },
        }
    }
}

/// Reads an rc file within a budget that several of them share.
pub fn parse_with_state(input: &str, state: &mut ParseBudget) -> (r: Result<Config, ParseError>)
    ensures
        ({
            let (expected, after) = config_of(input@, *old(state));
            &&& *final(state) == after
            &&& errors::parsed_as(r, expected)
        }),
{
    if text_len(input) > MAX_RC_SIZE {
        return Err(
            ParseError::limit(
                1,
                numbered("rc file exceeds the hard limit of ", MAX_RC_SIZE, " bytes"),
            ),
        );
    }
    let chars = to_chars(input);
    let lines = split_lines(chars.as_slice());
    let initial = state.snapshot();
    let initial_linebuf = state.linebuf();
    let statements = match parse_statements(&lines, 0, 0, state) {
        Ok((statements, _)) => statements,
        Err(error) => {
            return Err(error);
        },
    };
    match state.counts_since(initial) {
        Ok(parse_counts) => {
            let initial_variables = Vec::new();
            assert(recipe::variable_models(initial_variables@) =~= Seq::empty());
            Ok(Config { statements, initial_variables, parse_counts, initial_linebuf })
        },
        Err(error) => Err(error),
    }
}

/// Reads an rc file.
pub fn parse(input: &str) -> (r: Result<Config, ParseError>)
    ensures
        errors::parsed_as(
            r,
            config_of(
                input@,
                ParseBudget { counts: limits::no_counts(), limits: limits::default_limits() },
            ).0,
        ),
{
    let mut state = ParseBudget::new();
    parse_with_state(input, &mut state)
}

proof fn lemma_no_line_feed(input: Seq<char>, start: int)
    requires
        0 <= start,
    ensures
        forall|i: int|
            0 <= i < lines_from(input, start).len() ==> !(#[trigger] lines_from(
                input,
                start,
            )[i]).contains('\n'),
    decreases input.len() - start,
{
    if start < input.len() {
        text::lemma_find_from(input, '\n', start);
        let end = text::find_from(input, '\n', start);
        let all = lines_from(input, start);
        let first = all[0];
        assert(!first.contains('\n')) by {
            if first.contains('\n') {
                let place = choose|j: int| 0 <= j < first.len() && first[j] == '\n';
                assert(input[start + place] == '\n');
            }
        }
        if end < input.len() {
            lemma_no_line_feed(input, end + 1);
            let rest = lines_from(input, end + 1);
            assert forall|i: int| 0 <= i < all.len() implies !(#[trigger] all[i]).contains(
                '\n',
            ) by {
                if i > 0 {
                    assert(all[i] == rest[i - 1]);
                }
            }
        }
    }
}

/// No line holds a line feed.
pub proof fn lines_hold_no_line_feed(input: Seq<char>, i: int)
    requires
        0 <= i < lines_from(input, 0).len(),
    ensures
        !lines_from(input, 0)[i].contains('\n'),
{
    lemma_no_line_feed(input, 0);
}

} // verus!
