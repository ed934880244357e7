//! Conditions of recipes, and the commands and conditions that go on over
//! several lines.

use vstd::prelude::*;
use vstd::slice::slice_subrange;
use vstd::string::*;

use crate::config::errors::{self, ParseError, Refusal};
use crate::config::expression_parser;
use crate::config::limits::{self, check_linebuf, ParseBudget};
use crate::config::recipe::{
    self, Condition, ConditionInput, ConditionKind, ConditionKindModel, ConditionModel,
    ShellExpandedCondition,
};
use crate::config::regex_condition::{self, compile_condition};
use crate::config::{MAX_ASSIGNMENT_NAME_LEN, MAX_PIPE_COMMAND_LEN, MAX_REGEX_PATTERN_LEN};
use crate::text::{
    self, chars_are, chars_len, ends_with, from_chars, has_char, is_ascii_digit,
    is_ascii_white_space, is_name_continue, is_name_start, numbered, parse_usize, split_at_char,
    starts_with, strip_text, text2, trimmed, trimmed_end, trimmed_start,
};

verus! {

/// A text without the `!` that it starts with, and whether their number is
/// odd.
pub open spec fn negation(input: Seq<char>) -> (bool, Seq<char>)
    decreases input.len(),
{
    let next = text::trim_start(text::rest_of(input));
    if text::begins_with(input, '!') && next.len() < input.len() {
        let (negated, rest) = negation(next);
        (!negated, rest)
    } else {
        (false, input)
    }
}

/// Takes the `!` off that a text starts with.
fn strip_negation(input: &[char]) -> (r: (bool, &[char]))
    ensures
        r.0 == negation(input@).0,
        r.1@ == negation(input@).1,
{
    let mut rest = input;
    let mut negated = false;
    while starts_with(rest, '!')
        invariant
            negation(input@).1 == negation(rest@).1,
            negation(input@).0 == (negated != negation(rest@).0),
        decreases rest@.len(),
    {
        let after = slice_subrange(rest, 1, rest.len());
        proof {
            text::lemma_trim_start_len(after@);
        }
        rest = trimmed_start(after);
        negated = !negated;
    }
    (negated, rest)
}

/// Whether the text of a condition is expanded before it is read.
pub open spec fn shell_expanded(input: Seq<char>) -> bool {
    text::begins_with(negation(text::trim_start(input)).1, '$')
}

fn condition_is_shell_expanded(input: &[char]) -> (r: bool)
    ensures
        r == shell_expanded(input@),
{
    starts_with(strip_negation(trimmed_start(input)).1, '$')
}

/// A line without the backslash at its end.
pub open spec fn without_backslash(line: Seq<char>) -> Seq<char> {
    if text::closes_with(line, '\\') {
        line.drop_last()
    } else {
        line
    }
}

/// The condition that starts on line `start`, from line `index` on, of which
/// `physical` is what counts, after `condition`.
pub open spec fn condition_from(
    lines: Seq<Seq<char>>,
    start: int,
    index: int,
    physical: Seq<char>,
    condition: Seq<char>,
    preserve: bool,
    linebuf: usize,
) -> Result<(Seq<char>, int), Refusal>
    decreases lines.len() - index,
{
    let fragment = without_backslash(physical);
    let length = text::byte_len(condition) + text::byte_len(fragment);
    let first = (start + 1) as nat;
    if index < 0 || index >= lines.len() {
        Err(errors::refusal(first, "recipe condition continuation is incomplete"@))
    } else if let Some(error) = limits::over_linebuf(lines[index], (index + 1) as nat, linebuf) {
        Err(error)
    } else if length > usize::MAX {
        Err(errors::refusal(first, "recipe condition size overflows"@))
    } else if length > linebuf {
        Err(
            errors::over_limit(
                first,
                "continued recipe condition exceeds the active LINEBUF limit of "@ + text::decimal(
                    linebuf as nat,
                ) + " bytes"@,
            ),
        )
    } else if !text::closes_with(physical, '\\') {
        Ok((condition + fragment, index + 1))
    } else if index + 1 >= lines.len() {
        Err(errors::refusal(first, "recipe condition continuation is incomplete"@))
    } else {
        let next = if preserve {
            lines[index + 1]
        } else {
            text::trim_start(lines[index + 1])
        };
        condition_from(lines, start, index + 1, next, condition + fragment, preserve, linebuf)
    }
}

/// The condition that starts on line `start`, and the line after it.
pub open spec fn condition_at(lines: Seq<Seq<char>>, start: int, linebuf: usize) -> Result<
    (Seq<char>, int),
    Refusal,
> {
    let first = text::trim_start(lines[start]);
    if !text::begins_with(first, '*') {
        Err(errors::refusal((start + 1) as nat, "recipe condition does not begin with '*'"@))
    } else {
        let rest = text::rest_of(first);
        condition_from(
            lines,
            start,
            start,
            rest,
            Seq::empty(),
            shell_expanded(rest),
            linebuf,
        )
    }
}

/// Adds characters at the end of a list.
fn append(output: &mut Vec<char>, chars: &[char])
    ensures
        final(output)@ == old(output)@ + chars@,
{
    let ghost before = output@;
    let mut i: usize = 0;
    assert(before + chars@.take(0) =~= before);
    while i < chars.len()
        invariant
            i <= chars@.len(),
            output@ == before + chars@.take(i as int),
        decreases chars.len() - i,
    {
        output.push(chars[i]);
        i = i + 1;
        assert(before + chars@.take(i as int) =~= (before + chars@.take(i - 1)).push(
            chars@[i - 1],
        ));
    }
    assert(chars@.take(chars@.len() as int) =~= chars@);
}

/// Joins the lines of the condition that starts on line `start`.
pub fn parse_condition_continuation(lines: &Vec<Vec<char>>, start: usize, linebuf: usize) -> (r:
    Result<(Vec<char>, usize), ParseError>)
    requires
        start < lines@.len(),
    ensures
        match condition_at(text::line_texts(lines@), start as int, linebuf) {
            Ok((condition, next)) => r matches Ok(found) && found.0@ == condition && found.1
                == next && start < found.1 <= lines@.len(),
            Err(error) => r matches Err(found) && found@ == error,
        },
{
    let ghost texts = text::line_texts(lines@);
    let count = lines.len();
    let first = trimmed_start(lines[start].as_slice());
    assert(texts[start as int] == lines@[start as int]@);
    if !starts_with(first, '*') {
        return Err(ParseError::told(start + 1, "recipe condition does not begin with '*'"));
    }
    let rest = slice_subrange(first, 1, first.len());
    let preserve = condition_is_shell_expanded(rest);
    let ghost whole = condition_at(texts, start as int, linebuf);
    let mut physical = rest;
    let mut condition: Vec<char> = Vec::new();
    let mut length: usize = 0;
    let mut index: usize = start;
    loop
        invariant
            count == lines@.len(),
            start <= index < lines@.len(),
            texts == text::line_texts(lines@),
            length == text::byte_len(condition@),
            whole == condition_at(texts, start as int, linebuf),
            whole == condition_from(
                texts,
                start as int,
                index as int,
                physical@,
                condition@,
                preserve,
                linebuf,
            ),
        decreases lines@.len() - index,
    {
        assert(texts[index as int] == lines@[index as int]@);
        match check_linebuf(lines[index].as_slice(), index + 1, linebuf) {
            Ok(()) => {},
            Err(error) => {
                return Err(error);
            },
        }
        let continued = ends_with(physical, '\\');
        let fragment = if continued {
            slice_subrange(physical, 0, physical.len() - 1)
        } else {
            physical
        };
        assert(fragment@ =~= without_backslash(physical@));
        let longer = match length.checked_add(chars_len(fragment)) {
            Some(longer) => longer,
            None => {
                return Err(ParseError::told(start + 1, "recipe condition size overflows"));
            },
        };
        if longer > linebuf {
            return Err(
                ParseError::limit(
                    start + 1,
                    numbered(
                        "continued recipe condition exceeds the active LINEBUF limit of ",
                        linebuf,
                        " bytes",
                    ),
                ),
            );
        }
        proof {
            text::lemma_encode_concat(condition@, fragment@);
        }
        append(&mut condition, fragment);
        length = longer;
        if !continued {
            return Ok((condition, index + 1));
        }
        if index + 1 >= count {
            return Err(
                ParseError::told(start + 1, "recipe condition continuation is incomplete"),
            );
        }
        index = index + 1;
        assert(texts[index as int] == lines@[index as int]@);
        physical = if preserve {
            lines[index].as_slice()
        } else {
            trimmed_start(lines[index].as_slice())
        };
    }
}

/// A command that has been joined, if it can be run.
pub open spec fn whole_command(
    command: Seq<char>,
    next: int,
    first: nat,
    description: Seq<char>,
) -> Result<(Seq<char>, int), Refusal> {
    if command.len() == 0 {
        Err(errors::refusal(first, description + " is empty"@))
    } else if command.contains('\0') {
        Err(errors::refusal(first, "pipe command contains NUL"@))
    } else {
        Ok((command, next))
    }
}

/// The command that starts on line `start`, from line `index` on, of which
/// `physical` is what counts, after `command`.
pub open spec fn command_from(
    lines: Seq<Seq<char>>,
    start: int,
    index: int,
    physical: Seq<char>,
    command: Seq<char>,
    linebuf: usize,
    description: Seq<char>,
) -> Result<(Seq<char>, int), Refusal>
    decreases lines.len() - index,
{
    let continued = text::closes_with(physical, '\\');
    let added = text::byte_len(physical) + if continued {
        1int
    } else {
        0int
    };
    let length = text::byte_len(command) + added;
    let first = (start + 1) as nat;
    if index < 0 || index >= lines.len() {
        Err(errors::refusal(first, description + " continuation is incomplete"@))
    } else if let Some(error) = limits::over_linebuf(lines[index], (index + 1) as nat, linebuf) {
        Err(error)
    } else if length > usize::MAX {
        Err(errors::refusal(first, description + " size overflows"@))
    } else if length > linebuf {
        Err(
            errors::over_limit(
                first,
                "expanded rc line exceeds the active LINEBUF limit of "@ + text::decimal(
                    linebuf as nat,
                ) + " bytes"@,
            ),
        )
    } else if length > MAX_PIPE_COMMAND_LEN {
        Err(
            errors::over_limit(
                first,
                description + " exceeds the hard limit of "@ + text::decimal(
                    MAX_PIPE_COMMAND_LEN as nat,
                ) + " bytes"@,
            ),
        )
    } else if !continued {
        whole_command(command + physical, index + 1, first, description)
    } else if index + 1 >= lines.len() {
        Err(errors::refusal(first, description + " continuation is incomplete"@))
    } else {
        command_from(
            lines,
            start,
            index + 1,
            lines[index + 1],
            (command + physical).push('\n'),
            linebuf,
            description,
        )
    }
}

/// Joins the lines of the command that starts with `first` on line `start`.
/// The line breaks stay, with the backslashes before them: they are the
/// shell's.
pub fn parse_command_continuation(
    lines: &Vec<Vec<char>>,
    start: usize,
    first: &[char],
    linebuf: usize,
    description: &str,
) -> (r: Result<(String, usize), ParseError>)
    requires
        start < lines@.len(),
    ensures
        match command_from(
            text::line_texts(lines@),
            start as int,
            start as int,
            first@,
            Seq::empty(),
            linebuf,
            description@,
        ) {
            Ok((command, next)) => r matches Ok(found) && found.0@ == command && found.1 == next
                && start < found.1 <= lines@.len(),
            Err(error) => r matches Err(found) && found@ == error,
        },
{
    let ghost texts = text::line_texts(lines@);
    let count = lines.len();
    let ghost whole = command_from(
        texts,
        start as int,
        start as int,
        first@,
        Seq::empty(),
        linebuf,
        description@,
    );
    let mut physical = first;
    let mut command: Vec<char> = Vec::new();
    let mut length: usize = 0;
    let mut index: usize = start;
    loop
        invariant
            count == lines@.len(),
            start <= index < lines@.len(),
            texts == text::line_texts(lines@),
            length == text::byte_len(command@),
            whole == command_from(
                texts,
                start as int,
                start as int,
                first@,
                Seq::empty(),
                linebuf,
                description@,
            ),
            whole == command_from(
                texts,
                start as int,
                index as int,
                physical@,
                command@,
                linebuf,
                description@,
            ),
        decreases lines@.len() - index,
    {
        assert(texts[index as int] == lines@[index as int]@);
        match check_linebuf(lines[index].as_slice(), index + 1, linebuf) {
            Ok(()) => {},
            Err(error) => {
                return Err(error);
            },
        }
        let continued = ends_with(physical, '\\');
        let added = chars_len(physical);
        let longer = match length.checked_add(added) {
            Some(longer) => longer,
            None => {
                return Err(ParseError::new(start + 1, text2(description, " size overflows")));
            },
        };
        if continued && longer == usize::MAX {
            return Err(ParseError::new(start + 1, text2(description, " size overflows")));
        }
        let longer = if continued {
            longer + 1
        } else {
            longer
        };
        if longer > linebuf {
            return Err(
                ParseError::limit(
                    start + 1,
                    numbered(
                        "expanded rc line exceeds the active LINEBUF limit of ",
                        linebuf,
                        " bytes",
                    ),
                ),
            );
        }
        if longer > MAX_PIPE_COMMAND_LEN {
            let message = text2(description, " exceeds the hard limit of ");
            return Err(
                ParseError::limit(
                    start + 1,
                    numbered(message.as_str(), MAX_PIPE_COMMAND_LEN, " bytes"),
                ),
            );
        }
        proof {
            text::lemma_encode_concat(command@, physical@);
            text::lemma_encode_concat(command@ + physical@, seq!['\n']);
            assert((command@ + physical@) + seq!['\n'] =~= (command@ + physical@).push('\n'));
            lemma_line_feed();
        }
        append(&mut command, physical);
        length = longer;
        if !continued {
            if command.len() == 0 {
                return Err(ParseError::new(start + 1, text2(description, " is empty")));
            }
            if has_char(command.as_slice(), '\0') {
                return Err(ParseError::told(start + 1, "pipe command contains NUL"));
            }
            return Ok((from_chars(command.as_slice()), index + 1));
        }
        if index + 1 >= count {
            return Err(
                ParseError::new(start + 1, text2(description, " continuation is incomplete")),
            );
        }
        command.push('\n');
        index = index + 1;
        assert(texts[index as int] == lines@[index as int]@);
        physical = lines[index].as_slice();
    }
}

proof fn lemma_line_feed()
    ensures
        text::byte_len(seq!['\n']) == 1,
{
    reveal_with_fuel(vstd::utf8::encode_utf8, 2);
}

/// A number without the sign that it starts with.
pub open spec fn unsigned_part(input: Seq<char>) -> Seq<char> {
    if text::begins_with(input, '+') || text::begins_with(input, '-') {
        text::rest_of(input)
    } else {
        input
    }
}

/// Whether a character is a decimal point.
pub open spec fn decimal_point(c: char) -> bool {
    c == '.'
}

/// Whether a text is a number of the kind that weights are written with:
/// digits, at least one, with at most one point, after an optional sign.
pub open spec fn scoring_number(input: Seq<char>) -> bool {
    let body = unsigned_part(input);
    &&& forall|i: int|
        0 <= i < body.len() ==> text::ascii_digit(#[trigger] body[i]) || decimal_point(body[i])
    &&& forall|i: int, j: int|
        0 <= i < j < body.len() && #[trigger] decimal_point(body[i]) ==> !#[trigger] decimal_point(
            body[j],
        )
    &&& exists|i: int| 0 <= i < body.len() && #[trigger] text::ascii_digit(body[i])
}

fn is_scoring_number(input: &[char]) -> (r: bool)
    ensures
        r == scoring_number(input@),
{
    let body = if starts_with(input, '+') || starts_with(input, '-') {
        slice_subrange(input, 1, input.len())
    } else {
        input
    };
    let mut has_digit = false;
    let mut has_point = false;
    let mut i: usize = 0;
    while i < body.len()
        invariant
            i <= body@.len(),
            body@ == unsigned_part(input@),
            forall|j: int|
                0 <= j < i ==> text::ascii_digit(#[trigger] body@[j]) || decimal_point(body@[j]),
            forall|j: int, k: int|
                0 <= j < k < i && #[trigger] decimal_point(body@[j])
                    ==> !#[trigger] decimal_point(body@[k]),
            has_point == exists|j: int| 0 <= j < i && #[trigger] decimal_point(body@[j]),
            has_digit == exists|j: int| 0 <= j < i && #[trigger] text::ascii_digit(body@[j]),
        decreases body.len() - i,
    {
        let c = body[i];
        if is_ascii_digit(c) {
            has_digit = true;
            assert(text::ascii_digit(body@[i as int]));
        } else if c == '.' && !has_point {
            has_point = true;
            assert(decimal_point(body@[i as int]));
        } else {
            proof {
                if c == '.' {
                    let first = choose|j: int| 0 <= j < i && #[trigger] decimal_point(body@[j]);
                    assert(decimal_point(body@[first]) && decimal_point(body@[i as int]));
                } else {
                    assert(!(text::ascii_digit(body@[i as int]) || decimal_point(
                        body@[i as int],
                    )));
                }
            }
            return false;
        }
        i = i + 1;
    }
    has_digit
}

/// Where the white space of ASCII from `index` on ends.
pub open spec fn blanks_end(input: Seq<char>, index: int) -> int
    decreases input.len() - index,
{
    if 0 <= index < input.len() && text::ascii_white_space(input[index]) {
        blanks_end(input, index + 1)
    } else {
        index
    }
}

/// Where the characters from `index` on that are no white space of ASCII end.
pub open spec fn word_end(input: Seq<char>, index: int) -> int
    decreases input.len() - index,
{
    if 0 <= index < input.len() && !text::ascii_white_space(input[index]) {
        word_end(input, index + 1)
    } else {
        index
    }
}

/// Where the blanks from `from` on end.
pub fn skip_blanks(input: &[char], from: usize) -> (r: usize)
    requires
        from <= input@.len(),
    ensures
        r == blanks_end(input@, from as int),
        from <= r <= input@.len(),
{
    let mut index = from;
    while index < input.len() && is_ascii_white_space(input[index])
        invariant
            from <= index <= input@.len(),
            blanks_end(input@, from as int) == blanks_end(input@, index as int),
        decreases input.len() - index,
    {
        index = index + 1;
    }
    index
}

/// Where the word at `from` ends.
pub fn skip_word(input: &[char], from: usize) -> (r: usize)
    requires
        from <= input@.len(),
    ensures
        r == word_end(input@, from as int),
        from <= r <= input@.len(),
{
    let mut index = from;
    while index < input.len() && !is_ascii_white_space(input[index])
        invariant
            from <= index <= input@.len(),
            word_end(input@, from as int) == word_end(input@, index as int),
        decreases input.len() - index,
    {
        index = index + 1;
    }
    index
}

/// The first word of a text, as white space of ASCII separates them.
pub open spec fn first_word(input: Seq<char>) -> Seq<char> {
    let start = blanks_end(input, 0);
    input.subrange(start, word_end(input, start))
}

/// Whether a condition starts with a weight and an exponent.
pub open spec fn scored(input: Seq<char>) -> bool {
    match text::split_once(input, '^') {
        None => false,
        Some((weight, rest)) => scoring_number(text::trim_end(weight)) && scoring_number(
            first_word(rest),
        ),
    }
}

fn has_scoring_prefix(input: &[char]) -> (r: bool)
    ensures
        r == scored(input@),
{
    match split_at_char(input, '^') {
        None => false,
        Some((weight, rest)) => {
            let start = skip_blanks(rest, 0);
            let end = skip_word(rest, start);
            is_scoring_number(trimmed_end(weight)) && is_scoring_number(
                slice_subrange(rest, start, end),
            )
        },
    }
}

/// What a regular expression is held against, where the condition says so.
#[derive(Debug)]
pub enum ConditionRegexTarget {
    Recipe,
    Variable(String),
    Area(ConditionInput),
}

pub enum TargetModel {
    Recipe,
    Variable(Seq<char>),
    Area(ConditionInput),
}

impl View for ConditionRegexTarget {
    type V = TargetModel;

    open spec fn view(&self) -> TargetModel {
        match self {
            ConditionRegexTarget::Recipe => TargetModel::Recipe,
            ConditionRegexTarget::Variable(name) => TargetModel::Variable(name@),
            ConditionRegexTarget::Area(area) => TargetModel::Area(*area),
        }
    }
}

/// What a variable condition of this name is held against.
pub open spec fn target_named(name: Seq<char>) -> TargetModel {
    if name == "H"@ {
        TargetModel::Area(ConditionInput::Headers)
    } else if name == "B"@ {
        TargetModel::Area(ConditionInput::Body)
    } else if name == "HB"@ || name == "BH"@ {
        TargetModel::Area(ConditionInput::Message)
    } else {
        TargetModel::Variable(name)
    }
}

/// What a condition's regular expression is held against, and the regular
/// expression.
pub open spec fn regex_target(input: Seq<char>, line: nat) -> Result<
    (TargetModel, Seq<char>),
    Refusal,
> {
    let end = expression_parser::name_rest_end(input, 0);
    let name = input.subrange(0, end);
    let rest = text::trim_start(input.subrange(end, input.len() as int));
    if !text::begins(rest, "??"@) {
        Ok((TargetModel::Recipe, input))
    } else if name.len() == 0 || !text::name_start(name[0]) {
        Err(errors::refusal(line, "variable condition has an invalid name"@))
    } else if text::byte_len(name) > MAX_ASSIGNMENT_NAME_LEN {
        Err(
            errors::refusal(
                line,
                "variable name exceeds the hard limit of "@ + text::decimal(
                    MAX_ASSIGNMENT_NAME_LEN as nat,
                ) + " bytes"@,
            ),
        )
    } else {
        Ok((target_named(name), text::trim_start(text::after_prefix(rest, "??"@))))
    }
}

fn condition_regex_target(input: &[char], line: usize) -> (r: Result<
    (ConditionRegexTarget, &[char]),
    ParseError,
>)
    ensures
        match regex_target(input@, line as nat) {
            Ok((target, pattern)) => r matches Ok(found) && found.0@ == target && found.1@
                == pattern,
            Err(error) => r matches Err(found) && found@ == error,
        },
{
    let mut end: usize = 0;
    while end < input.len() && is_name_continue(input[end])
        invariant
            end <= input@.len(),
            expression_parser::name_rest_end(input@, 0) == expression_parser::name_rest_end(
                input@,
                end as int,
            ),
        decreases input.len() - end,
    {
        end = end + 1;
    }
    let name = slice_subrange(input, 0, end);
    let rest = trimmed_start(slice_subrange(input, end, input.len()));
    let pattern = match strip_text(rest, "??") {
        Some(pattern) => pattern,
        None => {
            return Ok((ConditionRegexTarget::Recipe, input));
        },
    };
    if name.len() == 0 || !is_name_start(name[0]) {
        return Err(ParseError::told(line, "variable condition has an invalid name"));
    }
    if chars_len(name) > MAX_ASSIGNMENT_NAME_LEN {
        return Err(
            ParseError::new(
                line,
                numbered(
                    "variable name exceeds the hard limit of ",
                    MAX_ASSIGNMENT_NAME_LEN,
                    " bytes",
                ),
            ),
        );
    }
    let target = if chars_are(name, "H") {
        ConditionRegexTarget::Area(ConditionInput::Headers)
    } else if chars_are(name, "B") {
        ConditionRegexTarget::Area(ConditionInput::Body)
    } else if chars_are(name, "HB") || chars_are(name, "BH") {
        ConditionRegexTarget::Area(ConditionInput::Message)
    } else {
        ConditionRegexTarget::Variable(from_chars(name))
    };
    Ok((target, trimmed_start(pattern)))
}

/// The size that a condition names.
pub open spec fn size_of(input: Seq<char>, line: nat) -> Result<usize, Refusal> {
    match text::unsigned_number(text::trim(input), usize::MAX as nat) {
        Some(size) => Ok(size as usize),
        None => Err(
            errors::refusal(line, "size condition requires a non-negative integer"@),
        ),
    }
}

fn parse_size(input: &[char], line: usize) -> (r: Result<usize, ParseError>)
    ensures
        match size_of(input@, line as nat) {
            Ok(size) => r == Ok::<usize, ParseError>(size),
            Err(error) => r matches Err(found) && found@ == error,
        },
{
    match parse_usize(trimmed(input)) {
        Some(size) => Ok(size),
        None => Err(ParseError::told(line, "size condition requires a non-negative integer")),
    }
}

/// What is wrong with the command of a condition.
pub open spec fn program_fault(command: Seq<char>, line: nat) -> Option<Refusal> {
    if command.len() == 0 {
        Some(errors::refusal(line, "program condition command is empty"@))
    } else if text::byte_len(command) > MAX_PIPE_COMMAND_LEN {
        Some(
            errors::over_limit(
                line,
                "program condition command exceeds the hard limit of "@ + text::decimal(
                    MAX_PIPE_COMMAND_LEN as nat,
                ) + " bytes"@,
            ),
        )
    } else if command.contains('\0') {
        Some(errors::refusal(line, "program condition command contains NUL"@))
    } else {
        None
    }
}

fn validate_program_condition(command: &[char], line: usize) -> (r: Result<(), ParseError>)
    ensures
        errors::refused_as(r, program_fault(command@, line as nat)),
{
    if command.len() == 0 {
        return Err(ParseError::told(line, "program condition command is empty"));
    }
    if chars_len(command) > MAX_PIPE_COMMAND_LEN {
        return Err(
            ParseError::limit(
                line,
                numbered(
                    "program condition command exceeds the hard limit of ",
                    MAX_PIPE_COMMAND_LEN,
                    " bytes",
                ),
            ),
        );
    }
    if has_char(command, '\0') {
        return Err(ParseError::told(line, "program condition command contains NUL"));
    }
    Ok(())
}

/// The regular expression of a condition, with what it is held against.
pub open spec fn regex_kind(
    input: Seq<char>,
    line: nat,
    case_sensitive: bool,
    recipe_regexes: nat,
    budget: ParseBudget,
) -> Result<ConditionKindModel, Refusal> {
    if let Some(error) = budget.no_regex(recipe_regexes, line) {
        Err(error)
    } else {
        match regex_target(input, line) {
            Err(error) => Err(error),
            Ok((target, pattern)) => if text::byte_len(pattern) > MAX_REGEX_PATTERN_LEN {
                Err(
                    errors::refusal(
                        line,
                        "regular expression exceeds the hard limit of "@ + text::decimal(
                            MAX_REGEX_PATTERN_LEN as nat,
                        ) + " bytes"@,
                    ),
                )
            } else {
                match regex_condition::regex_of(pattern, line, case_sensitive) {
                    Err(error) => Err(error),
                    Ok(regex) => Ok(
                        match target {
                            TargetModel::Recipe => ConditionKindModel::Regex(regex),
                            TargetModel::Variable(name) => ConditionKindModel::VariableRegex {
                                name,
                                regex,
                            },
                            TargetModel::Area(area) => ConditionKindModel::AreaRegex {
                                area,
                                regex,
                            },
                        },
                    ),
                }
            },
        }
    }
}

/// Reads the regular expression of a condition.
fn parse_regex_kind(
    input: &[char],
    line: usize,
    case_sensitive: bool,
    recipe_regexes: usize,
    budget: &ParseBudget,
) -> (r: Result<ConditionKind, ParseError>)
    ensures
        errors::parsed_as(
            r,
            regex_kind(input@, line as nat, case_sensitive, recipe_regexes as nat, *budget),
        ),
{
    match budget.check_regex(recipe_regexes, line) {
        Ok(()) => {},
        Err(error) => {
            return Err(error);
        },
    }
    let (target, pattern) = match condition_regex_target(input, line) {
        Ok(found) => found,
        Err(error) => {
            return Err(error);
        },
    };
    if chars_len(pattern) > MAX_REGEX_PATTERN_LEN {
        return Err(
            ParseError::new(
                line,
                numbered(
                    "regular expression exceeds the hard limit of ",
                    MAX_REGEX_PATTERN_LEN,
                    " bytes",
                ),
            ),
        );
    }
    match compile_condition(from_chars(pattern), line, case_sensitive) {
        Err(error) => Err(error),
        Ok(regex) => Ok(
            match target {
                ConditionRegexTarget::Recipe => ConditionKind::Regex(regex),
                ConditionRegexTarget::Variable(name) => ConditionKind::VariableRegex {
                    name,
                    regex,
                },
                ConditionRegexTarget::Area(area) => ConditionKind::AreaRegex { area, regex },
            },
        ),
    }
}

/// What a condition tests, and whether that counts as a regular expression.
pub open spec fn kind_of(
    input: Seq<char>,
    line: nat,
    case_sensitive: bool,
    recipe_regexes: nat,
    budget: ParseBudget,
) -> Result<(ConditionKindModel, bool), Refusal> {
    if text::begins_with(input, '$') {
        Ok(
            (
                ConditionKindModel::ShellExpanded { source: text::rest_of(input), expansion: None },
                true,
            ),
        )
    } else if text::begins_with(input, '<') {
        match size_of(text::rest_of(input), line) {
            Ok(size) => Ok((ConditionKindModel::SmallerThan(size), false)),
            Err(error) => Err(error),
        }
    } else if text::begins_with(input, '>') {
        match size_of(text::rest_of(input), line) {
            Ok(size) => Ok((ConditionKindModel::LargerThan(size), false)),
            Err(error) => Err(error),
        }
    } else if text::begins_with(input, '?') {
        let command = text::trim_start(text::rest_of(input));
        match program_fault(command, line) {
            Some(error) => Err(error),
            None => Ok((ConditionKindModel::Program(command), false)),
        }
    } else {
        match regex_kind(input, line, case_sensitive, recipe_regexes, budget) {
            Ok(kind) => Ok((kind, true)),
            Err(error) => Err(error),
        }
    }
}

/// The condition that a text is, and whether it counts as a regular
/// expression.
pub open spec fn condition_of(
    input: Seq<char>,
    line: nat,
    case_sensitive: bool,
    recipe_regexes: nat,
    budget: ParseBudget,
) -> Result<(ConditionModel, bool), Refusal> {
    let (negated, body) = negation(text::trim(input));
    if body.len() == 0 {
        Err(errors::refusal(line, "condition is empty"@))
    } else if scored(body) {
        Err(errors::refusal(line, "weighted recipe conditions are not supported"@))
    } else {
        match kind_of(body, line, case_sensitive, recipe_regexes, budget) {
            Ok((kind, is_regex)) => Ok((ConditionModel { line, negated, kind }, is_regex)),
            Err(error) => Err(error),
        }
    }
}

/// Reads a condition, of a recipe that has `recipe_regexes` regular
/// expressions.
pub fn parse_condition(
    input: &[char],
    line: usize,
    case_sensitive: bool,
    recipe_regexes: usize,
    budget: &ParseBudget,
) -> (r: Result<(Condition, bool), ParseError>)
    ensures
        match condition_of(
            input@,
            line as nat,
            case_sensitive,
            recipe_regexes as nat,
            *budget,
        ) {
            Ok((condition, is_regex)) => r matches Ok(found) && found.0@ == condition && found.1
                == is_regex,
            Err(error) => r matches Err(found) && found@ == error,
        },
{
    let (negated, body) = strip_negation(trimmed(input));
    if body.len() == 0 {
        return Err(ParseError::told(line, "condition is empty"));
    }
    if has_scoring_prefix(body) {
        return Err(ParseError::told(line, "weighted recipe conditions are not supported"));
    }
    let rest = slice_subrange(body, 1, body.len());
    let (kind, is_regex) = if body[0] == '$' {
        let condition = ShellExpandedCondition { source: from_chars(rest), expansion: None };
        (ConditionKind::ShellExpanded(condition), true)
    } else if body[0] == '<' {
        match parse_size(rest, line) {
            Ok(size) => (ConditionKind::SmallerThan(size), false),
            Err(error) => {
                return Err(error);
            },
        }
    } else if body[0] == '>' {
        match parse_size(rest, line) {
            Ok(size) => (ConditionKind::LargerThan(size), false),
            Err(error) => {
                return Err(error);
            },
        }
    } else if body[0] == '?' {
        let command = trimmed_start(rest);
        match validate_program_condition(command, line) {
            Ok(()) => {},
            Err(error) => {
                return Err(error);
            },
        }
        (ConditionKind::Program(from_chars(command)), false)
    } else {
        match parse_regex_kind(body, line, case_sensitive, recipe_regexes, budget) {
            Ok(kind) => (kind, true),
            Err(error) => {
                return Err(error);
            },
        }
    };
    Ok((Condition { line, negated, kind }, is_regex))
}

/// The condition that an expanded text is.
pub open spec fn reparsed_condition(input: Seq<char>, line: nat, case_sensitive: bool) -> Result<
    ConditionModel,
    Refusal,
> {
    let budget = ParseBudget { counts: limits::no_counts(), limits: limits::default_limits() };
    match condition_of(input, line, case_sensitive, 0, budget) {
        Ok((condition, _)) => Ok(condition),
        Err(error) => Err(error),
    }
}

/// Reads the condition that an expanded text is.
pub fn parse_reparsed_condition(input: &[char], line: usize, case_sensitive: bool) -> (r: Result<
    Condition,
    ParseError,
>)
    ensures
        errors::parsed_as(r, reparsed_condition(input@, line as nat, case_sensitive)),
{
    let budget = ParseBudget::new();
    match parse_condition(input, line, case_sensitive, 0, &budget) {
        Ok((condition, _)) => Ok(condition),
        Err(error) => Err(error),
    }
}

/// A command, over however many lines it goes, is not empty, holds no NUL, and
/// is bounded as a whole.
pub proof fn joined_commands_are_bounded(
    lines: Seq<Seq<char>>,
    start: int,
    index: int,
    physical: Seq<char>,
    command: Seq<char>,
    linebuf: usize,
    description: Seq<char>,
)
    requires
        command_from(lines, start, index, physical, command, linebuf, description) is Ok,
    ensures
        ({
            let (whole, next) = command_from(
                lines,
                start,
                index,
                physical,
                command,
                linebuf,
                description,
            )->Ok_0;
            &&& whole.len() > 0
            &&& !whole.contains('\0')
            &&& text::byte_len(whole) <= linebuf
            &&& text::byte_len(whole) <= MAX_PIPE_COMMAND_LEN
            &&& index < next <= lines.len()
        }),
    decreases lines.len() - index,
{
    text::lemma_encode_concat(command, physical);
    if text::closes_with(physical, '\\') {
        joined_commands_are_bounded(
            lines,
            start,
            index + 1,
            lines[index + 1],
            (command + physical).push('\n'),
            linebuf,
            description,
        );
    }
}

} // verus!
