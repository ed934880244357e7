//! Actions that edit the headers of a message.

use vstd::prelude::*;
use vstd::slice::slice_subrange;
use vstd::string::*;

use crate::config::errors::{self, ParseError, Refusal};
use crate::config::limits::{self, check_linebuf};
use crate::config::recipe::{
    self, HeaderAction, HeaderOperation, HeaderOperationModel, HeaderValue, HeaderValueModel,
};
use crate::config::recipe_header::letter;
use crate::config::MAX_HEADER_OPERATIONS_PER_ACTION;
use crate::text::{
    self, chars_are, counted, ends_with, from_chars, has_char, is_white_space, split_at_char,
    starts_with, text3, to_chars, trimmed, trimmed_start,
};

verus! {

/// Whether a character may stand in the name of a header field.
pub open spec fn field_name_char(c: char) -> bool {
    33 <= c as u32 <= 57 || 59 <= c as u32 <= 126
}

/// Whether a text is the name of a header field.
pub open spec fn field_name(name: Seq<char>) -> bool {
    name.len() > 0 && forall|i: int| 0 <= i < name.len() ==> field_name_char(#[trigger] name[i])
}

/// What is wrong with the name of a header field.
pub open spec fn field_name_fault(name: Seq<char>, line: nat) -> Option<Refusal> {
    if field_name(name) {
        None
    } else {
        Some(errors::refusal(line, "header name must contain only printable ASCII except ':'"@))
    }
}

fn validate_header_name(name: &[char], line: usize) -> (r: Result<(), ParseError>)
    ensures
        errors::refused_as(r, field_name_fault(name@, line as nat)),
{
    let mut valid = name.len() > 0;
    let mut i: usize = 0;
    while i < name.len()
        invariant
            i <= name@.len(),
            valid == (name@.len() > 0 && forall|j: int|
                0 <= j < i ==> field_name_char(#[trigger] name@[j])),
        decreases name.len() - i,
    {
        let code = name[i] as u32;
        if !((33 <= code && code <= 57) || (59 <= code && code <= 126)) {
            assert(!field_name_char(name@[i as int]));
            valid = false;
        }
        i = i + 1;
    }
    if valid {
        Ok(())
    } else {
        Err(ParseError::told(line, "header name must contain only printable ASCII except ':'"))
    }
}

/// Where the first white space from `i` on stands: at the end, where there is
/// none.
pub open spec fn first_space(s: Seq<char>, i: int) -> int
    decreases s.len() - i,
{
    if 0 <= i < s.len() && !text::white_space(s[i]) {
        first_space(s, i + 1)
    } else {
        i
    }
}

/// A text before and after its first white space.
pub open spec fn split_at_space(s: Seq<char>) -> Option<(Seq<char>, Seq<char>)> {
    let at = first_space(s, 0);
    if at < s.len() {
        Some((s.subrange(0, at), s.subrange(at + 1, s.len() as int)))
    } else {
        None
    }
}

fn split_space(s: &[char]) -> (r: Option<(&[char], &[char])>)
    ensures
        match split_at_space(s@) {
            Some(parts) => r matches Some(found) && found.0@ == parts.0 && found.1@ == parts.1,
            None => r is None,
        },
{
    let mut i: usize = 0;
    while i < s.len() && !is_white_space(s[i])
        invariant
            i <= s@.len(),
            first_space(s@, 0) == first_space(s@, i as int),
        decreases s.len() - i,
    {
        i = i + 1;
    }
    if i < s.len() {
        Some((slice_subrange(s, 0, i), slice_subrange(s, i + 1, s.len())))
    } else {
        None
    }
}

/// What is wrong with the value of a header field as it is written.
pub open spec fn written_value_fault(value: Seq<char>, line: nat) -> Option<Refusal> {
    if text::closes_with(value, '\\') {
        Some(errors::refusal(line, "folded header values are not supported"@))
    } else if value.contains('\r') || value.contains('\n') || value.contains('\0') {
        Some(errors::refusal(line, "header value contains a forbidden byte"@))
    } else {
        None
    }
}

/// The operation on a line of a headers action.
pub open spec fn operation_on(line_text: Seq<char>, line: nat) -> Result<
    HeaderOperationModel,
    Refusal,
> {
    match split_at_space(line_text) {
        None => Err(
            errors::refusal(line, "header operation '"@ + line_text + "' has no arguments"@),
        ),
        Some((operation, rest)) => {
            let arguments = text::trim_start(rest);
            if operation == "remove"@ {
                match field_name_fault(arguments, line) {
                    Some(error) => Err(error),
                    None => Ok(HeaderOperationModel::Remove { line, name: arguments }),
                }
            } else if operation != "set"@ && operation != "add"@ && operation != "prepend"@ {
                Err(errors::refusal(line, "unknown headers operation '"@ + operation + "'"@))
            } else {
                match text::split_once(arguments, ':') {
                    None => Err(
                        errors::refusal(
                            line,
                            "header operation '"@ + operation + "' requires NAME: VALUE"@,
                        ),
                    ),
                    Some((before, after)) => {
                        let name = text::trim(before);
                        let source = text::trim_start(after);
                        let value = HeaderValueModel { source, expansion: None };
                        if let Some(error) = field_name_fault(name, line) {
                            Err(error)
                        } else if let Some(error) = written_value_fault(source, line) {
                            Err(error)
                        } else if operation == "set"@ {
                            Ok(HeaderOperationModel::Replace { line, name, value })
                        } else if operation == "add"@ {
                            Ok(HeaderOperationModel::Add { line, name, value })
                        } else {
                            Ok(HeaderOperationModel::Prepend { line, name, value })
                        }
                    },
                }
            }
        },
    }
}

/// Reads an operation of a headers action.
pub fn parse_header_operation(line_text: &[char], line: usize) -> (r: Result<
    HeaderOperation,
    ParseError,
>)
    ensures
        errors::parsed_as(r, operation_on(line_text@, line as nat)),
{
    let (operation, rest) = match split_space(line_text) {
        Some(parts) => parts,
        None => {
            let shown = from_chars(line_text);
            return Err(
                ParseError::new(
                    line,
                    text3("header operation '", shown.as_str(), "' has no arguments"),
                ),
            );
        },
    };
    let arguments = trimmed_start(rest);
    if chars_are(operation, "remove") {
        return match validate_header_name(arguments, line) {
            Ok(()) => Ok(HeaderOperation::Remove { line, name: from_chars(arguments) }),
            Err(error) => Err(error),
        };
    }
    if !chars_are(operation, "set") && !chars_are(operation, "add") && !chars_are(
        operation,
        "prepend",
    ) {
        let shown = from_chars(operation);
        return Err(
            ParseError::new(line, text3("unknown headers operation '", shown.as_str(), "'")),
        );
    }
    let (before, after) = match split_at_char(arguments, ':') {
        Some(parts) => parts,
        None => {
            let shown = from_chars(operation);
            return Err(
                ParseError::new(
                    line,
                    text3("header operation '", shown.as_str(), "' requires NAME: VALUE"),
                ),
            );
        },
    };
    let name = trimmed(before);
    match validate_header_name(name, line) {
        Ok(()) => {},
        Err(error) => {
            return Err(error);
        },
    }
    let source = trimmed_start(after);
    if ends_with(source, '\\') {
        return Err(ParseError::told(line, "folded header values are not supported"));
    }
    if has_char(source, '\r') || has_char(source, '\n') || has_char(source, '\0') {
        return Err(ParseError::told(line, "header value contains a forbidden byte"));
    }
    let name = from_chars(name);
    let value = HeaderValue { source: from_chars(source), expansion: None };
    if chars_are(operation, "set") {
        Ok(HeaderOperation::Replace { line, name, value })
    } else if chars_are(operation, "add") {
        Ok(HeaderOperation::Add { line, name, value })
    } else {
        Ok(HeaderOperation::Prepend { line, name, value })
    }
}

/// Whether a trimmed line says nothing.
pub open spec fn silent_line(line: Seq<char>) -> bool {
    line.len() == 0 || text::begins_with(line, '#')
}

/// Whether a trimmed line says nothing.
pub fn is_silent_line(line: &[char]) -> (r: bool)
    ensures
        r == silent_line(line@),
{
    line.len() == 0 || starts_with(line, '#')
}

/// The operations of the headers action that opens on line `opening`, from
/// line `index` on, after `operations`, and the line after them.
pub open spec fn operations_from(
    lines: Seq<Seq<char>>,
    opening: int,
    index: int,
    operations: Seq<HeaderOperationModel>,
    linebuf: usize,
) -> Result<(Seq<HeaderOperationModel>, int), Refusal>
    decreases lines.len() - index,
{
    if index < 0 || index >= lines.len() {
        Err(errors::refusal((opening + 1) as nat, "headers action has no closing '}'"@))
    } else {
        let line = text::trim(lines[index]);
        let number = (index + 1) as nat;
        if let Some(error) = limits::over_linebuf(lines[index], number, linebuf) {
            Err(error)
        } else if silent_line(line) {
            operations_from(lines, opening, index + 1, operations, linebuf)
        } else if line == "}"@ {
            Ok((operations, index + 1))
        } else if operations.len() == MAX_HEADER_OPERATIONS_PER_ACTION {
            Err(
                errors::over_limit(
                    number,
                    "header operation count exceeds the hard limit of "@ + text::decimal(
                        MAX_HEADER_OPERATIONS_PER_ACTION as nat,
                    ),
                ),
            )
        } else {
            match operation_on(line, number) {
                Err(error) => Err(error),
                Ok(operation) => operations_from(
                    lines,
                    opening,
                    index + 1,
                    operations.push(operation),
                    linebuf,
                ),
            }
        }
    }
}

/// Reads the headers action that opens on line `opening`.
pub fn parse_header_action(lines: &Vec<Vec<char>>, opening: usize, linebuf: usize) -> (r: Result<
    (HeaderAction, usize),
    ParseError,
>)
    requires
        opening < lines@.len(),
    ensures
        match operations_from(
            text::line_texts(lines@),
            opening as int,
            opening + 1,
            Seq::empty(),
            linebuf,
        ) {
            Ok((operations, next)) => r matches Ok(found) && found.0@ == operations && found.1
                == next && opening < found.1 <= lines@.len(),
            Err(error) => r matches Err(found) && found@ == error,
        },
{
    let ghost texts = text::line_texts(lines@);
    let count = lines.len();
    let mut operations: Vec<HeaderOperation> = Vec::new();
    let mut index: usize = opening + 1;
    let ghost whole = operations_from(
        texts,
        opening as int,
        opening + 1,
        Seq::empty(),
        linebuf,
    );
    assert(recipe::operation_models(operations@) =~= Seq::empty());
    while index < count
        invariant
            count == lines@.len(),
            opening < index <= lines@.len(),
            texts == text::line_texts(lines@),
            whole == operations_from(
                texts,
                opening as int,
                opening + 1,
                Seq::empty(),
                linebuf,
            ),
            whole == operations_from(
                texts,
                opening as int,
                index as int,
                recipe::operation_models(operations@),
                linebuf,
            ),
        decreases lines@.len() - index,
    {
        assert(texts[index as int] == lines@[index as int]@);
        match check_linebuf(lines[index].as_slice(), index + 1, linebuf) {
            Ok(()) => {},
            Err(error) => {
                return Err(error);
            },
        }
        let line = trimmed(lines[index].as_slice());
        if is_silent_line(line) {
            index = index + 1;
            continue ;
        }
        if chars_are(line, "}") {
            return Ok((HeaderAction { operations }, index + 1));
        }
        if operations.len() == MAX_HEADER_OPERATIONS_PER_ACTION {
            return Err(
                ParseError::limit(
                    index + 1,
                    counted(
                        "header operation count exceeds the hard limit of ",
                        MAX_HEADER_OPERATIONS_PER_ACTION,
                    ),
                ),
            );
        }
        match parse_header_operation(line, index + 1) {
            Ok(operation) => {
                let ghost before = operations@;
                operations.push(operation);
                assert(recipe::operation_models(operations@) =~= recipe::operation_models(
                    before,
                ).push(operation@));
            },
            Err(error) => {
                return Err(error);
            },
        }
        index = index + 1;
    }
    Err(ParseError::told(opening + 1, "headers action has no closing '}'"))
}

/// Whether a flag has no meaning for a headers action.
pub open spec fn foreign_flag(flag: char) -> bool {
    flag == 'h' || flag == 'b' || flag == 'f' || flag == 'w' || flag == 'W' || flag == 'i' || flag
        == 'r'
}

/// The first flag from `i` on that has no meaning for a headers action.
pub open spec fn first_foreign_flag(flags: Seq<char>, i: int) -> Option<char>
    decreases flags.len() - i,
{
    if i < 0 || i >= flags.len() {
        None
    } else if foreign_flag(flags[i]) {
        Some(flags[i])
    } else {
        first_foreign_flag(flags, i + 1)
    }
}

/// Why a recipe cannot have a headers action.
pub open spec fn header_recipe_fault(flags: Seq<char>, lock: Option<Seq<char>>, line: nat) -> Option<
    Refusal,
> {
    if lock is Some {
        Some(errors::refusal(line, "headers actions do not support local lockfiles"@))
    } else {
        match first_foreign_flag(flags, 0) {
            Some(flag) => Some(
                errors::refusal(
                    line,
                    "recipe flag '"@ + seq![flag] + "' is not supported for headers actions"@,
                ),
            ),
            None => None,
        }
    }
}

/// Refuses a headers action where the recipe's flags or lockfile do not allow
/// one.
pub fn validate_header_action_recipe(flags: &str, lock: &Option<String>, line: usize) -> (r: Result<
    (),
    ParseError,
>)
    ensures
        errors::refused_as(
            r,
            header_recipe_fault(flags@, recipe::optional_text(*lock), line as nat),
        ),
{
    if lock.is_some() {
        return Err(ParseError::told(line, "headers actions do not support local lockfiles"));
    }
    let letters = to_chars(flags);
    let mut i: usize = 0;
    while i < letters.len()
        invariant
            i <= letters@.len(),
            letters@ == flags@,
            *lock is None,
            first_foreign_flag(flags@, 0) == first_foreign_flag(flags@, i as int),
        decreases letters.len() - i,
    {
        let flag = letters[i];
        if flag == 'h' || flag == 'b' || flag == 'f' || flag == 'w' || flag == 'W' || flag == 'i'
            || flag == 'r' {
            let shown = letter(flag);
            return Err(
                ParseError::new(
                    line,
                    text3(
                        "recipe flag '",
                        shown.as_str(),
                        "' is not supported for headers actions",
                    ),
                ),
            );
        }
        i = i + 1;
    }
    Ok(())
}

} // verus!
