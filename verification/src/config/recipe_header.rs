//! The first line of a recipe: its flags and its lockfile.

use vstd::prelude::*;
use vstd::string::*;

use crate::config::errors::{self, ParseError, Refusal};
use crate::config::recipe::{
    self, ActionInput, ActionMode, CaseMode, ChildStatusMode, ConditionInput, ContinuationMode,
    ControlFlow, OutputEnding, RecipeOptions, WriteErrorMode,
};
use crate::config::MAX_PATH_EXPRESSION_LEN;
use crate::text::{
    self, chars_len, from_chars, has_char, is_ascii_alphabetic, numbered, split_at_char, text3,
    text5, trimmed,
};

verus! {

/// What the first line of a recipe says.
pub struct RecipeHeader {
    pub options: RecipeOptions,
    pub lock: Option<String>,
    pub flags: String,
}

pub struct RecipeHeaderModel {
    pub options: RecipeOptions,
    pub lock: Option<Seq<char>>,
    pub flags: Seq<char>,
}

impl View for RecipeHeader {
    type V = RecipeHeaderModel;

    open spec fn view(&self) -> RecipeHeaderModel {
        RecipeHeaderModel {
            options: self.options,
            lock: recipe::optional_text(self.lock),
            flags: self.flags@,
        }
    }
}

/// A refusal of a path that is too long.
pub open spec fn path_too_long(path: Seq<char>, line: nat, description: Seq<char>) -> Option<
    Refusal,
> {
    if text::byte_len(path) > MAX_PATH_EXPRESSION_LEN {
        Some(
            errors::refusal(
                line,
                description + " exceeds the hard limit of "@ + text::decimal(
                    MAX_PATH_EXPRESSION_LEN as nat,
                ) + " bytes"@,
            ),
        )
    } else {
        None
    }
}

/// Refuses a path that is too long.
pub fn check_path_length(path: &[char], line: usize, description: &str) -> (r: Result<
    (),
    ParseError,
>)
    ensures
        errors::refused_as(r, path_too_long(path@, line as nat, description@)),
{
    if chars_len(path) > MAX_PATH_EXPRESSION_LEN {
        let message = text::text2(description, " exceeds the hard limit of ");
        return Err(
            ParseError::new(line, numbered(message.as_str(), MAX_PATH_EXPRESSION_LEN, " bytes")),
        );
    }
    Ok(())
}

/// A text without its comment.
pub open spec fn without_comment(value: Seq<char>) -> Seq<char> {
    match text::split_once(value, '#') {
        Some((before, _)) => before,
        None => value,
    }
}

fn strip_comment(value: &[char]) -> (r: &[char])
    ensures
        r@ == without_comment(value@),
{
    match split_at_char(value, '#') {
        Some((before, _)) => before,
        None => value,
    }
}

/// Whether a letter is a flag.
pub open spec fn known_flag(flag: char) -> bool {
    flag == 'H' || flag == 'B' || flag == 'D' || flag == 'c' || flag == 'A' || flag == 'a' || flag
        == 'E' || flag == 'e' || flag == 'h' || flag == 'b' || flag == 'f' || flag == 'w' || flag
        == 'W' || flag == 'i' || flag == 'r'
}

/// The first letter from `i` on that is no flag.
pub open spec fn unknown_flag(flags: Seq<char>, i: int) -> Option<char>
    decreases flags.len() - i,
{
    if i < 0 || i >= flags.len() {
        None
    } else if !known_flag(flags[i]) {
        Some(flags[i])
    } else {
        unknown_flag(flags, i + 1)
    }
}

fn find_unknown_flag(flags: &[char]) -> (r: Option<char>)
    ensures
        r == unknown_flag(flags@, 0),
{
    let mut i: usize = 0;
    while i < flags.len()
        invariant
            i <= flags@.len(),
            unknown_flag(flags@, 0) == unknown_flag(flags@, i as int),
        decreases flags.len() - i,
    {
        let flag = flags[i];
        if !(flag == 'H' || flag == 'B' || flag == 'D' || flag == 'c' || flag == 'A' || flag == 'a'
            || flag == 'E' || flag == 'e' || flag == 'h' || flag == 'b' || flag == 'f' || flag
            == 'w' || flag == 'W' || flag == 'i' || flag == 'r') {
            return Some(flag);
        }
        i = i + 1;
    }
    None
}

/// Whether all letters are ASCII letters.
pub open spec fn all_letters(flags: Seq<char>) -> bool {
    forall|i: int| 0 <= i < flags.len() ==> text::ascii_alphabetic(#[trigger] flags[i])
}

fn are_letters(flags: &[char]) -> (r: bool)
    ensures
        r == all_letters(flags@),
{
    let mut i: usize = 0;
    while i < flags.len()
        invariant
            i <= flags@.len(),
            forall|j: int| 0 <= j < i ==> text::ascii_alphabetic(#[trigger] flags@[j]),
        decreases flags.len() - i,
    {
        if !is_ascii_alphabetic(flags[i]) {
            return false;
        }
        i = i + 1;
    }
    true
}

/// The letter, where the flags hold it.
pub open spec fn held(flags: Seq<char>, flag: char) -> Seq<char> {
    if flags.contains(flag) {
        seq![flag]
    } else {
        Seq::empty()
    }
}

/// The flags that say how a recipe hangs on those before it.
pub open spec fn control_flags(flags: Seq<char>) -> Seq<char> {
    held(flags, 'A') + held(flags, 'a') + held(flags, 'E') + held(flags, 'e')
}

fn find_control_flags(flags: &[char]) -> (r: Vec<char>)
    ensures
        r@ == control_flags(flags@),
{
    let mut found: Vec<char> = Vec::new();
    if has_char(flags, 'A') {
        found.push('A');
    }
    assert(found@ =~= held(flags@, 'A'));
    if has_char(flags, 'a') {
        found.push('a');
    }
    assert(found@ =~= held(flags@, 'A') + held(flags@, 'a'));
    if has_char(flags, 'E') {
        found.push('E');
    }
    assert(found@ =~= held(flags@, 'A') + held(flags@, 'a') + held(flags@, 'E'));
    if has_char(flags, 'e') {
        found.push('e');
    }
    assert(found@ =~= control_flags(flags@));
    found
}

/// What is wrong with the flags of a recipe.
pub open spec fn flag_fault(flags: Seq<char>, line: nat) -> Option<Refusal> {
    let control = control_flags(flags);
    if !all_letters(flags) {
        Some(errors::refusal(line, "invalid recipe flags"@))
    } else if let Some(flag) = unknown_flag(flags, 0) {
        Some(
            errors::refusal(line, "recipe flag '"@ + seq![flag] + "' is not supported yet"@),
        )
    } else if control.len() > 1 {
        Some(
            errors::refusal(
                line,
                "recipe control flags '"@ + seq![control[0]] + "' and '"@ + seq![control[1]]
                    + "' cannot be combined"@,
            ),
        )
    } else if flags.contains('w') && flags.contains('W') {
        Some(errors::refusal(line, "recipe flags 'w' and 'W' cannot be combined"@))
    } else {
        None
    }
}

/// A letter as text.
pub fn letter(c: char) -> (r: String)
    ensures
        r@ == seq![c],
{
    let mut result = String::new();
    result.push(c);
    assert(result@ =~= seq![c]);
    result
}

fn check_flags(flags: &[char], line: usize) -> (r: Result<(), ParseError>)
    ensures
        errors::refused_as(r, flag_fault(flags@, line as nat)),
{
    if !are_letters(flags) {
        return Err(ParseError::told(line, "invalid recipe flags"));
    }
    if let Some(flag) = find_unknown_flag(flags) {
        let shown = letter(flag);
        return Err(
            ParseError::new(
                line,
                text3("recipe flag '", shown.as_str(), "' is not supported yet"),
            ),
        );
    }
    let control = find_control_flags(flags);
    if control.len() > 1 {
        let first = letter(control[0]);
        let second = letter(control[1]);
        return Err(
            ParseError::new(
                line,
                text5(
                    "recipe control flags '",
                    first.as_str(),
                    "' and '",
                    second.as_str(),
                    "' cannot be combined",
                ),
            ),
        );
    }
    if has_char(flags, 'w') && has_char(flags, 'W') {
        return Err(ParseError::told(line, "recipe flags 'w' and 'W' cannot be combined"));
    }
    Ok(())
}

/// What the flags of a recipe select.
pub open spec fn options_of(flags: Seq<char>) -> RecipeOptions {
    RecipeOptions {
        condition_input: if flags.contains('B') {
            if flags.contains('H') {
                ConditionInput::Message
            } else {
                ConditionInput::Body
            }
        } else {
            ConditionInput::Headers
        },
        case_mode: if flags.contains('D') {
            CaseMode::Sensitive
        } else {
            CaseMode::Insensitive
        },
        control: if flags.contains('A') {
            ControlFlow::AfterChainMatch
        } else if flags.contains('a') {
            ControlFlow::AfterPreviousSuccess
        } else if flags.contains('E') {
            ControlFlow::Else
        } else if flags.contains('e') {
            ControlFlow::AfterPreviousError
        } else {
            ControlFlow::Independent
        },
        action_input: if flags.contains('h') && !flags.contains('b') {
            ActionInput::Headers
        } else if flags.contains('b') && !flags.contains('h') {
            ActionInput::Body
        } else {
            ActionInput::Message
        },
        action_mode: if flags.contains('f') {
            ActionMode::Filter
        } else {
            ActionMode::Deliver
        },
        continuation: if flags.contains('c') {
            ContinuationMode::Continue
        } else {
            ContinuationMode::Stop
        },
        child_status: if flags.contains('w') {
            ChildStatusMode::Wait
        } else if flags.contains('W') {
            ChildStatusMode::WaitQuietly
        } else {
            ChildStatusMode::Ignore
        },
        write_errors: if flags.contains('i') {
            WriteErrorMode::Ignore
        } else {
            WriteErrorMode::Fail
        },
        output_ending: if flags.contains('r') {
            OutputEnding::Preserve
        } else {
            OutputEnding::Normalize
        },
    }
}

fn select_options(flags: &[char]) -> (r: RecipeOptions)
    ensures
        r == options_of(flags@),
{
    let condition_input = if has_char(flags, 'B') {
        if has_char(flags, 'H') {
            ConditionInput::Message
        } else {
            ConditionInput::Body
        }
    } else {
        ConditionInput::Headers
    };
    let case_mode = if has_char(flags, 'D') {
        CaseMode::Sensitive
    } else {
        CaseMode::Insensitive
    };
    let control = if has_char(flags, 'A') {
        ControlFlow::AfterChainMatch
    } else if has_char(flags, 'a') {
        ControlFlow::AfterPreviousSuccess
    } else if has_char(flags, 'E') {
        ControlFlow::Else
    } else if has_char(flags, 'e') {
        ControlFlow::AfterPreviousError
    } else {
        ControlFlow::Independent
    };
    let headers = has_char(flags, 'h');
    let body = has_char(flags, 'b');
    let action_input = if headers && !body {
        ActionInput::Headers
    } else if body && !headers {
        ActionInput::Body
    } else {
        ActionInput::Message
    };
    let action_mode = if has_char(flags, 'f') {
        ActionMode::Filter
    } else {
        ActionMode::Deliver
    };
    let continuation = if has_char(flags, 'c') {
        ContinuationMode::Continue
    } else {
        ContinuationMode::Stop
    };
    let child_status = if has_char(flags, 'w') {
        ChildStatusMode::Wait
    } else if has_char(flags, 'W') {
        ChildStatusMode::WaitQuietly
    } else {
        ChildStatusMode::Ignore
    };
    let write_errors = if has_char(flags, 'i') {
        WriteErrorMode::Ignore
    } else {
        WriteErrorMode::Fail
    };
    let output_ending = if has_char(flags, 'r') {
        OutputEnding::Preserve
    } else {
        OutputEnding::Normalize
    };
    RecipeOptions {
        condition_input,
        case_mode,
        control,
        action_input,
        action_mode,
        continuation,
        child_status,
        write_errors,
        output_ending,
    }
}

/// What the first line of a recipe says after `:0`.
pub open spec fn header_of(rest: Seq<char>, line: nat) -> Result<RecipeHeaderModel, Refusal> {
    let body = text::trim(without_comment(rest));
    let (flags, lock) = match text::split_once(body, ':') {
        Some((flags, lock)) => (text::trim(flags), Some(text::trim(lock))),
        None => (body, None),
    };
    let too_long = match lock {
        Some(path) => path_too_long(path, line, "lockfile path"@),
        None => None,
    };
    if let Some(error) = too_long {
        Err(error)
    } else if let Some(error) = flag_fault(flags, line) {
        Err(error)
    } else {
        Ok(RecipeHeaderModel { options: options_of(flags), lock, flags })
    }
}

/// Reads the first line of a recipe after `:0`.
pub fn parse_recipe_header(rest: &[char], line: usize) -> (r: Result<RecipeHeader, ParseError>)
    ensures
        errors::parsed_as(r, header_of(rest@, line as nat)),
{
    let body = trimmed(strip_comment(rest));
    let (flags, lock) = match split_at_char(body, ':') {
        Some((flags, lock)) => {
            let lock = trimmed(lock);
            match check_path_length(lock, line, "lockfile path") {
                Ok(()) => {},
                Err(error) => {
                    return Err(error);
                },
            }
            (trimmed(flags), Some(from_chars(lock)))
        },
        None => (body, None),
    };
    match check_flags(flags, line) {
        Ok(()) => {},
        Err(error) => {
            return Err(error);
        },
    }
    Ok(RecipeHeader { options: select_options(flags), lock, flags: from_chars(flags) })
}

/// The same letters in another order select the same.
pub proof fn the_order_of_flags_does_not_matter(a: Seq<char>, b: Seq<char>)
    requires
        forall|flag: char| #[trigger] a.contains(flag) == b.contains(flag),
    ensures
        options_of(a) == options_of(b),
{
}

/// Without flags, conditions look at the headers without regard to case, and
/// the recipe delivers the whole message and ends there.
pub proof fn a_recipe_without_flags_delivers()
    ensures
        options_of(Seq::empty()) == (RecipeOptions {
            condition_input: ConditionInput::Headers,
            case_mode: CaseMode::Insensitive,
            control: ControlFlow::Independent,
            action_input: ActionInput::Message,
            action_mode: ActionMode::Deliver,
            continuation: ContinuationMode::Stop,
            child_status: ChildStatusMode::Ignore,
            write_errors: WriteErrorMode::Fail,
            output_ending: OutputEnding::Normalize,
        }),
{
}

proof fn lemma_one_flag(flag: char)
    ensures
        forall|other: char| #[trigger] seq![flag].contains(other) == (other == flag),
{
    assert forall|other: char| #[trigger] seq![flag].contains(other) == (other == flag) by {
        if other == flag {
            assert(seq![flag][0] == other);
        }
    }
}

/// What each flag says, where it stands alone: it changes one thing of a recipe
/// without flags, and nothing else.
pub proof fn each_flag_says_one_thing()
    ensures
        ({
            let none = (RecipeOptions {
                condition_input: ConditionInput::Headers,
                case_mode: CaseMode::Insensitive,
                control: ControlFlow::Independent,
                action_input: ActionInput::Message,
                action_mode: ActionMode::Deliver,
                continuation: ContinuationMode::Stop,
                child_status: ChildStatusMode::Ignore,
                write_errors: WriteErrorMode::Fail,
                output_ending: OutputEnding::Normalize,
            });
            &&& options_of(seq!['H']) == (RecipeOptions { condition_input: ConditionInput::Headers, ..none })
            &&& options_of(seq!['B']) == (RecipeOptions { condition_input: ConditionInput::Body, ..none })
            &&& options_of(seq!['D']) == (RecipeOptions { case_mode: CaseMode::Sensitive, ..none })
            &&& options_of(seq!['A']) == (RecipeOptions { control: ControlFlow::AfterChainMatch, ..none })
            &&& options_of(seq!['a']) == (RecipeOptions { control: ControlFlow::AfterPreviousSuccess, ..none })
            &&& options_of(seq!['E']) == (RecipeOptions { control: ControlFlow::Else, ..none })
            &&& options_of(seq!['e']) == (RecipeOptions { control: ControlFlow::AfterPreviousError, ..none })
            &&& options_of(seq!['h']) == (RecipeOptions { action_input: ActionInput::Headers, ..none })
            &&& options_of(seq!['b']) == (RecipeOptions { action_input: ActionInput::Body, ..none })
            &&& options_of(seq!['f']) == (RecipeOptions { action_mode: ActionMode::Filter, ..none })
            &&& options_of(seq!['c']) == (RecipeOptions { continuation: ContinuationMode::Continue, ..none })
            &&& options_of(seq!['w']) == (RecipeOptions { child_status: ChildStatusMode::Wait, ..none })
            &&& options_of(seq!['W']) == (RecipeOptions { child_status: ChildStatusMode::WaitQuietly, ..none })
            &&& options_of(seq!['i']) == (RecipeOptions { write_errors: WriteErrorMode::Ignore, ..none })
            &&& options_of(seq!['r']) == (RecipeOptions { output_ending: OutputEnding::Preserve, ..none })
        }),
{
    lemma_one_flag('H');
    lemma_one_flag('B');
    lemma_one_flag('D');
    lemma_one_flag('A');
    lemma_one_flag('a');
    lemma_one_flag('E');
    lemma_one_flag('e');
    lemma_one_flag('h');
    lemma_one_flag('b');
    lemma_one_flag('f');
    lemma_one_flag('c');
    lemma_one_flag('w');
    lemma_one_flag('W');
    lemma_one_flag('i');
    lemma_one_flag('r');
}

/// In whatever company, a flag decides on its own matter alone.
pub proof fn flags_are_read_one_matter_at_a_time(rest: Seq<char>, line: nat)
    requires
        header_of(rest, line) is Ok,
    ensures
        ({
            let RecipeHeaderModel { options, flags, .. } = header_of(rest, line)->Ok_0;
            &&& options.condition_input is Headers == !flags.contains('B')
            &&& options.condition_input is Body == (flags.contains('B') && !flags.contains('H'))
            &&& options.condition_input is Message == (flags.contains('B') && flags.contains('H'))
            &&& options.case_mode is Sensitive == flags.contains('D')
            &&& options.control is AfterChainMatch == flags.contains('A')
            &&& options.control is AfterPreviousSuccess == flags.contains('a')
            &&& options.control is Else == flags.contains('E')
            &&& options.control is AfterPreviousError == flags.contains('e')
            &&& options.action_input is Headers == (flags.contains('h') && !flags.contains('b'))
            &&& options.action_input is Body == (flags.contains('b') && !flags.contains('h'))
            &&& options.action_input is Message == (flags.contains('h') == flags.contains('b'))
            &&& options.action_mode is Filter == flags.contains('f')
            &&& options.continuation is Continue == flags.contains('c')
            &&& options.continuation is Stop == !flags.contains('c')
            &&& options.child_status is Wait == flags.contains('w')
            &&& options.child_status is WaitQuietly == flags.contains('W')
            &&& options.write_errors is Ignore == flags.contains('i')
            &&& options.output_ending is Preserve == flags.contains('r')
        }),
{
    let flags = header_of(rest, line)->Ok_0.flags;
    assert(control_flags(flags).len() <= 1);
    assert(held(flags, 'A').len() + held(flags, 'a').len() + held(flags, 'E').len() + held(
        flags,
        'e',
    ).len() <= 1);
}

proof fn lemma_known_flags(flags: Seq<char>, i: int)
    requires
        0 <= i,
    ensures
        unknown_flag(flags, i) is None == (forall|j: int|
            i <= j < flags.len() ==> known_flag(#[trigger] flags[j])),
    decreases flags.len() - i,
{
    if i < flags.len() {
        lemma_known_flags(flags, i + 1);
    }
}

/// Flags are accepted exactly if each of them is a letter that is known, if no
/// more than one of them hangs the recipe on those before it, and if its
/// command is not to be waited for in two ways.
pub proof fn only_fitting_flags_are_accepted(flags: Seq<char>, line: nat)
    ensures
        flag_fault(flags, line) is None == {
            &&& forall|i: int|
                0 <= i < flags.len() ==> "HBDcAaEehbfwWir"@.contains(#[trigger] flags[i])
            &&& !(flags.contains('A') && flags.contains('a'))
            &&& !(flags.contains('A') && flags.contains('E'))
            &&& !(flags.contains('A') && flags.contains('e'))
            &&& !(flags.contains('a') && flags.contains('E'))
            &&& !(flags.contains('a') && flags.contains('e'))
            &&& !(flags.contains('E') && flags.contains('e'))
            &&& !(flags.contains('w') && flags.contains('W'))
        },
{
    let letters = "HBDcAaEehbfwWir"@;
    reveal_strlit("HBDcAaEehbfwWir");
    assert forall|c: char| #[trigger] letters.contains(c) == known_flag(c) by {
        if known_flag(c) {
            assert(letters[0] == 'H' && letters[1] == 'B' && letters[2] == 'D' && letters[3] == 'c'
                && letters[4] == 'A' && letters[5] == 'a' && letters[6] == 'E' && letters[7] == 'e'
                && letters[8] == 'h' && letters[9] == 'b' && letters[10] == 'f' && letters[11]
                == 'w' && letters[12] == 'W' && letters[13] == 'i' && letters[14] == 'r');
        }
    }
    lemma_known_flags(flags, 0);
    assert(control_flags(flags).len() == held(flags, 'A').len() + held(flags, 'a').len() + held(
        flags,
        'E',
    ).len() + held(flags, 'e').len());
    if forall|i: int| 0 <= i < flags.len() ==> letters.contains(#[trigger] flags[i]) {
        assert(all_letters(flags));
        assert forall|i: int| 0 <= i < flags.len() implies known_flag(#[trigger] flags[i]) by {
            assert(letters.contains(flags[i]));
        }
    } else {
        let i = choose|i: int|
            0 <= i < flags.len() && !letters.contains(#[trigger] flags[i]);
        assert(!known_flag(flags[i]));
    }
}

} // verus!
