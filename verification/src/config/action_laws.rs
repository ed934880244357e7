//! What the conditions and actions of a recipe are told by.

use vstd::prelude::*;

use crate::config::action_parser::{self, ActionKind};
use crate::config::conditions::{self, TargetModel};
use crate::config::errors::Refusal;
use crate::config::expression_parser;
use crate::config::header_actions;
use crate::config::limits::ParseBudget;
use crate::config::recipe::{
    ActionInput, ActionMode, ChildStatusMode, ConditionInput, ConditionKindModel, ConditionModel,
    DestinationKind, HeaderOperationModel, HeaderValueModel, WriteErrorMode,
};
use crate::config::recipe_header::RecipeHeaderModel;
use crate::text;

verus! {

proof fn lemma_trim_start_nothing(s: Seq<char>)
    requires
        s.len() > 0 ==> !text::white_space(s[0]),
    ensures
        text::trim_start(s) == s,
{
}

proof fn lemma_trim_start_blank(s: Seq<char>)
    requires
        s.len() > 0 ==> !text::white_space(s[0]),
    ensures
        text::trim_start(seq![' '] + s) == s,
{
    let spaced = seq![' '] + s;
    assert(spaced.subrange(1, spaced.len() as int) =~= s);
    reveal_with_fuel(text::trim_start, 2);
}

/// Each `!` in front of a condition turns it round, with or without a blank
/// behind it, and what has none in front is not turned round.
pub proof fn exclamation_marks_negate(input: Seq<char>)
    requires
        input.len() > 0,
        !text::white_space(input[0]),
    ensures
        conditions::negation(seq!['!'] + input) == (
            !conditions::negation(input).0,
            conditions::negation(input).1,
        ),
        conditions::negation(seq!['!', ' '] + input) == (
            !conditions::negation(input).0,
            conditions::negation(input).1,
        ),
        input[0] != '!' ==> conditions::negation(input) == (false, input),
{
    let close = seq!['!'] + input;
    let apart = seq!['!', ' '] + input;
    assert(text::rest_of(close) =~= input);
    assert(text::rest_of(apart) =~= seq![' '] + input);
    lemma_trim_start_nothing(input);
    lemma_trim_start_blank(input);
}

/// A condition is told by its first sign: `$` has it expanded first, `<` and
/// `>` compare the size of the message with a number, and `?` runs a program.
pub proof fn conditions_are_told_by_their_first_sign(
    rest: Seq<char>,
    size: nat,
    line: nat,
    case_sensitive: bool,
    regexes: nat,
    budget: ParseBudget,
)
    requires
        size <= usize::MAX,
    ensures
        ({
            let read = |input: Seq<char>|
                conditions::kind_of(input, line, case_sensitive, regexes, budget);
            &&& read(seq!['$'] + rest) == Ok::<_, Refusal>(
                (ConditionKindModel::ShellExpanded { source: rest, expansion: None }, true),
            )
            &&& read(seq!['<'] + text::decimal(size)) == Ok::<_, Refusal>(
                (ConditionKindModel::SmallerThan(size as usize), false),
            )
            &&& read(seq!['>'] + text::decimal(size)) == Ok::<_, Refusal>(
                (ConditionKindModel::LargerThan(size as usize), false),
            )
            &&& rest.len() > 0 && !text::white_space(rest[0]) ==> if text::byte_len(rest) <= 65536
                && !rest.contains('\0') {
                read(seq!['?'] + rest) == Ok::<_, Refusal>(
                    (ConditionKindModel::Program(rest), false),
                )
            } else {
                read(seq!['?'] + rest) is Err
            }
            &&& read(seq!['?']) is Err
            &&& read(seq!['<']) is Err
            &&& read(seq!['>']) is Err
        }),
{
    assert(text::rest_of(seq!['$'] + rest) =~= rest);
    let number = text::decimal(size);
    assert(text::rest_of(seq!['<'] + number) =~= number);
    assert(text::rest_of(seq!['>'] + number) =~= number);
    text::numbers_are_read_from_their_digits(size, usize::MAX as nat);
    lemma_trim_decimal(size);
    assert(text::rest_of(seq!['?'] + rest) =~= rest);
    if rest.len() > 0 && !text::white_space(rest[0]) {
        lemma_trim_start_nothing(rest);
    }
    let empty = Seq::<char>::empty();
    assert(text::rest_of(seq!['?']) =~= empty);
    assert(text::rest_of(seq!['<']) =~= empty);
    assert(text::rest_of(seq!['>']) =~= empty);
    assert(text::trim(empty) == empty);
    text::numbers_are_read_from_their_digits(0, usize::MAX as nat);
}

proof fn lemma_trim_decimal(n: nat)
    ensures
        text::trim(text::decimal(n)) == text::decimal(n),
{
    let number = text::decimal(n);
    text::decimals_spell_their_number(n);
    text::lemma_decimal_digits(n);
    assert(text::ascii_digit(number[0]));
    assert(text::ascii_digit(number[number.len() - 1]));
}

/// A regular expression behind `NAME ??` looks at the variable of that name, but
/// that `H` stands for the headers, `B` for the body, and `HB` and `BH` for the
/// message.
pub proof fn areas_have_their_letters(name: Seq<char>)
    ensures
        conditions::target_named(name) == TargetModel::Area(ConditionInput::Headers) <==> name
            == "H"@,
        conditions::target_named(name) == TargetModel::Area(ConditionInput::Body) <==> name
            == "B"@,
        conditions::target_named(name) == TargetModel::Area(ConditionInput::Message) <==> name
            == "HB"@ || name == "BH"@,
        conditions::target_named(name) == TargetModel::Variable(name) <==> name != "H"@ && name
            != "B"@ && name != "HB"@ && name != "BH"@,
        conditions::target_named(name) != TargetModel::Recipe,
{
    reveal_strlit("H");
    reveal_strlit("B");
    reveal_strlit("HB");
    reveal_strlit("BH");
    assert("H"@[0] == 'H' && "B"@[0] == 'B');
    assert("HB"@.len() == 2 && "BH"@.len() == 2 && "H"@.len() == 1 && "B"@.len() == 1);
}

pub proof fn lemma_name_rest_end(input: Seq<char>, index: int, end: int)
    requires
        0 <= index <= end <= input.len(),
        forall|i: int| index <= i < end ==> text::name_continue(#[trigger] input[i]),
        end < input.len() ==> !text::name_continue(input[end]),
    ensures
        expression_parser::name_rest_end(input, index) == end,
    decreases end - index,
{
    if index < end {
        lemma_name_rest_end(input, index + 1, end);
    }
}

/// `NAME ?? pattern` is read as that: what is looked at, and the pattern.
pub proof fn patterns_stand_behind_what_they_look_at(
    name: Seq<char>,
    pattern: Seq<char>,
    line: nat,
)
    requires
        text::variable_name(name),
        pattern.len() > 0 ==> !text::white_space(pattern[0]),
    ensures
        ({
            let read = conditions::regex_target(name + " ?? "@ + pattern, line);
            if text::byte_len(name) <= 128 {
                read == Ok::<_, Refusal>(
                    (conditions::target_named(name), pattern),
                )
            } else {
                read is Err
            }
        }),
{
    reveal_strlit(" ?? ");
    reveal_strlit("??");
    let input = name + " ?? "@ + pattern;
    let mark = " ?? "@;
    assert(mark.len() == 4 && mark[0] == ' ' && mark[1] == '?' && mark[2] == '?' && mark[3] == ' ');
    let n = name.len() as int;
    assert(input[n] == ' ');
    assert forall|i: int| 0 <= i < n implies text::name_continue(#[trigger] input[i]) by {
        assert(input[i] == name[i]);
    }
    lemma_name_rest_end(input, 0, n);
    assert(input.subrange(0, n) =~= name);
    let behind = "??"@ + (seq![' '] + pattern);
    assert(behind[0] == '?' && behind[1] == '?');
    assert(input.subrange(n, input.len() as int) =~= seq![' '] + behind);
    lemma_trim_start_blank(behind);
    assert(behind.subrange(0, 2) =~= "??"@);
    assert(text::after_prefix(behind, "??"@) =~= seq![' '] + pattern);
    lemma_trim_start_blank(pattern);
}

/// A condition with two numbers around a `^` in front is weighted, one without
/// a `^` is not.
pub proof fn weights_are_told_by_their_caret(a: nat, b: nat, rest: Seq<char>)
    ensures
        conditions::scored(text::decimal(a) + seq!['^'] + text::decimal(b) + seq![' '] + rest),
        conditions::scored(
            seq!['-'] + text::decimal(a) + seq!['^'] + text::decimal(b) + seq![' '] + rest,
        ),
        !rest.contains('^') ==> !conditions::scored(rest),
{
    lemma_scored(Seq::empty(), a, b, rest);
    lemma_scored(seq!['-'], a, b, rest);
    assert(Seq::<char>::empty() + text::decimal(a) =~= text::decimal(a));
    text::texts_are_split_at_the_first_place(rest, '^');
    if text::split_once(rest, '^') is Some {
        let (before, after) = text::split_once(rest, '^')->Some_0;
        assert(rest[before.len() as int] == '^');
    }
}

proof fn lemma_scored(sign: Seq<char>, a: nat, b: nat, rest: Seq<char>)
    requires
        sign == Seq::<char>::empty() || sign == seq!['-'],
    ensures
        conditions::scored(
            sign + text::decimal(a) + seq!['^'] + text::decimal(b) + seq![' '] + rest,
        ),
{
    let weight = sign + text::decimal(a);
    let first = text::decimal(b);
    let behind = first + seq![' '] + rest;
    let input = weight + seq!['^'] + first + seq![' '] + rest;
    text::lemma_decimal_digits(a);
    text::lemma_decimal_digits(b);
    text::decimals_spell_their_number(a);
    text::decimals_spell_their_number(b);
    text::texts_are_split_at_the_first_place(input, '^');
    let n = weight.len() as int;
    assert(input[n] == '^');
    let (before, after) = text::split_once(input, '^')->Some_0;
    assert forall|i: int| 0 <= i < n implies weight[i] != '^' by {
        if i >= sign.len() {
            assert(weight[i] == text::decimal(a)[i - sign.len()]);
            assert(text::ascii_digit(weight[i]));
        }
    }
    if before.len() < n {
        assert(input[before.len() as int] == weight[before.len() as int]);
    } else if before.len() > n {
        assert(before[n] == input[n]);
    }
    assert(before =~= weight) by {
        assert(before =~= input.subrange(0, n));
        assert(weight =~= input.subrange(0, n));
    }
    assert(after =~= behind) by {
        assert(after =~= input.subrange(n + 1, input.len() as int));
        assert(behind =~= input.subrange(n + 1, input.len() as int));
    }
    assert(text::ascii_digit(text::decimal(a)[text::decimal(a).len() - 1]));
    assert(weight[n - 1] == text::decimal(a)[text::decimal(a).len() - 1]);
    assert(text::trim_end(weight) == weight);
    lemma_scoring(sign, a);
    assert(behind[0] == first[0]);
    assert(text::ascii_digit(first[0]));
    assert(conditions::blanks_end(behind, 0) == 0);
    assert forall|i: int| 0 <= i < first.len() implies !text::ascii_white_space(
        #[trigger] behind[i],
    ) by {
        assert(behind[i] == first[i]);
        assert(text::ascii_digit(first[i]));
    }
    assert(behind[first.len() as int] == ' ');
    lemma_word_end(behind, 0, first.len() as int);
    assert(behind.subrange(0, first.len() as int) =~= first);
    assert(Seq::<char>::empty() + first =~= first);
    lemma_scoring(Seq::empty(), b);
}

proof fn lemma_word_end(input: Seq<char>, index: int, end: int)
    requires
        0 <= index <= end < input.len(),
        forall|i: int| index <= i < end ==> !text::ascii_white_space(#[trigger] input[i]),
        text::ascii_white_space(input[end]),
    ensures
        conditions::word_end(input, index) == end,
    decreases end - index,
{
    if index < end {
        lemma_word_end(input, index + 1, end);
    }
}

proof fn lemma_scoring(sign: Seq<char>, n: nat)
    requires
        sign == Seq::<char>::empty() || sign == seq!['-'],
    ensures
        conditions::scoring_number(sign + text::decimal(n)),
{
    let number = text::decimal(n);
    let input = sign + number;
    text::lemma_decimal_digits(n);
    text::decimals_spell_their_number(n);
    assert(text::ascii_digit(number[0]));
    if sign.len() > 0 {
        assert(input[0] == '-');
        assert(text::rest_of(input) =~= number);
    } else {
        assert(input =~= number);
    }
    assert(conditions::unsigned_part(input) == number);
    assert forall|i: int| 0 <= i < number.len() implies !conditions::decimal_point(
        #[trigger] number[i],
    ) by {
        assert(text::ascii_digit(number[i]));
    }
    assert forall|i: int, j: int|
        0 <= i < j < number.len() && #[trigger] conditions::decimal_point(
            number[i],
        ) implies !#[trigger] conditions::decimal_point(number[j]) by {}
}

/// An action of its own kind is told by how it begins or by what it is.
pub proof fn actions_are_told_by_their_first_sign(action: Seq<char>, is_capture: bool)
    ensures
        ({
            let kind = action_parser::kind_of_action(action, is_capture);
            &&& kind is Command <==> is_capture || action.len() > 0 && action[0] == '|'
            &&& kind is Headers ==> action == "headers {"@
            &&& kind is Block ==> action == "{"@
            &&& kind is Other ==> action != "headers {"@ && action != "{"@
            &&& action == "headers {"@ && !is_capture ==> kind is Headers
            &&& action == "{"@ && !is_capture ==> kind is Block
        }),
{
    reveal_strlit("headers {");
    reveal_strlit("{");
    assert("headers {"@[0] == 'h' && "{"@[0] == '{');
}

/// What cannot be an action where one is awaited: a forward, a closing brace, a
/// further recipe, or nothing.
pub proof fn misplaced_actions_are_refused(action: Seq<char>, recipe_line: nat, line: nat)
    ensures
        action_parser::misplaced_action(action, recipe_line, line) is None <==> {
            &&& action.len() > 0
            &&& action[0] != '!'
            &&& action[0] != ':'
            &&& action != "}"@
        },
{
    reveal(action_parser::misplaced_action);
}

/// `NAME=| command` captures what the command writes.
pub proof fn captures_are_told_by_their_mark(name: Seq<char>, command: Seq<char>, line: nat)
    requires
        !name.contains('='),
    ensures
        action_parser::capture_parts(name + "=|"@ + command) == Some((name, command)),
        !name.contains('=') ==> action_parser::capture_parts(name) is None,
{
    reveal_strlit("=|");
    let action = name + "=|"@ + command;
    let n = name.len() as int;
    assert(action[n] == '=' && action[n + 1] == '|');
    assert forall|i: int| 0 <= i < n implies action[i] != '=' by {
        assert(action[i] == name[i]);
    }
    lemma_capture_mark(action, 0, n);
    assert(action.subrange(0, n) =~= name);
    assert(action.subrange(n + 2, action.len() as int) =~= command);
    lemma_capture_mark(name, 0, n);
}

proof fn lemma_capture_mark(action: Seq<char>, i: int, n: int)
    requires
        0 <= i <= n <= action.len(),
        forall|j: int| i <= j < n ==> action[j] != '=',
        n < action.len() ==> n + 1 < action.len() && action[n] == '=' && action[n + 1] == '|',
    ensures
        action_parser::capture_mark(action, i) == n,
    decreases n - i,
{
    if i < n {
        lemma_capture_mark(action, i + 1, n);
    }
}

/// Where a destination leads. `mbox:` and `maildir:` name its kind; without
/// them a closing slash tells a mail directory, and of all other paths only
/// `/dev/null` is no mystery. Each keeps the path behind its mark.
pub proof fn destinations_are_told_by_their_marks(path: Seq<char>, line: nat)
    ensures
        ({
            let mailbox = action_parser::destination_of("mbox:"@ + path, line);
            let directory = action_parser::destination_of("maildir:"@ + path, line);
            let bare = action_parser::destination_of(path, line);
            let marked = text::begins(path, "mbox:"@) || text::begins(path, "maildir:"@);
            &&& mailbox matches Ok(found) ==> found.kind == DestinationKind::Mbox
                && found.path.source == text::trim(path) && found.path.typed_destination
            &&& directory matches Ok(found) ==> found.kind == DestinationKind::Maildir
                && found.path.source == text::trim(path) && found.path.typed_destination
            &&& mailbox is Ok <==> directory is Ok
            &&& !marked && path.len() > 0 && path.last() == '/' ==> match bare {
                Ok(found) => found.kind == DestinationKind::Maildir && found.path.source
                    == text::trim(path) && !found.path.typed_destination,
                Err(_) => directory is Err,
            }
            &&& !marked && !(path.len() > 0 && path.last() == '/') && bare is Ok
                ==> bare->Ok_0.kind == DestinationKind::File && bare->Ok_0.path.source
                == "/dev/null"@ && text::trim(path) == "/dev/null"@
        }),
{
    reveal(action_parser::destination_of);
    reveal_strlit("mbox:");
    reveal_strlit("maildir:");
    let mailbox = "mbox:"@ + path;
    let directory = "maildir:"@ + path;
    assert(mailbox.subrange(0, 5) =~= "mbox:"@);
    assert(text::after_prefix(mailbox, "mbox:"@) =~= path);
    assert(directory.subrange(0, 8) =~= "maildir:"@);
    assert(text::after_prefix(directory, "maildir:"@) =~= path);
    assert("mbox:"@[1] == 'b' && directory[1] == 'a');
    assert(directory.subrange(0, 5)[1] == 'a');
}

/// What a recipe's flags ask for beside an action that writes a message or
/// opens a block is refused: a part of the message, a filter, a child to wait
/// for where nothing runs one, and, where a message is written, that failures
/// to write go unseen.
pub proof fn flags_fit_their_action(
    kind: ActionKind,
    action: Seq<char>,
    header: RecipeHeaderModel,
    conditions: Seq<ConditionModel>,
    recipe_line: nat,
    line: nat,
)
    requires
        kind is Block || kind is Other,
        forall|i: int|
            0 <= i < action.len() ==> (#[trigger] action[i]) != '\\' && action[i] != '`'
                && action[i] != ' ' && action[i] != '\t' && action[i] != '\n' && action[i] != '\r'
                && action[i] as u32 != 12,
    ensures
        action_parser::unfit_action(
            kind,
            action,
            header,
            conditions,
            recipe_line,
            line,
        ) is None <==> {
            &&& header.options.action_input == ActionInput::Message
            &&& header.options.action_mode == ActionMode::Deliver
            &&& kind is Other ==> header.options.write_errors == WriteErrorMode::Fail
            &&& header.options.child_status == ChildStatusMode::Ignore || exists|i: int|
                0 <= i < conditions.len() && ((#[trigger] conditions[i]).kind is Program
                    || conditions[i].kind is ShellExpanded)
        },
{
    reveal(action_parser::unfit_action);
    lemma_no_blank(action, 0);
    if action_parser::some_may_run_program(conditions) {
        let i = choose|i: int|
            0 <= i < conditions.len() && action_parser::may_run_program(
                (#[trigger] conditions[i]).kind,
            );
        assert(conditions[i].kind is Program || conditions[i].kind is ShellExpanded);
    }
    if exists|i: int|
        0 <= i < conditions.len() && ((#[trigger] conditions[i]).kind is Program
            || conditions[i].kind is ShellExpanded) {
        let i = choose|i: int|
            0 <= i < conditions.len() && ((#[trigger] conditions[i]).kind is Program
                || conditions[i].kind is ShellExpanded);
        assert(action_parser::may_run_program(conditions[i].kind));
    }
}

proof fn lemma_no_blank(action: Seq<char>, i: int)
    requires
        0 <= i,
        forall|i: int|
            0 <= i < action.len() ==> (#[trigger] action[i]) != '\\' && action[i] != '`'
                && action[i] != ' ' && action[i] != '\t' && action[i] != '\n' && action[i] != '\r'
                && action[i] as u32 != 12,
    ensures
        !action_parser::blank_outside_commands(action, i, false, false),
    decreases action.len() - i,
{
    if i < action.len() {
        lemma_no_blank(action, i + 1);
    }
}

/// A blank between two words makes them two destinations, which are refused.
pub proof fn blanks_part_destinations(first: Seq<char>, rest: Seq<char>, line: nat)
    requires
        forall|i: int|
            0 <= i < first.len() ==> (#[trigger] first[i]) != '\\' && first[i] != '`',
        !text::begins(first + seq![' '] + rest, "mbox:"@),
        !text::begins(first + seq![' '] + rest, "maildir:"@),
    ensures
        action_parser::several_destinations(first + seq![' '] + rest, line) is Some,
{
    lemma_blank_found(first + seq![' '] + rest, 0, first.len() as int);
}

proof fn lemma_blank_found(action: Seq<char>, i: int, n: int)
    requires
        0 <= i <= n < action.len(),
        action[n] == ' ',
        forall|j: int| i <= j < n ==> (#[trigger] action[j]) != '\\' && action[j] != '`',
    ensures
        action_parser::blank_outside_commands(action, i, false, false),
    decreases n - i,
{
    if i < n {
        lemma_blank_found(action, i + 1, n);
    }
}

/// The name of a header field is printable ASCII without blanks and colons.
pub proof fn field_names_are_printable(name: Seq<char>)
    ensures
        header_actions::field_name(name) <==> name.len() > 0 && forall|i: int|
            0 <= i < name.len() ==> #[trigger] printable(name[i]),
{
    if header_actions::field_name(name) {
        assert forall|i: int| 0 <= i < name.len() implies #[trigger] printable(name[i]) by {
            assert(header_actions::field_name_char(name[i]));
        }
    }
    if forall|i: int| 0 <= i < name.len() ==> #[trigger] printable(name[i]) {
        assert forall|i: int| 0 <= i < name.len() implies header_actions::field_name_char(
            #[trigger] name[i],
        ) by {
            assert(printable(name[i]));
        }
    }
}

/// Whether the character is one of ASCII that prints, but a blank or a colon.
pub open spec fn printable(c: char) -> bool {
    33 <= c as u32 <= 126 && c as u32 != 58
}

/// What a header action does is told by its word: `remove` takes a field away,
/// `set` puts one in the place of those of its name, `add` puts one behind and
/// `prepend` one before the others.
pub proof fn header_operations_are_told_by_their_word(
    name: Seq<char>,
    value: Seq<char>,
    line: nat,
)
    requires
        header_actions::field_name(name),
        value.len() > 0 ==> !text::white_space(value[0]) && value.last() != '\\',
        !value.contains('\r') && !value.contains('\n') && !value.contains('\0'),
    ensures
        ({
            let written = HeaderValueModel { source: value, expansion: None };
            &&& header_actions::operation_on("remove "@ + name, line) == Ok::<
                _,
                Refusal,
            >(HeaderOperationModel::Remove { line, name })
            &&& header_actions::operation_on("set "@ + name + ": "@ + value, line) == Ok::<
                _,
                Refusal,
            >(HeaderOperationModel::Replace { line, name, value: written })
            &&& header_actions::operation_on("add "@ + name + ": "@ + value, line) == Ok::<
                _,
                Refusal,
            >(HeaderOperationModel::Add { line, name, value: written })
            &&& header_actions::operation_on("prepend "@ + name + ": "@ + value, line) == Ok::<
                _,
                Refusal,
            >(HeaderOperationModel::Prepend { line, name, value: written })
        }),
{
    reveal_strlit("remove ");
    reveal_strlit("set ");
    reveal_strlit("add ");
    reveal_strlit("prepend ");
    reveal_strlit("remove");
    reveal_strlit("set");
    reveal_strlit("add");
    reveal_strlit("prepend");
    reveal_strlit(": ");
    assert(": "@ =~= seq![':', ' ']);
    assert("remove "@ =~= "remove"@ + seq![' ']);
    assert("set "@ =~= "set"@ + seq![' ']);
    assert("add "@ =~= "add"@ + seq![' ']);
    assert("prepend "@ =~= "prepend"@ + seq![' ']);
    assert("remove"@[0] == 'r' && "set"@[0] == 's' && "add"@[0] == 'a' && "prepend"@[0] == 'p');
    let field = name + ": "@ + value;
    lemma_field(name, value);
    lemma_printable(name);
    lemma_word(("remove"@), name);
    lemma_word(("set"@), field);
    lemma_word(("add"@), field);
    lemma_word(("prepend"@), field);
    assert("set "@ + name + ": "@ + value =~= "set"@ + seq![' '] + field);
    assert("add "@ + name + ": "@ + value =~= "add"@ + seq![' '] + field);
    assert("prepend "@ + name + ": "@ + value =~= "prepend"@ + seq![' '] + field);
    assert("remove "@ + name =~= "remove"@ + seq![' '] + name);
    assert(field[0] == name[0]);
    lemma_trim_start_nothing(field);
    lemma_trim_start_nothing(name);
}

proof fn lemma_printable(name: Seq<char>)
    requires
        header_actions::field_name(name),
    ensures
        !text::white_space(name[0]),
        !text::white_space(name.last()),
        text::trim(name) == name,
        !name.contains(':'),
{
    assert(header_actions::field_name_char(name[0]));
    assert(header_actions::field_name_char(name[name.len() - 1]));
    assert forall|i: int| 0 <= i < name.len() implies name[i] != ':' by {
        assert(header_actions::field_name_char(name[i]));
    }
}

proof fn lemma_field(name: Seq<char>, value: Seq<char>)
    requires
        header_actions::field_name(name),
        value.len() > 0 ==> !text::white_space(value[0]),
    ensures
        text::split_once(name + seq![':', ' '] + value, ':') == Some((name, seq![' '] + value)),
        text::trim_start(seq![' '] + value) == value,
{
    lemma_printable(name);
    let field = name + seq![':', ' '] + value;
    let n = name.len() as int;
    assert(field[n] == ':');
    text::texts_are_split_at_the_first_place(field, ':');
    let (before, after) = text::split_once(field, ':')->Some_0;
    if before.len() < n {
        assert(field[before.len() as int] == name[before.len() as int]);
    } else if before.len() > n {
        assert(before[n] == field[n]);
    }
    assert(before =~= field.subrange(0, n));
    assert(name =~= field.subrange(0, n));
    assert(after =~= field.subrange(n + 1, field.len() as int));
    assert(seq![' '] + value =~= field.subrange(n + 1, field.len() as int));
    lemma_trim_start_blank(value);
}

proof fn lemma_word(word: Seq<char>, rest: Seq<char>)
    requires
        forall|i: int| 0 <= i < word.len() ==> 'a' <= #[trigger] word[i] <= 'z',
    ensures
        header_actions::split_at_space(word + seq![' '] + rest) == Some((word, rest)),
{
    let line = word + seq![' '] + rest;
    let n = word.len() as int;
    assert(line[n] == ' ');
    assert forall|i: int| 0 <= i < n implies !text::white_space(#[trigger] line[i]) by {
        assert(line[i] == word[i]);
    }
    lemma_first_space(line, 0, n);
    assert(line.subrange(0, n) =~= word);
    assert(line.subrange(n + 1, line.len() as int) =~= rest);
}

proof fn lemma_first_space(line: Seq<char>, i: int, n: int)
    requires
        0 <= i <= n < line.len(),
        forall|j: int| i <= j < n ==> !text::white_space(#[trigger] line[j]),
        text::white_space(line[n]),
    ensures
        header_actions::first_space(line, i) == n,
    decreases n - i,
{
    if i < n {
        lemma_first_space(line, i + 1, n);
    }
}

/// A value that ends in a backslash, or holds a line end or a NUL, is refused.
pub proof fn header_values_stay_on_their_line(value: Seq<char>, line: nat)
    ensures
        header_actions::written_value_fault(value, line) is None <==> {
            &&& value.len() > 0 ==> value.last() != '\\'
            &&& !value.contains('\r')
            &&& !value.contains('\n')
            &&& !value.contains('\0')
        },
{
}

/// A header action takes no lock and none of the flags that speak of a program
/// or of what is written.
pub proof fn header_actions_take_few_flags(flags: Seq<char>, lock: Option<Seq<char>>, line: nat)
    ensures
        header_actions::header_recipe_fault(flags, lock, line) is None <==> lock is None
            && !flags.contains('h') && !flags.contains('b') && !flags.contains('f')
            && !flags.contains('w') && !flags.contains('W') && !flags.contains('i')
            && !flags.contains('r'),
{
    lemma_foreign(flags, 0);
}

proof fn lemma_foreign(flags: Seq<char>, i: int)
    requires
        0 <= i <= flags.len(),
    ensures
        header_actions::first_foreign_flag(flags, i) is None <==> forall|j: int|
            i <= j < flags.len() ==> (#[trigger] flags[j]) != 'h' && flags[j] != 'b' && flags[j]
                != 'f' && flags[j] != 'w' && flags[j] != 'W' && flags[j] != 'i' && flags[j] != 'r',
    decreases flags.len() - i,
{
    if i < flags.len() {
        lemma_foreign(flags, i + 1);
    }
}

} // verus!
