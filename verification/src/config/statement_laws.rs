//! How the lines of a configuration are read as statements.

use vstd::prelude::*;

use crate::config::action_laws::exclamation_marks_negate;
use crate::config::action_parser::ActionKind;
use crate::config::assignments;
use crate::config::binding;
use crate::config::conditions;
use crate::config::errors::{Fault, Refusal};
use crate::config::expression::{self, ExpressionModel, OperationModel, PartModel};
use crate::config::parser;
use crate::config::recipe::{
    self, ActionModel, AssignmentModel, ContinuationMode, RecipeOptions, StatementModel,
};
use crate::config::recipe_header::{self, RecipeHeaderModel};
use crate::config::settings;
use crate::config::shell_conditions;
use crate::config::syntax_cursor::CursorModel;
use crate::config::variables::AssignmentTarget;
use crate::publication;
use crate::text;

verus! {

proof fn lemma_split(before: Seq<char>, c: char, after: Seq<char>)
    requires
        !before.contains(c),
    ensures
        text::split_once(before + seq![c] + after, c) == Some((before, after)),
{
    let whole = before + seq![c] + after;
    let n = before.len() as int;
    text::texts_are_split_at_the_first_place(whole, c);
    assert(whole[n] == c);
    let (first, second) = text::split_once(whole, c)->Some_0;
    if first.len() < n {
        assert(whole[first.len() as int] == before[first.len() as int]);
    } else if first.len() > n {
        assert(first[n] == whole[n]);
    }
    assert(first =~= whole.subrange(0, n));
    assert(before =~= whole.subrange(0, n));
    assert(second =~= whole.subrange(n + 1, whole.len() as int));
    assert(after =~= whole.subrange(n + 1, whole.len() as int));
}

proof fn lemma_no_split(s: Seq<char>, c: char)
    requires
        !s.contains(c),
    ensures
        text::split_once(s, c) is None,
{
    text::texts_are_split_at_the_first_place(s, c);
    if let Some((before, after)) = text::split_once(s, c) {
        assert(s[before.len() as int] == c);
    }
}

/// A text is read line by line. A line ends before a line feed, or before a
/// carriage return and a line feed; what stands behind the last line feed is a
/// line if it is anything.
pub proof fn texts_are_read_line_by_line(line: Seq<char>, rest: Seq<char>)
    requires
        !line.contains('\n'),
    ensures
        parser::lines_from(line + seq!['\n'] + rest, 0) == seq![
            if line.len() > 0 && line.last() == '\r' {
                line.drop_last()
            } else {
                line
            },
        ] + parser::lines_from(rest, 0),
        line.len() > 0 ==> parser::lines_from(line, 0) == seq![line],
        parser::lines_from(Seq::empty(), 0) == Seq::<Seq<char>>::empty(),
{
    let whole = line + seq!['\n'] + rest;
    let n = line.len() as int;
    text::lemma_first_place(whole, '\n', 0);
    text::lemma_first_place(line, '\n', 0);
    assert(whole[n] == '\n');
    assert forall|i: int| 0 <= i < n implies whole[i] != '\n' by {
        assert(whole[i] == line[i]);
    }
    assert(text::find_from(whole, '\n', 0) == n);
    assert(whole.subrange(0, n) =~= line);
    lemma_lines(whole, n + 1, 0);
    assert(whole.skip(n + 1) =~= rest);
    assert(text::find_from(line, '\n', 0) == n) by {
        if text::find_from(line, '\n', 0) < n {
            assert(line[text::find_from(line, '\n', 0)] == '\n');
        }
    }
    assert(line.subrange(0, n) =~= line);
}

proof fn lemma_found(input: Seq<char>, k: int, c: char, from: int)
    requires
        0 <= k <= input.len(),
        0 <= from,
    ensures
        text::find_from(input, c, k + from) == k + text::find_from(input.skip(k), c, from) || k
            + from > input.len(),
    decreases input.len() - k - from,
{
    if k + from < input.len() {
        assert(input.skip(k)[from] == input[k + from]);
        lemma_found(input, k, c, from + 1);
    }
}

proof fn lemma_lines(input: Seq<char>, k: int, start: int)
    requires
        0 <= k <= input.len(),
        0 <= start,
        k + start <= input.len(),
    ensures
        parser::lines_from(input, k + start) == parser::lines_from(input.skip(k), start),
    decreases input.len() - k - start,
{
    let tail = input.skip(k);
    if k + start < input.len() {
        lemma_found(input, k, '\n', start);
        text::lemma_first_place(tail, '\n', start);
        let end = text::find_from(tail, '\n', start);
        if end < tail.len() {
            lemma_lines(input, k, end + 1);
            assert(input.subrange(k + start, k + end) =~= tail.subrange(start, end));
        } else {
            assert(input.subrange(k + start, input.len() as int) =~= tail.subrange(
                start,
                tail.len() as int,
            ));
        }
    }
}

/// The first line of a recipe: flags, and behind a colon its lock. A lock that
/// is not named is still asked for. What stands behind a `#` says nothing.
pub proof fn locks_stand_behind_a_colon(
    flags: Seq<char>,
    lock: Seq<char>,
    comment: Seq<char>,
    line: nat,
)
    requires
        text::trim(flags) == flags,
        text::trim(lock) == lock,
        !flags.contains(':') && !flags.contains('#') && !lock.contains('#'),
        text::trim(flags + seq![':'] + lock) == flags + seq![':'] + lock,
    ensures
        recipe_header::header_of(flags + seq![':'] + lock, line) matches Ok(header)
            ==> header.flags == flags && header.lock == Some(lock),
        recipe_header::header_of(flags, line) matches Ok(header) ==> header.flags == flags
            && header.lock is None,
        recipe_header::header_of(flags, line) is Ok && text::byte_len(lock) <= 4096
            ==> recipe_header::header_of(flags + seq![':'] + lock, line) is Ok,
        text::byte_len(lock) > 4096 ==> recipe_header::header_of(
            flags + seq![':'] + lock,
            line,
        ) is Err,
        recipe_header::header_of(flags + seq!['#'] + comment, line) == recipe_header::header_of(
            flags,
            line,
        ),
{
    let whole = flags + seq![':'] + lock;
    assert(!whole.contains('#')) by {
        if whole.contains('#') {
            let i = choose|i: int| 0 <= i < whole.len() && whole[i] == '#';
            if i < flags.len() {
                assert(flags[i] == '#');
            } else {
                assert(lock[i - flags.len() - 1] == '#');
            }
        }
    }
    lemma_no_split(whole, '#');
    lemma_no_split(flags, '#');
    lemma_no_split(flags, ':');
    lemma_split(flags, ':', lock);
    lemma_split(flags, '#', comment);
}

/// A header action always goes on to the next recipe. Every other action keeps
/// what its flags say.
pub proof fn header_actions_go_on(options: RecipeOptions, kind: ActionKind)
    ensures
        kind is Headers ==> parser::settled_options(options, kind).continuation
            == ContinuationMode::Continue,
        kind is Headers ==> parser::settled_options(options, kind) == (RecipeOptions {
            continuation: parser::settled_options(options, kind).continuation,
            ..options
        }),
        !(kind is Headers) ==> parser::settled_options(options, kind) == options,
{
}

/// A block neither copies the message nor has a lock that is not named.
pub proof fn blocks_neither_copy_nor_lock_unnamed(header: RecipeHeaderModel, line: nat)
    ensures
        parser::block_fault(header, line) is None <==> header.lock != Some(Seq::<char>::empty())
            && header.options.continuation != ContinuationMode::Continue,
{
}

/// One pair of quotes around a value is taken from it, where the value holds no
/// further quote of that kind. Every other value stays as it is.
pub proof fn values_lose_one_pair_of_quotes(value: Seq<char>)
    ensures
        !value.contains('"') ==> assignments::unquoted(seq!['"'] + value + seq!['"']) == value,
        !value.contains('\'') ==> assignments::unquoted(seq!['\''] + value + seq!['\'']) == value,
        value.contains('"') ==> assignments::unquoted(seq!['"'] + value + seq!['"']) == seq!['"']
            + value + seq!['"'],
        value.len() < 2 || value[0] != value.last() || value[0] != '"' && value[0] != '\''
            ==> assignments::unquoted(value) == value,
{
    let double = seq!['"'] + value + seq!['"'];
    let single = seq!['\''] + value + seq!['\''];
    assert(double.subrange(1, double.len() - 1) =~= value);
    assert(single.subrange(1, single.len() - 1) =~= value);
}

/// `NAME=value` is an assignment of that value to that name; `HOST` alone is
/// one of nothing; a line with no `=` is none.
pub proof fn assignments_have_a_name_and_a_value(name: Seq<char>, value: Seq<char>)
    requires
        !name.contains('='),
    ensures
        assignments::assignment_parts(name + seq!['='] + value) == Some((name, value)),
        name != "HOST"@ ==> assignments::assignment_parts(name) is None,
        assignments::assignment_parts("HOST"@) == Some(("HOST"@, ""@)),
{
    lemma_split(name, '=', value);
    lemma_no_split(name, '=');
    reveal_strlit("HOST");
    assert(!"HOST"@.contains('='));
    lemma_no_split("HOST"@, '=');
}

/// What an assignment is as a statement. `INCLUDERC` and `SWITCHRC` name a
/// file; a value that runs a command waits for it; every other one is an
/// assignment. Settings that steer the reading stand outside of blocks and run
/// no command.
pub proof fn assignments_are_told_by_their_name(assignment: AssignmentModel, depth: nat)
    ensures
        ({
            let read = assignments::assignment_statement(assignment, depth);
            let runs = assignment.expansion is Some && assignment.expansion->Some_0.has_commands();
            let steers = assignment.target is LineBuf || assignment.target is RcLimit;
            &&& read is Err <==> steers && (depth != 0 || runs)
            &&& read matches Ok(StatementModel::CommandAssignment(found)) ==> runs && found.name
                == assignment.name && found.target == assignment.target && found.line
                == assignment.line && found.source == assignment.value
            &&& read matches Ok(StatementModel::Include(file)) ==> !runs && assignment.name
                == "INCLUDERC"@ && file.value == assignment.value && file.line == assignment.line
            &&& read matches Ok(StatementModel::Switch(file)) ==> !runs && assignment.name
                == "SWITCHRC"@ && file.value == assignment.value && file.line == assignment.line
            &&& read matches Ok(StatementModel::Assignment(found)) ==> !runs && found == assignment
                && assignment.name != "INCLUDERC"@ && assignment.name != "SWITCHRC"@
            &&& !(read matches Ok(StatementModel::Recipe(_)))
        }),
{
}

/// The limit of a line is `LINEBUF`, a number from 128 to 1048576, and 2048
/// bytes where it is not set.
pub proof fn line_limits_are_numbers(n: nat, line: nat, values: Map<Seq<char>, Seq<char>>)
    ensures
        128 <= n <= 1048576 ==> binding::linebuf_value(text::decimal(n), line) == Ok::<
            usize,
            Fault,
        >(n as usize),
        n < 128 || n > 1048576 ==> binding::linebuf_value(text::decimal(n), line) is Err,
        !values.contains_key("LINEBUF"@) ==> binding::linebuf_of(values) == 2048,
        values.contains_key("LINEBUF"@) && values["LINEBUF"@] == text::decimal(n) && n
            <= usize::MAX ==> binding::linebuf_of(values) == n,
{
    text::numbers_are_read_from_their_digits(n, usize::MAX as nat);
}

/// A value is bounded by its own limit and by that of a line, whichever is
/// smaller.
pub proof fn the_smaller_limit_counts(a: usize, b: usize)
    ensures
        binding::smaller(a, b) <= a,
        binding::smaller(a, b) <= b,
        binding::smaller(a, b) == a || binding::smaller(a, b) == b,
{
}

/// The mail directory of a configuration is that of the last assignment to it.
pub proof fn the_last_mail_directory_counts(
    statements: Seq<StatementModel>,
    statement: StatementModel,
)
    ensures
        ({
            let more = statements.push(statement);
            recipe::maildir_of(more, more.len()) == match statement {
                StatementModel::Assignment(assignment) => if assignment.target is Maildir {
                    Some(assignment.value)
                } else {
                    recipe::maildir_of(statements, statements.len())
                },
                _ => recipe::maildir_of(statements, statements.len()),
            }
        }),
        recipe::maildir_of(Seq::empty(), 0) is None,
{
    let more = statements.push(statement);
    lemma_maildir(statements, more, statements.len());
    assert(more.last() == statement);
}

proof fn lemma_maildir(
    statements: Seq<StatementModel>,
    more: Seq<StatementModel>,
    n: nat,
)
    requires
        n <= statements.len() <= more.len(),
        forall|i: int| 0 <= i < statements.len() ==> statements[i] == more[i],
    ensures
        recipe::maildir_of(statements, n) == recipe::maildir_of(more, n),
    decreases n,
{
    if n > 0 {
        lemma_maildir(statements, more, (n - 1) as nat);
    }
}

/// The values of a setting are those of its assignments, in their order.
pub proof fn settings_are_kept_in_order(
    statements: Seq<StatementModel>,
    statement: StatementModel,
    target: AssignmentTarget,
)
    ensures
        ({
            let more = statements.push(statement);
            let before = settings::assigned_values(statements, statements.len(), target);
            settings::assigned_values(more, more.len(), target) == match statement {
                StatementModel::Assignment(assignment) => if assignment.target == target {
                    before.push((assignment.line, assignment.value))
                } else {
                    before
                },
                _ => before,
            }
        }),
        settings::assigned_values(Seq::empty(), 0, target) == Seq::<(nat, Seq<char>)>::empty(),
{
    let more = statements.push(statement);
    lemma_settings(statements, more, statements.len(), target);
    assert(more.last() == statement);
}

proof fn lemma_settings(
    statements: Seq<StatementModel>,
    more: Seq<StatementModel>,
    n: nat,
    target: AssignmentTarget,
)
    requires
        n <= statements.len() <= more.len(),
        forall|i: int| 0 <= i < statements.len() ==> statements[i] == more[i],
    ensures
        settings::assigned_values(statements, n, target) == settings::assigned_values(
            more,
            n,
            target,
        ),
    decreases n,
{
    if n > 0 {
        lemma_settings(statements, more, (n - 1) as nat, target);
    }
}

/// A configuration pipes where one of its recipes does, or one in a block of
/// it.
pub proof fn pipes_are_found(statements: Seq<StatementModel>, n: nat)
    requires
        n <= statements.len(),
    ensures
        recipe::has_pipe(statements, n) <==> exists|i: int|
            0 <= i < n && (#[trigger] statements[i]) is Recipe
                && match statements[i]->Recipe_0.action {
                ActionModel::Pipe(_) => true,
                ActionModel::Block(children) => recipe::has_pipe(children, children.len()),
                _ => false,
            },
    decreases n,
{
    if n > 0 {
        pipes_are_found(statements, (n - 1) as nat);
        let last = statements[n - 1];
        assert(recipe::statement_pipes(last) == (last is Recipe && match last->Recipe_0.action {
            ActionModel::Pipe(_) => true,
            ActionModel::Block(children) => recipe::has_pipe(children, children.len()),
            _ => false,
        }));
    }
}

/// A block whose flags say nothing of it is warned of: `i` and `r`. No other
/// statement is, but for those in it.
pub proof fn blocks_are_warned_of(statement: StatementModel)
    ensures
        ({
            let warnings = recipe::statement_warnings(statement);
            match statement {
                StatementModel::Recipe(found) => match found.action {
                    ActionModel::Block(children) => {
                        let inner = recipe::warnings_of(children, children.len());
                        &&& found.options.write_errors is Fail && found.options.output_ending
                            is Normalize ==> warnings == inner
                        &&& found.options.write_errors is Ignore && found.options.output_ending
                            is Normalize ==> warnings == seq![(found.line, 'i')] + inner
                        &&& found.options.write_errors is Fail && found.options.output_ending
                            is Preserve ==> warnings == seq![(found.line, 'r')] + inner
                        &&& found.options.write_errors is Ignore && found.options.output_ending
                            is Preserve ==> warnings == seq![
                            (found.line, 'i'),
                            (found.line, 'r'),
                        ] + inner
                    },
                    _ => warnings.len() == 0,
                },
                _ => warnings.len() == 0,
            }
        }),
{
    if let StatementModel::Recipe(found) = statement {
        if let ActionModel::Block(children) = found.action {
            let inner = recipe::warnings_of(children, children.len());
            let none = Seq::<(nat, char)>::empty();
            let i = seq![(found.line, 'i')];
            let r = seq![(found.line, 'r')];
            assert(none + none + inner =~= inner);
            assert(i + none + inner =~= i + inner);
            assert(none + r + inner =~= r + inner);
            assert(i + r =~= seq![(found.line, 'i'), (found.line, 'r')]);
        }
    }
}

/// A line of a condition that ends with a backslash goes on with the next one,
/// which loses the white space in front; one without is the last.
pub proof fn conditions_go_on_behind_a_backslash(
    lines: Seq<Seq<char>>,
    start: int,
    index: int,
    fragment: Seq<char>,
    condition: Seq<char>,
    preserve: bool,
    linebuf: usize,
)
    requires
        0 <= index,
        index + 1 < lines.len(),
        text::byte_len(lines[index]) <= linebuf,
        text::byte_len(condition) + text::byte_len(fragment) <= linebuf,
    ensures
        conditions::condition_from(
            lines,
            start,
            index,
            fragment.push('\\'),
            condition,
            preserve,
            linebuf,
        ) == conditions::condition_from(
            lines,
            start,
            index + 1,
            if preserve {
                lines[index + 1]
            } else {
                text::trim_start(lines[index + 1])
            },
            condition + fragment,
            preserve,
            linebuf,
        ),
        fragment.len() == 0 || fragment.last() != '\\' ==> conditions::condition_from(
            lines,
            start,
            index,
            fragment,
            condition,
            preserve,
            linebuf,
        ) == Ok::<(Seq<char>, int), Refusal>((condition + fragment, index + 1)),
{
    assert(fragment.push('\\').drop_last() =~= fragment);
    reveal_with_fuel(conditions::condition_from, 2);
}

/// A line of a command that ends with a backslash goes on with the next one:
/// the shell sees both, and the line feed between them.
pub proof fn commands_go_on_behind_a_backslash(
    lines: Seq<Seq<char>>,
    start: int,
    index: int,
    physical: Seq<char>,
    command: Seq<char>,
    linebuf: usize,
    description: Seq<char>,
)
    requires
        0 <= index,
        index + 1 < lines.len(),
        text::byte_len(lines[index]) <= linebuf,
        text::byte_len(command) + text::byte_len(physical) + 1 <= linebuf,
        text::byte_len(command) + text::byte_len(physical) + 1 <= 65536,
    ensures
        physical.len() > 0 && physical.last() == '\\' ==> conditions::command_from(
            lines,
            start,
            index,
            physical,
            command,
            linebuf,
            description,
        ) == conditions::command_from(
            lines,
            start,
            index + 1,
            lines[index + 1],
            command + physical + seq!['\n'],
            linebuf,
            description,
        ),
        (physical.len() == 0 || physical.last() != '\\') && command.len() + physical.len() > 0
            && !(command + physical).contains('\0') ==> conditions::command_from(
            lines,
            start,
            index,
            physical,
            command,
            linebuf,
            description,
        ) == Ok::<(Seq<char>, int), Refusal>((command + physical, index + 1)),
{
    assert(command + physical + seq!['\n'] =~= (command + physical).push('\n'));
    reveal_with_fuel(conditions::command_from, 2);
}

/// A condition that was expanded is read again, and is turned round where one
/// of the two was, but not where both were.
pub proof fn expanded_conditions_are_read_again(
    line: nat,
    expanded: Seq<char>,
    case_sensitive: bool,
)
    requires
        expanded.len() > 0,
        !text::white_space(expanded[0]),
    ensures
        ({
            let plain = shell_conditions::replaced_condition(line, false, expanded, case_sensitive);
            let negated = shell_conditions::replaced_condition(
                line,
                true,
                expanded,
                case_sensitive,
            );
            match conditions::reparsed_condition(expanded, line, case_sensitive) {
                Ok(read) => {
                    &&& plain matches Ok(found) && found.negated == read.negated && found.kind
                        == read.kind && found.line == line
                    &&& negated matches Ok(found) && found.negated == !read.negated && found.kind
                        == read.kind && found.line == line
                },
                Err(_) => plain is Err && negated is Err,
            }
        }),
{
    reveal(shell_conditions::replaced_condition);
}

/// Which operations need a value, and which change one. Those with a word but
/// no pattern may do without the value; where they do not write the word they
/// write the value, or nothing.
pub proof fn operations_need_their_value(operation: OperationModel)
    ensures
        match operation {
            OperationModel::Value => operation.requires_value() && !operation.is_value_transform()
                && operation.uses_value_when_word_is_not_selected() && operation.word() is None,
            OperationModel::Length => operation.requires_value() && operation.is_value_transform()
                && operation.word() is None,
            OperationModel::RemovePrefix { pattern, .. } => operation.requires_value()
                && operation.is_value_transform() && operation.word() == Some(pattern),
            OperationModel::RemoveSuffix { pattern, .. } => operation.requires_value()
                && operation.is_value_transform() && operation.word() == Some(pattern),
            OperationModel::ChangeCase { pattern, .. } => operation.requires_value()
                && operation.is_value_transform() && operation.word() == Some(pattern),
            OperationModel::DefaultIfUnset(word) => !operation.requires_value()
                && operation.uses_value_when_word_is_not_selected() && operation.word() == Some(
                word,
            ),
            OperationModel::DefaultIfUnsetOrEmpty(word) => !operation.requires_value()
                && operation.uses_value_when_word_is_not_selected() && operation.word() == Some(
                word,
            ),
            OperationModel::ErrorIfUnsetOrEmpty(_) => !operation.requires_value()
                && operation.uses_value_when_word_is_not_selected() && operation.word() is None,
            OperationModel::AlternateIfSet(word) => !operation.requires_value()
                && !operation.uses_value_when_word_is_not_selected() && operation.word() == Some(
                word,
            ),
            OperationModel::AlternateIfSetAndNotEmpty(word) => !operation.requires_value()
                && !operation.uses_value_when_word_is_not_selected() && operation.word() == Some(
                word,
            ),
            OperationModel::AssignIfUnsetOrEmpty(word) => !operation.requires_value()
                && !operation.uses_value_when_word_is_not_selected() && operation.word() == Some(
                word,
            ),
        },
{
}

/// A word is written where its variable calls for it: unset, or set, or one of
/// them and empty. A pattern is read wherever there is a value.
pub proof fn words_are_called_for(word: ExpressionModel, is_set: bool, is_empty: bool)
    ensures
        OperationModel::DefaultIfUnset(word).evaluates_word(is_set, is_empty) <==> !is_set,
        OperationModel::DefaultIfUnsetOrEmpty(word).evaluates_word(is_set, is_empty) <==> !is_set
            || is_empty,
        OperationModel::AlternateIfSet(word).evaluates_word(is_set, is_empty) <==> is_set,
        OperationModel::AlternateIfSetAndNotEmpty(word).evaluates_word(is_set, is_empty)
            <==> is_set && !is_empty,
        OperationModel::AssignIfUnsetOrEmpty(word).evaluates_word(is_set, is_empty) <==> !is_set
            || is_empty,
        !OperationModel::ErrorIfUnsetOrEmpty(word).evaluates_word(is_set, is_empty),
        !OperationModel::Value.evaluates_word(is_set, is_empty),
        !OperationModel::Length.evaluates_word(is_set, is_empty),
        (OperationModel::RemovePrefix { pattern: word, longest: is_empty }).evaluates_word(
            is_set,
            is_empty,
        ) <==> is_set,
        (OperationModel::RemoveSuffix { pattern: word, longest: is_empty }).evaluates_word(
            is_set,
            is_empty,
        ) <==> is_set,
{
}

/// Whether an expression runs commands, and which variables it assigns, is told
/// part by part: a command does, a reference where its word does, a quoted
/// piece where what it quotes does; `:=` assigns its variable before those of
/// its word.
pub proof fn parts_tell_what_an_expression_does(
    parts: Seq<PartModel>,
    name: Seq<char>,
    written: Seq<char>,
    word: ExpressionModel,
)
    ensures
        ({
            let with = |part: PartModel| ExpressionModel { parts: parts.push(part) };
            let alone = ExpressionModel { parts };
            let reference = PartModel::Variable {
                name,
                operation: OperationModel::DefaultIfUnset(word),
            };
            let assigning = PartModel::Variable {
                name,
                operation: OperationModel::AssignIfUnsetOrEmpty(word),
            };
            &&& with(PartModel::Command(written)).has_commands()
            &&& with(PartModel::Literal(written)).has_commands() == alone.has_commands()
            &&& with(PartModel::RegexQuotedVariable(name)).has_commands() == alone.has_commands()
            &&& with(reference).has_commands() == (alone.has_commands() || word.has_commands())
            &&& with(PartModel::PatternQuote(word)).has_commands() == (alone.has_commands()
                || word.has_commands())
            &&& with(PartModel::Literal(written)).assigned() == alone.assigned()
            &&& with(PartModel::Command(written)).assigned() == alone.assigned()
            &&& with(reference).assigned() == alone.assigned() + word.assigned()
            &&& with(PartModel::PatternQuote(word)).assigned() == alone.assigned()
                + word.assigned()
            &&& with(assigning).assigned() == alone.assigned() + (seq![name] + word.assigned())
            &&& with(assigning).requires_ordered_evaluation()
            &&& with(PartModel::Command(written)).requires_ordered_evaluation()
        }),
        !(ExpressionModel { parts: Seq::<PartModel>::empty() }).has_commands(),
        (ExpressionModel { parts: Seq::<PartModel>::empty() }).assigned().len() == 0,
{
    let reference = PartModel::Variable { name, operation: OperationModel::DefaultIfUnset(word) };
    let assigning = PartModel::Variable {
        name,
        operation: OperationModel::AssignIfUnsetOrEmpty(word),
    };
    lemma_part_added(parts, PartModel::Command(written));
    lemma_part_added(parts, PartModel::Literal(written));
    lemma_part_added(parts, PartModel::RegexQuotedVariable(name));
    lemma_part_added(parts, PartModel::PatternQuote(word));
    lemma_part_added(parts, reference);
    lemma_part_added(parts, assigning);
    let none = Seq::<Seq<char>>::empty();
    let before = (ExpressionModel { parts }).assigned();
    assert(before + none =~= before);
    assert(none + word.assigned() =~= word.assigned());
    assert((before + (seq![name] + word.assigned())).len() > 0);
}

proof fn lemma_part_added(parts: Seq<PartModel>, part: PartModel)
    ensures
        (ExpressionModel { parts: parts.push(part) }).has_commands() == ((ExpressionModel {
            parts,
        }).has_commands() || expression::part_runs_command(part)),
        (ExpressionModel { parts: parts.push(part) }).assigned() == (ExpressionModel {
            parts,
        }).assigned() + expression::part_assigned(part),
{
    let more = parts.push(part);
    lemma_parts_same(parts, more, parts.len());
    assert(more.last() == part);
}

proof fn lemma_parts_same(parts: Seq<PartModel>, more: Seq<PartModel>, n: nat)
    requires
        n <= parts.len() <= more.len(),
        forall|i: int| 0 <= i < parts.len() ==> parts[i] == more[i],
    ensures
        expression::parts_run_commands(parts, n) == expression::parts_run_commands(more, n),
        expression::parts_assigned(parts, n) == expression::parts_assigned(more, n),
    decreases n,
{
    if n > 0 {
        lemma_parts_same(parts, more, (n - 1) as nat);
    }
}

/// A cursor passes blanks and takes what stands before the next blank: no blank
/// is in the word, none but blanks are passed, and the word is empty only at
/// the end of the line.
pub proof fn cursors_take_word_by_word(cursor: CursorModel)
    requires
        cursor.wf(),
    ensures
        ({
            let start = cursor.word_start();
            let end = cursor.word_end();
            &&& cursor.offset <= start <= end <= cursor.source.len()
            &&& forall|i: int|
                cursor.offset <= i < start ==> text::ascii_white_space(
                    #[trigger] cursor.source[i],
                )
            &&& forall|i: int|
                start <= i < end ==> !text::ascii_white_space(#[trigger] cursor.source[i])
            &&& end < cursor.source.len() ==> text::ascii_white_space(cursor.source[end])
            &&& cursor.next_word() == cursor.source.subrange(start, end)
            &&& cursor.next_word().len() == 0 ==> start == cursor.source.len()
        }),
{
    lemma_blanks(cursor.source, cursor.offset);
    lemma_word(cursor.source, cursor.word_start());
}

proof fn lemma_blanks(input: Seq<char>, index: int)
    requires
        0 <= index <= input.len(),
    ensures
        index <= conditions::blanks_end(input, index) <= input.len(),
        forall|i: int|
            index <= i < conditions::blanks_end(input, index) ==> text::ascii_white_space(
                #[trigger] input[i],
            ),
        conditions::blanks_end(input, index) < input.len() ==> !text::ascii_white_space(
            input[conditions::blanks_end(input, index)],
        ),
    decreases input.len() - index,
{
    if index < input.len() && text::ascii_white_space(input[index]) {
        lemma_blanks(input, index + 1);
    }
}

proof fn lemma_word(input: Seq<char>, index: int)
    requires
        0 <= index <= input.len(),
    ensures
        index <= conditions::word_end(input, index) <= input.len(),
        forall|i: int|
            index <= i < conditions::word_end(input, index) ==> !text::ascii_white_space(
                #[trigger] input[i],
            ),
        conditions::word_end(input, index) < input.len() ==> text::ascii_white_space(
            input[conditions::word_end(input, index)],
        ),
    decreases input.len() - index,
{
    if index < input.len() && !text::ascii_white_space(input[index]) {
        lemma_word(input, index + 1);
    }
}

/// What is told of a failure names its line; the command line has none.
pub proof fn failures_name_their_line(line: nat, message: Seq<char>)
    ensures
        settings::on_line(line, message) == "line "@ + text::decimal(line) + ": "@ + message,
        line > 0 ==> publication::shown_fault(Fault { line, message }) == "line "@ + text::decimal(
            line,
        ) + ": "@ + message,
        publication::shown_fault(Fault { line: 0, message }) == "command line: "@ + message,
{
    let start = "line "@ + text::decimal(line);
    assert(start + (": "@ + message) =~= start + ": "@ + message);
}

/// Whether a condition is expanded first is told by the first sign behind its
/// exclamation marks.
pub proof fn dollars_have_conditions_expanded(rest: Seq<char>)
    ensures
        conditions::shell_expanded(seq!['$'] + rest),
        conditions::shell_expanded(seq![' ', '$'] + rest),
        conditions::shell_expanded(seq!['!', '$'] + rest),
        conditions::shell_expanded(seq!['!', ' ', '!', '$'] + rest),
        rest.len() > 0 && !text::white_space(rest[0]) && rest[0] != '!' && rest[0] != '$'
            ==> !conditions::shell_expanded(rest) && !conditions::shell_expanded(
            seq!['!'] + rest,
        ),
{
    let dollar = seq!['$'] + rest;
    exclamation_marks_negate(dollar);
    exclamation_marks_negate(seq!['!', '$'] + rest);
    let spaced = seq![' ', '$'] + rest;
    assert(spaced.subrange(1, spaced.len() as int) =~= dollar);
    assert(seq!['!'] + dollar =~= seq!['!', '$'] + rest);
    assert(seq!['!', ' '] + (seq!['!', '$'] + rest) =~= seq!['!', ' ', '!', '$'] + rest);
    reveal_with_fuel(text::trim_start, 3);
    if rest.len() > 0 && !text::white_space(rest[0]) {
        exclamation_marks_negate(rest);
    }
}

} // verus!
