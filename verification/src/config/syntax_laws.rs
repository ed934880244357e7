//! How expressions are written: references and their operations, quotes,
//! backslashes and commands.

use vstd::prelude::*;

use crate::config::action_laws::lemma_name_rest_end;
use crate::config::errors::Fault;
use crate::config::expression::{CaseDirection, ExpressionModel, OperationModel, PartModel};
use crate::config::expression_parser::{
    self, lemma_until_at, lemma_until_from, Bounds, ExpressionSyntax, Operator, Progress,
    QuoteMode, Source,
};
use crate::config::variables::{self, AssignmentTarget, VariablePolicy};
use crate::config::MAX_EXPANSION_DEPTH;
use crate::text;

verus! {

/// The expression of a text that stands for itself.
pub open spec fn literally(written: Seq<char>) -> ExpressionModel {
    ExpressionModel {
        parts: if written.len() == 0 {
            Seq::empty()
        } else {
            seq![PartModel::Literal(written)]
        },
    }
}

/// The expression that is one reference to a variable.
pub open spec fn referring(name: Seq<char>, operation: OperationModel) -> ExpressionModel {
    ExpressionModel { parts: seq![PartModel::Variable { name, operation }] }
}

/// Whether the character means nothing but itself, in a word in braces too.
pub open spec fn means_itself(c: char) -> bool {
    c != '\\' && c != '"' && c != '\'' && c != '$' && c != '`' && c != '}'
}

/// Whether the text means nothing but itself, in braces too.
pub open spec fn all_mean_themselves(word: Seq<char>) -> bool {
    forall|i: int| 0 <= i < word.len() ==> means_itself(#[trigger] word[i])
}

proof fn lemma_word_run(
    source: Source,
    nesting: nat,
    bounds: Bounds,
    progress: Progress,
    from: int,
    end: int,
)
    requires
        nesting <= MAX_EXPANSION_DEPTH,
        0 <= from <= progress.index <= end < source.input.len(),
        source.input[end] == '}',
        forall|i: int| from <= i < end ==> means_itself(#[trigger] source.input[i]),
        bounds.stop_at_brace,
        !bounds.stop_at_word,
        bounds.initial_quote is Unquoted,
        progress.quote is Unquoted,
        progress.parts == Seq::<PartModel>::empty(),
        progress.literal == source.input.subrange(from, progress.index),
    ensures
        expression_parser::until_from(source, nesting, bounds, progress) == Ok::<
            (ExpressionModel, int),
            Fault,
        >((literally(source.input.subrange(from, end)), end)),
    decreases end - progress.index,
{
    lemma_until_from(source, nesting, bounds, progress);
    let index = progress.index;
    if index < end {
        let c = source.input[index];
        assert(means_itself(c));
        let next = Progress {
            index: index + 1,
            literal: progress.literal.push(c),
            started: true,
            ..progress
        };
        assert(source.input.subrange(from, index + 1) =~= progress.literal.push(c));
        lemma_word_run(source, nesting, bounds, next, from, end);
    } else {
        let literal = progress.literal;
        assert(Seq::<PartModel>::empty().push(PartModel::Literal(literal)) =~= seq![
            PartModel::Literal(literal),
        ]);
    }
}

/// The bounds of a whole expression.
spec fn whole() -> Bounds {
    Bounds {
        stop_at_brace: false,
        stop_at_word: false,
        initial_quote: QuoteMode::Unquoted,
        pattern_word: false,
    }
}

/// Where reading starts.
spec fn start() -> Progress {
    Progress {
        index: 0,
        quote: QuoteMode::Unquoted,
        parts: Seq::empty(),
        literal: Seq::empty(),
        started: false,
    }
}

/// An expression that is one part, read at its start to the end of the text.
proof fn lemma_one_part(source: Source, part: PartModel)
    requires
        source.input.len() > 0,
        ({
            let read = expression_parser::variable_at(source, 0, QuoteMode::Unquoted, false, 0);
            &&& source.input[0] == '$'
            &&& read == Ok::<(Option<PartModel>, int), Fault>(
                (Some(part), source.input.len() as int),
            )
        }),
    ensures
        expression_parser::whole_expression(source.input, source.line, source.syntax) == Ok::<
            ExpressionModel,
            Fault,
        >(ExpressionModel { parts: seq![part] }),
{
    lemma_until_at(source, 0, whole(), 0);
    lemma_until_from(source, 0, whole(), start());
    let next = Progress {
        index: source.input.len() as int,
        parts: Seq::<PartModel>::empty().push(part),
        started: true,
        ..start()
    };
    lemma_until_from(source, 0, whole(), next);
    assert(Seq::<PartModel>::empty().push(part) =~= seq![part]);
}

proof fn lemma_name(input: Seq<char>, from: int, name: Seq<char>)
    requires
        text::variable_name(name),
        0 <= from,
        from + name.len() <= input.len(),
        input.subrange(from, from + name.len()) == name,
        from + name.len() < input.len() ==> !text::name_continue(input[from + name.len()]),
    ensures
        expression_parser::name_end(input, from) == from + name.len(),
        text::name_start(input[from]),
{
    assert(input[from] == name[0]);
    assert forall|i: int| from + 1 <= i < from + name.len() implies text::name_continue(
        #[trigger] input[i],
    ) by {
        assert(input[i] == name[i - from]);
    }
    lemma_name_rest_end(input, from + 1, from + name.len());
}

proof fn lemma_operation(
    name: Seq<char>,
    sign: Seq<char>,
    word: Seq<char>,
    operator: Operator,
    line: nat,
    commands: bool,
)
    requires
        text::variable_name(name),
        variables::policy_of(name) == VariablePolicy::RcOrCommandLine(AssignmentTarget::User),
        all_mean_themselves(word),
        sign.len() > 0,
        !text::name_continue(sign[0]),
        ({
            let input = seq!['$', '{'] + name + sign + word + seq!['}'];
            expression_parser::operator_at(input, 2 + name.len() as int) == Some(
                (operator, sign.len() as int),
            )
        }),
    ensures
        expression_parser::whole_expression(
            seq!['$', '{'] + name + sign + word + seq!['}'],
            line,
            ExpressionSyntax::Ordinary { allow_commands: commands },
        ) == Ok::<ExpressionModel, Fault>(referring(name, operator.applied(literally(word)))),
{
    let input = seq!['$', '{'] + name + sign + word + seq!['}'];
    let syntax = ExpressionSyntax::Ordinary { allow_commands: commands };
    let source = Source { input, line, syntax };
    let n = name.len() as int;
    let from = 2 + n + sign.len();
    let end = from + word.len();
    assert(input.subrange(2, 2 + n) =~= name);
    assert(input[2 + n] == sign[0]);
    lemma_name(input, 2, name);
    assert(input[2] == name[0]);
    assert(!text::ascii_digit(input[2]) && input[2] != '#');
    assert(input[0] == '$' && input[1] == '{');
    assert(input.len() == end + 1);
    assert(input[end] == '}');
    assert(input.subrange(from, end) =~= word);
    assert forall|i: int| from <= i < end implies means_itself(#[trigger] input[i]) by {
        assert(input[i] == word[i - from]);
    }
    let bounds = Bounds {
        stop_at_brace: true,
        stop_at_word: false,
        initial_quote: QuoteMode::Unquoted,
        pattern_word: operator.takes_pattern(),
    };
    lemma_until_at(source, 1, bounds, from);
    let begun = Progress { index: from, ..start() };
    assert(input.subrange(from, from) =~= Seq::<char>::empty());
    lemma_word_run(source, 1, bounds, begun, from, end);
    reveal_with_fuel(expression_parser::word_at, 2);
    assert(expression_parser::word_at(
        source,
        0,
        QuoteMode::Unquoted,
        operator.takes_pattern(),
        from,
    ) == Ok::<(ExpressionModel, int), Fault>((literally(word), end + 1)));
    reveal_with_fuel(expression_parser::braced_at, 2);
    let operation = operator.applied(literally(word));
    assert(expression_parser::braced_at(source, 0, QuoteMode::Unquoted, false, 1) == Ok::<
        (Seq<char>, OperationModel, int),
        Fault,
    >((name, operation, end + 1)));
    reveal_with_fuel(expression_parser::variable_at, 2);
    lemma_one_part(source, PartModel::Variable { name, operation });
}

/// The operation of a reference is told by the sign behind the variable's name,
/// and what stands behind the sign, up to the closing brace, is its word.
pub proof fn operations_are_told_by_their_signs(
    name: Seq<char>,
    word: Seq<char>,
    line: nat,
    commands: bool,
)
    requires
        text::variable_name(name),
        variables::policy_of(name) == VariablePolicy::RcOrCommandLine(AssignmentTarget::User),
        all_mean_themselves(word),
    ensures
        ({
            let read = |sign: Seq<char>|
                expression_parser::whole_expression(
                    seq!['$', '{'] + name + sign + word + seq!['}'],
                    line,
                    ExpressionSyntax::Ordinary { allow_commands: commands },
                );
            let refers = |operation: OperationModel|
                Ok::<ExpressionModel, Fault>(referring(name, operation));
            let written = literally(word);
            &&& read(seq![':', '-']) == refers(OperationModel::DefaultIfUnsetOrEmpty(written))
            &&& read(seq!['-']) == refers(OperationModel::DefaultIfUnset(written))
            &&& read(seq![':', '+']) == refers(OperationModel::AlternateIfSetAndNotEmpty(written))
            &&& read(seq!['+']) == refers(OperationModel::AlternateIfSet(written))
            &&& read(seq![':', '=']) == refers(OperationModel::AssignIfUnsetOrEmpty(written))
            &&& read(seq![':', '?']) == refers(OperationModel::ErrorIfUnsetOrEmpty(written))
        }),
{
    lemma_operation(name, seq![':', '-'], word, Operator::DefaultIfUnsetOrEmpty, line, commands);
    lemma_operation(name, seq!['-'], word, Operator::DefaultIfUnset, line, commands);
    lemma_operation(
        name,
        seq![':', '+'],
        word,
        Operator::AlternateIfSetAndNotEmpty,
        line,
        commands,
    );
    lemma_operation(name, seq!['+'], word, Operator::AlternateIfSet, line, commands);
    lemma_operation(name, seq![':', '='], word, Operator::AssignIfUnsetOrEmpty, line, commands);
    lemma_operation(name, seq![':', '?'], word, Operator::ErrorIfUnsetOrEmpty, line, commands);
}

/// The same of the signs whose word is a pattern. A sign of one character is
/// not followed by the same one.
pub proof fn changes_are_told_by_their_signs(
    name: Seq<char>,
    word: Seq<char>,
    line: nat,
    commands: bool,
)
    requires
        text::variable_name(name),
        variables::policy_of(name) == VariablePolicy::RcOrCommandLine(AssignmentTarget::User),
        all_mean_themselves(word),
    ensures
        ({
            let read = |sign: Seq<char>|
                expression_parser::whole_expression(
                    seq!['$', '{'] + name + sign + word + seq!['}'],
                    line,
                    ExpressionSyntax::Ordinary { allow_commands: commands },
                );
            let refers = |operation: OperationModel|
                Ok::<ExpressionModel, Fault>(referring(name, operation));
            let written = literally(word);
            &&& word.len() == 0 || word[0] != '#' ==> read(seq!['#']) == refers(
                OperationModel::RemovePrefix { pattern: written, longest: false },
            )
            &&& read(seq!['#', '#']) == refers(
                OperationModel::RemovePrefix { pattern: written, longest: true },
            )
            &&& word.len() == 0 || word[0] != '%' ==> read(seq!['%']) == refers(
                OperationModel::RemoveSuffix { pattern: written, longest: false },
            )
            &&& read(seq!['%', '%']) == refers(
                OperationModel::RemoveSuffix { pattern: written, longest: true },
            )
            &&& word.len() == 0 || word[0] != '^' ==> read(seq!['^']) == refers(
                OperationModel::ChangeCase {
                    pattern: written,
                    direction: CaseDirection::Upper,
                    all: false,
                },
            )
            &&& read(seq!['^', '^']) == refers(
                OperationModel::ChangeCase {
                    pattern: written,
                    direction: CaseDirection::Upper,
                    all: true,
                },
            )
            &&& word.len() == 0 || word[0] != ',' ==> read(seq![',']) == refers(
                OperationModel::ChangeCase {
                    pattern: written,
                    direction: CaseDirection::Lower,
                    all: false,
                },
            )
            &&& read(seq![',', ',']) == refers(
                OperationModel::ChangeCase {
                    pattern: written,
                    direction: CaseDirection::Lower,
                    all: true,
                },
            )
        }),
{
    if word.len() == 0 || word[0] != '#' {
        lemma_operation(name, seq!['#'], word, Operator::RemovePrefix(false), line, commands);
    }
    lemma_operation(name, seq!['#', '#'], word, Operator::RemovePrefix(true), line, commands);
    if word.len() == 0 || word[0] != '%' {
        lemma_operation(name, seq!['%'], word, Operator::RemoveSuffix(false), line, commands);
    }
    lemma_operation(name, seq!['%', '%'], word, Operator::RemoveSuffix(true), line, commands);
    if word.len() == 0 || word[0] != '^' {
        lemma_operation(
            name,
            seq!['^'],
            word,
            Operator::ChangeCase(CaseDirection::Upper, false),
            line,
            commands,
        );
    }
    lemma_operation(
        name,
        seq!['^', '^'],
        word,
        Operator::ChangeCase(CaseDirection::Upper, true),
        line,
        commands,
    );
    if word.len() == 0 || word[0] != ',' {
        lemma_operation(
            name,
            seq![','],
            word,
            Operator::ChangeCase(CaseDirection::Lower, false),
            line,
            commands,
        );
    }
    lemma_operation(
        name,
        seq![',', ','],
        word,
        Operator::ChangeCase(CaseDirection::Lower, true),
        line,
        commands,
    );
}

/// A variable's name behind a `$`, in braces or not, is a reference to its
/// value; with a `#` before it, in braces, to its length.
pub proof fn references_are_told_by_their_dollar(name: Seq<char>, line: nat, commands: bool)
    requires
        text::variable_name(name),
        !(variables::policy_of(name) is Unsupported),
    ensures
        ({
            let read = |input: Seq<char>|
                expression_parser::whole_expression(
                    input,
                    line,
                    ExpressionSyntax::Ordinary { allow_commands: commands },
                );
            let refers = |operation: OperationModel|
                Ok::<ExpressionModel, Fault>(referring(name, operation));
            &&& read(seq!['$'] + name) == refers(OperationModel::Value)
            &&& read(seq!['$', '{'] + name + seq!['}']) == refers(OperationModel::Value)
            &&& read(seq!['$', '{', '#'] + name + seq!['}']) == refers(OperationModel::Length)
        }),
{
    let syntax = ExpressionSyntax::Ordinary { allow_commands: commands };
    let n = name.len() as int;
    reveal_with_fuel(expression_parser::variable_at, 2);
    reveal_with_fuel(expression_parser::braced_at, 2);
    let value = PartModel::Variable { name, operation: OperationModel::Value };
    let bare = seq!['$'] + name;
    let first = Source { input: bare, line, syntax };
    assert(bare.subrange(1, 1 + n) =~= name);
    lemma_name(bare, 1, name);
    assert(bare[1] == name[0]);
    lemma_one_part(first, value);
    let braced = seq!['$', '{'] + name + seq!['}'];
    let second = Source { input: braced, line, syntax };
    assert(braced.subrange(2, 2 + n) =~= name);
    assert(braced[2 + n] == '}');
    lemma_name(braced, 2, name);
    assert(braced[2] == name[0]);
    assert(braced[1] == '{');
    assert(expression_parser::braced_at(second, 0, QuoteMode::Unquoted, false, 1) == Ok::<
        (Seq<char>, OperationModel, int),
        Fault,
    >((name, OperationModel::Value, n + 3)));
    lemma_one_part(second, value);
    let counted = seq!['$', '{', '#'] + name + seq!['}'];
    let third = Source { input: counted, line, syntax };
    assert(counted.subrange(3, 3 + n) =~= name);
    assert(counted[3 + n] == '}');
    lemma_name(counted, 3, name);
    assert(counted[3] == name[0]);
    assert(counted[1] == '{' && counted[2] == '#');
    assert(expression_parser::braced_at(third, 0, QuoteMode::Unquoted, false, 1) == Ok::<
        (Seq<char>, OperationModel, int),
        Fault,
    >((name, OperationModel::Length, n + 4)));
    lemma_one_part(third, PartModel::Variable { name, operation: OperationModel::Length });
}

/// In a condition that is expanded, `$\NAME` writes the value so that it
/// matches itself.
pub proof fn quoted_references_have_a_backslash(name: Seq<char>, line: nat)
    requires
        text::variable_name(name),
        !(variables::policy_of(name) is Unsupported),
    ensures
        expression_parser::whole_expression(
            seq!['$', '\\'] + name,
            line,
            ExpressionSyntax::ShellCondition,
        ) == Ok::<ExpressionModel, Fault>(
            ExpressionModel { parts: seq![PartModel::RegexQuotedVariable(name)] },
        ),
{
    let input = seq!['$', '\\'] + name;
    let n = name.len() as int;
    let source = Source { input, line, syntax: ExpressionSyntax::ShellCondition };
    reveal_with_fuel(expression_parser::variable_at, 2);
    assert(input.subrange(2, 2 + n) =~= name);
    lemma_name(input, 2, name);
    assert(input[2] == name[0]);
    assert(input[1] == '\\');
    lemma_one_part(source, PartModel::RegexQuotedVariable(name));
}

/// Reading two characters outside of quotes, of which the first is a backslash.
proof fn lemma_backslash(c: char, line: nat, syntax: ExpressionSyntax)
    requires
        syntax is ShellCondition ==> c != '$' && c != '`' && c != '\\' && c != '"'
            || syntax.strips(QuoteMode::Unquoted, c),
    ensures
        expression_parser::whole_expression(seq!['\\', c], line, syntax) == Ok::<
            ExpressionModel,
            Fault,
        >(
            literally(
                if syntax.strips(QuoteMode::Unquoted, c) {
                    seq![c]
                } else {
                    seq!['\\', c]
                },
            ),
        ),
{
    let input = seq!['\\', c];
    let source = Source { input, line, syntax };
    lemma_until_at(source, 0, whole(), 0);
    lemma_until_from(source, 0, whole(), start());
    assert(input[0] == '\\' && input[1] == c);
    let empty = Seq::<char>::empty();
    if syntax.strips(QuoteMode::Unquoted, c) {
        let last = Progress { index: 2, literal: empty.push(c), started: true, ..start() };
        lemma_until_from(source, 0, whole(), last);
        assert(empty.push(c) =~= seq![c]);
    } else {
        let second = Progress { index: 1, literal: empty.push('\\'), started: true, ..start() };
        lemma_until_from(source, 0, whole(), second);
        let last = Progress { index: 2, literal: empty.push('\\').push(c), ..second };
        lemma_until_from(source, 0, whole(), last);
        assert(empty.push('\\').push(c) =~= seq!['\\', c]);
    }
    assert forall|literal: Seq<char>| Seq::<PartModel>::empty().push(PartModel::Literal(literal))
        == #[trigger] seq![PartModel::Literal(literal)] by {
        assert(Seq::<PartModel>::empty().push(PartModel::Literal(literal)) =~= seq![
            PartModel::Literal(literal),
        ]);
    }
}

/// A backslash outside of quotes takes the meaning from every character. In a
/// condition that is expanded it does so before `$`, a backquote, a double
/// quote and a backslash alone, and stays before others.
pub proof fn backslashes_take_the_meaning(c: char, line: nat, commands: bool)
    ensures
        expression_parser::whole_expression(
            seq!['\\', c],
            line,
            ExpressionSyntax::Ordinary { allow_commands: commands },
        ) == Ok::<ExpressionModel, Fault>(literally(seq![c])),
        expression_parser::whole_expression(
            seq!['\\', c],
            line,
            ExpressionSyntax::ShellCondition,
        ) == Ok::<ExpressionModel, Fault>(
            literally(
                if c == '$' || c == '`' || c == '"' || c == '\\' {
                    seq![c]
                } else {
                    seq!['\\', c]
                },
            ),
        ),
{
    lemma_backslash(c, line, ExpressionSyntax::Ordinary { allow_commands: commands });
    lemma_backslash(c, line, ExpressionSyntax::ShellCondition);
}

/// In double quotes a backslash takes the meaning from `$`, a backquote, a
/// double quote, a backslash and a line feed, and stays before others.
pub proof fn backslashes_in_quotes_stay(c: char, line: nat, commands: bool)
    ensures
        expression_parser::whole_expression(
            seq!['"', '\\', c, '"'],
            line,
            ExpressionSyntax::Ordinary { allow_commands: commands },
        ) == Ok::<ExpressionModel, Fault>(
            literally(
                if c == '$' || c == '`' || c == '"' || c == '\\' || c == '\n' {
                    seq![c]
                } else {
                    seq!['\\', c]
                },
            ),
        ),
{
    let input = seq!['"', '\\', c, '"'];
    let syntax = ExpressionSyntax::Ordinary { allow_commands: commands };
    let source = Source { input, line, syntax };
    lemma_until_at(source, 0, whole(), 0);
    lemma_until_from(source, 0, whole(), start());
    assert(input[0] == '"' && input[1] == '\\' && input[2] == c && input[3] == '"');
    let empty = Seq::<char>::empty();
    let opened = Progress { index: 1, quote: QuoteMode::Double, started: true, ..start() };
    lemma_until_from(source, 0, whole(), opened);
    let written = if c == '$' || c == '`' || c == '"' || c == '\\' || c == '\n' {
        let closing = Progress { index: 3, literal: empty.push(c), ..opened };
        lemma_until_from(source, 0, whole(), closing);
        let last = Progress { index: 4, quote: QuoteMode::Unquoted, ..closing };
        lemma_until_from(source, 0, whole(), last);
        assert(empty.push(c) =~= seq![c]);
        seq![c]
    } else {
        let second = Progress { index: 2, literal: empty.push('\\'), ..opened };
        lemma_until_from(source, 0, whole(), second);
        let closing = Progress { index: 3, literal: empty.push('\\').push(c), ..second };
        lemma_until_from(source, 0, whole(), closing);
        let last = Progress { index: 4, quote: QuoteMode::Unquoted, ..closing };
        lemma_until_from(source, 0, whole(), last);
        assert(empty.push('\\').push(c) =~= seq!['\\', c]);
        seq!['\\', c]
    };
    assert(Seq::<PartModel>::empty().push(PartModel::Literal(written)) =~= seq![
        PartModel::Literal(written),
    ]);
}

/// What a backquote opens up to the next one is a command, where commands are
/// read. One that is not closed is refused.
pub proof fn commands_stand_in_backquotes(command: Seq<char>, line: nat)
    requires
        forall|i: int|
            0 <= i < command.len() ==> (#[trigger] command[i]) != '`' && command[i] != '\\',
    ensures
        ({
            let ordinary = ExpressionSyntax::Ordinary { allow_commands: true };
            let read = |input: Seq<char>, syntax: ExpressionSyntax|
                expression_parser::whole_expression(input, line, syntax);
            let closed = seq!['`'] + command + seq!['`'];
            let runs = Ok::<ExpressionModel, Fault>(
                ExpressionModel { parts: seq![PartModel::Command(command)] },
            );
            &&& read(closed, ordinary) == runs
            &&& read(closed, ExpressionSyntax::ShellCondition) == runs
            &&& read(seq!['`'] + command, ordinary) is Err
            &&& read(seq!['`'] + command, ExpressionSyntax::ShellCondition) is Err
        }),
{
    lemma_command(command, line, ExpressionSyntax::Ordinary { allow_commands: true });
    lemma_command(command, line, ExpressionSyntax::ShellCondition);
}

proof fn lemma_command_end(input: Seq<char>, index: int, end: int)
    requires
        0 <= index <= end <= input.len(),
        forall|i: int| index <= i < end ==> (#[trigger] input[i]) != '`' && input[i] != '\\',
        end < input.len() ==> input[end] == '`',
    ensures
        expression_parser::command_end(input, index, false) == end,
    decreases end - index,
{
    if index < end {
        lemma_command_end(input, index + 1, end);
    }
}

proof fn lemma_command(command: Seq<char>, line: nat, syntax: ExpressionSyntax)
    requires
        syntax.takes_commands(),
        forall|i: int|
            0 <= i < command.len() ==> (#[trigger] command[i]) != '`' && command[i] != '\\',
    ensures
        expression_parser::whole_expression(seq!['`'] + command + seq!['`'], line, syntax) == Ok::<
            ExpressionModel,
            Fault,
        >(ExpressionModel { parts: seq![PartModel::Command(command)] }),
        expression_parser::whole_expression(seq!['`'] + command, line, syntax) is Err,
{
    let n = command.len() as int;
    let closed = seq!['`'] + command + seq!['`'];
    let first = Source { input: closed, line, syntax };
    lemma_until_at(first, 0, whole(), 0);
    lemma_until_from(first, 0, whole(), start());
    assert forall|i: int| 1 <= i < 1 + n implies (#[trigger] closed[i]) != '`' && closed[i]
        != '\\' by {
        assert(closed[i] == command[i - 1]);
    }
    assert(closed[1 + n] == '`');
    lemma_command_end(closed, 1, 1 + n);
    assert(closed.subrange(1, 1 + n) =~= command);
    let part = PartModel::Command(command);
    let last = Progress {
        index: n + 2,
        parts: Seq::<PartModel>::empty().push(part),
        started: true,
        ..start()
    };
    lemma_until_from(first, 0, whole(), last);
    assert(Seq::<PartModel>::empty().push(part) =~= seq![part]);
    let open = seq!['`'] + command;
    let second = Source { input: open, line, syntax };
    lemma_until_at(second, 0, whole(), 0);
    lemma_until_from(second, 0, whole(), start());
    assert forall|i: int| 1 <= i < 1 + n implies (#[trigger] open[i]) != '`' && open[i]
        != '\\' by {
        assert(open[i] == command[i - 1]);
    }
    lemma_command_end(open, 1, 1 + n);
}

proof fn lemma_digits_end(input: Seq<char>, index: int, end: int)
    requires
        0 <= index <= end <= input.len(),
        forall|i: int| index <= i < end ==> text::ascii_digit(#[trigger] input[i]),
        end < input.len() ==> !text::ascii_digit(input[end]),
    ensures
        expression_parser::digits_end(input, index) == end,
    decreases end - index,
{
    if index < end {
        lemma_digits_end(input, index + 1, end);
    }
}

/// `$1` to `$256`, with all of their digits, are the arguments, and `$#` is
/// their number. There is no argument of another number.
pub proof fn arguments_are_referred_to_by_number(n: nat, line: nat, commands: bool)
    ensures
        ({
            let read = |input: Seq<char>|
                expression_parser::whole_expression(
                    input,
                    line,
                    ExpressionSyntax::Ordinary { allow_commands: commands },
                );
            let bare = read(seq!['$'] + text::decimal(n));
            let braced = read(seq!['$', '{'] + text::decimal(n) + seq!['}']);
            let found = Ok::<ExpressionModel, Fault>(
                referring(text::decimal(n), OperationModel::Value),
            );
            &&& 1 <= n <= 256 ==> bare == found && braced == found
            &&& !(1 <= n <= 256) ==> bare is Err && braced is Err
            &&& read(seq!['$', '#']) == Ok::<ExpressionModel, Fault>(
                referring("#"@, OperationModel::Value),
            )
            &&& read(seq!['$', '{', '#', '}']) == Ok::<ExpressionModel, Fault>(
                referring("#"@, OperationModel::Value),
            )
        }),
{
    let syntax = ExpressionSyntax::Ordinary { allow_commands: commands };
    let number = text::decimal(n);
    let len = number.len() as int;
    text::numbers_are_read_from_their_digits(n, usize::MAX as nat);
    text::lemma_decimal_digits(n);
    text::decimals_spell_their_number(n);
    assert(text::ascii_digit(number[0]));
    assert(variables::all_digits(number));
    reveal_with_fuel(expression_parser::variable_at, 2);
    reveal_with_fuel(expression_parser::braced_at, 2);
    let value = PartModel::Variable { name: number, operation: OperationModel::Value };
    let bare = seq!['$'] + number;
    let first = Source { input: bare, line, syntax };
    assert forall|i: int| 1 <= i < 1 + len implies text::ascii_digit(#[trigger] bare[i]) by {
        assert(bare[i] == number[i - 1]);
    }
    lemma_digits_end(bare, 1, 1 + len);
    assert(bare.subrange(1, 1 + len) =~= number);
    lemma_until_at(first, 0, whole(), 0);
    lemma_until_from(first, 0, whole(), start());
    let braced = seq!['$', '{'] + number + seq!['}'];
    let second = Source { input: braced, line, syntax };
    assert forall|i: int| 2 <= i < 2 + len implies text::ascii_digit(#[trigger] braced[i]) by {
        assert(braced[i] == number[i - 2]);
    }
    assert(braced[2 + len] == '}');
    lemma_digits_end(braced, 2, 2 + len);
    assert(braced.subrange(2, 2 + len) =~= number);
    lemma_until_at(second, 0, whole(), 0);
    lemma_until_from(second, 0, whole(), start());
    assert(braced[1] == '{');
    if 1 <= n <= 256 {
        lemma_one_part(first, value);
        assert(expression_parser::braced_at(second, 0, QuoteMode::Unquoted, false, 1) == Ok::<
            (Seq<char>, OperationModel, int),
            Fault,
        >((number, OperationModel::Value, len + 3)));
        lemma_one_part(second, value);
    }
    let count = PartModel::Variable { name: "#"@, operation: OperationModel::Value };
    let third = Source { input: seq!['$', '#'], line, syntax };
    assert(third.input[1] == '#');
    lemma_one_part(third, count);
    let fourth = Source { input: seq!['$', '{', '#', '}'], line, syntax };
    assert(fourth.input[1] == '{' && fourth.input[2] == '#' && fourth.input[3] == '}');
    assert(expression_parser::braced_at(fourth, 0, QuoteMode::Unquoted, false, 1) == Ok::<
        (Seq<char>, OperationModel, int),
        Fault,
    >(("#"@, OperationModel::Value, 4)));
    lemma_one_part(fourth, count);
}

/// In a pattern, what stands in quotes is written with a backslash before each
/// `*`, `?`, `[` and backslash, and with none before other characters.
pub proof fn quoted_patterns_are_literal(literal: Seq<char>, c: char)
    ensures
        "*?[\\"@.contains(c) ==> expression_parser::with_char(literal, c, true) == literal + seq![
            '\\',
            c,
        ],
        !"*?[\\"@.contains(c) ==> expression_parser::with_char(literal, c, true) == literal + seq![
            c,
        ],
        expression_parser::with_char(literal, c, false) == literal + seq![c],
{
    reveal_strlit("*?[\\");
    let signs = "*?[\\"@;
    assert(signs.len() == 4 && signs[0] == '*' && signs[1] == '?' && signs[2] == '[' && signs[3]
        == '\\');
    assert(literal.push(c) =~= literal + seq![c]);
    assert(literal.push('\\').push(c) =~= literal + seq!['\\', c]);
}

proof fn lemma_plain_word(source: Source, bounds: Bounds, progress: Progress, end: int)
    requires
        source.syntax is Ordinary,
        0 <= progress.index <= end <= source.input.len(),
        end < source.input.len() ==> source.input[end] == ' ' || source.input[end] == '\t',
        forall|i: int|
            0 <= i < end ==> means_itself(#[trigger] source.input[i]) && source.input[i] != ' '
                && source.input[i] != '\t' && source.input[i] != '#',
        !bounds.stop_at_brace,
        bounds.stop_at_word,
        bounds.initial_quote is Unquoted,
        !bounds.pattern_word,
        progress.quote is Unquoted,
        progress.parts == Seq::<PartModel>::empty(),
        progress.literal == source.input.take(progress.index),
    ensures
        expression_parser::until_from(source, 0, bounds, progress) == Ok::<
            (ExpressionModel, int),
            Fault,
        >((literally(source.input.take(end)), end)),
    decreases end - progress.index,
{
    lemma_until_from(source, 0, bounds, progress);
    let index = progress.index;
    if index < end {
        let c = source.input[index];
        assert(means_itself(c));
        let next = Progress {
            index: index + 1,
            literal: progress.literal.push(c),
            started: true,
            ..progress
        };
        assert(source.input.take(index + 1) =~= progress.literal.push(c));
        lemma_plain_word(source, bounds, next, end);
    } else {
        let literal = progress.literal;
        assert(Seq::<PartModel>::empty().push(PartModel::Literal(literal)) =~= seq![
            PartModel::Literal(literal),
        ]);
    }
}

/// A value is one word. Behind it and a blank there may be a comment, but no
/// further word.
pub proof fn values_are_one_word(word: Seq<char>, rest: Seq<char>, line: nat)
    requires
        forall|i: int|
            0 <= i < word.len() ==> means_itself(#[trigger] word[i]) && word[i] != ' ' && word[i]
                != '\t' && word[i] != '#',
    ensures
        expression_parser::assignment_word(word, line) == Ok::<(Seq<char>, ExpressionModel), Fault>(
            (word, literally(word)),
        ),
        expression_parser::assignment_word(word + seq![' ', '#'] + rest, line) == Ok::<
            (Seq<char>, ExpressionModel),
            Fault,
        >((word, literally(word))),
        rest.len() > 0 && !text::white_space(rest[0]) && rest[0] != '#'
            ==> expression_parser::assignment_word(word + seq![' '] + rest, line) is Err,
{
    let syntax = ExpressionSyntax::Ordinary { allow_commands: true };
    let bounds = Bounds {
        stop_at_brace: false,
        stop_at_word: true,
        initial_quote: QuoteMode::Unquoted,
        pattern_word: false,
    };
    let n = word.len() as int;
    let comment = word + seq![' ', '#'] + rest;
    let second = word + seq![' '] + rest;
    assert forall|input: Seq<char>| input == word || input == comment || input == second implies {
        &&& input.take(0) == Seq::<char>::empty()
        &&& #[trigger] input.take(n) == word
        &&& forall|i: int|
            0 <= i < n ==> means_itself(#[trigger] input[i]) && input[i] != ' ' && input[i] != '\t'
                && input[i] != '#'
    } by {
        assert(input.take(0) =~= Seq::<char>::empty());
        assert(input.take(n) =~= word);
        assert forall|i: int| 0 <= i < n implies means_itself(#[trigger] input[i]) && input[i]
            != ' ' && input[i] != '\t' && input[i] != '#' by {
            assert(input[i] == word[i]);
        }
    }
    assert(comment[n] == ' ' && comment[n + 1] == '#' && second[n] == ' ');
    let one = Source { input: word, line, syntax };
    assert(word.take(n) == word);
    lemma_until_at(one, 0, bounds, 0);
    lemma_plain_word(one, bounds, start(), n);
    let two = Source { input: comment, line, syntax };
    assert(comment.take(n) == word);
    lemma_until_at(two, 0, bounds, 0);
    lemma_plain_word(two, bounds, start(), n);
    let three = Source { input: second, line, syntax };
    assert(second.take(n) == word);
    lemma_until_at(three, 0, bounds, 0);
    lemma_plain_word(three, bounds, start(), n);
    assert(word.subrange(n, n) =~= Seq::<char>::empty());
    assert(word.subrange(0, n) =~= word);
    assert(comment.subrange(0, n) =~= word);
    assert(second.subrange(0, n) =~= word);
    reveal_with_fuel(text::trim_start, 3);
    let behind = comment.subrange(n, comment.len() as int);
    assert(behind[0] == ' ');
    assert(behind.subrange(1, behind.len() as int)[0] == '#');
    let more = second.subrange(n, second.len() as int);
    assert(more[0] == ' ');
    if rest.len() > 0 {
        assert(more.subrange(1, more.len() as int)[0] == rest[0]);
    }
}

} // verus!
