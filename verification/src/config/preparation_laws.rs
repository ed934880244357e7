//! What preparation keeps of a configuration, what it makes of its values, and
//! how a recipe is read from its lines.

use vstd::prelude::*;

use crate::config::action_laws::{captures_are_told_by_their_mark, flags_fit_their_action};
use crate::config::action_parser::{self, ActionKind};
use crate::config::binding;
use crate::config::errors::{Fault, Refusal};
use crate::config::expansion;
use crate::config::expression::PartModel;
use crate::config::expression_parser::{
    self, plain_text_stands_for_itself, ExpressionSyntax,
};
use crate::config::header_actions;
use crate::config::limits::ParseBudget;
use crate::config::parser;
use crate::config::preparation::{self, PreparationPhase, Preparer};
use crate::config::recipe::{
    ActionInput, ActionMode, ActionModel, AssignmentModel, CaseMode, ChildStatusMode,
    ConditionInput, ConditionModel, ContinuationMode, ControlFlow, DestinationKind,
    HeaderOperationModel, OutputEnding, RecipeModel, StatementModel, WriteErrorMode,
};
use crate::config::recipe_header;
use crate::config::resolution;
use crate::config::shell_conditions;
use crate::config::statement_laws::parts_tell_what_an_expression_does;
use crate::config::tables::ValueText;
use crate::config::variables::{self, AssignmentTarget, SuppliedModel, VariableSource};
use crate::text;

verus! {

/// Preparing a recipe changes neither its place nor its flags, nor how many
/// conditions it has, nor what kind of action it is. A delivery keeps its path
/// as it was written and its kind, but that a path left open is discarded where
/// it is `/dev/null`.
pub proof fn preparation_keeps_the_recipe(
    preparer: Preparer,
    recipe: RecipeModel,
    phase: PreparationPhase,
)
    requires
        preparation::prepared_recipe(preparer, recipe, phase) is Ok,
    ensures
        ({
            let after = preparation::prepared_recipe(preparer, recipe, phase)->Ok_0;
            &&& after.line == recipe.line
            &&& after.action_line == recipe.action_line
            &&& after.options == recipe.options
            &&& after.conditions.len() == recipe.conditions.len()
            &&& after.lock is Some <==> recipe.lock is Some
            &&& after.lock is Some ==> after.lock->Some_0.source == recipe.lock->Some_0.source
            &&& match recipe.action {
                ActionModel::Deliver(before) => after.action matches ActionModel::Deliver(found)
                    && found.path.source == before.path.source && found.path.typed_destination
                    == before.path.typed_destination && found.path.base == preparer.maildir
                    && found.path.line == recipe.action_line && (found.kind == before.kind
                    || before.kind is File && found.kind is Discard),
                ActionModel::Pipe(_) => after.action == recipe.action,
                ActionModel::Capture(_) => after.action == recipe.action,
                ActionModel::Headers(before) => after.action matches ActionModel::Headers(found)
                    && found.len() == before.len(),
                ActionModel::Block(before) => after.action matches ActionModel::Block(found)
                    && found.len() == before.len(),
            }
        }),
{
    reveal(preparation::prepared_frame);
    reveal(preparation::prepared_lock);
    reveal(preparation::prepared_destination);
    lemma_conditions(preparer, recipe.conditions, recipe.conditions.len(), recipe);
    match recipe.action {
        ActionModel::Headers(operations) => {
            lemma_operations(preparer, operations, operations.len());
        },
        ActionModel::Block(statements) => {
            preparation::preparation_keeps_what_may_change(
                preparation::block_preparer(preparer, phase),
                statements,
                statements.len(),
            );
        },
        _ => {},
    }
}

proof fn lemma_conditions(
    preparer: Preparer,
    conditions: Seq<ConditionModel>,
    n: nat,
    recipe: RecipeModel,
)
    requires
        n <= conditions.len(),
    ensures
        shell_conditions::prepared_conditions(
            conditions,
            n,
            preparer.scope(),
            recipe.options.case_mode is Sensitive,
        ) matches Ok(found) ==> found.len() == n,
    decreases n,
{
    if n > 0 {
        lemma_conditions(preparer, conditions, (n - 1) as nat, recipe);
    }
}

proof fn lemma_operations(preparer: Preparer, operations: Seq<HeaderOperationModel>, n: nat)
    requires
        n <= operations.len(),
    ensures
        preparation::prepared_operations(preparer.scope(), operations, n) matches Ok(found)
            ==> found.len() == n,
    decreases n,
{
    if n > 0 {
        lemma_operations(preparer, operations, (n - 1) as nat);
    }
}

/// Whether two operations on headers are the same but for the value written.
pub open spec fn same_operation(a: HeaderOperationModel, b: HeaderOperationModel) -> bool {
    match (a, b) {
        (
            HeaderOperationModel::Replace { line, name, .. },
            HeaderOperationModel::Replace { line: number, name: other, .. },
        ) => line == number && name == other,
        (
            HeaderOperationModel::Add { line, name, .. },
            HeaderOperationModel::Add { line: number, name: other, .. },
        ) => line == number && name == other,
        (
            HeaderOperationModel::Prepend { line, name, .. },
            HeaderOperationModel::Prepend { line: number, name: other, .. },
        ) => line == number && name == other,
        _ => a == b && !(a is Replace) && !(a is Add) && !(a is Prepend),
    }
}

/// Neither preparing nor resolving an operation on headers makes another one of
/// it, or gives it to another field.
pub proof fn header_operations_stay_what_they_are(
    preparer: Preparer,
    operation: HeaderOperationModel,
    values: Map<Seq<char>, Seq<char>>,
)
    ensures
        preparation::prepared_operation(preparer.scope(), operation) matches Ok(found)
            ==> same_operation(operation, found),
        resolution::resolved_operation(operation, values) matches Ok(found) ==> same_operation(
            operation,
            found,
        ),
        operation is Remove || operation is Rename || operation is Extract
            ==> resolution::resolved_operation(operation, values) == Ok::<
            HeaderOperationModel,
            Fault,
        >(operation),
{
}

/// Operations are resolved one by one, in their order.
pub proof fn header_operations_are_resolved_in_order(
    operations: Seq<HeaderOperationModel>,
    n: nat,
    i: int,
    values: Map<Seq<char>, Seq<char>>,
)
    requires
        0 <= i < n <= operations.len(),
        resolution::resolved_operations(operations, n, values) is Ok,
    ensures
        ({
            let found = resolution::resolved_operations(operations, n, values)->Ok_0;
            &&& found.len() == n
            &&& resolution::resolved_operation(operations[i], values) == Ok::<
                HeaderOperationModel,
                Fault,
            >(found[i])
        }),
    decreases n,
{
    if i < n - 1 {
        header_operations_are_resolved_in_order(operations, (n - 1) as nat, i, values);
    } else {
        lemma_resolved_count(operations, (n - 1) as nat, values);
    }
}

proof fn lemma_resolved_count(
    operations: Seq<HeaderOperationModel>,
    n: nat,
    values: Map<Seq<char>, Seq<char>>,
)
    requires
        n <= operations.len(),
    ensures
        resolution::resolved_operations(operations, n, values) matches Ok(found) ==> found.len()
            == n,
    decreases n,
{
    if n > 0 {
        lemma_resolved_count(operations, (n - 1) as nat, values);
    }
}

/// What a recipe may set, so that nothing after it knows the value: the
/// variable that it captures to, what the assignments in its block name, and
/// what the recipes in its block may set. A pipe sets nothing.
pub proof fn recipes_may_set_what_they_name(recipe: RecipeModel, name: Seq<char>)
    ensures
        match recipe.action {
            ActionModel::Capture(capture) => preparation::recipe_names(recipe).contains(name)
                <==> name == capture.name,
            ActionModel::Pipe(_) => !preparation::recipe_names(recipe).contains(name),
            ActionModel::Headers(operations) => preparation::recipe_names(recipe).contains(name)
                <==> exists|i: int|
                0 <= i < operations.len() && (#[trigger] operations[i]) is Extract
                    && operations[i]->Extract_target == name,
            ActionModel::Block(statements) => preparation::recipe_names(recipe).contains(name)
                <==> exists|i: int|
                0 <= i < statements.len() && sets_name(#[trigger] statements[i], name),
            ActionModel::Deliver(destination) => preparation::recipe_names(recipe).contains(name)
                ==> destination.path.expansion is Some
                && destination.path.expansion->Some_0.assigned().contains(name),
        },
{
    match recipe.action {
        ActionModel::Headers(operations) => {
            lemma_extracted(operations, operations.len(), name);
        },
        ActionModel::Block(statements) => {
            lemma_statement_names(statements, statements.len(), name);
        },
        ActionModel::Deliver(destination) => {
            if destination.is_ordered() {
                let names = destination.path.expansion->Some_0.assigned();
                assert(names.to_set().contains(name) ==> names.contains(name));
            }
        },
        _ => {},
    }
}

/// Whether a statement may set the variable.
pub open spec fn sets_name(statement: StatementModel, name: Seq<char>) -> bool {
    match statement {
        StatementModel::Assignment(assignment) => assignment.name == name,
        StatementModel::CommandAssignment(assignment) => assignment.name == name,
        StatementModel::Recipe(recipe) => preparation::recipe_names(recipe).contains(name),
        _ => false,
    }
}

proof fn lemma_extracted(operations: Seq<HeaderOperationModel>, n: nat, name: Seq<char>)
    requires
        n <= operations.len(),
    ensures
        preparation::extracted_names(operations, n).contains(name) <==> exists|i: int|
            0 <= i < n && (#[trigger] operations[i]) is Extract && operations[i]->Extract_target
                == name,
    decreases n,
{
    if n > 0 {
        lemma_extracted(operations, (n - 1) as nat, name);
        let last = operations[n - 1];
    }
}

proof fn lemma_statement_names(statements: Seq<StatementModel>, n: nat, name: Seq<char>)
    requires
        n <= statements.len(),
    ensures
        preparation::statement_names(statements, n).contains(name) <==> exists|i: int|
            0 <= i < n && sets_name(#[trigger] statements[i], name),
    decreases n,
{
    if n > 0 {
        lemma_statement_names(statements, (n - 1) as nat, name);
        let before = preparation::statement_names(statements, (n - 1) as nat);
        let after = preparation::statement_names(statements, n);
        let last = statements[n - 1];
        assert(after.contains(name) <==> before.contains(name) || sets_name(last, name)) by {
            match last {
                StatementModel::Recipe(recipe) => {
                    assert(after == before.union(preparation::recipe_names(recipe)));
                },
                _ => {},
            }
        }
    }
}

/// A file that is read on the way may shift the arguments: none of them is
/// known behind it, nor how many there are. Every other variable stays known.
pub proof fn files_may_shift_the_arguments(n: nat, k: nat)
    ensures
        preparation::positional_names(n).contains("#"@),
        preparation::positional_names(n).contains(text::decimal(k)) <==> 1 <= k <= n,
    decreases n,
{
    if n > 0 {
        files_may_shift_the_arguments((n - 1) as nat, k);
        if k != n {
            text::decimals_are_read_back(k);
            text::decimals_are_read_back(n);
        }
    } else {
        reveal_strlit("#");
        text::lemma_decimal_digits(k);
        text::decimals_spell_their_number(k);
        assert(text::ascii_digit(text::decimal(k)[0]));
        assert("#"@[0] == '#');
    }
}

/// Inside a block every assignment is conditional, and what is known outside
/// is known there. A recipe is prepared for good where no variable may change
/// before it.
pub proof fn blocks_are_conditional(preparer: Preparer, phase: PreparationPhase)
    ensures
        preparation::block_preparer(preparer, phase).phase == PreparationPhase::Deferred,
        preparation::block_preparer(preparer, phase).known == preparer.known,
        preparation::block_preparer(preparer, phase).maildir == preparer.maildir,
        preparation::block_preparer(preparer, phase).linebuf == preparer.linebuf,
        phase is Deferred ==> preparation::block_preparer(preparer, phase).dynamic
            == preparer.dynamic,
        preparation::recipe_phase(preparer) is Eager <==> preparer.phase is Eager && forall|
            name: Seq<char>,
        |
            !preparer.dynamic.contains(name),
{
    if forall|name: Seq<char>| !preparer.dynamic.contains(name) {
        assert(preparer.dynamic =~= Set::empty());
    }
}

/// A setting that steers the reading, or bounds messages, is not assigned on a
/// condition.
pub proof fn limits_are_not_conditional(preparer: Preparer, assignment: AssignmentModel)
    requires
        preparer.phase is Deferred,
        assignment.target is LineBuf || assignment.target is RcLimit || assignment.target
            is MessageLimit,
    ensures
        preparation::prepared_assignment(preparer, assignment) is Err,
{
    reveal(preparation::prepared_assignment);
    reveal(preparation::deferred_assignment);
}

/// An assignment keeps its name, its line and what it sets, however it is
/// prepared, and makes nothing known of another variable. Its own variable is
/// known behind it or may change, never neither.
pub proof fn assignments_stay_what_they_are(
    preparer: Preparer,
    assignment: AssignmentModel,
    other: Seq<char>,
)
    requires
        preparation::prepared_assignment(preparer, assignment) is Ok,
        other != assignment.name,
    ensures
        ({
            let (found, after) = preparation::prepared_assignment(preparer, assignment)->Ok_0;
            &&& found.name == assignment.name
            &&& found.line == assignment.line
            &&& found.target == assignment.target
            &&& after.known.contains_key(other) <==> preparer.known.contains_key(other)
            &&& after.known.contains_key(other) ==> after.known[other] == preparer.known[other]
            &&& after.dynamic.contains(other) <==> preparer.dynamic.contains(other)
            &&& after.known.contains_key(assignment.name) || after.dynamic.contains(
                assignment.name,
            )
            &&& !(assignment.target is Maildir) ==> after.maildir == preparer.maildir
            &&& !(assignment.target is LineBuf) ==> after.linebuf == preparer.linebuf
        }),
{
    reveal(preparation::prepared_assignment);
    reveal(preparation::deferred_assignment);
    reveal(preparation::settled_assignment);
}

/// What comes from the environment or the system is a value as it stands. What
/// the command line supplies is expanded, with what was supplied before it.
pub proof fn supplied_values_are_expanded_by_source(
    supplied: SuppliedModel,
    known: Map<Seq<char>, ValueText>,
)
    ensures
        supplied.source == VariableSource::Environment || supplied.source
            == VariableSource::System ==> expansion::supplied_value(supplied, known) == Ok::<
            ValueText,
            Fault,
        >(ValueText { text: supplied.value, depth: 0 }),
        supplied.source == VariableSource::CommandLine ==> expansion::supplied_value(
            supplied,
            known,
        ) == binding::expanded_text(supplied.value, 0, 65536, known),
{
}

/// The mask of a configuration is that of its last assignment to `UMASK`, and
/// octal 077 without one. A value that is none is refused.
pub proof fn the_last_mask_counts(statements: Seq<StatementModel>, statement: StatementModel)
    requires
        expansion::umask_in(statements, statements.len()) is Ok,
    ensures
        ({
            let more = statements.push(statement);
            let found = expansion::umask_in(more, more.len());
            match statement {
                StatementModel::Assignment(assignment) => if assignment.target is Umask {
                    match variables::umask_of(assignment.value) {
                        Some(mask) => found == Ok::<nat, Seq<char>>(mask),
                        None => found is Err,
                    }
                } else {
                    found == expansion::umask_in(statements, statements.len())
                },
                _ => found == expansion::umask_in(statements, statements.len()),
            }
        }),
        expansion::umask_in(Seq::empty(), 0) == Ok::<nat, Seq<char>>(63),
{
    let more = statements.push(statement);
    lemma_umask(statements, more, statements.len());
    assert(more.last() == statement);
}

proof fn lemma_umask(statements: Seq<StatementModel>, more: Seq<StatementModel>, n: nat)
    requires
        n <= statements.len() <= more.len(),
        forall|i: int| 0 <= i < statements.len() ==> statements[i] == more[i],
    ensures
        expansion::umask_in(statements, n) == expansion::umask_in(more, n),
    decreases n,
{
    if n > 0 {
        lemma_umask(statements, more, (n - 1) as nat);
    }
}

/// Whether every character is a letter of ASCII.
pub open spec fn all_letters(word: Seq<char>) -> bool {
    forall|i: int| 0 <= i < word.len() ==> 'a' <= #[trigger] word[i] <= 'z'
}

proof fn lemma_mail_path(path: Seq<char>, line: nat)
    requires
        path.len() > 0,
        all_letters(path),
        text::byte_len(path.push('/')) <= 4096,
    ensures
        ({
            let action = path.push('/');
            &&& text::trim(action) == action
            &&& action_parser::destination_of(action, line) matches Ok(found) && found.kind
                == DestinationKind::Maildir && found.path.source == action
            &&& action_parser::capture_of(action, line) == Ok::<
                Option<(Seq<char>, AssignmentTarget)>,
                Refusal,
            >(None)
            &&& !action.contains('=')
        }),
{
    let action = path.push('/');
    assert forall|i: int| 0 <= i < action.len() implies #[trigger] action[i] == '/' || 'a'
        <= action[i] <= 'z' by {
        if i < path.len() {
            assert(action[i] == path[i]);
        }
    }
    reveal(action_parser::destination_of);
    reveal(action_parser::capture_of);
    reveal_strlit("mbox:");
    reveal_strlit("maildir:");
    assert("mbox:"@[4] == ':' && "maildir:"@[7] == ':');
    if text::begins(action, "mbox:"@) {
        assert(action.subrange(0, 5)[4] == action[4]);
    }
    if text::begins(action, "maildir:"@) {
        assert(action.subrange(0, 8)[7] == action[7]);
    }
    assert(action.last() == '/');
    assert(!text::white_space(action[0]));
    assert(text::trim_start(action) == action);
    assert forall|i: int| 0 <= i < action.len() implies !expression_parser::shell_char(
        #[trigger] action[i],
    ) by {}
    plain_text_stands_for_itself(
        action,
        line,
        ExpressionSyntax::Ordinary { allow_commands: true },
    );
    let model = expression_parser::literal_expression(action);
    let none = Seq::<PartModel>::empty();
    assert(model.parts =~= seq![PartModel::Literal(action)]);
    parts_tell_what_an_expression_does(
        none,
        action,
        action,
        model,
    );
    assert(none.push(PartModel::Literal(action)) =~= model.parts);
    assert(!model.requires_ordered_evaluation());
    captures_are_told_by_their_mark(action, action, line);
}

/// The smallest recipe: `:0` on one line, and on the next the mail directory
/// that takes the message. It has no condition and no lock, looks at the
/// headers whatever their case, runs whatever came before, takes the whole
/// message, and is the last.
pub proof fn a_recipe_is_read_from_two_lines(
    lines: Seq<Seq<char>>,
    start: int,
    path: Seq<char>,
    depth: nat,
    budget: ParseBudget,
)
    requires
        0 <= start,
        start + 1 < lines.len(),
        lines[start] == ":0"@,
        lines[start + 1] == path.push('/'),
        path.len() > 0,
        all_letters(path),
        text::byte_len(path.push('/')) <= budget.limits.linebuf,
        text::byte_len(path.push('/')) <= 4096,
    ensures
        ({
            let read = parser::recipe_at(lines, start, depth, budget).0;
            &&& read is Ok
            &&& read->Ok_0.1 == start + 2
            &&& ({
                let recipe = read->Ok_0.0;
                let options = recipe.options;
                &&& recipe.line == start + 1
                &&& recipe.action_line == start + 2
                &&& recipe.lock is None
                &&& recipe.conditions.len() == 0
                &&& recipe.action matches ActionModel::Deliver(found) && found.kind
                    == DestinationKind::Maildir && found.path.source == path.push('/')
                &&& options.condition_input == ConditionInput::Headers
                &&& options.case_mode == CaseMode::Insensitive
                &&& options.control == ControlFlow::Independent
                &&& options.action_input == ActionInput::Message
                &&& options.action_mode == ActionMode::Deliver
                &&& options.continuation == ContinuationMode::Stop
                &&& options.child_status == ChildStatusMode::Ignore
                &&& options.write_errors == WriteErrorMode::Fail
                &&& options.output_ending == OutputEnding::Normalize
            })
        }),
{
    let action = path.push('/');
    let line = (start + 2) as nat;
    lemma_mail_path(path, line);
    assert forall|i: int| 0 <= i < action.len() implies #[trigger] action[i] == '/' || 'a'
        <= action[i] <= 'z' by {
        if i < path.len() {
            assert(action[i] == path[i]);
        }
    }
    assert(action[0] == path[0]);
    reveal_strlit(":0");
    let empty = Seq::<char>::empty();
    assert(":0"@.subrange(0, 2) =~= ":0"@);
    assert(text::after_prefix(":0"@, ":0"@) =~= empty);
    assert(text::trim(":0"@) == ":0"@) by {
        assert(!text::white_space(":0"@[0]) && !text::white_space(":0"@[1]));
    }
    assert(recipe_header::header_of(empty, (start + 1) as nat) is Ok) by {
        text::texts_are_split_at_the_first_place(empty, '#');
        text::texts_are_split_at_the_first_place(empty, ':');
        assert(text::trim(empty) == empty);
        recipe_header::only_fitting_flags_are_accepted(empty, (start + 1) as nat);
    }
    let header = recipe_header::header_of(empty, (start + 1) as nat)->Ok_0;
    text::texts_are_split_at_the_first_place(empty, '#');
    text::texts_are_split_at_the_first_place(empty, ':');
    assert(text::trim(empty) == empty);
    assert(header.options == recipe_header::options_of(empty));
    reveal(parser::head_at);
    reveal(parser::opening_at);
    reveal(parser::plain_action);
    reveal(action_parser::misplaced_action);
    reveal(action_parser::unfit_action);
    reveal_with_fuel(parser::conditions_from, 2);
    reveal_with_fuel(parser::recipe_at, 2);
    reveal_strlit("}");
    reveal_strlit("{");
    reveal_strlit("headers {");
    assert("}"@[0] == '}' && "{"@[0] == '{' && "headers {"@[7] == ' ');
    if action == "headers {"@ {
        assert(action[7] == ' ');
    }
    flags_fit_their_action(
        ActionKind::Other,
        action,
        header,
        Seq::empty(),
        (start + 1) as nat,
        line,
    );
    assert(!header_actions::silent_line(action));
}

} // verus!
