//! Preparation of a configuration: what can be known before there is a message
//! is expanded and checked, and the rest is kept until it can be.

use vstd::prelude::*;
use vstd::string::*;

use crate::config::analysis::{self, ExpressionAnalysis, Scope};
use crate::config::arguments::MAX_POSITIONAL_ARGUMENTS;
use crate::config::binding::{
    self, bind_static_expression, evaluate_config_expression, evaluate_with_linebuf, parse_linebuf,
    relabel_linebuf_error,
};
use crate::config::errors::{self, ExpansionError, Fault};
use crate::config::expression::{ExpressionModel, ShellExpression};
use crate::config::expression_parser::{self, parse_expression};
use crate::config::recipe::{
    self, ActionModel, Assignment, AssignmentModel, CaseMode, CommandAssignment,
    CommandAssignmentModel, Destination, DestinationKind, DestinationModel, HeaderAction,
    HeaderOperation, HeaderOperationModel, HeaderValue, HeaderValueModel, PathExpression, PathModel,
    RcFileExpression, RcFileModel, Recipe, RecipeAction, RecipeModel, Statement, StatementModel,
};
use crate::config::resolution::{
    self, copied_text, destination_with, resolve_assigned_path, validate_header_value,
};
use crate::config::shell_conditions::{
    self, prepare_shell_conditions, reject_parameter_assignments,
};
use crate::config::shell_eval::{self, TextValues};
use crate::config::tables::{ExpandedValue, NameSet, NameTable, ValueText};
use crate::config::variables::{self, assignment_value_limit, AssignmentTarget};
use crate::config::MAX_ASSIGNMENT_VALUE_LEN;
use crate::text::{self, decimal_text, text3};

verus! {

/// Whether values that are known are final.
#[derive(Debug, Clone, Copy, PartialEq, Eq, Structural)]
pub enum PreparationPhase {
    Eager,
    Deferred,
}

/// What is known while statements are prepared: the values that are fixed, the
/// variables that may change, and where relative paths start.
pub struct ConfigPreparer {
    pub known: NameTable<ExpandedValue>,
    pub dynamic: NameSet,
    pub maildir: Option<String>,
    pub linebuf: usize,
    pub phase: PreparationPhase,
}

pub struct Preparer {
    pub known: Map<Seq<char>, ValueText>,
    pub dynamic: Set<Seq<char>>,
    pub maildir: Option<Seq<char>>,
    pub linebuf: usize,
    pub phase: PreparationPhase,
}

impl View for ConfigPreparer {
    type V = Preparer;

    open spec fn view(&self) -> Preparer {
        Preparer {
            known: self.known@,
            dynamic: self.dynamic@,
            maildir: recipe::optional_text(self.maildir),
            linebuf: self.linebuf,
            phase: self.phase,
        }
    }
}

impl Preparer {
    pub open spec fn scope(self) -> Scope {
        Scope { known: self.known, dynamic: self.dynamic }
    }

    /// Once a variable may change.
    pub open spec fn with_dynamic(self, name: Seq<char>) -> Preparer {
        Preparer { dynamic: self.dynamic.insert(name), ..self }
    }

    /// Once these variables may change.
    pub open spec fn with_all_dynamic(self, names: Set<Seq<char>>) -> Preparer {
        Preparer { dynamic: self.dynamic.union(names), ..self }
    }
}

/// The value of an assignment whose value is fixed, where relative paths start
/// then, and how long lines may be.
pub struct Settled {
    pub value: ValueText,
    pub maildir: Option<Seq<char>>,
    pub linebuf: usize,
}

/// What an assignment of a fixed value comes to.
#[verifier::opaque]
pub open spec fn settled_assignment(
    preparer: Preparer,
    assignment: AssignmentModel,
    expression: ExpressionModel,
) -> Result<Settled, Fault> {
    let hard_limit = variables::value_limit(assignment.target);
    match binding::known_text(
        expression,
        assignment.line,
        binding::smaller(hard_limit, preparer.linebuf),
        preparer.known,
    ) {
        Err(error) => Err(binding::relabelled(error, preparer.linebuf, hard_limit)),
        Ok(value) => if let Some(message) = variables::value_fault(
            assignment.target,
            value.text,
        ) {
            Err(errors::fault(assignment.line, message))
        } else {
            let linebuf = if assignment.target is LineBuf {
                binding::linebuf_value(value.text, assignment.line)
            } else {
                Ok(preparer.linebuf)
            };
            match linebuf {
                Err(error) => Err(error),
                Ok(linebuf) => match assignment.target.path_kind() {
                    None => Ok(Settled { value, maildir: preparer.maildir, linebuf }),
                    Some(path) => match resolution::assigned_path(
                        path,
                        value.text,
                        assignment.line,
                        preparer.maildir,
                    ) {
                        Err(error) => Err(error),
                        Ok(text) => Ok(
                            Settled {
                                value: ValueText { text, depth: value.depth },
                                maildir: if assignment.target is Maildir {
                                    Some(text)
                                } else {
                                    preparer.maildir
                                },
                                linebuf,
                            },
                        ),
                    },
                },
            }
        },
    }
}

/// An assignment on a path that only some messages take.
#[verifier::opaque]
pub open spec fn deferred_assignment(preparer: Preparer, assignment: AssignmentModel) -> Result<
    (AssignmentModel, Preparer),
    Fault,
> {
    if !assignment.target.may_be_conditional() {
        Err(
            errors::fault(
                assignment.line,
                "variable "@ + assignment.name + " cannot be assigned conditionally yet"@,
            ),
        )
    } else {
        match resolution::expression_of(
            assignment.expansion,
            assignment.value,
            assignment.line,
        ) {
            Err(error) => Err(error),
            Ok(expression) => {
                let found = analysis::analyzed(preparer.scope(), expression);
                let prepared = (
                    AssignmentModel { expansion: Some(expression), ..assignment },
                    preparer.with_dynamic(assignment.name),
                );
                if let Some(error) = analysis::missing_fault(
                    found.missing_runtime,
                    assignment.line,
                ) {
                    Err(error)
                } else if found.needs_runtime || found.references_dynamic {
                    Ok(prepared)
                } else {
                    match binding::known_text(
                        expression,
                        assignment.line,
                        variables::value_limit(assignment.target),
                        preparer.known,
                    ) {
                        Err(error) => Err(error),
                        Ok(value) => match variables::value_fault(assignment.target, value.text) {
                            Some(message) => Err(errors::fault(assignment.line, message)),
                            None => Ok(prepared),
                        },
                    }
                }
            },
        }
    }
}

/// An assignment that is prepared, and what is known then.
#[verifier::opaque]
pub open spec fn prepared_assignment(preparer: Preparer, assignment: AssignmentModel) -> Result<
    (AssignmentModel, Preparer),
    Fault,
> {
    if preparer.phase is Deferred {
        deferred_assignment(preparer, assignment)
    } else {
        match resolution::expression_of(
            assignment.expansion,
            assignment.value,
            assignment.line,
        ) {
            Err(error) => Err(error),
            Ok(expression) => {
                let found = analysis::analyzed(preparer.scope(), expression);
                if found.references_dynamic {
                    match analysis::missing_fault(found.missing_runtime, assignment.line) {
                        Some(error) => Err(error),
                        None => Ok(
                            (
                                AssignmentModel { expansion: Some(expression), ..assignment },
                                preparer.with_dynamic(assignment.name),
                            ),
                        ),
                    }
                } else {
                    match settled_assignment(preparer, assignment, expression) {
                        Err(error) => Err(error),
                        Ok(settled) => Ok(
                            (
                                AssignmentModel {
                                    value: settled.value.text,
                                    expansion: None,
                                    ..assignment
                                },
                                Preparer {
                                    known: preparer.known.insert(assignment.name, settled.value),
                                    maildir: settled.maildir,
                                    linebuf: settled.linebuf,
                                    ..preparer
                                },
                            ),
                        ),
                    }
                }
            },
        }
    }
}

/// An assignment of a command's output that is prepared, and what is known
/// then. One whose commands cannot run is an ordinary assignment.
#[verifier::opaque]
pub open spec fn prepared_command_assignment(
    preparer: Preparer,
    assignment: CommandAssignmentModel,
) -> Result<(StatementModel, Preparer), Fault> {
    let assigned = assignment.expression.assigned().to_set();
    let found = analysis::analyzed(
        preparer.with_all_dynamic(assigned).scope(),
        assignment.expression,
    );
    if let Some(error) = analysis::missing_fault(found.missing_runtime, assignment.line) {
        Err(error)
    } else if preparer.phase is Eager && !found.has_runtime_part() && !found.references_dynamic {
        match binding::bound_at(
            assignment.expression,
            assignment.line,
            shell_eval::known_texts(preparer.known),
            0,
        ) {
            Err(error) => Err(error),
            Ok(expansion) => match prepared_assignment(
                preparer,
                AssignmentModel {
                    line: assignment.line,
                    name: assignment.name,
                    value: assignment.source,
                    target: assignment.target,
                    expansion: Some(expansion),
                },
            ) {
                Err(error) => Err(error),
                Ok((prepared, after)) => Ok((StatementModel::Assignment(prepared), after)),
            },
        }
    } else {
        Ok(
            (
                StatementModel::CommandAssignment(assignment),
                preparer.with_all_dynamic(assigned).with_dynamic(assignment.name),
            ),
        )
    }
}

/// The number of arguments, and the first `n` of them, as names.
pub open spec fn positional_names(n: nat) -> Set<Seq<char>>
    decreases n,
{
    if n == 0 {
        Set::empty().insert("#"@)
    } else {
        positional_names((n - 1) as nat).insert(text::decimal(n))
    }
}

/// The path of a further rc file that is prepared.
#[verifier::opaque]
pub open spec fn prepared_rc_file(preparer: Preparer, file: RcFileModel) -> Result<
    RcFileModel,
    Fault,
> {
    match resolution::expression_of(file.expansion, file.value, file.line) {
        Err(error) => Err(error),
        Ok(expression) => if let Some(error) = shell_conditions::assignment_fault(
            expression,
            file.line,
            "runtime rc path"@,
        ) {
            Err(error)
        } else if expression.has_commands() {
            Err(
                errors::fault(
                    file.line,
                    "command substitution is not supported in runtime rc path"@,
                ),
            )
        } else {
            match analysis::missing_fault(
                analysis::analyzed(preparer.scope(), expression).missing_runtime,
                file.line,
            ) {
                Some(error) => Err(error),
                None => Ok(RcFileModel { expansion: Some(expression), ..file }),
            }
        },
    }
}

/// The lockfile of a recipe that is prepared.
#[verifier::opaque]
pub open spec fn prepared_lock(preparer: Preparer, path: PathModel, line: nat) -> Result<
    PathModel,
    Fault,
> {
    match expression_parser::ordinary_expression(path.source, line) {
        Err(error) => Err(error),
        Ok(expression) => {
            let found = analysis::analyzed(preparer.scope(), expression);
            let runtime_dependent = found.needs_runtime || found.references_dynamic;
            let prepared = PathModel {
                base: preparer.maildir,
                line,
                runtime_dependent,
                runtime_base: runtime_dependent,
                expansion: Some(expression),
                ..path
            };
            if let Some(error) = shell_conditions::assignment_fault(
                expression,
                line,
                "lockfile path"@,
            ) {
                Err(error)
            } else if let Some(error) = analysis::missing_fault(found.missing_runtime, line) {
                Err(error)
            } else if runtime_dependent || path.source.len() == 0 {
                Ok(prepared)
            } else {
                match resolution::lockfile_path(
                    prepared,
                    shell_eval::known_texts(preparer.known),
                ) {
                    Err(error) => Err(error),
                    Ok(_) => Ok(prepared),
                }
            }
        },
    }
}

/// A destination that is prepared.
#[verifier::opaque]
pub open spec fn prepared_destination(
    preparer: Preparer,
    destination: DestinationModel,
    line: nat,
    phase: PreparationPhase,
) -> Result<DestinationModel, Fault> {
    let path = PathModel {
        base: preparer.maildir,
        line,
        runtime_base: preparer.dynamic.contains("MAILDIR"@),
        ..destination.path
    };
    if destination.is_ordered() {
        let expression = destination.path.expansion->0;
        let scope = preparer.with_all_dynamic(expression.assigned().to_set()).scope();
        match analysis::missing_fault(
            analysis::analyzed(scope, expression).missing_runtime,
            line,
        ) {
            Some(error) => Err(error),
            None => Ok(
                DestinationModel {
                    path: PathModel { runtime_dependent: true, ..path },
                    ..destination
                },
            ),
        }
    } else {
        match expression_parser::ordinary_expression(path.source, line) {
            Err(error) => Err(error),
            Ok(expression) => {
                let found = analysis::analyzed(preparer.scope(), expression);
                let missing = if phase is Eager {
                    found.missing_path
                } else {
                    found.missing_runtime
                };
                let runtime_dependent = found.references_dynamic || found.needs_runtime;
                let prepared = DestinationModel {
                    path: PathModel { runtime_dependent, expansion: Some(expression), ..path },
                    ..destination
                };
                if let Some(error) = analysis::missing_fault(missing, line) {
                    Err(error)
                } else if phase is Eager && !runtime_dependent {
                    match prepared.resolved(shell_eval::known_texts(preparer.known)) {
                        Err(error) => Err(error),
                        Ok(resolved) => Ok(
                            if prepared.kind is File && resolved.kind is Discard {
                                DestinationModel { kind: DestinationKind::Discard, ..prepared }
                            } else {
                                prepared
                            },
                        ),
                    }
                } else {
                    Ok(prepared)
                }
            },
        }
    }
}

/// The value of a header field that is prepared.
#[verifier::opaque]
pub open spec fn prepared_header(scope: Scope, value: HeaderValueModel, line: nat) -> Result<
    HeaderValueModel,
    Fault,
> {
    match expression_parser::ordinary_expression(value.source, line) {
        Err(error) => Err(error),
        Ok(expression) => {
            let found = analysis::analyzed(scope, expression);
            let prepared = HeaderValueModel { expansion: Some(expression), ..value };
            if let Some(error) = shell_conditions::assignment_fault(
                expression,
                line,
                "native header value"@,
            ) {
                Err(error)
            } else if let Some(error) = analysis::missing_fault(found.missing_runtime, line) {
                Err(error)
            } else if found.needs_runtime || found.references_dynamic {
                Ok(prepared)
            } else {
                match binding::runtime_text(
                    expression,
                    line,
                    MAX_ASSIGNMENT_VALUE_LEN,
                    shell_eval::known_texts(scope.known),
                ) {
                    Err(error) => Err(error),
                    Ok(expanded) => match resolution::header_value_fault(expanded, line) {
                        Some(error) => Err(error),
                        None => Ok(prepared),
                    },
                }
            }
        },
    }
}

/// A header operation that is prepared.
pub open spec fn prepared_operation(scope: Scope, operation: HeaderOperationModel) -> Result<
    HeaderOperationModel,
    Fault,
> {
    match operation {
        HeaderOperationModel::Replace { line, name, value } => match prepared_header(
            scope,
            value,
            line,
        ) {
            Ok(value) => Ok(HeaderOperationModel::Replace { line, name, value }),
            Err(error) => Err(error),
        },
        HeaderOperationModel::Add { line, name, value } => match prepared_header(
            scope,
            value,
            line,
        ) {
            Ok(value) => Ok(HeaderOperationModel::Add { line, name, value }),
            Err(error) => Err(error),
        },
        HeaderOperationModel::Prepend { line, name, value } => match prepared_header(
            scope,
            value,
            line,
        ) {
            Ok(value) => Ok(HeaderOperationModel::Prepend { line, name, value }),
            Err(error) => Err(error),
        },
        other => Ok(other),
    }
}

/// The first `n` header operations, prepared.
pub open spec fn prepared_operations(
    scope: Scope,
    operations: Seq<HeaderOperationModel>,
    n: nat,
) -> Result<Seq<HeaderOperationModel>, Fault>
    decreases n,
{
    if n == 0 || n > operations.len() {
        Ok(Seq::empty())
    } else {
        match prepared_operations(scope, operations, (n - 1) as nat) {
            Err(error) => Err(error),
            Ok(before) => match prepared_operation(scope, operations[n - 1]) {
                Err(error) => Err(error),
                Ok(operation) => Ok(before.push(operation)),
            },
        }
    }
}

/// The header fields whose values the first `n` operations take.
pub open spec fn extracted_names(operations: Seq<HeaderOperationModel>, n: nat) -> Set<Seq<char>>
    decreases n,
{
    if n == 0 || n > operations.len() {
        Set::empty()
    } else {
        let before = extracted_names(operations, (n - 1) as nat);
        match operations[n - 1] {
            HeaderOperationModel::Extract { target, .. } => before.insert(target),
            _ => before,
        }
    }
}

/// The variables that a recipe may change.
pub open spec fn recipe_names(recipe: RecipeModel) -> Set<Seq<char>>
    decreases recipe, 0nat,
{
    match recipe.action {
        ActionModel::Capture(capture) => Set::empty().insert(capture.name),
        ActionModel::Block(statements) => statement_names(statements, statements.len()),
        ActionModel::Deliver(destination) => if destination.is_ordered() {
            destination.path.expansion->0.assigned().to_set()
        } else {
            Set::empty()
        },
        ActionModel::Headers(operations) => extracted_names(operations, operations.len()),
        ActionModel::Pipe(_) => Set::empty(),
    }
}

/// The variables that the first `n` statements of a block may change.
pub open spec fn statement_names(statements: Seq<StatementModel>, n: nat) -> Set<Seq<char>>
    decreases statements, n,
{
    if n == 0 || n > statements.len() {
        Set::empty()
    } else {
        let before = statement_names(statements, (n - 1) as nat);
        match statements[n - 1] {
            StatementModel::Assignment(assignment) => before.insert(assignment.name),
            StatementModel::CommandAssignment(assignment) => before.insert(assignment.name),
            StatementModel::Recipe(recipe) => before.union(recipe_names(recipe)),
            _ => before,
        }
    }
}

/// Everything of a recipe that is prepared but its action.
#[verifier::opaque]
pub open spec fn prepared_frame(preparer: Preparer, recipe: RecipeModel) -> Result<
    RecipeModel,
    Fault,
> {
    match shell_conditions::prepared_conditions(
        recipe.conditions,
        recipe.conditions.len(),
        preparer.scope(),
        recipe.options.case_mode is Sensitive,
    ) {
        Err(error) => Err(error),
        Ok(conditions) => match recipe.lock {
            None => Ok(RecipeModel { conditions, ..recipe }),
            Some(path) => match prepared_lock(preparer, path, recipe.line) {
                Err(error) => Err(error),
                Ok(lock) => if lock.source.len() == 0 && recipe.action is Pipe {
                    Err(
                        errors::fault(
                            recipe.line,
                            "an implicit local lockfile requires a filesystem destination"@,
                        ),
                    )
                } else {
                    Ok(RecipeModel { conditions, lock: Some(lock), ..recipe })
                },
            },
        },
    }
}

/// What is known inside a block.
pub open spec fn block_preparer(preparer: Preparer, phase: PreparationPhase) -> Preparer {
    Preparer {
        dynamic: if phase is Eager {
            Set::empty()
        } else {
            preparer.dynamic
        },
        phase: PreparationPhase::Deferred,
        ..preparer
    }
}

/// A recipe that is prepared.
pub open spec fn prepared_recipe(
    preparer: Preparer,
    recipe: RecipeModel,
    phase: PreparationPhase,
) -> Result<RecipeModel, Fault>
    decreases recipe, 0nat,
{
    match prepared_frame(preparer, recipe) {
        Err(error) => Err(error),
        Ok(frame) => match recipe.action {
            ActionModel::Deliver(destination) => match prepared_destination(
                preparer,
                destination,
                recipe.action_line,
                phase,
            ) {
                Err(error) => Err(error),
                Ok(prepared) => Ok(RecipeModel { action: ActionModel::Deliver(prepared), ..frame }),
            },
            ActionModel::Headers(operations) => match prepared_operations(
                preparer.scope(),
                operations,
                operations.len(),
            ) {
                Err(error) => Err(error),
                Ok(prepared) => Ok(RecipeModel { action: ActionModel::Headers(prepared), ..frame }),
            },
            ActionModel::Block(statements) => match prepared_statements(
                block_preparer(preparer, phase),
                statements,
                statements.len(),
            ) {
                Err(error) => Err(error),
                Ok((prepared, _)) => Ok(
                    RecipeModel { action: ActionModel::Block(prepared), ..frame },
                ),
            },
            _ => Ok(frame),
        },
    }
}

/// The phase in which a recipe is prepared.
pub open spec fn recipe_phase(preparer: Preparer) -> PreparationPhase {
    if preparer.phase is Eager && preparer.dynamic == Set::<Seq<char>>::empty() {
        PreparationPhase::Eager
    } else {
        PreparationPhase::Deferred
    }
}

/// A statement that is prepared, and what is known then.
pub open spec fn prepared_statement(preparer: Preparer, statement: StatementModel) -> Result<
    (StatementModel, Preparer),
    Fault,
>
    decreases statement, 0nat,
{
    match statement {
        StatementModel::Assignment(assignment) => match prepared_assignment(
            preparer,
            assignment,
        ) {
            Err(error) => Err(error),
            Ok((prepared, after)) => Ok((StatementModel::Assignment(prepared), after)),
        },
        StatementModel::CommandAssignment(assignment) => prepared_command_assignment(
            preparer,
            assignment,
        ),
        StatementModel::Include(file) => match prepared_rc_file(preparer, file) {
            Err(error) => Err(error),
            Ok(prepared) => Ok(
                (
                    StatementModel::Include(prepared),
                    preparer.with_all_dynamic(positional_names(
                        MAX_POSITIONAL_ARGUMENTS as nat,
                    )),
                ),
            ),
        },
        StatementModel::Switch(file) => match prepared_rc_file(preparer, file) {
            Err(error) => Err(error),
            Ok(prepared) => Ok(
                (
                    StatementModel::Switch(prepared),
                    preparer.with_all_dynamic(positional_names(
                        MAX_POSITIONAL_ARGUMENTS as nat,
                    )),
                ),
            ),
        },
        StatementModel::Recipe(recipe) => match prepared_recipe(
            preparer,
            recipe,
            recipe_phase(preparer),
        ) {
            Err(error) => Err(error),
            Ok(prepared) => Ok(
                (
                    StatementModel::Recipe(prepared),
                    preparer.with_all_dynamic(recipe_names(prepared)),
                ),
            ),
        },
    }
}

/// The first `n` statements, prepared, and what is known then.
pub open spec fn prepared_statements(
    preparer: Preparer,
    statements: Seq<StatementModel>,
    n: nat,
) -> Result<(Seq<StatementModel>, Preparer), Fault>
    decreases statements, n,
{
    if n == 0 || n > statements.len() {
        Ok((Seq::empty(), preparer))
    } else {
        match prepared_statements(preparer, statements, (n - 1) as nat) {
            Err(error) => Err(error),
            Ok((before, known)) => match prepared_statement(known, statements[n - 1]) {
                Err(error) => Err(error),
                Ok((statement, after)) => Ok((before.push(statement), after)),
            },
        }
    }
}

/// The expression of a text: the one that is kept, or the one that the text
/// writes.
fn take_expression(expansion: Option<ShellExpression>, source: &str, line: usize) -> (r: Result<
    ShellExpression,
    ExpansionError,
>)
    ensures
        errors::expanded_as(
            r,
            resolution::expression_of(
                recipe::expansion_model(expansion),
                source@,
                line as nat,
            ),
        ),
{
    match expansion {
        Some(expression) => Ok(expression),
        None => parse_expression(source, line),
    }
}

/// Marks the positional parameters as variables that may change.
fn mark_positional_dynamic(dynamic: &mut NameSet)
    ensures
        final(dynamic)@ == old(dynamic)@.union(
            positional_names(MAX_POSITIONAL_ARGUMENTS as nat),
        ),
{
    let ghost before = dynamic@;
    dynamic.insert("#".to_owned());
    assert(dynamic@ =~= before.union(positional_names(0)));
    let mut index: usize = 0;
    while index < MAX_POSITIONAL_ARGUMENTS
        invariant
            index <= MAX_POSITIONAL_ARGUMENTS,
            dynamic@ == before.union(positional_names(index as nat)),
        decreases MAX_POSITIONAL_ARGUMENTS - index,
    {
        index = index + 1;
        dynamic.insert(decimal_text(index));
        assert(dynamic@ =~= before.union(positional_names(index as nat)));
    }
}

/// Prepares the lockfile of a recipe.
fn prepare_lock_expression(expression: PathExpression, line: usize, preparer: &ConfigPreparer) -> (r:
    Result<PathExpression, ExpansionError>)
    ensures
        errors::expanded_as(r, prepared_lock(preparer@, expression@, line as nat)),
{
    proof {
        reveal(prepared_lock);
    }
    let parsed = match parse_expression(expression.source.as_str(), line) {
        Ok(parsed) => parsed,
        Err(error) => {
            return Err(error);
        },
    };
    match reject_parameter_assignments(&parsed, line, "lockfile path") {
        Ok(()) => {},
        Err(error) => {
            return Err(error);
        },
    }
    let found = ExpressionAnalysis::new(&parsed, &preparer.known, &preparer.dynamic);
    match found.validate_runtime_references(line) {
        Ok(()) => {},
        Err(error) => {
            return Err(error);
        },
    }
    let runtime_dependent = found.needs_runtime || found.references_dynamic;
    let prepared = PathExpression {
        source: expression.source,
        base: copied_text(&preparer.maildir),
        line,
        runtime_dependent,
        runtime_base: runtime_dependent,
        typed_destination: expression.typed_destination,
        expansion: Some(parsed),
    };
    if !runtime_dependent && !prepared.source.as_str().is_empty() {
        match prepared.resolve_with(TextValues::Known(&preparer.known)) {
            Ok(_) => {},
            Err(error) => {
                return Err(error);
            },
        }
    }
    Ok(prepared)
}

/// Prepares the value of a header field.
fn prepare_header(
    value: HeaderValue,
    line: usize,
    known: &NameTable<ExpandedValue>,
    dynamic: &NameSet,
) -> (r: Result<HeaderValue, ExpansionError>)
    ensures
        errors::expanded_as(
            r,
            prepared_header(
                Scope { known: known@, dynamic: dynamic@ },
                value@,
                line as nat,
            ),
        ),
{
    proof {
        reveal(prepared_header);
    }
    let parsed = match parse_expression(value.source.as_str(), line) {
        Ok(parsed) => parsed,
        Err(error) => {
            return Err(error);
        },
    };
    match reject_parameter_assignments(&parsed, line, "native header value") {
        Ok(()) => {},
        Err(error) => {
            return Err(error);
        },
    }
    let found = ExpressionAnalysis::new(&parsed, known, dynamic);
    match found.validate_runtime_references(line) {
        Ok(()) => {},
        Err(error) => {
            return Err(error);
        },
    }
    if !(found.needs_runtime || found.references_dynamic) {
        let expanded = match evaluate_with_linebuf(
            &parsed,
            line,
            MAX_ASSIGNMENT_VALUE_LEN,
            TextValues::Known(known),
        ) {
            Ok(expanded) => expanded,
            Err(error) => {
                return Err(error);
            },
        };
        match validate_header_value(expanded.as_str(), line) {
            Ok(()) => {},
            Err(error) => {
                return Err(error);
            },
        }
    }
    Ok(HeaderValue { source: value.source, expansion: Some(parsed) })
}

fn prepare_operation(
    operation: HeaderOperation,
    known: &NameTable<ExpandedValue>,
    dynamic: &NameSet,
) -> (r: Result<HeaderOperation, ExpansionError>)
    ensures
        errors::expanded_as(
            r,
            prepared_operation(Scope { known: known@, dynamic: dynamic@ }, operation@),
        ),
{
    match operation {
        HeaderOperation::Replace { line, name, value } => match prepare_header(
            value,
            line,
            known,
            dynamic,
        ) {
            Ok(value) => Ok(HeaderOperation::Replace { line, name, value }),
            Err(error) => Err(error),
        },
        HeaderOperation::Add { line, name, value } => match prepare_header(
            value,
            line,
            known,
            dynamic,
        ) {
            Ok(value) => Ok(HeaderOperation::Add { line, name, value }),
            Err(error) => Err(error),
        },
        HeaderOperation::Prepend { line, name, value } => match prepare_header(
            value,
            line,
            known,
            dynamic,
        ) {
            Ok(value) => Ok(HeaderOperation::Prepend { line, name, value }),
            Err(error) => Err(error),
        },
        other => Ok(other),
    }
}

proof fn lemma_first_operation_fault(
    scope: Scope,
    operations: Seq<HeaderOperationModel>,
    n: nat,
    m: nat,
)
    requires
        n <= m <= operations.len(),
        prepared_operations(scope, operations, n) is Err,
    ensures
        prepared_operations(scope, operations, m) == prepared_operations(scope, operations, n),
    decreases m,
{
    if n < m {
        lemma_first_operation_fault(scope, operations, n, (m - 1) as nat);
    }
}

/// Prepares a headers action. Values that are known are checked now.
pub fn prepare_header_action(
    action: HeaderAction,
    known: &NameTable<ExpandedValue>,
    dynamic: &NameSet,
) -> (r: Result<HeaderAction, ExpansionError>)
    ensures
        errors::expanded_as(
            r,
            prepared_operations(
                Scope { known: known@, dynamic: dynamic@ },
                action@,
                action@.len(),
            ),
        ),
{
    let ghost scope = Scope { known: known@, dynamic: dynamic@ };
    let ghost models = action@;
    let mut operations: Vec<HeaderOperation> = Vec::new();
    assert(recipe::operation_models(operations@) =~= Seq::empty());
    for operation in it: action.operations
        invariant
            models == recipe::operation_models(it.seq()),
            scope == (Scope { known: known@, dynamic: dynamic@ }),
            prepared_operations(scope, models, it.index() as nat) == Ok::<
                Seq<HeaderOperationModel>,
                Fault,
            >(recipe::operation_models(operations@)),
    {
        let ghost position = it.index();
        assert(models[position as int] == operation@);
        match prepare_operation(operation, known, dynamic) {
            Ok(next) => {
                let ghost before = operations@;
                operations.push(next);
                assert(recipe::operation_models(operations@) =~= recipe::operation_models(
                    before,
                ).push(next@));
            },
            Err(error) => {
                proof {
                    lemma_first_operation_fault(
                        scope,
                        models,
                        (position + 1) as nat,
                        models.len(),
                    );
                }
                return Err(error);
            },
        }
    }
    Ok(HeaderAction { operations })
}

/// Marks the variables that header operations set as ones that may change.
fn record_extracted_names(operations: &Vec<HeaderOperation>, dynamic: &mut NameSet)
    ensures
        final(dynamic)@ == old(dynamic)@.union(
            extracted_names(recipe::operation_models(operations@), operations@.len()),
        ),
{
    let ghost before = dynamic@;
    let ghost models = recipe::operation_models(operations@);
    assert(dynamic@ =~= before.union(extracted_names(models, 0)));
    let mut i: usize = 0;
    while i < operations.len()
        invariant
            i <= operations@.len(),
            models == recipe::operation_models(operations@),
            dynamic@ == before.union(extracted_names(models, i as nat)),
        decreases operations.len() - i,
    {
        assert(models[i as int] == operations@[i as int]@);
        if let HeaderOperation::Extract { target, .. } = &operations[i] {
            dynamic.insert(target.clone());
        }
        i = i + 1;
        assert(dynamic@ =~= before.union(extracted_names(models, i as nat)));
    }
}

/// Marks the variables that a recipe may change as ones that may change.
fn record_recipe_dynamic_names(recipe: &Recipe, dynamic: &mut NameSet)
    ensures
        final(dynamic)@ == old(dynamic)@.union(recipe_names(recipe@)),
    decreases recipe, 0nat,
{
    let ghost before = dynamic@;
    match &recipe.action {
        RecipeAction::Capture(capture) => {
            dynamic.insert(capture.name.clone());
        },
        RecipeAction::Block(statements) => {
            proof {
                recipe::lemma_statement_models(statements@, statements@.len());
            }
            record_statement_names(statements, dynamic);
        },
        RecipeAction::Deliver(destination) => {
            if let Some(expression) = destination.command_expression() {
                dynamic.extend(expression.assignment_names());
            }
        },
        RecipeAction::Headers(action) => {
            record_extracted_names(&action.operations, dynamic);
        },
        RecipeAction::Pipe(_) => {},
    }
    assert(dynamic@ =~= before.union(recipe_names(recipe@)));
}

fn record_statement_names(statements: &Vec<Statement>, dynamic: &mut NameSet)
    ensures
        final(dynamic)@ == old(dynamic)@.union(
            statement_names(recipe::models_of(statements@), statements@.len()),
        ),
    decreases statements, 1nat,
{
    let ghost before = dynamic@;
    let ghost models = recipe::models_of(statements@);
    proof {
        recipe::lemma_statement_models(statements@, statements@.len());
    }
    assert(dynamic@ =~= before.union(statement_names(models, 0)));
    let mut i: usize = 0;
    while i < statements.len()
        invariant
            i <= statements@.len(),
            models == recipe::models_of(statements@),
            models.len() == statements@.len(),
            forall|j: int| 0 <= j < statements@.len() ==> #[trigger] models[j] == statements@[j]@,
            dynamic@ == before.union(statement_names(models, i as nat)),
        decreases statements.len() - i,
    {
        assert(models[i as int] == statements@[i as int]@);
        match &statements[i] {
            Statement::Assignment(assignment) => {
                dynamic.insert(assignment.name.clone());
            },
            Statement::CommandAssignment(assignment) => {
                dynamic.insert(assignment.name.clone());
            },
            Statement::Recipe(child) => {
                record_recipe_dynamic_names(child, dynamic);
            },
            Statement::Include(_) | Statement::Switch(_) => {},
        }
        i = i + 1;
        assert(dynamic@ =~= before.union(statement_names(models, i as nat)));
    }
}

proof fn lemma_first_statement_fault(
    preparer: Preparer,
    statements: Seq<StatementModel>,
    n: nat,
    m: nat,
)
    requires
        n <= m <= statements.len(),
        prepared_statements(preparer, statements, n) is Err,
    ensures
        prepared_statements(preparer, statements, m) == prepared_statements(
            preparer,
            statements,
            n,
        ),
    decreases m,
{
    if n < m {
        lemma_first_statement_fault(preparer, statements, n, (m - 1) as nat);
    }
}

impl ConfigPreparer {
    /// Gives an assignment its fixed value.
    fn settle_assignment(&mut self, assignment: Assignment, parsed: ShellExpression) -> (r: Result<
        Assignment,
        ExpansionError,
    >)
        requires
            assignment.expansion is None,
        ensures
            match settled_assignment(old(self)@, assignment@, parsed@) {
                Ok(settled) => r matches Ok(found) && found@ == (AssignmentModel {
                    value: settled.value.text,
                    ..assignment@
                }) && final(self)@ == (Preparer {
                    known: old(self)@.known.insert(assignment@.name, settled.value),
                    maildir: settled.maildir,
                    linebuf: settled.linebuf,
                    ..old(self)@
                }),
                Err(error) => r matches Err(found) && found@ == error,
            },
    {
        proof {
            reveal(settled_assignment);
        }
        let Assignment { line, name, value: _, target, expansion: _ } = assignment;
        let hard_limit = assignment_value_limit(target);
        let limit = if hard_limit < self.linebuf {
            hard_limit
        } else {
            self.linebuf
        };
        let expanded = match evaluate_config_expression(&parsed, line, limit, &self.known) {
            Ok(expanded) => expanded,
            Err(error) => {
                return Err(relabel_linebuf_error(error, self.linebuf, hard_limit));
            },
        };
        let ExpandedValue { text: mut value, depth } = expanded;
        match target.validate_value(value.as_str()) {
            Ok(()) => {},
            Err(message) => {
                return Err(ExpansionError::new(line, message));
            },
        }
        if target == AssignmentTarget::LineBuf {
            match parse_linebuf(value.as_str(), line) {
                Ok(linebuf) => {
                    self.linebuf = linebuf;
                },
                Err(error) => {
                    return Err(error);
                },
            }
        }
        if let Some(path) = target.path() {
            match resolve_assigned_path(path, value.as_str(), line, &self.maildir) {
                Ok(resolved) => {
                    value = resolved;
                },
                Err(error) => {
                    return Err(error);
                },
            }
            if target == AssignmentTarget::Maildir {
                self.maildir = Some(value.clone());
            }
        }
        self.known.insert(name.clone(), ExpandedValue { text: value.clone(), depth });
        Ok(Assignment { line, name, value, target, expansion: None })
    }

    /// Prepares an assignment on a path that only some messages take.
    fn prepare_deferred_assignment(&mut self, assignment: Assignment) -> (r: Result<
        Assignment,
        ExpansionError,
    >)
        ensures
            match deferred_assignment(old(self)@, assignment@) {
                Ok((prepared, after)) => r matches Ok(found) && found@ == prepared && final(self)@
                    == after,
                Err(error) => r matches Err(found) && found@ == error,
            },
    {
        proof {
            reveal(deferred_assignment);
        }
        let Assignment { line, name, value, target, expansion } = assignment;
        if !target.supports_conditional_assignment() {
            return Err(
                ExpansionError::new(
                    line,
                    text3("variable ", name.as_str(), " cannot be assigned conditionally yet"),
                ),
            );
        }
        let parsed = match take_expression(expansion, value.as_str(), line) {
            Ok(parsed) => parsed,
            Err(error) => {
                return Err(error);
            },
        };
        let found = ExpressionAnalysis::new(&parsed, &self.known, &self.dynamic);
        match found.validate_runtime_references(line) {
            Ok(()) => {},
            Err(error) => {
                return Err(error);
            },
        }
        if !(found.needs_runtime || found.references_dynamic) {
            let known = match evaluate_config_expression(
                &parsed,
                line,
                assignment_value_limit(target),
                &self.known,
            ) {
                Ok(known) => known,
                Err(error) => {
                    return Err(error);
                },
            };
            match target.validate_value(known.text.as_str()) {
                Ok(()) => {},
                Err(message) => {
                    return Err(ExpansionError::new(line, message));
                },
            }
        }
        self.dynamic.insert(name.clone());
        Ok(Assignment { line, name, value, target, expansion: Some(parsed) })
    }

    /// Prepares an assignment.
    fn prepare_assignment(&mut self, assignment: Assignment) -> (r: Result<
        Assignment,
        ExpansionError,
    >)
        ensures
            match prepared_assignment(old(self)@, assignment@) {
                Ok((prepared, after)) => r matches Ok(found) && found@ == prepared && final(self)@
                    == after,
                Err(error) => r matches Err(found) && found@ == error,
            },
    {
        proof {
            reveal(prepared_assignment);
        }
        if self.phase == PreparationPhase::Deferred {
            return self.prepare_deferred_assignment(assignment);
        }
        let Assignment { line, name, value, target, expansion } = assignment;
        let parsed = match take_expression(expansion, value.as_str(), line) {
            Ok(parsed) => parsed,
            Err(error) => {
                return Err(error);
            },
        };
        let found = ExpressionAnalysis::new(&parsed, &self.known, &self.dynamic);
        if found.references_dynamic {
            match found.validate_runtime_references(line) {
                Ok(()) => {},
                Err(error) => {
                    return Err(error);
                },
            }
            self.dynamic.insert(name.clone());
            return Ok(Assignment { line, name, value, target, expansion: Some(parsed) });
        }
        let bare = Assignment { line, name, value, target, expansion: None };
        proof {
            lemma_settled_by_expression(self@, assignment@, bare@, parsed@);
        }
        self.settle_assignment(bare, parsed)
    }

    /// Prepares an assignment of a command's output.
    fn prepare_command_assignment(&mut self, assignment: CommandAssignment) -> (r: Result<
        Statement,
        ExpansionError,
    >)
        ensures
            match prepared_command_assignment(old(self)@, assignment@) {
                Ok((prepared, after)) => r matches Ok(found) && found@ == prepared && final(self)@
                    == after,
                Err(error) => r matches Err(found) && found@ == error,
            },
    {
        proof {
            reveal(prepared_command_assignment);
        }
        let line = assignment.line;
        let mut expression_dynamic = self.dynamic.duplicate();
        expression_dynamic.extend(assignment.expression.assignment_names());
        let found = ExpressionAnalysis::new(
            &assignment.expression,
            &self.known,
            &expression_dynamic,
        );
        match found.validate_runtime_references(line) {
            Ok(()) => {},
            Err(error) => {
                return Err(error);
            },
        }
        if self.phase == PreparationPhase::Eager && !found.has_runtime_part()
            && !found.references_dynamic {
            let expansion = match bind_static_expression(
                &assignment.expression,
                line,
                TextValues::Known(&self.known),
                0,
            ) {
                Ok(expansion) => expansion,
                Err(error) => {
                    return Err(error);
                },
            };
            let CommandAssignment { line, name, source, target, expression: _ } = assignment;
            let plain = Assignment {
                line,
                name,
                value: source,
                target,
                expansion: Some(expansion),
            };
            return match self.prepare_assignment(plain) {
                Ok(prepared) => Ok(Statement::Assignment(prepared)),
                Err(error) => Err(error),
            };
        }
        self.dynamic.extend(assignment.expression.assignment_names());
        self.dynamic.insert(assignment.name.clone());
        Ok(Statement::CommandAssignment(assignment))
    }

    /// Prepares the path of a further rc file.
    fn prepare_rc_file(&self, file: RcFileExpression) -> (r: Result<
        RcFileExpression,
        ExpansionError,
    >)
        ensures
            errors::expanded_as(r, prepared_rc_file(self@, file@)),
    {
        proof {
            reveal(prepared_rc_file);
        }
        let RcFileExpression { line, value, expansion } = file;
        let parsed = match take_expression(expansion, value.as_str(), line) {
            Ok(parsed) => parsed,
            Err(error) => {
                return Err(error);
            },
        };
        match reject_parameter_assignments(&parsed, line, "runtime rc path") {
            Ok(()) => {},
            Err(error) => {
                return Err(error);
            },
        }
        if parsed.has_commands() {
            return Err(
                ExpansionError::told(
                    line,
                    "command substitution is not supported in runtime rc path",
                ),
            );
        }
        let found = ExpressionAnalysis::new(&parsed, &self.known, &self.dynamic);
        match found.validate_runtime_references(line) {
            Ok(()) => {},
            Err(error) => {
                return Err(error);
            },
        }
        Ok(RcFileExpression { line, value, expansion: Some(parsed) })
    }

    /// Prepares a destination.
    fn prepare_destination(
        &self,
        destination: Destination,
        line: usize,
        phase: PreparationPhase,
    ) -> (r: Result<Destination, ExpansionError>)
        ensures
            errors::expanded_as(
                r,
                prepared_destination(self@, destination@, line as nat, phase),
            ),
    {
        proof {
            reveal(prepared_destination);
        }
        let runtime_base = self.dynamic.contains("MAILDIR");
        if let Some(ordered) = destination.command_expression() {
            let mut expression_dynamic = self.dynamic.duplicate();
            expression_dynamic.extend(ordered.assignment_names());
            let found = ExpressionAnalysis::new(ordered, &self.known, &expression_dynamic);
            match found.validate_runtime_references(line) {
                Ok(()) => {},
                Err(error) => {
                    return Err(error);
                },
            }
            let (kind, path) = destination.into_parts();
            let prepared = PathExpression {
                source: path.source,
                base: copied_text(&self.maildir),
                line,
                runtime_dependent: true,
                runtime_base,
                typed_destination: path.typed_destination,
                expansion: path.expansion,
            };
            return Ok(destination_with(kind, prepared));
        }
        let (kind, path) = destination.into_parts();
        let parsed = match parse_expression(path.source.as_str(), line) {
            Ok(parsed) => parsed,
            Err(error) => {
                return Err(error);
            },
        };
        let found = ExpressionAnalysis::new(&parsed, &self.known, &self.dynamic);
        let checked = if phase == PreparationPhase::Eager {
            found.validate_path_references(line)
        } else {
            found.validate_runtime_references(line)
        };
        match checked {
            Ok(()) => {},
            Err(error) => {
                return Err(error);
            },
        }
        let runtime_dependent = found.references_dynamic || found.needs_runtime;
        let prepared = destination_with(
            kind,
            PathExpression {
                source: path.source,
                base: copied_text(&self.maildir),
                line,
                runtime_dependent,
                runtime_base,
                typed_destination: path.typed_destination,
                expansion: Some(parsed),
            },
        );
        if phase == PreparationPhase::Eager && !runtime_dependent {
            let resolved = match prepared.resolve_with(TextValues::Known(&self.known)) {
                Ok(resolved) => resolved,
                Err(error) => {
                    return Err(error);
                },
            };
            if prepared.kind() == DestinationKind::File && resolved.kind()
                == DestinationKind::Discard {
                let (_, path) = prepared.into_parts();
                return Ok(Destination::Discard(path));
            }
        }
        Ok(prepared)
    }

    /// Prepares a recipe.
    fn prepare_recipe(&self, recipe: Recipe, phase: PreparationPhase) -> (r: Result<
        Recipe,
        ExpansionError,
    >)
        ensures
            errors::expanded_as(r, prepared_recipe(self@, recipe@, phase)),
        decreases recipe, 0nat,
    {
        proof {
            reveal(prepared_frame);
        }
        let Recipe { line, action_line, options, lock, conditions, action } = recipe;
        let conditions = match prepare_shell_conditions(
            conditions,
            &self.known,
            &self.dynamic,
            options.case_mode == CaseMode::Sensitive,
        ) {
            Ok(conditions) => conditions,
            Err(error) => {
                return Err(error);
            },
        };
        let lock = match lock {
            None => None,
            Some(path) => match prepare_lock_expression(path, line, self) {
                Ok(path) => {
                    let is_pipe = match &action {
                        RecipeAction::Pipe(_) => true,
                        _ => false,
                    };
                    if path.source.as_str().is_empty() && is_pipe {
                        return Err(
                            ExpansionError::told(
                                line,
                                "an implicit local lockfile requires a filesystem destination",
                            ),
                        );
                    }
                    Some(path)
                },
                Err(error) => {
                    return Err(error);
                },
            },
        };
        let action = match action {
            RecipeAction::Deliver(destination) => match self.prepare_destination(
                destination,
                action_line,
                phase,
            ) {
                Ok(prepared) => RecipeAction::Deliver(prepared),
                Err(error) => {
                    return Err(error);
                },
            },
            RecipeAction::Headers(headers) => match prepare_header_action(
                headers,
                &self.known,
                &self.dynamic,
            ) {
                Ok(prepared) => RecipeAction::Headers(prepared),
                Err(error) => {
                    return Err(error);
                },
            },
            RecipeAction::Block(statements) => {
                proof {
                    recipe::lemma_statement_models(statements@, statements@.len());
                }
                let dynamic = if phase == PreparationPhase::Eager {
                    NameSet::new()
                } else {
                    self.dynamic.duplicate()
                };
                let mut child = ConfigPreparer {
                    known: self.known.duplicate(),
                    dynamic,
                    maildir: copied_text(&self.maildir),
                    linebuf: self.linebuf,
                    phase: PreparationPhase::Deferred,
                };
                assert(child@ == block_preparer(self@, phase));
                match child.prepare_statements(statements) {
                    Ok(prepared) => RecipeAction::Block(prepared),
                    Err(error) => {
                        return Err(error);
                    },
                }
            },
            RecipeAction::Pipe(pipe) => RecipeAction::Pipe(pipe),
            RecipeAction::Capture(capture) => RecipeAction::Capture(capture),
        };
        Ok(Recipe { line, action_line, options, lock, conditions, action })
    }

    /// Prepares a statement.
    fn prepare_statement(&mut self, statement: Statement) -> (r: Result<Statement, ExpansionError>)
        ensures
            match prepared_statement(old(self)@, statement@) {
                Ok((prepared, after)) => r matches Ok(found) && found@ == prepared && final(self)@
                    == after,
                Err(error) => r matches Err(found) && found@ == error,
            },
        decreases statement, 0nat,
    {
        match statement {
            Statement::Assignment(assignment) => match self.prepare_assignment(assignment) {
                Ok(prepared) => Ok(Statement::Assignment(prepared)),
                Err(error) => Err(error),
            },
            Statement::CommandAssignment(assignment) => self.prepare_command_assignment(assignment),
            Statement::Recipe(recipe) => {
                let phase = if self.phase == PreparationPhase::Eager && self.dynamic.is_empty() {
                    PreparationPhase::Eager
                } else {
                    PreparationPhase::Deferred
                };
                match self.prepare_recipe(recipe, phase) {
                    Ok(prepared) => {
                        record_recipe_dynamic_names(&prepared, &mut self.dynamic);
                        Ok(Statement::Recipe(prepared))
                    },
                    Err(error) => Err(error),
                }
            },
            Statement::Include(file) => match self.prepare_rc_file(file) {
                Ok(prepared) => {
                    mark_positional_dynamic(&mut self.dynamic);
                    Ok(Statement::Include(prepared))
                },
                Err(error) => Err(error),
            },
            Statement::Switch(file) => match self.prepare_rc_file(file) {
                Ok(prepared) => {
                    mark_positional_dynamic(&mut self.dynamic);
                    Ok(Statement::Switch(prepared))
                },
                Err(error) => Err(error),
            },
        }
    }

    /// Prepares statements, one after another.
    pub fn prepare_statements(&mut self, statements: Vec<Statement>) -> (r: Result<
        Vec<Statement>,
        ExpansionError,
    >)
        ensures
            match prepared_statements(
                old(self)@,
                recipe::models_of(statements@),
                statements@.len(),
            ) {
                Ok((prepared, after)) => r matches Ok(found) && recipe::models_of(found@)
                    == prepared && final(self)@ == after,
                Err(error) => r matches Err(found) && found@ == error,
            },
        decreases statements, 1nat,
    {
        let ghost initial = self@;
        let ghost all = statements;
        let ghost models = recipe::models_of(statements@);
        proof {
            recipe::lemma_statement_models(statements@, statements@.len());
            recipe::lemma_models_push(Seq::empty(), arbitrary());
        }
        let mut prepared: Vec<Statement> = Vec::new();
        for statement in it: statements
            invariant
                it.seq() == all@,
                all == statements,
                initial == old(self)@,
                models == recipe::models_of(all@),
                models.len() == all@.len(),
                forall|j: int| 0 <= j < all@.len() ==> #[trigger] models[j] == all@[j]@,
                prepared_statements(initial, models, it.index() as nat) == Ok::<
                    (Seq<StatementModel>, Preparer),
                    Fault,
                >((recipe::models_of(prepared@), self@)),
        {
            let ghost position = it.index();
            assert(models[position as int] == statement@);
            assert(decreases_to!(all => all@[position as int]));
            match self.prepare_statement(statement) {
                Ok(next) => {
                    proof {
                        recipe::lemma_models_push(prepared@, next);
                    }
                    prepared.push(next);
                },
                Err(error) => {
                    proof {
                        lemma_first_statement_fault(
                            initial,
                            models,
                            (position + 1) as nat,
                            models.len(),
                        );
                    }
                    return Err(error);
                },
            }
        }
        Ok(prepared)
    }
}

/// A fixed value depends on the expression alone, not on the text that it was
/// read from.
proof fn lemma_settled_by_expression(
    preparer: Preparer,
    a: AssignmentModel,
    b: AssignmentModel,
    expression: ExpressionModel,
)
    requires
        a.line == b.line,
        a.target == b.target,
    ensures
        settled_assignment(preparer, a, expression) == settled_assignment(preparer, b, expression),
{
    reveal(settled_assignment);
}

/// A recipe, whatever its block assigns, changes nothing of what is known: it
/// only marks variables as ones that may change.
pub proof fn a_recipe_changes_no_known_value(preparer: Preparer, recipe: RecipeModel)
    requires
        prepared_statement(preparer, StatementModel::Recipe(recipe)) is Ok,
    ensures
        ({
            let after = prepared_statement(
                preparer,
                StatementModel::Recipe(recipe),
            )->Ok_0.1;
            &&& after.known == preparer.known
            &&& after.maildir == preparer.maildir
            &&& after.linebuf == preparer.linebuf
            &&& after.phase == preparer.phase
            &&& preparer.dynamic.subset_of(after.dynamic)
        }),
{
}

proof fn lemma_statement_keeps(preparer: Preparer, statement: StatementModel)
    requires
        prepared_statement(preparer, statement) is Ok,
    ensures
        ({
            let after = prepared_statement(preparer, statement)->Ok_0.1;
            preparer.dynamic.subset_of(after.dynamic) && after.phase == preparer.phase
        }),
{
    reveal(prepared_assignment);
    reveal(deferred_assignment);
    reveal(prepared_command_assignment);
}

/// A variable that may change stays one that may, and preparing keeps the
/// number of statements.
pub proof fn preparation_keeps_what_may_change(
    preparer: Preparer,
    statements: Seq<StatementModel>,
    n: nat,
)
    requires
        n <= statements.len(),
        prepared_statements(preparer, statements, n) is Ok,
    ensures
        ({
            let (prepared, after) = prepared_statements(preparer, statements, n)->Ok_0;
            &&& prepared.len() == n
            &&& preparer.dynamic.subset_of(after.dynamic)
            &&& after.phase == preparer.phase
        }),
    decreases n,
{
    if n > 0 {
        preparation_keeps_what_may_change(preparer, statements, (n - 1) as nat);
        let known = prepared_statements(preparer, statements, (n - 1) as nat)->Ok_0.1;
        lemma_statement_keeps(known, statements[n - 1]);
    }
}

/// While assignments are conditional, nothing more becomes known.
pub proof fn conditional_assignments_make_nothing_known(
    preparer: Preparer,
    assignment: AssignmentModel,
)
    requires
        preparer.phase is Deferred,
        prepared_assignment(preparer, assignment) is Ok,
    ensures
        ({
            let (prepared, after) = prepared_assignment(preparer, assignment)->Ok_0;
            &&& after.known == preparer.known
            &&& after.maildir == preparer.maildir
            &&& after.dynamic.contains(assignment.name)
            &&& prepared.expansion is Some
            &&& assignment.target.may_be_conditional()
        }),
{
    reveal(prepared_assignment);
    reveal(deferred_assignment);
}

/// An assignment of a fixed value makes that value known, to the statements
/// after it.
pub proof fn fixed_assignments_become_known(preparer: Preparer, assignment: AssignmentModel)
    requires
        preparer.phase is Eager,
        prepared_assignment(preparer, assignment) is Ok,
        prepared_assignment(preparer, assignment)->Ok_0.0.expansion is None,
    ensures
        ({
            let (prepared, after) = prepared_assignment(preparer, assignment)->Ok_0;
            &&& after.known.contains_key(assignment.name)
            &&& after.known[assignment.name].text == prepared.value
            &&& assignment.target is Maildir ==> after.maildir == Some(prepared.value)
        }),
{
    reveal(prepared_assignment);
    reveal(settled_assignment);
}

} // verus!
