//! What a plan needs of a message, when a recipe runs, and what is kept of a
//! command's output.

use vstd::prelude::*;
use vstd::string::*;
use vstd::utf8::*;

use crate::config::errors::{ExpansionError, Fault};
use crate::config::recipe::{
    self, Assignment, AssignmentModel, CommandAssignment, CommandAssignmentModel, Config,
    ControlFlow, PathExpression, PathModel, RcFileExpression, RcFileModel,
};
use crate::config::resolution;
use crate::config::shell_eval::TextValues;
use crate::config::variables::AssignmentTarget;
use crate::runtime::{self, RuntimeVariables};
use crate::text::same_text;

verus! {

/// What a command wrote.
#[derive(Debug, PartialEq, Eq)]
pub struct CapturedCommand {
    output: Vec<u8>,
}

impl View for CapturedCommand {
    type V = Seq<u8>;

    closed spec fn view(&self) -> Seq<u8> {
        self.output@
    }
}

impl CapturedCommand {
    pub fn new(output: Vec<u8>) -> (r: Self)
        ensures
            r@ == output@,
    {
        CapturedCommand { output }
    }

    pub fn output(&self) -> (r: &[u8])
        ensures
            r@ == self@,
    {
        self.output.as_slice()
    }

    pub fn into_output(self) -> (r: Vec<u8>)
        ensures
            r@ == self@,
    {
        self.output
    }
}

/// How many of the line feeds at the end of an output are dropped.
#[derive(Debug, Clone, Copy, PartialEq, Eq, Structural)]
pub enum CapturedNewlineRule {
    StripOne,
    StripAll,
}

/// Why statements cannot be executed.
#[derive(Debug, PartialEq, Eq)]
pub enum EvalError {
    VariableValueTooLarge { name: String, size: usize },
    Expansion(ExpansionError),
    RuntimeSettingUnavailable { line: usize, name: String },
    ExternalActionUnsupported { line: usize },
    RuntimeRcLoaderUnavailable { line: usize, statement: String },
}

pub enum EvalFault {
    VariableValueTooLarge { name: Seq<char>, size: nat },
    Expansion(Fault),
    RuntimeSettingUnavailable { line: nat, name: Seq<char> },
    ExternalActionUnsupported { line: nat },
    RuntimeRcLoaderUnavailable { line: nat, statement: Seq<char> },
}

impl View for EvalError {
    type V = EvalFault;

    open spec fn view(&self) -> EvalFault {
        match self {
            EvalError::VariableValueTooLarge { name, size } => EvalFault::VariableValueTooLarge {
                name: name@,
                size: *size as nat,
            },
            EvalError::Expansion(error) => EvalFault::Expansion(error@),
            EvalError::RuntimeSettingUnavailable { line, name } => {
                EvalFault::RuntimeSettingUnavailable { line: *line as nat, name: name@ }
            },
            EvalError::ExternalActionUnsupported { line } => EvalFault::ExternalActionUnsupported {
                line: *line as nat,
            },
            EvalError::RuntimeRcLoaderUnavailable { line, statement } => {
                EvalFault::RuntimeRcLoaderUnavailable { line: *line as nat, statement: statement@ }
            },
        }
    }
}

/// An output without the line feeds at its end.
pub open spec fn without_line_feeds(output: Seq<u8>) -> Seq<u8>
    decreases output.len(),
{
    if output.len() > 0 && output.last() == 10 {
        without_line_feeds(output.drop_last())
    } else {
        output
    }
}

/// What is kept of an output.
pub open spec fn kept_output(output: Seq<u8>, rule: CapturedNewlineRule) -> Seq<u8> {
    match rule {
        CapturedNewlineRule::StripOne => if output.len() > 0 && output.last() == 10 {
            output.drop_last()
        } else {
            output
        },
        CapturedNewlineRule::StripAll => without_line_feeds(output),
    }
}

/// Makes the value of a variable of a command's output.
pub fn validate_captured_value(
    output: Vec<u8>,
    limit: usize,
    variable: &str,
    newline_rule: CapturedNewlineRule,
) -> (r: Result<Vec<u8>, EvalError>)
    ensures
        if output@.len() > limit {
            r matches Err(error) && error@ == (EvalFault::VariableValueTooLarge {
                name: variable@,
                size: output@.len(),
            })
        } else {
            r matches Ok(value) && value@ == kept_output(output@, newline_rule)
        },
{
    if output.len() > limit {
        return Err(
            EvalError::VariableValueTooLarge { name: variable.to_owned(), size: output.len() },
        );
    }
    let ghost before = output@;
    let mut value = output;
    match newline_rule {
        CapturedNewlineRule::StripOne => {
            let length = value.len();
            if length > 0 && value[length - 1] == 10 {
                let _ = value.pop();
                assert(value@ =~= before.drop_last());
            }
        },
        CapturedNewlineRule::StripAll => {
            while value.len() > 0 && value[value.len() - 1] == 10
                invariant
                    without_line_feeds(value@) == without_line_feeds(before),
                decreases value@.len(),
            {
                let ghost longer = value@;
                let _ = value.pop();
                assert(value@ =~= longer.drop_last());
            }
        },
    }
    Ok(value)
}

/// What is kept of an output is its start, and where all line feeds are
/// dropped it ends with none.
pub proof fn kept_output_is_a_prefix(output: Seq<u8>, rule: CapturedNewlineRule)
    ensures
        ({
            let kept = kept_output(output, rule);
            &&& kept.len() <= output.len()
            &&& kept == output.take(kept.len() as int)
            &&& rule is StripAll ==> kept.len() == 0 || kept.last() != 10
        }),
{
    lemma_without_line_feeds(output);
    let kept = kept_output(output, rule);
    assert(kept =~= output.take(kept.len() as int));
}

proof fn lemma_without_line_feeds(output: Seq<u8>)
    ensures
        ({
            let kept = without_line_feeds(output);
            &&& kept.len() <= output.len()
            &&& forall|i: int| 0 <= i < kept.len() ==> #[trigger] kept[i] == output[i]
            &&& kept.len() == 0 || kept.last() != 10
        }),
    decreases output.len(),
{
    if output.len() > 0 && output.last() == 10 {
        lemma_without_line_feeds(output.drop_last());
    }
}

/// What has to be read of a message before a plan can be carried out.
#[derive(Debug, Clone, Copy, PartialEq, Eq, Structural)]
pub struct InputRequirements {
    pub needs_headers: bool,
    pub needs_body_contents: bool,
    pub needs_end_of_message: bool,
}

impl InputRequirements {
    /// What two parts of a plan need together.
    pub open spec fn joined(self, other: Self) -> Self {
        InputRequirements {
            needs_headers: self.needs_headers || other.needs_headers,
            needs_body_contents: self.needs_body_contents || other.needs_body_contents,
            needs_end_of_message: self.needs_end_of_message || other.needs_end_of_message,
        }
    }

    /// Nothing is needed.
    pub fn new() -> (r: Self)
        ensures
            !r.needs_headers && !r.needs_body_contents && !r.needs_end_of_message,
    {
        InputRequirements {
            needs_headers: false,
            needs_body_contents: false,
            needs_end_of_message: false,
        }
    }

    /// What two parts of a plan need together.
    pub fn union(self, other: Self) -> (r: Self)
        ensures
            r == self.joined(other),
    {
        InputRequirements {
            needs_headers: self.needs_headers || other.needs_headers,
            needs_body_contents: self.needs_body_contents || other.needs_body_contents,
            needs_end_of_message: self.needs_end_of_message || other.needs_end_of_message,
        }
    }
}

/// What is known of a plan, or of a part of it.
#[derive(Debug, Clone, Copy, PartialEq, Eq, Structural)]
pub struct PlanProperties {
    pub requirements: InputRequirements,
    pub requires_ordered_delivery: bool,
    pub requires_preemptive_ordered_delivery: bool,
    pub needs_message_contents: bool,
    pub has_external_commands: bool,
}

impl PlanProperties {
    /// What is known of two parts of a plan together.
    pub open spec fn joined(self, other: Self) -> Self {
        PlanProperties {
            requirements: self.requirements.joined(other.requirements),
            requires_ordered_delivery: self.requires_ordered_delivery
                || other.requires_ordered_delivery,
            requires_preemptive_ordered_delivery: self.requires_preemptive_ordered_delivery
                || other.requires_preemptive_ordered_delivery,
            needs_message_contents: self.needs_message_contents || other.needs_message_contents,
            has_external_commands: self.has_external_commands || other.has_external_commands,
        }
    }

    /// What is known of two parts of a plan together.
    pub fn union(self, other: Self) -> (r: Self)
        ensures
            r == self.joined(other),
    {
        PlanProperties {
            requirements: self.requirements.union(other.requirements),
            requires_ordered_delivery: self.requires_ordered_delivery
                || other.requires_ordered_delivery,
            requires_preemptive_ordered_delivery: self.requires_preemptive_ordered_delivery
                || other.requires_preemptive_ordered_delivery,
            needs_message_contents: self.needs_message_contents || other.needs_message_contents,
            has_external_commands: self.has_external_commands || other.has_external_commands,
        }
    }
}

/// The order in which the parts of a plan are joined does not matter, and
/// joining a part with itself adds nothing.
pub proof fn joining_plans_is_a_union(a: PlanProperties, b: PlanProperties, c: PlanProperties)
    ensures
        a.joined(b) == b.joined(a),
        a.joined(b).joined(c) == a.joined(b.joined(c)),
        a.joined(a) == a,
{
}

/// A plan: what is known of the file that it comes from, and of the files that
/// are read while it is carried out.
#[derive(Debug)]
pub struct ExecutionPlan {
    root: PlanProperties,
    files_need_contents: bool,
    files_require_ordered_delivery: bool,
}

impl ExecutionPlan {
    pub closed spec fn root(&self) -> PlanProperties {
        self.root
    }

    /// Whether the files read meanwhile need the message's contents.
    pub closed spec fn files_need_contents(&self) -> bool {
        self.files_need_contents
    }

    /// Whether the files read meanwhile need ordered delivery.
    pub closed spec fn files_require_order(&self) -> bool {
        self.files_require_ordered_delivery
    }

    pub fn new(
        root: PlanProperties,
        files_need_contents: bool,
        files_require_ordered_delivery: bool,
    ) -> (r: Self)
        ensures
            r.root() == root,
            r.files_need_contents() == files_need_contents,
            r.files_require_order() == files_require_ordered_delivery,
    {
        ExecutionPlan { root, files_need_contents, files_require_ordered_delivery }
    }

    /// What has to be read of a message before the plan can be carried out.
    pub fn requirements(&self) -> (r: InputRequirements)
        ensures
            r.needs_headers == self.root().requirements.needs_headers,
            r.needs_body_contents == (self.root().requirements.needs_body_contents
                || self.files_need_contents()),
            r.needs_end_of_message == (self.root().requirements.needs_end_of_message
                || self.files_need_contents() || self.root().requires_preemptive_ordered_delivery),
    {
        let mut requirements = self.root.requirements;
        if self.files_need_contents {
            requirements.needs_body_contents = true;
            requirements.needs_end_of_message = true;
        }
        if self.root.requires_preemptive_ordered_delivery {
            let mut more = InputRequirements::new();
            more.needs_end_of_message = true;
            requirements.union(more)
        } else {
            requirements
        }
    }

    pub fn requires_ordered_delivery(&self) -> (r: bool)
        ensures
            r == (self.root().requires_ordered_delivery || self.files_require_order()),
    {
        self.root.requires_ordered_delivery || self.files_require_ordered_delivery
    }

    pub fn needs_message_contents(&self) -> (r: bool)
        ensures
            r == (self.root().needs_message_contents || self.files_need_contents()),
    {
        self.root.needs_message_contents || self.files_need_contents
    }

    pub fn has_external_commands(&self) -> (r: bool)
        ensures
            r == self.root().has_external_commands,
    {
        self.root.has_external_commands
    }
}

/// What became of the action of a recipe.
#[derive(Debug, Clone, Copy, PartialEq, Eq, Structural)]
pub enum ActionExecution {
    NotRun,
    Succeeded,
    Failed,
}

/// What became of a recipe.
#[derive(Debug, Clone, Copy, PartialEq, Eq, Structural)]
pub struct RecipeResult {
    pub conditions_matched: bool,
    pub else_handled: bool,
    pub action: ActionExecution,
}

/// What is known of the recipes before one: the last one, and whether the one
/// that a chain hangs on matched.
#[derive(Debug, Clone, Copy, PartialEq, Eq, Structural)]
pub struct SequenceState {
    pub chain_base_matched: Option<bool>,
    pub previous: Option<RecipeResult>,
}

/// Whether a recipe is looked at all.
pub open spec fn may_run(control: ControlFlow, state: SequenceState) -> bool {
    match control {
        ControlFlow::Independent => true,
        ControlFlow::AfterChainMatch => state.chain_base_matched == Some(true),
        ControlFlow::AfterPreviousSuccess => state.previous is Some
            && state.previous->0.conditions_matched && state.previous->0.action is Succeeded,
        ControlFlow::Else => state.previous is None || !state.previous->0.else_handled,
        ControlFlow::AfterPreviousError => state.previous is Some
            && state.previous->0.action is Failed,
    }
}

/// Decides whether a recipe is looked at all.
pub fn execution_gate(control: ControlFlow, state: SequenceState) -> (r: bool)
    ensures
        r == may_run(control, state),
{
    match control {
        ControlFlow::Independent => true,
        ControlFlow::AfterChainMatch => match state.chain_base_matched {
            Some(matched) => matched,
            None => false,
        },
        ControlFlow::AfterPreviousSuccess => match state.previous {
            Some(result) => result.conditions_matched && result.action
                == ActionExecution::Succeeded,
            None => false,
        },
        ControlFlow::Else => match state.previous {
            Some(result) => !result.else_handled,
            None => true,
        },
        ControlFlow::AfterPreviousError => match state.previous {
            Some(result) => result.action == ActionExecution::Failed,
            None => false,
        },
    }
}

/// Whether a recipe that hangs on this one by `E` has nothing left to do.
pub open spec fn handled(control: ControlFlow, state: SequenceState, matched: bool) -> bool {
    matched || (control is Else && state.previous is Some && state.previous->0.else_handled)
}

/// Decides whether a recipe that hangs on this one by `E` has nothing left to
/// do.
pub fn else_handled(control: ControlFlow, state: SequenceState, conditions_matched: bool) -> (r:
    bool)
    ensures
        r == handled(control, state, conditions_matched),
{
    if control == ControlFlow::Else {
        let before = match state.previous {
            Some(result) => result.else_handled,
            None => false,
        };
        before || conditions_matched
    } else {
        conditions_matched
    }
}

/// In a row of recipes that hang on each other by `E`, at most one runs: once
/// one has matched, none of the later ones is looked at.
pub proof fn only_one_of_an_else_chain_runs(
    control: ControlFlow,
    state: SequenceState,
    matched: bool,
    action: ActionExecution,
)
    requires
        handled(control, state, matched),
    ensures
        ({
            let next = SequenceState {
                previous: Some(
                    RecipeResult {
                        conditions_matched: matched,
                        else_handled: handled(control, state, matched),
                        action,
                    },
                ),
                ..state
            };
            &&& !may_run(ControlFlow::Else, next)
            &&& handled(ControlFlow::Else, next, false)
        }),
{
}

/// A statement that stands before a recipe.
#[derive(Debug)]
pub enum CompiledStatement {
    CommandAssignment(CommandAssignment),
    Assignment(Assignment),
    Host(Assignment),
    Include(RcFileExpression),
    Switch(RcFileExpression),
}

pub enum CompiledModel {
    CommandAssignment(CommandAssignmentModel),
    Assignment(AssignmentModel),
    Host(AssignmentModel),
    Include(RcFileModel),
    Switch(RcFileModel),
}

impl View for CompiledStatement {
    type V = CompiledModel;

    open spec fn view(&self) -> CompiledModel {
        match self {
            CompiledStatement::CommandAssignment(assignment) => CompiledModel::CommandAssignment(
                assignment@,
            ),
            CompiledStatement::Assignment(assignment) => CompiledModel::Assignment(assignment@),
            CompiledStatement::Host(assignment) => CompiledModel::Host(assignment@),
            CompiledStatement::Include(file) => CompiledModel::Include(file@),
            CompiledStatement::Switch(file) => CompiledModel::Switch(file@),
        }
    }
}

pub open spec fn compiled_models(statements: Seq<CompiledStatement>) -> Seq<CompiledModel> {
    Seq::new(statements.len(), |i: int| statements[i]@)
}

/// How a sequence of statements goes on.
#[derive(Debug, Clone, Copy, PartialEq, Eq, Structural)]
pub enum SequenceControl {
    Continue,
    Stop,
    EndRcFile,
    SequenceComplete,
}

/// The statements that give the variables their first values.
pub fn initial_statements(config: &Config) -> (r: Vec<CompiledStatement>)
    ensures
        compiled_models(r@) == Seq::new(
            config@.initial_variables.len(),
            |i: int|
                CompiledModel::Assignment(
                    AssignmentModel {
                        line: 0,
                        name: config@.initial_variables[i].0,
                        value: config@.initial_variables[i].1,
                        target: AssignmentTarget::User,
                        expansion: None,
                    },
                ),
        ),
{
    let variables = config.initial_variables();
    let mut statements: Vec<CompiledStatement> = Vec::new();
    let mut i: usize = 0;
    while i < variables.len()
        invariant
            i <= variables@.len(),
            recipe::variable_models(variables@) == config@.initial_variables,
            statements@.len() == i,
            forall|j: int|
                0 <= j < i ==> (#[trigger] statements@[j])@ == CompiledModel::Assignment(
                    AssignmentModel {
                        line: 0,
                        name: config@.initial_variables[j].0,
                        value: config@.initial_variables[j].1,
                        target: AssignmentTarget::User,
                        expansion: None,
                    },
                ),
        decreases variables.len() - i,
    {
        let assignment = Assignment {
            line: 0,
            name: variables[i].0.clone(),
            value: variables[i].1.clone(),
            target: AssignmentTarget::User,
            expansion: None,
        };
        assert(config@.initial_variables[i as int].0 == variables@[i as int].0@);
        statements.push(CompiledStatement::Assignment(assignment));
        i = i + 1;
    }
    assert(compiled_models(statements@) =~= Seq::new(
        config@.initial_variables.len(),
        |i: int|
            CompiledModel::Assignment(
                AssignmentModel {
                    line: 0,
                    name: config@.initial_variables[i].0,
                    value: config@.initial_variables[i].1,
                    target: AssignmentTarget::User,
                    expansion: None,
                },
            ),
    ));
    statements
}

/// The variables after an assignment, or why it has no value.
pub open spec fn assigned(assignment: AssignmentModel, variables: Seq<(Seq<char>, Seq<u8>)>) -> Result<
    Seq<(Seq<char>, Seq<u8>)>,
    EvalFault,
> {
    match resolution::assignment_value(assignment, runtime::texts(variables)) {
        Ok(value) => Ok(runtime::with_value(variables, assignment.name, encode_utf8(value))),
        Err(fault) => Err(EvalFault::Expansion(fault)),
    }
}

/// Executes an assignment.
pub fn execute_assignment(assignment: &Assignment, runtime: &mut RuntimeVariables) -> (r: Result<
    (),
    EvalError,
>)
    ensures
        match assigned(assignment@, old(runtime)@) {
            Ok(variables) => r is Ok && final(runtime)@ == variables,
            Err(fault) => r matches Err(error) && error@ == fault && final(runtime)@ == old(
                runtime,
            )@,
        },
{
    match assignment.resolve_with(TextValues::Runtime(runtime)) {
        Ok(value) => {
            runtime.set(assignment.name.as_str(), value.as_str());
            Ok(())
        },
        Err(error) => Err(EvalError::Expansion(error)),
    }
}

/// The host that the variables name.
pub open spec fn host_of(variables: Seq<(Seq<char>, Seq<u8>)>) -> Seq<char> {
    match runtime::text_of(variables, "HOST"@) {
        Some(host) => host,
        None => Seq::empty(),
    }
}

/// Executes an assignment to `HOST`: the rc file goes on only on that host.
pub fn execute_host_assignment(
    assignment: &Assignment,
    hostname: Option<&str>,
    runtime: &mut RuntimeVariables,
) -> (r: Result<bool, EvalError>)
    ensures
        match assigned(assignment@, old(runtime)@) {
            Err(fault) => r matches Err(error) && error@ == fault && final(runtime)@ == old(
                runtime,
            )@,
            Ok(variables) => final(runtime)@ == variables && match hostname {
                Some(current) => r == Ok::<bool, EvalError>(host_of(variables) == current@),
                None => r matches Err(error) && error@ == (EvalFault::RuntimeSettingUnavailable {
                    line: assignment@.line,
                    name: "HOST"@,
                }),
            },
        },
{
    match execute_assignment(assignment, runtime) {
        Ok(()) => {},
        Err(error) => {
            return Err(error);
        },
    }
    let configured = match runtime.get("HOST") {
        Some(host) => host,
        None => String::new(),
    };
    assert(configured@ =~= host_of(runtime@));
    match hostname {
        Some(current) => Ok(same_text(configured.as_str(), current)),
        None => Err(
            EvalError::RuntimeSettingUnavailable {
                line: assignment.line,
                name: "HOST".to_owned(),
            },
        ),
    }
}

/// What the statements from `i` on come to: how the sequence goes on, and the
/// variables then.
pub open spec fn executed(
    statements: Seq<CompiledModel>,
    i: nat,
    hostname: Option<Seq<char>>,
    variables: Seq<(Seq<char>, Seq<u8>)>,
) -> (Result<SequenceControl, EvalFault>, Seq<(Seq<char>, Seq<u8>)>)
    decreases statements.len() - i,
{
    if i >= statements.len() {
        (Ok(SequenceControl::Continue), variables)
    } else {
        match statements[i as int] {
            CompiledModel::CommandAssignment(assignment) => (
                Err(EvalFault::ExternalActionUnsupported { line: assignment.line }),
                variables,
            ),
            CompiledModel::Assignment(assignment) => match assigned(assignment, variables) {
                Ok(after) => executed(statements, i + 1, hostname, after),
                Err(fault) => (Err(fault), variables),
            },
            CompiledModel::Host(assignment) => match assigned(assignment, variables) {
                Err(fault) => (Err(fault), variables),
                Ok(after) => match hostname {
                    None => (
                        Err(
                            EvalFault::RuntimeSettingUnavailable {
                                line: assignment.line,
                                name: "HOST"@,
                            },
                        ),
                        after,
                    ),
                    Some(current) => if host_of(after) == current {
                        executed(statements, i + 1, hostname, after)
                    } else {
                        (Ok(SequenceControl::EndRcFile), after)
                    },
                },
            },
            CompiledModel::Include(file) => (
                Err(
                    EvalFault::RuntimeRcLoaderUnavailable {
                        line: file.line,
                        statement: "INCLUDERC"@,
                    },
                ),
                variables,
            ),
            CompiledModel::Switch(file) => (
                Err(
                    EvalFault::RuntimeRcLoaderUnavailable {
                        line: file.line,
                        statement: "SWITCHRC"@,
                    },
                ),
                variables,
            ),
        }
    }
}

/// A result of executing statements, with the error as its model.
pub open spec fn control_model(result: Result<SequenceControl, EvalError>) -> Result<
    SequenceControl,
    EvalFault,
> {
    match result {
        Ok(control) => Ok(control),
        Err(error) => Err(error@),
    }
}

/// Executes statements where neither a command nor a further rc file can be
/// had.
pub fn execute_statements(
    statements: &[CompiledStatement],
    hostname: Option<&str>,
    runtime: &mut RuntimeVariables,
) -> (r: Result<SequenceControl, EvalError>)
    ensures
        (control_model(r), final(runtime)@) == executed(
            compiled_models(statements@),
            0,
            match hostname {
                Some(name) => Some(name@),
                None => None,
            },
            old(runtime)@,
        ),
{
    let ghost models = compiled_models(statements@);
    let ghost host = match hostname {
        Some(name) => Some(name@),
        None => None,
    };
    let mut i: usize = 0;
    while i < statements.len()
        invariant
            i <= statements@.len(),
            models == compiled_models(statements@),
            host == (match hostname {
                Some(name) => Some(name@),
                None => None,
            }),
            executed(models, 0, host, old(runtime)@) == executed(models, i as nat, host, runtime@),
        decreases statements.len() - i,
    {
        assert(models[i as int] == statements@[i as int]@);
        match &statements[i] {
            CompiledStatement::CommandAssignment(assignment) => {
                return Err(EvalError::ExternalActionUnsupported { line: assignment.line });
            },
            CompiledStatement::Assignment(assignment) => match execute_assignment(
                assignment,
                runtime,
            ) {
                Ok(()) => {},
                Err(error) => {
                    return Err(error);
                },
            },
            CompiledStatement::Host(assignment) => match execute_host_assignment(
                assignment,
                hostname,
                runtime,
            ) {
                Ok(true) => {},
                Ok(false) => {
                    return Ok(SequenceControl::EndRcFile);
                },
                Err(error) => {
                    return Err(error);
                },
            },
            CompiledStatement::Include(file) => {
                return Err(
                    EvalError::RuntimeRcLoaderUnavailable {
                        line: file.line,
                        statement: "INCLUDERC".to_owned(),
                    },
                );
            },
            CompiledStatement::Switch(file) => {
                return Err(
                    EvalError::RuntimeRcLoaderUnavailable {
                        line: file.line,
                        statement: "SWITCHRC".to_owned(),
                    },
                );
            },
        }
        i = i + 1;
    }
    Ok(SequenceControl::Continue)
}

/// The lockfile that a recipe names, where it names one.
pub open spec fn named_lock(lock: Option<PathModel>, variables: Seq<(Seq<char>, Seq<u8>)>) -> Result<
    Option<Seq<char>>,
    Fault,
> {
    match lock {
        None => Ok(None),
        Some(path) => match resolution::lockfile_path(path, runtime::texts(variables)) {
            Ok(found) => Ok(Some(found)),
            Err(fault) => Err(fault),
        },
    }
}

/// Resolves the lockfile that a recipe names.
pub fn resolve_lock(lock: &Option<PathExpression>, runtime: &RuntimeVariables) -> (r: Result<
    Option<String>,
    ExpansionError,
>)
    ensures
        match named_lock(
            match lock {
                Some(path) => Some(path@),
                None => None,
            },
            runtime@,
        ) {
            Ok(path) => r matches Ok(found) && recipe::optional_text(found) == path,
            Err(fault) => r matches Err(error) && error@ == fault,
        },
{
    match lock {
        None => Ok(None),
        Some(path) => match path.resolve_with(TextValues::Runtime(runtime)) {
            Ok(found) => Ok(Some(found)),
            Err(error) => Err(error),
        },
    }
}

/// Statements that stop early leave the later ones unexecuted: what they come
/// to does not depend on anything behind the first that cannot be executed.
pub proof fn nothing_runs_after_a_failed_statement(
    statements: Seq<CompiledModel>,
    more: Seq<CompiledModel>,
    i: nat,
    hostname: Option<Seq<char>>,
    variables: Seq<(Seq<char>, Seq<u8>)>,
)
    requires
        i <= statements.len(),
        executed(statements, i, hostname, variables).0 != Ok::<SequenceControl, EvalFault>(
            SequenceControl::Continue,
        ),
    ensures
        executed(statements + more, i, hostname, variables) == executed(
            statements,
            i,
            hostname,
            variables,
        ),
    decreases statements.len() - i,
{
    if i < statements.len() {
        assert((statements + more)[i as int] == statements[i as int]);
        match statements[i as int] {
            CompiledModel::Assignment(assignment) => {
                if let Ok(after) = assigned(assignment, variables) {
                    nothing_runs_after_a_failed_statement(
                        statements,
                        more,
                        i + 1,
                        hostname,
                        after,
                    );
                }
            },
            CompiledModel::Host(assignment) => {
                if let Ok(after) = assigned(assignment, variables) {
                    if hostname is Some && host_of(after) == hostname->0 {
                        nothing_runs_after_a_failed_statement(
                            statements,
                            more,
                            i + 1,
                            hostname,
                            after,
                        );
                    }
                }
            },
            _ => {},
        }
    }
}

/// A recipe that hangs on a chain by `A` runs exactly if the recipe that the
/// chain hangs on matched, whatever became of the one just before it.
pub proof fn a_chain_hangs_on_its_base(state: SequenceState, other: SequenceState)
    ensures
        may_run(ControlFlow::AfterChainMatch, state) ==> state.chain_base_matched == Some(true),
        state.chain_base_matched == Some(true) ==> may_run(ControlFlow::AfterChainMatch, state),
        state.chain_base_matched == other.chain_base_matched ==> may_run(
            ControlFlow::AfterChainMatch,
            state,
        ) == may_run(ControlFlow::AfterChainMatch, other),
{
}

/// Every other flag looks at the recipe just before alone. After one that did
/// not match, neither `a` nor `e` runs, and `E` does; after one that matched,
/// `a` runs exactly if its action succeeded, and `e` exactly if it failed. A
/// recipe without such a flag always runs.
pub proof fn a_recipe_follows_the_one_before_it(
    state: SequenceState,
    base: Option<bool>,
    action: ActionExecution,
)
    ensures
        may_run(ControlFlow::Independent, state),
        ({
            let after = |matched: bool, done: bool, action: ActionExecution|
                SequenceState {
                    chain_base_matched: base,
                    previous: Some(
                        RecipeResult { conditions_matched: matched, else_handled: done, action },
                    ),
                };
            let unmatched = after(false, false, ActionExecution::NotRun);
            let succeeded = after(true, true, ActionExecution::Succeeded);
            let failed = after(true, true, ActionExecution::Failed);
            let nothing = SequenceState { chain_base_matched: base, previous: None };
            &&& !may_run(ControlFlow::AfterPreviousSuccess, unmatched)
            &&& !may_run(ControlFlow::AfterPreviousError, unmatched)
            &&& may_run(ControlFlow::Else, unmatched)
            &&& may_run(ControlFlow::AfterPreviousSuccess, succeeded)
            &&& !may_run(ControlFlow::AfterPreviousError, succeeded)
            &&& !may_run(ControlFlow::Else, succeeded)
            &&& !may_run(ControlFlow::AfterPreviousSuccess, failed)
            &&& may_run(ControlFlow::AfterPreviousError, failed)
            &&& !may_run(ControlFlow::Else, failed)
            &&& !may_run(ControlFlow::AfterPreviousSuccess, nothing)
            &&& !may_run(ControlFlow::AfterPreviousError, nothing)
            &&& may_run(ControlFlow::Else, nothing)
            &&& may_run(ControlFlow::Else, after(true, false, action))
            &&& !may_run(ControlFlow::Else, after(false, true, action))
            &&& !may_run(
                ControlFlow::AfterPreviousSuccess,
                after(false, true, ActionExecution::Succeeded),
            )
        }),
{
}

/// What an else chain is told of a recipe: outside of a chain that it matched,
/// and in one that it or one before it did.
pub proof fn an_else_chain_remembers_a_match(
    control: ControlFlow,
    state: SequenceState,
    matched: bool,
)
    ensures
        matched ==> handled(control, state, matched),
        !matched && !(control is Else) ==> !handled(control, state, matched),
        !matched && control is Else ==> handled(control, state, matched) == (state.previous
            matches Some(result) && result.else_handled),
{
}

} // verus!
