//! A configuration as it is read: assignments, recipes with their conditions
//! and actions, and further files.

use vstd::prelude::*;
use vstd::string::*;

use crate::config::expression::{ExpressionModel, ShellExpression};
use crate::config::limits::RcParseCounts;
use crate::config::variables::{AssignmentTarget, VariableSource};
use crate::text::same_text;

verus! {

/// A compiled regular expression of the `regex` crate.
#[verifier::external_type_specification]
#[verifier::external_body]
pub struct ExRegex(regex::bytes::Regex);

/// A whole rc file.
#[derive(Debug, PartialEq, Eq)]
pub struct Config {
    pub statements: Vec<Statement>,
    pub initial_variables: Vec<(String, String, VariableSource)>,
    pub parse_counts: RcParseCounts,
    pub initial_linebuf: usize,
}

#[derive(Debug, PartialEq, Eq)]
pub enum Statement {
    Assignment(Assignment),
    CommandAssignment(CommandAssignment),
    Include(RcFileExpression),
    Switch(RcFileExpression),
    Recipe(Recipe),
}

/// An assignment whose value a command writes.
#[derive(Debug, PartialEq, Eq)]
pub struct CommandAssignment {
    pub line: usize,
    pub name: String,
    pub source: String,
    pub target: AssignmentTarget,
    pub expression: ShellExpression,
}

/// The path of a further rc file.
#[derive(Debug, PartialEq, Eq)]
pub struct RcFileExpression {
    pub line: usize,
    pub value: String,
    pub expansion: Option<ShellExpression>,
}

#[derive(Debug, PartialEq, Eq)]
pub struct Assignment {
    pub line: usize,
    pub name: String,
    pub value: String,
    pub target: AssignmentTarget,
    pub expansion: Option<ShellExpression>,
}

#[derive(Debug, PartialEq, Eq)]
pub struct Recipe {
    pub line: usize,
    pub action_line: usize,
    pub options: RecipeOptions,
    pub lock: Option<PathExpression>,
    pub conditions: Vec<Condition>,
    pub action: RecipeAction,
}

/// What the flags of a recipe select.
#[derive(Debug, Clone, Copy, PartialEq, Eq, Structural)]
pub struct RecipeOptions {
    pub condition_input: ConditionInput,
    pub case_mode: CaseMode,
    pub control: ControlFlow,
    pub action_input: ActionInput,
    pub action_mode: ActionMode,
    pub continuation: ContinuationMode,
    pub child_status: ChildStatusMode,
    pub write_errors: WriteErrorMode,
    pub output_ending: OutputEnding,
}

#[derive(Debug, Clone, Copy, PartialEq, Eq, Structural)]
pub enum ConditionInput {
    Headers,
    Body,
    Message,
}

#[derive(Debug, Clone, Copy, PartialEq, Eq, Structural)]
pub enum CaseMode {
    Insensitive,
    Sensitive,
}

#[derive(Debug, Clone, Copy, PartialEq, Eq, Structural)]
pub enum ControlFlow {
    Independent,
    AfterChainMatch,
    AfterPreviousSuccess,
    Else,
    AfterPreviousError,
}

#[derive(Debug, Clone, Copy, PartialEq, Eq, Structural)]
pub enum ActionInput {
    Message,
    Headers,
    Body,
}

#[derive(Debug, Clone, Copy, PartialEq, Eq, Structural)]
pub enum ActionMode {
    Deliver,
    Filter,
}

#[derive(Debug, Clone, Copy, PartialEq, Eq, Structural)]
pub enum ContinuationMode {
    Stop,
    Continue,
    BranchBlock,
}

#[derive(Debug, Clone, Copy, PartialEq, Eq, Structural)]
pub enum ChildStatusMode {
    Ignore,
    Wait,
    WaitQuietly,
}

#[derive(Debug, Clone, Copy, PartialEq, Eq, Structural)]
pub enum WriteErrorMode {
    Fail,
    Ignore,
}

#[derive(Debug, Clone, Copy, PartialEq, Eq, Structural)]
pub enum OutputEnding {
    Normalize,
    Preserve,
}

#[derive(Debug, PartialEq, Eq)]
pub enum RecipeAction {
    Deliver(Destination),
    Pipe(PipeAction),
    Capture(CaptureAction),
    Block(Vec<Statement>),
    Headers(HeaderAction),
}

/// A variable that takes a command's output.
#[derive(Debug, PartialEq, Eq)]
pub struct CaptureAction {
    pub line: usize,
    pub name: String,
    pub target: AssignmentTarget,
    pub command: String,
}

#[derive(Debug, PartialEq, Eq)]
pub struct HeaderAction {
    pub operations: Vec<HeaderOperation>,
}

#[derive(Debug, PartialEq, Eq)]
pub enum HeaderOperation {
    Remove { line: usize, name: String },
    Replace { line: usize, name: String, value: HeaderValue },
    Add { line: usize, name: String, value: HeaderValue },
    Prepend { line: usize, name: String, value: HeaderValue },
    Rename { line: usize, from: String, to: String },
    Extract { line: usize, name: String, target: String, mode: HeaderExtractionMode },
}

#[derive(Debug, Clone, Copy, PartialEq, Eq, Structural)]
pub enum HeaderExtractionMode {
    Raw,
    Unfolded,
}

#[derive(Debug, PartialEq, Eq)]
pub struct HeaderValue {
    pub source: String,
    pub expansion: Option<ShellExpression>,
}

#[derive(Debug, PartialEq, Eq)]
pub struct PipeAction {
    pub command: String,
}

#[derive(Debug, PartialEq, Eq)]
pub struct Condition {
    pub line: usize,
    pub negated: bool,
    pub kind: ConditionKind,
}

#[derive(Debug, PartialEq, Eq)]
pub enum ConditionKind {
    ShellExpanded(ShellExpandedCondition),
    Regex(RegexCondition),
    AreaRegex { area: ConditionInput, regex: RegexCondition },
    VariableRegex { name: String, regex: RegexCondition },
    Program(String),
    SmallerThan(usize),
    LargerThan(usize),
}

/// A condition that is expanded before it is read.
#[derive(Debug, PartialEq, Eq)]
pub struct ShellExpandedCondition {
    pub source: String,
    pub expansion: Option<ShellExpression>,
}

/// A regular expression: as it was written, as it was compiled, and which of
/// its groups are whose.
#[derive(Debug)]
pub struct RegexCondition {
    pub pattern: String,
    pub compiled: regex::bytes::Regex,
    pub match_capture: Option<usize>,
    pub capture_indexes: Vec<usize>,
}

#[derive(Debug, PartialEq, Eq)]
pub enum Destination {
    Mbox(PathExpression),
    Maildir(PathExpression),
    File(PathExpression),
    Discard(PathExpression),
}

#[derive(Debug, Clone, Copy, PartialEq, Eq, Structural)]
pub enum DestinationKind {
    Maildir,
    Mbox,
    File,
    Discard,
}

/// A path that may depend on variables.
#[derive(Debug)]
pub struct PathExpression {
    pub source: String,
    pub base: Option<String>,
    pub line: usize,
    pub runtime_dependent: bool,
    pub runtime_base: bool,
    pub typed_destination: bool,
    pub expansion: Option<ShellExpression>,
}

/// Models of the types above: the same, with texts and lists as sequences.
pub struct AssignmentModel {
    pub line: nat,
    pub name: Seq<char>,
    pub value: Seq<char>,
    pub target: AssignmentTarget,
    pub expansion: Option<ExpressionModel>,
}

pub struct CommandAssignmentModel {
    pub line: nat,
    pub name: Seq<char>,
    pub source: Seq<char>,
    pub target: AssignmentTarget,
    pub expression: ExpressionModel,
}

pub struct RcFileModel {
    pub line: nat,
    pub value: Seq<char>,
    pub expansion: Option<ExpressionModel>,
}

pub struct PathModel {
    pub source: Seq<char>,
    pub base: Option<Seq<char>>,
    pub line: nat,
    pub runtime_dependent: bool,
    pub runtime_base: bool,
    pub typed_destination: bool,
    pub expansion: Option<ExpressionModel>,
}

pub struct DestinationModel {
    pub kind: DestinationKind,
    pub path: PathModel,
}

pub struct HeaderValueModel {
    pub source: Seq<char>,
    pub expansion: Option<ExpressionModel>,
}

pub enum HeaderOperationModel {
    Remove { line: nat, name: Seq<char> },
    Replace { line: nat, name: Seq<char>, value: HeaderValueModel },
    Add { line: nat, name: Seq<char>, value: HeaderValueModel },
    Prepend { line: nat, name: Seq<char>, value: HeaderValueModel },
    Rename { line: nat, from: Seq<char>, to: Seq<char> },
    Extract { line: nat, name: Seq<char>, target: Seq<char>, mode: HeaderExtractionMode },
}

pub struct CaptureModel {
    pub line: nat,
    pub name: Seq<char>,
    pub target: AssignmentTarget,
    pub command: Seq<char>,
}

pub struct RegexModel {
    pub pattern: Seq<char>,
    pub compiled: regex::bytes::Regex,
    pub match_capture: Option<usize>,
    pub capture_indexes: Seq<usize>,
}

pub enum ConditionKindModel {
    ShellExpanded { source: Seq<char>, expansion: Option<ExpressionModel> },
    Regex(RegexModel),
    AreaRegex { area: ConditionInput, regex: RegexModel },
    VariableRegex { name: Seq<char>, regex: RegexModel },
    Program(Seq<char>),
    SmallerThan(usize),
    LargerThan(usize),
}

pub struct ConditionModel {
    pub line: nat,
    pub negated: bool,
    pub kind: ConditionKindModel,
}

pub enum ActionModel {
    Deliver(DestinationModel),
    Pipe(Seq<char>),
    Capture(CaptureModel),
    Block(Seq<StatementModel>),
    Headers(Seq<HeaderOperationModel>),
}

pub struct RecipeModel {
    pub line: nat,
    pub action_line: nat,
    pub options: RecipeOptions,
    pub lock: Option<PathModel>,
    pub conditions: Seq<ConditionModel>,
    pub action: ActionModel,
}

pub enum StatementModel {
    Assignment(AssignmentModel),
    CommandAssignment(CommandAssignmentModel),
    Include(RcFileModel),
    Switch(RcFileModel),
    Recipe(RecipeModel),
}

pub struct ConfigModel {
    pub statements: Seq<StatementModel>,
    pub initial_variables: Seq<(Seq<char>, Seq<char>, VariableSource)>,
    pub parse_counts: RcParseCounts,
    pub initial_linebuf: usize,
}

/// An optional expression as a model.
pub open spec fn expansion_model(expansion: Option<ShellExpression>) -> Option<ExpressionModel> {
    match expansion {
        Some(expression) => Some(expression@),
        None => None,
    }
}

/// An optional text as characters.
pub open spec fn optional_text(text: Option<String>) -> Option<Seq<char>> {
    match text {
        Some(found) => Some(found@),
        None => None,
    }
}

impl View for Assignment {
    type V = AssignmentModel;

    open spec fn view(&self) -> AssignmentModel {
        AssignmentModel {
            line: self.line as nat,
            name: self.name@,
            value: self.value@,
            target: self.target,
            expansion: expansion_model(self.expansion),
        }
    }
}

impl View for CommandAssignment {
    type V = CommandAssignmentModel;

    open spec fn view(&self) -> CommandAssignmentModel {
        CommandAssignmentModel {
            line: self.line as nat,
            name: self.name@,
            source: self.source@,
            target: self.target,
            expression: self.expression@,
        }
    }
}

impl View for RcFileExpression {
    type V = RcFileModel;

    open spec fn view(&self) -> RcFileModel {
        RcFileModel {
            line: self.line as nat,
            value: self.value@,
            expansion: expansion_model(self.expansion),
        }
    }
}

impl View for PathExpression {
    type V = PathModel;

    open spec fn view(&self) -> PathModel {
        PathModel {
            source: self.source@,
            base: optional_text(self.base),
            line: self.line as nat,
            runtime_dependent: self.runtime_dependent,
            runtime_base: self.runtime_base,
            typed_destination: self.typed_destination,
            expansion: expansion_model(self.expansion),
        }
    }
}

impl View for Destination {
    type V = DestinationModel;

    open spec fn view(&self) -> DestinationModel {
        match self {
            Destination::Mbox(path) => DestinationModel {
                kind: DestinationKind::Mbox,
                path: path@,
            },
            Destination::Maildir(path) => DestinationModel {
                kind: DestinationKind::Maildir,
                path: path@,
            },
            Destination::File(path) => DestinationModel {
                kind: DestinationKind::File,
                path: path@,
            },
            Destination::Discard(path) => DestinationModel {
                kind: DestinationKind::Discard,
                path: path@,
            },
        }
    }
}

impl View for HeaderValue {
    type V = HeaderValueModel;

    open spec fn view(&self) -> HeaderValueModel {
        HeaderValueModel { source: self.source@, expansion: expansion_model(self.expansion) }
    }
}

impl View for HeaderOperation {
    type V = HeaderOperationModel;

    open spec fn view(&self) -> HeaderOperationModel {
        match self {
            HeaderOperation::Remove { line, name } => HeaderOperationModel::Remove {
                line: *line as nat,
                name: name@,
            },
            HeaderOperation::Replace { line, name, value } => HeaderOperationModel::Replace {
                line: *line as nat,
                name: name@,
                value: value@,
            },
            HeaderOperation::Add { line, name, value } => HeaderOperationModel::Add {
                line: *line as nat,
                name: name@,
                value: value@,
            },
            HeaderOperation::Prepend { line, name, value } => HeaderOperationModel::Prepend {
                line: *line as nat,
                name: name@,
                value: value@,
            },
            HeaderOperation::Rename { line, from, to } => HeaderOperationModel::Rename {
                line: *line as nat,
                from: from@,
                to: to@,
            },
            HeaderOperation::Extract { line, name, target, mode } => HeaderOperationModel::Extract {
                line: *line as nat,
                name: name@,
                target: target@,
                mode: *mode,
            },
        }
    }
}

pub open spec fn operation_models(operations: Seq<HeaderOperation>) -> Seq<HeaderOperationModel> {
    Seq::new(operations.len(), |i: int| operations[i]@)
}

impl View for HeaderAction {
    type V = Seq<HeaderOperationModel>;

    open spec fn view(&self) -> Seq<HeaderOperationModel> {
        operation_models(self.operations@)
    }
}

impl View for CaptureAction {
    type V = CaptureModel;

    open spec fn view(&self) -> CaptureModel {
        CaptureModel {
            line: self.line as nat,
            name: self.name@,
            target: self.target,
            command: self.command@,
        }
    }
}

impl View for RegexCondition {
    type V = RegexModel;

    open spec fn view(&self) -> RegexModel {
        RegexModel {
            pattern: self.pattern@,
            compiled: self.compiled,
            match_capture: self.match_capture,
            capture_indexes: self.capture_indexes@,
        }
    }
}

impl View for ConditionKind {
    type V = ConditionKindModel;

    open spec fn view(&self) -> ConditionKindModel {
        match self {
            ConditionKind::ShellExpanded(condition) => ConditionKindModel::ShellExpanded {
                source: condition.source@,
                expansion: expansion_model(condition.expansion),
            },
            ConditionKind::Regex(regex) => ConditionKindModel::Regex(regex@),
            ConditionKind::AreaRegex { area, regex } => ConditionKindModel::AreaRegex {
                area: *area,
                regex: regex@,
            },
            ConditionKind::VariableRegex { name, regex } => ConditionKindModel::VariableRegex {
                name: name@,
                regex: regex@,
            },
            ConditionKind::Program(command) => ConditionKindModel::Program(command@),
            ConditionKind::SmallerThan(size) => ConditionKindModel::SmallerThan(*size),
            ConditionKind::LargerThan(size) => ConditionKindModel::LargerThan(*size),
        }
    }
}

impl View for Condition {
    type V = ConditionModel;

    open spec fn view(&self) -> ConditionModel {
        ConditionModel { line: self.line as nat, negated: self.negated, kind: self.kind@ }
    }
}

pub open spec fn condition_models(conditions: Seq<Condition>) -> Seq<ConditionModel> {
    Seq::new(conditions.len(), |i: int| conditions[i]@)
}

pub open spec fn lock_model(lock: Option<PathExpression>) -> Option<PathModel> {
    match lock {
        Some(path) => Some(path@),
        None => None,
    }
}

/// The first `n` statements as models.
pub open spec fn statement_models(statements: Seq<Statement>, n: nat) -> Seq<StatementModel>
    decreases statements, n,
{
    if n == 0 || n > statements.len() {
        Seq::empty()
    } else {
        statement_models(statements, (n - 1) as nat).push(statement_model(statements[n - 1]))
    }
}

pub open spec fn statement_model(statement: Statement) -> StatementModel
    decreases statement, 0nat,
{
    match statement {
        Statement::Assignment(assignment) => StatementModel::Assignment(assignment@),
        Statement::CommandAssignment(assignment) => StatementModel::CommandAssignment(assignment@),
        Statement::Include(expression) => StatementModel::Include(expression@),
        Statement::Switch(expression) => StatementModel::Switch(expression@),
        Statement::Recipe(recipe) => StatementModel::Recipe(recipe_model(recipe)),
    }
}

pub open spec fn recipe_model(recipe: Recipe) -> RecipeModel
    decreases recipe, 0nat,
{
    RecipeModel {
        line: recipe.line as nat,
        action_line: recipe.action_line as nat,
        options: recipe.options,
        lock: lock_model(recipe.lock),
        conditions: condition_models(recipe.conditions@),
        action: action_model(recipe.action),
    }
}

pub open spec fn action_model(action: RecipeAction) -> ActionModel
    decreases action, 0nat,
{
    match action {
        RecipeAction::Deliver(destination) => ActionModel::Deliver(destination@),
        RecipeAction::Pipe(pipe) => ActionModel::Pipe(pipe.command@),
        RecipeAction::Capture(capture) => ActionModel::Capture(capture@),
        RecipeAction::Block(statements) => ActionModel::Block(
            statement_models(statements@, statements@.len()),
        ),
        RecipeAction::Headers(headers) => ActionModel::Headers(headers@),
    }
}

impl View for RecipeAction {
    type V = ActionModel;

    open spec fn view(&self) -> ActionModel {
        action_model(*self)
    }
}

impl View for Recipe {
    type V = RecipeModel;

    open spec fn view(&self) -> RecipeModel {
        recipe_model(*self)
    }
}

impl View for Statement {
    type V = StatementModel;

    open spec fn view(&self) -> StatementModel {
        statement_model(*self)
    }
}

/// Statements as models.
pub open spec fn models_of(statements: Seq<Statement>) -> Seq<StatementModel> {
    statement_models(statements, statements.len())
}

pub open spec fn variable_models(variables: Seq<(String, String, VariableSource)>) -> Seq<
    (Seq<char>, Seq<char>, VariableSource),
> {
    Seq::new(variables.len(), |i: int| (variables[i].0@, variables[i].1@, variables[i].2))
}

impl View for Config {
    type V = ConfigModel;

    open spec fn view(&self) -> ConfigModel {
        ConfigModel {
            statements: models_of(self.statements@),
            initial_variables: variable_models(self.initial_variables@),
            parse_counts: self.parse_counts,
            initial_linebuf: self.initial_linebuf,
        }
    }
}

/// Each model stands where its statement stands.
pub proof fn lemma_statement_models(statements: Seq<Statement>, n: nat)
    requires
        n <= statements.len(),
    ensures
        statement_models(statements, n).len() == n,
        forall|i: int|
            0 <= i < n ==> #[trigger] statement_models(statements, n)[i] == statements[i]@,
    decreases n,
{
    if n > 0 {
        lemma_statement_models(statements, (n - 1) as nat);
    }
}

/// Pushing a statement pushes its model.
pub proof fn lemma_models_push(statements: Seq<Statement>, statement: Statement)
    ensures
        models_of(statements.push(statement)) == models_of(statements).push(statement@),
        models_of(statements).len() == statements.len(),
        models_of(Seq::<Statement>::empty()) == Seq::<StatementModel>::empty(),
{
    let longer = statements.push(statement);
    lemma_statement_models(statements, statements.len());
    lemma_statement_models(longer, statements.len());
    assert(statement_models(longer, statements.len()) =~= models_of(statements));
}

impl PartialEq for RegexCondition {
    /// Two conditions are the same when they were written the same.
    fn eq(&self, other: &Self) -> (r: bool) {
        self.pattern == other.pattern
    }
}

impl vstd::std_specs::cmp::PartialEqSpecImpl for RegexCondition {
    open spec fn obeys_eq_spec() -> bool {
        true
    }

    open spec fn eq_spec(&self, other: &Self) -> bool {
        self.pattern@ == other.pattern@
    }
}

impl Eq for RegexCondition {

}

fn same_optional_text(a: &Option<String>, b: &Option<String>) -> (r: bool)
    ensures
        r == (optional_text(*a) == optional_text(*b)),
{
    match (a, b) {
        (Some(first), Some(second)) => same_text(first.as_str(), second.as_str()),
        (None, None) => true,
        _ => false,
    }
}

impl PartialEq for PathExpression {
    /// Two paths are the same when their texts and their directories are.
    fn eq(&self, other: &Self) -> (r: bool) {
        self.source == other.source && same_optional_text(&self.base, &other.base)
    }
}

impl vstd::std_specs::cmp::PartialEqSpecImpl for PathExpression {
    open spec fn obeys_eq_spec() -> bool {
        true
    }

    open spec fn eq_spec(&self, other: &Self) -> bool {
        self.source@ == other.source@ && optional_text(self.base) == optional_text(other.base)
    }
}

impl Eq for PathExpression {

}

/// A path as it is written, before anything else is known of it.
pub open spec fn plain_path(source: Seq<char>) -> PathModel {
    PathModel {
        source,
        base: None,
        line: 0,
        runtime_dependent: false,
        runtime_base: false,
        typed_destination: false,
        expansion: None,
    }
}

impl From<String> for PathExpression {
    fn from(source: String) -> (r: Self) {
        PathExpression {
            source,
            base: None,
            line: 0,
            runtime_dependent: false,
            runtime_base: false,
            typed_destination: false,
            expansion: None,
        }
    }
}

impl vstd::std_specs::convert::FromSpecImpl<String> for PathExpression {
    open spec fn obeys_from_spec() -> bool {
        true
    }

    open spec fn from_spec(source: String) -> Self {
        PathExpression {
            source,
            base: None,
            line: 0,
            runtime_dependent: false,
            runtime_base: false,
            typed_destination: false,
            expansion: None,
        }
    }
}

impl From<&str> for PathExpression {
    fn from(source: &str) -> (r: Self)
        ensures
            r@ == plain_path(source@),
    {
        PathExpression {
            source: source.to_owned(),
            base: None,
            line: 0,
            runtime_dependent: false,
            runtime_base: false,
            typed_destination: false,
            expansion: None,
        }
    }
}

impl vstd::std_specs::convert::FromSpecImpl<&str> for PathExpression {
    open spec fn obeys_from_spec() -> bool {
        false
    }

    open spec fn from_spec(source: &str) -> Self {
        arbitrary()
    }
}

impl PathExpression {
    /// The path as it is written.
    pub fn source(&self) -> (r: &str)
        ensures
            r@ == self@.source,
    {
        self.source.as_str()
    }

    pub fn line(&self) -> (r: usize)
        ensures
            r == self@.line,
    {
        self.line
    }
}

impl RegexCondition {
    /// The regular expression as it was written.
    pub fn pattern(&self) -> (r: &str)
        ensures
            r@ == self@.pattern,
    {
        self.pattern.as_str()
    }

    pub fn compiled(&self) -> (r: &regex::bytes::Regex)
        ensures
            *r == self.compiled,
    {
        &self.compiled
    }

    /// The group that marks where `MATCH` starts.
    pub fn match_capture(&self) -> (r: Option<usize>)
        ensures
            r == self@.match_capture,
    {
        self.match_capture
    }

    /// The groups that the author of the expression wrote.
    pub fn capture_indexes(&self) -> (r: &[usize])
        ensures
            r@ == self@.capture_indexes,
    {
        self.capture_indexes.as_slice()
    }
}

impl Destination {
    /// The kind of destination.
    pub fn kind(&self) -> (r: DestinationKind)
        ensures
            r == self@.kind,
    {
        match self {
            Destination::Maildir(_) => DestinationKind::Maildir,
            Destination::Mbox(_) => DestinationKind::Mbox,
            Destination::File(_) => DestinationKind::File,
            Destination::Discard(_) => DestinationKind::Discard,
        }
    }

    /// Whether deliveries to it have to be made one after another.
    pub fn requires_ordered_delivery(&self) -> (r: bool)
        ensures
            r == (self@.kind is Mbox || self@.kind is File),
    {
        match self.kind() {
            DestinationKind::Mbox | DestinationKind::File => true,
            _ => false,
        }
    }

    /// Whether it can be one of several that a message goes to at once.
    pub fn supports_fanout_delivery(&self) -> (r: bool)
        ensures
            r == (self@.kind is Maildir || self@.kind is Discard),
    {
        match self.kind() {
            DestinationKind::Maildir | DestinationKind::Discard => true,
            _ => false,
        }
    }
}

/// Every destination either needs ordered delivery or can be part of a
/// fan-out, and none is both.
pub proof fn ordered_and_fanout_delivery_exclude_each_other(kind: DestinationKind)
    ensures
        (kind is Mbox || kind is File) != (kind is Maildir || kind is Discard),
{
}

/// What the last assignment to `MAILDIR` among the first `n` statements set.
pub open spec fn maildir_of(statements: Seq<StatementModel>, n: nat) -> Option<Seq<char>>
    decreases n,
{
    if n == 0 || n > statements.len() {
        None
    } else {
        match statements[n - 1] {
            StatementModel::Assignment(assignment) => if assignment.target
                == AssignmentTarget::Maildir {
                Some(assignment.value)
            } else {
                maildir_of(statements, (n - 1) as nat)
            },
            _ => maildir_of(statements, (n - 1) as nat),
        }
    }
}

/// The warnings about flags that have no effect on blocks, of the first `n`
/// statements.
pub open spec fn warnings_of(statements: Seq<StatementModel>, n: nat) -> Seq<(nat, char)>
    decreases statements, n,
{
    if n == 0 || n > statements.len() {
        Seq::empty()
    } else {
        warnings_of(statements, (n - 1) as nat) + statement_warnings(statements[n - 1])
    }
}

pub open spec fn statement_warnings(statement: StatementModel) -> Seq<(nat, char)>
    decreases statement, 0nat,
{
    match statement {
        StatementModel::Recipe(recipe) => match recipe.action {
            ActionModel::Block(children) => (if recipe.options.write_errors is Ignore {
                seq![(recipe.line, 'i')]
            } else {
                Seq::empty()
            }) + (if recipe.options.output_ending is Preserve {
                seq![(recipe.line, 'r')]
            } else {
                Seq::empty()
            }) + warnings_of(children, children.len()),
            _ => Seq::empty(),
        },
        _ => Seq::empty(),
    }
}

pub open spec fn warning_models(warnings: Seq<(usize, char)>) -> Seq<(nat, char)> {
    Seq::new(warnings.len(), |i: int| (warnings[i].0 as nat, warnings[i].1))
}

fn collect_warnings(statements: &Vec<Statement>) -> (r: Vec<(usize, char)>)
    ensures
        warning_models(r@) == warnings_of(models_of(statements@), statements@.len()),
    decreases statements,
{
    let ghost models = models_of(statements@);
    proof {
        lemma_statement_models(statements@, statements@.len());
    }
    let mut warnings: Vec<(usize, char)> = Vec::new();
    assert(warning_models(warnings@) =~= Seq::empty());
    let mut i: usize = 0;
    while i < statements.len()
        invariant
            i <= statements@.len(),
            models == models_of(statements@),
            models.len() == statements@.len(),
            forall|j: int| 0 <= j < statements@.len() ==> #[trigger] models[j] == statements@[j]@,
            warning_models(warnings@) == warnings_of(models, i as nat),
        decreases statements.len() - i,
    {
        assert(models[i as int] == statements@[i as int]@);
        let ghost before = warnings@;
        if let Statement::Recipe(recipe) = &statements[i] {
            if let RecipeAction::Block(children) = &recipe.action {
                let mut own: Vec<(usize, char)> = Vec::new();
                if recipe.options.write_errors == WriteErrorMode::Ignore {
                    own.push((recipe.line, 'i'));
                }
                if recipe.options.output_ending == OutputEnding::Preserve {
                    own.push((recipe.line, 'r'));
                }
                let ghost flags = own@;
                proof {
                    lemma_statement_models(children@, children@.len());
                    assert(warning_models(flags) =~= (if recipe.options.write_errors is Ignore {
                        seq![(recipe.line as nat, 'i')]
                    } else {
                        Seq::empty()
                    }) + (if recipe.options.output_ending is Preserve {
                        seq![(recipe.line as nat, 'r')]
                    } else {
                        Seq::empty()
                    }));
                }
                let mut nested = collect_warnings(children);
                let ghost inner = nested@;
                own.append(&mut nested);
                let ghost all = own@;
                warnings.append(&mut own);
                assert(warning_models(all) =~= warning_models(flags) + warning_models(inner));
                assert(warning_models(warnings@) =~= warning_models(before) + warning_models(all));
                assert(warning_models(all) =~= statement_warnings(models[i as int]));
            }
        }
        assert(warning_models(warnings@) =~= warning_models(before) + statement_warnings(
            models[i as int],
        ));
        i = i + 1;
    }
    warnings
}

impl Config {
    /// The directory that the last assignment to `MAILDIR` names.
    pub fn maildir(&self) -> (r: Option<&str>)
        ensures
            match maildir_of(self@.statements, self@.statements.len()) {
                Some(value) => r matches Some(found) && found@ == value,
                None => r is None,
            },
    {
        let ghost models = self@.statements;
        proof {
            lemma_statement_models(self.statements@, self.statements@.len());
        }
        let mut left: usize = self.statements.len();
        while left > 0
            invariant
                left <= self.statements@.len(),
                models == self@.statements,
                models.len() == self.statements@.len(),
                forall|j: int|
                    0 <= j < self.statements@.len() ==> #[trigger] models[j]
                        == self.statements@[j]@,
                maildir_of(models, models.len()) == maildir_of(models, left as nat),
            decreases left,
        {
            assert(models[left - 1] == self.statements@[left - 1]@);
            if let Statement::Assignment(assignment) = &self.statements[left - 1] {
                if assignment.target == AssignmentTarget::Maildir {
                    return Some(assignment.value.as_str());
                }
            }
            left = left - 1;
        }
        None
    }

    /// The flags on blocks that have no effect there, in the order in which
    /// they are written.
    pub fn for_each_compatibility_warning(&self) -> (r: Vec<(usize, char)>)
        ensures
            warning_models(r@) == warnings_of(self@.statements, self@.statements.len()),
    {
        proof {
            lemma_statement_models(self.statements@, self.statements@.len());
        }
        collect_warnings(&self.statements)
    }

    /// Whether a recipe pipes messages into a command.
    pub fn has_pipe_actions(&self) -> (r: bool)
        ensures
            r == has_pipe(self@.statements, self@.statements.len()),
    {
        block_has_pipe(&self.statements)
    }
}

/// Whether one of the first `n` statements pipes messages into a command,
/// itself or in its block.
pub open spec fn has_pipe(statements: Seq<StatementModel>, n: nat) -> bool
    decreases statements, n,
{
    n > 0 && n <= statements.len() && (has_pipe(statements, (n - 1) as nat) || statement_pipes(
        statements[n - 1],
    ))
}

pub open spec fn statement_pipes(statement: StatementModel) -> bool
    decreases statement, 0nat,
{
    match statement {
        StatementModel::Recipe(recipe) => match recipe.action {
            ActionModel::Pipe(_) => true,
            ActionModel::Block(children) => has_pipe(children, children.len()),
            _ => false,
        },
        _ => false,
    }
}

proof fn lemma_some_pipe(statements: Seq<StatementModel>, n: nat, m: nat)
    requires
        n <= m <= statements.len(),
        has_pipe(statements, n),
    ensures
        has_pipe(statements, m),
    decreases m,
{
    if n < m {
        lemma_some_pipe(statements, n, (m - 1) as nat);
    }
}

fn block_has_pipe(statements: &Vec<Statement>) -> (r: bool)
    ensures
        r == has_pipe(models_of(statements@), models_of(statements@).len()),
    decreases statements,
{
    let ghost models = models_of(statements@);
    proof {
        lemma_statement_models(statements@, statements@.len());
    }
    let mut i: usize = 0;
    while i < statements.len()
        invariant
            i <= statements@.len(),
            models == models_of(statements@),
            models.len() == statements@.len(),
            forall|j: int| 0 <= j < statements@.len() ==> #[trigger] models[j] == statements@[j]@,
            !has_pipe(models, i as nat),
        decreases statements.len() - i,
    {
        assert(models[i as int] == statements@[i as int]@);
        let found = match &statements[i] {
            Statement::Recipe(recipe) => match &recipe.action {
                RecipeAction::Pipe(_) => true,
                RecipeAction::Block(children) => {
                    proof {
                        lemma_statement_models(children@, children@.len());
                    }
                    block_has_pipe(children)
                },
                _ => false,
            },
            _ => false,
        };
        assert(found == statement_pipes(models[i as int]));
        i = i + 1;
        if found {
            proof {
                lemma_some_pipe(models, i as nat, models.len());
            }
            return true;
        }
    }
    false
}

} // verus!
