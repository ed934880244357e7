//! What an expression refers to, as far as that is known before it is
//! evaluated.

use vstd::prelude::*;
use vstd::string::*;

use crate::config::errors::{self, ExpansionError, Fault};
use crate::config::expression::{
    self, ExpressionModel, OperationModel, ParameterOperation, PartModel, ShellExpression,
    ShellPart,
};
use crate::config::tables::{ExpandedValue, NameSet, NameTable, ValueText};
use crate::config::variables::{self, variable_policy, VariablePolicy};
use crate::text::text3;

verus! {

/// What an expression refers to.
#[derive(Debug, PartialEq, Eq)]
pub struct ExpressionAnalysis {
    pub missing_runtime: Option<String>,
    pub missing_shell_condition: Option<String>,
    pub missing_path: Option<String>,
    pub needs_runtime: bool,
    pub references_dynamic: bool,
    pub has_runtime_variable: bool,
    pub has_command: bool,
    pub has_assignment: bool,
    pub has_regex_quoted_variable: bool,
    pub shell_condition_static: bool,
}

/// What an expression refers to, with names as sequences of characters.
pub struct Analysis {
    /// The first variable that will have no value when the expression is
    /// evaluated for a message.
    pub missing_runtime: Option<Seq<char>>,
    /// The same for a condition, where quoted variables count too.
    pub missing_shell_condition: Option<Seq<char>>,
    /// The first variable, of those that a message does not set, that has no
    /// known value.
    pub missing_path: Option<Seq<char>>,
    /// Whether the value depends on a message.
    pub needs_runtime: bool,
    /// Whether a variable is referred to whose value a recipe may change.
    pub references_dynamic: bool,
    pub has_runtime_variable: bool,
    pub has_command: bool,
    pub has_assignment: bool,
    pub has_regex_quoted_variable: bool,
    /// Whether, as a condition, the expression has the same value for every
    /// message.
    pub shell_condition_static: bool,
}

pub open spec fn text_of(text: Option<String>) -> Option<Seq<char>> {
    match text {
        Some(name) => Some(name@),
        None => None,
    }
}

impl View for ExpressionAnalysis {
    type V = Analysis;

    open spec fn view(&self) -> Analysis {
        Analysis {
            missing_runtime: text_of(self.missing_runtime),
            missing_shell_condition: text_of(self.missing_shell_condition),
            missing_path: text_of(self.missing_path),
            needs_runtime: self.needs_runtime,
            references_dynamic: self.references_dynamic,
            has_runtime_variable: self.has_runtime_variable,
            has_command: self.has_command,
            has_assignment: self.has_assignment,
            has_regex_quoted_variable: self.has_regex_quoted_variable,
            shell_condition_static: self.shell_condition_static,
        }
    }
}

/// The analysis of an expression without parts.
pub open spec fn nothing_referred() -> Analysis {
    Analysis {
        missing_runtime: None,
        missing_shell_condition: None,
        missing_path: None,
        needs_runtime: false,
        references_dynamic: false,
        has_runtime_variable: false,
        has_command: false,
        has_assignment: false,
        has_regex_quoted_variable: false,
        shell_condition_static: true,
    }
}

/// The first of two names.
pub open spec fn first_of(first: Option<Seq<char>>, second: Option<Seq<char>>) -> Option<
    Seq<char>,
> {
    match first {
        Some(_) => first,
        None => second,
    }
}

/// What the analysis of an operation's word adds where the word may be
/// evaluated.
pub open spec fn counted(child: Option<Analysis>, runs: bool) -> Analysis {
    match child {
        Some(analysis) => if runs {
            analysis
        } else {
            nothing_referred()
        },
        None => nothing_referred(),
    }
}

/// What is known of the variables when an expression is analyzed.
pub struct Scope {
    pub known: Map<Seq<char>, ValueText>,
    pub dynamic: Set<Seq<char>>,
}

impl Scope {
    pub open spec fn runtime_only(self, name: Seq<char>) -> bool {
        variables::policy_of(name) is RuntimeOnly
    }

    /// Whether the variable has, or may get, a value.
    pub open spec fn available(self, name: Seq<char>) -> bool {
        self.known.contains_key(name) || self.dynamic.contains(name) || self.runtime_only(name)
    }

    /// Whether the operation's word may be evaluated.
    pub open spec fn word_may_run(self, name: Seq<char>, operation: OperationModel) -> bool {
        if self.known.contains_key(name) {
            operation.evaluates_word(true, self.known[name].text.len() == 0)
        } else if self.available(name) {
            operation.word() is Some
        } else {
            operation.evaluates_word(false, false)
        }
    }
}

/// The analysis once a reference with an operation follows.
pub open spec fn with_variable(
    scope: Scope,
    so_far: Analysis,
    name: Seq<char>,
    operation: OperationModel,
    child: Option<Analysis>,
) -> Analysis {
    let runs = scope.word_may_run(name, operation);
    let word = counted(child, runs);
    let missing = if !scope.available(name) && operation.requires_value() {
        Some(name)
    } else {
        None
    };
    let dynamic = scope.dynamic.contains(name);
    let runtime = scope.runtime_only(name);
    Analysis {
        missing_runtime: first_of(first_of(so_far.missing_runtime, missing), word.missing_runtime),
        missing_shell_condition: first_of(
            first_of(so_far.missing_shell_condition, missing),
            word.missing_shell_condition,
        ),
        missing_path: if runtime {
            so_far.missing_path
        } else {
            first_of(
                first_of(so_far.missing_path, word.missing_path),
                if !scope.known.contains_key(name) && operation.requires_value() {
                    Some(name)
                } else {
                    None
                },
            )
        },
        needs_runtime: so_far.needs_runtime || runtime || word.needs_runtime,
        references_dynamic: so_far.references_dynamic || dynamic || word.references_dynamic,
        has_runtime_variable: so_far.has_runtime_variable || runtime || word.has_runtime_variable,
        has_command: so_far.has_command || word.has_command,
        has_assignment: so_far.has_assignment || operation is AssignIfUnsetOrEmpty
            || word.has_assignment,
        has_regex_quoted_variable: so_far.has_regex_quoted_variable
            || word.has_regex_quoted_variable,
        shell_condition_static: so_far.shell_condition_static && (if dynamic || runtime {
            false
        } else if runs {
            word.shell_condition_static
        } else {
            scope.available(name) || !operation.requires_value()
        }),
    }
}

/// The analysis once a quoted variable follows.
pub open spec fn with_quoted_variable(scope: Scope, so_far: Analysis, name: Seq<char>) -> Analysis {
    Analysis {
        missing_shell_condition: first_of(
            so_far.missing_shell_condition,
            if scope.available(name) {
                None
            } else {
                Some(name)
            },
        ),
        references_dynamic: so_far.references_dynamic || scope.dynamic.contains(name),
        has_regex_quoted_variable: true,
        needs_runtime: true,
        shell_condition_static: so_far.shell_condition_static && scope.known.contains_key(name)
            && !scope.dynamic.contains(name) && !scope.runtime_only(name),
        ..so_far
    }
}

/// The analysis once an expression with its own analysis follows.
pub open spec fn with_quoted_expression(so_far: Analysis, child: Analysis) -> Analysis {
    Analysis {
        missing_runtime: first_of(so_far.missing_runtime, child.missing_runtime),
        missing_shell_condition: first_of(
            so_far.missing_shell_condition,
            child.missing_shell_condition,
        ),
        missing_path: first_of(so_far.missing_path, child.missing_path),
        needs_runtime: so_far.needs_runtime || child.needs_runtime,
        references_dynamic: so_far.references_dynamic || child.references_dynamic,
        has_runtime_variable: so_far.has_runtime_variable || child.has_runtime_variable,
        has_command: so_far.has_command || child.has_command,
        has_assignment: so_far.has_assignment || child.has_assignment,
        has_regex_quoted_variable: so_far.has_regex_quoted_variable
            || child.has_regex_quoted_variable,
        shell_condition_static: so_far.shell_condition_static && child.shell_condition_static,
    }
}

/// The analysis of the first `n` parts.
pub open spec fn analyzed_parts(scope: Scope, parts: Seq<PartModel>, n: nat) -> Analysis
    decreases parts, n,
{
    if n == 0 || n > parts.len() {
        nothing_referred()
    } else {
        with_part(scope, analyzed_parts(scope, parts, (n - 1) as nat), parts[n - 1])
    }
}

/// The analysis once a part follows.
pub open spec fn with_part(scope: Scope, so_far: Analysis, part: PartModel) -> Analysis
    decreases part, 0nat,
{
    match part {
        PartModel::Literal(_) => so_far,
        PartModel::Variable { name, operation } => with_variable(
            scope,
            so_far,
            name,
            operation,
            match operation.word() {
                Some(word) => Some(analyzed_parts(scope, word.parts, word.parts.len())),
                None => None,
            },
        ),
        PartModel::RegexQuotedVariable(name) => with_quoted_variable(scope, so_far, name),
        PartModel::Command(_) => Analysis {
            has_command: true,
            needs_runtime: true,
            shell_condition_static: false,
            ..so_far
        },
        PartModel::PatternQuote(expression) => with_quoted_expression(
            so_far,
            analyzed_parts(scope, expression.parts, expression.parts.len()),
        ),
    }
}

/// What an expression refers to.
pub open spec fn analyzed(scope: Scope, expression: ExpressionModel) -> Analysis {
    analyzed_parts(scope, expression.parts, expression.parts.len())
}

impl Analysis {
    /// Whether the expression cannot be bound to known values alone.
    pub open spec fn has_runtime_part(self) -> bool {
        self.has_runtime_variable || self.has_command || self.has_assignment
            || self.has_regex_quoted_variable
    }
}

/// The fault of a reference to a variable that has no value.
pub open spec fn missing_fault(missing: Option<Seq<char>>, line: nat) -> Option<Fault> {
    match missing {
        Some(name) => Some(errors::fault(line, "variable "@ + name + " is not defined"@)),
        None => None,
    }
}

fn copy_name(name: &Option<String>) -> (r: Option<String>)
    ensures
        text_of(r) == text_of(*name),
{
    match name {
        Some(text) => Some(text.clone()),
        None => None,
    }
}

/// Keeps the first of two names.
fn merge_first_missing(first: Option<String>, second: Option<String>) -> (r: Option<String>)
    ensures
        text_of(r) == first_of(text_of(first), text_of(second)),
{
    match first {
        Some(name) => Some(name),
        None => second,
    }
}

impl ExpressionAnalysis {
    fn empty() -> (r: Self)
        ensures
            r@ == nothing_referred(),
    {
        ExpressionAnalysis {
            missing_runtime: None,
            missing_shell_condition: None,
            missing_path: None,
            needs_runtime: false,
            references_dynamic: false,
            has_runtime_variable: false,
            has_command: false,
            has_assignment: false,
            has_regex_quoted_variable: false,
            shell_condition_static: true,
        }
    }

    /// Analyzes an expression.
    pub fn new(
        expression: &ShellExpression,
        known: &NameTable<ExpandedValue>,
        dynamic: &NameSet,
    ) -> (r: Self)
        ensures
            r@ == analyzed(Scope { known: known@, dynamic: dynamic@ }, expression@),
        decreases expression, 0nat,
    {
        let ghost scope = Scope { known: known@, dynamic: dynamic@ };
        proof {
            expression::lemma_expression_parts(*expression);
        }
        let mut analysis = ExpressionAnalysis::empty();
        let mut i: usize = 0;
        while i < expression.parts.len()
            invariant
                i <= expression.parts@.len(),
                scope == (Scope { known: known@, dynamic: dynamic@ }),
                expression@.parts.len() == expression.parts@.len(),
                forall|j: int|
                    0 <= j < expression.parts@.len() ==> #[trigger] expression@.parts[j]
                        == expression.parts@[j]@,
                analysis@ == analyzed_parts(scope, expression@.parts, i as nat),
            decreases expression.parts.len() - i,
        {
            assert(expression@.parts[i as int] == expression.parts@[i as int]@);
            let ghost before = analysis@;
            match &expression.parts[i] {
                ShellPart::Literal(_) => {},
                ShellPart::Variable { name, operation } => {
                    let child = match operation.word() {
                        Some(word) => Some(ExpressionAnalysis::new(word, known, dynamic)),
                        None => None,
                    };
                    analysis = analysis.and_variable(
                        name.as_str(),
                        operation,
                        child,
                        known,
                        dynamic,
                    );
                    assert(analysis@ == with_part(scope, before, expression@.parts[i as int]));
                },
                ShellPart::RegexQuotedVariable(name) => {
                    analysis = analysis.and_quoted_variable(name.as_str(), known, dynamic);
                },
                ShellPart::Command(_) => {
                    analysis.has_command = true;
                    analysis.needs_runtime = true;
                    analysis.shell_condition_static = false;
                },
                ShellPart::PatternQuote(inner) => {
                    let child = ExpressionAnalysis::new(inner, known, dynamic);
                    analysis = analysis.and_quoted_expression(child);
                    assert(analysis@ == with_part(scope, before, expression@.parts[i as int]));
                },
            }
            assert(analysis@ == with_part(scope, before, expression@.parts[i as int]));
            i = i + 1;
        }
        analysis
    }

    fn and_variable(
        self,
        name: &str,
        operation: &ParameterOperation,
        child: Option<ExpressionAnalysis>,
        known: &NameTable<ExpandedValue>,
        dynamic: &NameSet,
    ) -> (r: Self)
        ensures
            r@ == with_variable(
                Scope { known: known@, dynamic: dynamic@ },
                self@,
                name@,
                operation@,
                match child {
                    Some(analysis) => Some(analysis@),
                    None => None,
                },
            ),
    {
        let runtime = variable_policy(name) == VariablePolicy::RuntimeOnly;
        let is_dynamic = dynamic.contains(name);
        let (is_known, is_empty) = match known.get(name) {
            Some(value) => (true, value.text.as_str().is_empty()),
            None => (false, false),
        };
        let available = is_known || is_dynamic || runtime;
        let runs = if is_known {
            operation.evaluates_word(true, is_empty)
        } else if available {
            operation.word().is_some()
        } else {
            operation.evaluates_word(false, false)
        };
        let word = match child {
            Some(analysis) => if runs {
                analysis
            } else {
                ExpressionAnalysis::empty()
            },
            None => ExpressionAnalysis::empty(),
        };
        let needs_value = operation.requires_value();
        let missing = if !available && needs_value {
            Some(name.to_owned())
        } else {
            None
        };
        let assigns = matches!(operation, ParameterOperation::AssignIfUnsetOrEmpty(_));
        let path_here = if !is_known && needs_value {
            Some(name.to_owned())
        } else {
            None
        };
        ExpressionAnalysis {
            missing_runtime: merge_first_missing(
                merge_first_missing(self.missing_runtime, copy_name(&missing)),
                word.missing_runtime,
            ),
            missing_shell_condition: merge_first_missing(
                merge_first_missing(self.missing_shell_condition, missing),
                word.missing_shell_condition,
            ),
            missing_path: if runtime {
                self.missing_path
            } else {
                merge_first_missing(
                    merge_first_missing(self.missing_path, word.missing_path),
                    path_here,
                )
            },
            needs_runtime: self.needs_runtime || runtime || word.needs_runtime,
            references_dynamic: self.references_dynamic || is_dynamic || word.references_dynamic,
            has_runtime_variable: self.has_runtime_variable || runtime || word.has_runtime_variable,
            has_command: self.has_command || word.has_command,
            has_assignment: self.has_assignment || assigns || word.has_assignment,
            has_regex_quoted_variable: self.has_regex_quoted_variable
                || word.has_regex_quoted_variable,
            shell_condition_static: self.shell_condition_static && (if is_dynamic || runtime {
                false
            } else if runs {
                word.shell_condition_static
            } else {
                available || !needs_value
            }),
        }
    }

    fn and_quoted_variable(
        self,
        name: &str,
        known: &NameTable<ExpandedValue>,
        dynamic: &NameSet,
    ) -> (r: Self)
        ensures
            r@ == with_quoted_variable(
                Scope { known: known@, dynamic: dynamic@ },
                self@,
                name@,
            ),
    {
        let runtime = variable_policy(name) == VariablePolicy::RuntimeOnly;
        let is_dynamic = dynamic.contains(name);
        let is_known = known.contains(name);
        let missing = if is_known || is_dynamic || runtime {
            None
        } else {
            Some(name.to_owned())
        };
        ExpressionAnalysis {
            missing_runtime: self.missing_runtime,
            missing_shell_condition: merge_first_missing(self.missing_shell_condition, missing),
            missing_path: self.missing_path,
            needs_runtime: true,
            references_dynamic: self.references_dynamic || is_dynamic,
            has_runtime_variable: self.has_runtime_variable,
            has_command: self.has_command,
            has_assignment: self.has_assignment,
            has_regex_quoted_variable: true,
            shell_condition_static: self.shell_condition_static && is_known && !is_dynamic
                && !runtime,
        }
    }

    fn and_quoted_expression(self, child: ExpressionAnalysis) -> (r: Self)
        ensures
            r@ == with_quoted_expression(self@, child@),
    {
        ExpressionAnalysis {
            missing_runtime: merge_first_missing(self.missing_runtime, child.missing_runtime),
            missing_shell_condition: merge_first_missing(
                self.missing_shell_condition,
                child.missing_shell_condition,
            ),
            missing_path: merge_first_missing(self.missing_path, child.missing_path),
            needs_runtime: self.needs_runtime || child.needs_runtime,
            references_dynamic: self.references_dynamic || child.references_dynamic,
            has_runtime_variable: self.has_runtime_variable || child.has_runtime_variable,
            has_command: self.has_command || child.has_command,
            has_assignment: self.has_assignment || child.has_assignment,
            has_regex_quoted_variable: self.has_regex_quoted_variable
                || child.has_regex_quoted_variable,
            shell_condition_static: self.shell_condition_static && child.shell_condition_static,
        }
    }

    /// Whether the expression cannot be bound to known values alone.
    pub fn has_runtime_part(&self) -> (r: bool)
        ensures
            r == self@.has_runtime_part(),
    {
        self.has_runtime_variable || self.has_command || self.has_assignment
            || self.has_regex_quoted_variable
    }

    /// Refuses an expression that will not have a value for a message.
    pub fn validate_runtime_references(&self, line: usize) -> (r: Result<(), ExpansionError>)
        ensures
            match missing_fault(self@.missing_runtime, line as nat) {
                Some(fault) => r matches Err(error) && error@ == fault,
                None => r is Ok,
            },
    {
        validate_missing(&self.missing_runtime, line)
    }

    /// Refuses an expression that will not have a value as a condition.
    pub fn validate_shell_condition_references(&self, line: usize) -> (r: Result<
        (),
        ExpansionError,
    >)
        ensures
            match missing_fault(self@.missing_shell_condition, line as nat) {
                Some(fault) => r matches Err(error) && error@ == fault,
                None => r is Ok,
            },
    {
        validate_missing(&self.missing_shell_condition, line)
    }

    /// Refuses an expression that has no value before any message is read.
    pub fn validate_path_references(&self, line: usize) -> (r: Result<(), ExpansionError>)
        ensures
            match missing_fault(self@.missing_path, line as nat) {
                Some(fault) => r matches Err(error) && error@ == fault,
                None => r is Ok,
            },
    {
        validate_missing(&self.missing_path, line)
    }
}

fn validate_missing(missing: &Option<String>, line: usize) -> (r: Result<(), ExpansionError>)
    ensures
        match missing_fault(text_of(*missing), line as nat) {
            Some(fault) => r matches Err(error) && error@ == fault,
            None => r is Ok,
        },
{
    match missing {
        Some(name) => Err(
            ExpansionError::new(line, text3("variable ", name.as_str(), " is not defined")),
        ),
        None => Ok(()),
    }
}

} // verus!
