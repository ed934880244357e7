//! Conditions that are expanded before they are read.

use vstd::prelude::*;
use vstd::string::*;
use vstd::utf8::*;

use crate::config::analysis::{self, ExpressionAnalysis, Scope};
use crate::config::binding::{self, parse_linebuf, relabel_linebuf_error};
use crate::config::conditions::{self, parse_reparsed_condition};
use crate::config::errors::{self, ExpansionError, Fault};
use crate::config::expression::{ExpressionModel, ShellExpression};
use crate::config::expression_parser::{
    self, parse_shell_condition_expression, ExpressionSyntax,
};
use crate::config::recipe::{
    self, Condition, ConditionKind, ConditionKindModel, ConditionModel, ShellExpandedCondition,
};
use crate::config::shell_eval::{
    self, evaluate, ContextModel, EvaluationContext, Purpose, ValueBytes, Values,
};
use crate::config::tables::{ExpandedValue, NameSet, NameTable};
use crate::config::{DEFAULT_LINEBUF, MAX_EXPANSION_DEPTH};
use crate::text::{self, counted, string_from_utf8, text2, to_chars, trimmed_start};

verus! {

/// How long an expanded condition may be.
pub open spec fn condition_linebuf(values: Map<Seq<char>, ValueBytes>, line: nat) -> Result<
    usize,
    Fault,
> {
    if !values.contains_key("LINEBUF"@) {
        Ok(DEFAULT_LINEBUF)
    } else if !valid_utf8(values["LINEBUF"@].bytes) {
        Err(errors::fault(line, "LINEBUF must be an unsigned decimal integer"@))
    } else {
        binding::linebuf_value(decode_utf8(values["LINEBUF"@].bytes), line)
    }
}

fn active_condition_linebuf(values: Values<'_>, line: usize) -> (r: Result<usize, ExpansionError>)
    ensures
        match condition_linebuf(values@, line as nat) {
            Ok(linebuf) => r == Ok::<usize, ExpansionError>(linebuf),
            Err(error) => r matches Err(found) && found@ == error,
        },
{
    let context = EvaluationContext { purpose: Purpose::ShellCondition, line, values };
    match context.variable("LINEBUF") {
        None => Ok(DEFAULT_LINEBUF),
        Some(value) => match string_from_utf8(value.bytes) {
            None => Err(ExpansionError::told(line, "LINEBUF must be an unsigned decimal integer")),
            Some(found) => {
                proof {
                    encode_utf8_decode_utf8(found@);
                }
                parse_linebuf(found.as_str(), line)
            },
        },
    }
}

/// The text that the expression of a condition writes.
#[verifier::opaque]
pub open spec fn condition_text(
    expression: ExpressionModel,
    line: nat,
    values: Map<Seq<char>, ValueBytes>,
) -> Result<Seq<char>, Fault> {
    match condition_linebuf(values, line) {
        Err(error) => Err(error),
        Ok(linebuf) => match shell_eval::evaluated_at(
            ContextModel { purpose: Purpose::ShellCondition, line, values },
            expression,
            linebuf,
            0,
            Seq::empty(),
        ) {
            Err(error) => Err(binding::relabelled(error, linebuf, usize::MAX)),
            Ok(evaluated) => if evaluated.assignments.len() > 0 {
                Err(errors::fault(line, "parameter assignment requires ordered evaluation"@))
            } else if !valid_utf8(evaluated.bytes) {
                Err(
                    errors::fault(
                        line,
                        "shell-expanded condition contains non-UTF-8 variable data"@,
                    ),
                )
            } else {
                Ok(decode_utf8(evaluated.bytes))
            },
        },
    }
}

fn evaluate_condition(expression: &ShellExpression, line: usize, values: Values<'_>) -> (r: Result<
    String,
    ExpansionError,
>)
    ensures
        errors::expanded_as(r, condition_text(expression@, line as nat, values@)),
{
    proof {
        reveal(condition_text);
    }
    let linebuf = match active_condition_linebuf(values, line) {
        Ok(linebuf) => linebuf,
        Err(error) => {
            return Err(error);
        },
    };
    let context = EvaluationContext { purpose: Purpose::ShellCondition, line, values };
    let evaluated = match evaluate(expression, linebuf, &context) {
        Ok(evaluated) => evaluated,
        Err(error) => {
            return Err(relabel_linebuf_error(error, linebuf, usize::MAX));
        },
    };
    assert(evaluated@.assignments.len() == evaluated.assignments@.len());
    if evaluated.assignments.len() > 0 {
        return Err(ExpansionError::told(line, "parameter assignment requires ordered evaluation"));
    }
    match string_from_utf8(evaluated.bytes) {
        Some(found) => {
            proof {
                encode_utf8_decode_utf8(found@);
            }
            Ok(found)
        },
        None => Err(
            ExpansionError::told(line, "shell-expanded condition contains non-UTF-8 variable data"),
        ),
    }
}

/// The expression of a condition's text.
pub open spec fn condition_expression(source: Seq<char>, line: nat) -> Result<
    ExpressionModel,
    Fault,
> {
    expression_parser::whole_expression(source, line, ExpressionSyntax::ShellCondition)
}

/// The text that a condition is expanded to.
pub open spec fn expanded_condition(
    source: Seq<char>,
    expansion: Option<ExpressionModel>,
    line: nat,
    values: Map<Seq<char>, ValueBytes>,
) -> Result<Seq<char>, Fault> {
    match expansion {
        Some(expression) => condition_text(expression, line, values),
        None => match condition_expression(source, line) {
            Ok(expression) => condition_text(expression, line, values),
            Err(error) => Err(error),
        },
    }
}

/// Expands a condition with the values that its variables have.
pub fn expand_shell_condition(
    condition: &ShellExpandedCondition,
    line: usize,
    values: Values<'_>,
) -> (r: Result<String, ExpansionError>)
    ensures
        errors::expanded_as(
            r,
            expanded_condition(
                condition.source@,
                recipe::expansion_model(condition.expansion),
                line as nat,
                values@,
            ),
        ),
{
    match &condition.expansion {
        Some(expression) => evaluate_condition(expression, line, values),
        None => match parse_shell_condition_expression(condition.source.as_str(), line) {
            Ok(expression) => evaluate_condition(&expression, line, values),
            Err(error) => Err(error),
        },
    }
}

/// What an expression that may not assign is refused with.
pub open spec fn assignment_fault(
    expression: ExpressionModel,
    line: nat,
    context: Seq<char>,
) -> Option<Fault> {
    if expression.has_assignments() {
        Some(errors::fault(line, "parameter assignment is not supported in "@ + context))
    } else {
        None
    }
}

/// Refuses an expression that assigns.
pub fn reject_parameter_assignments(expression: &ShellExpression, line: usize, context: &str) -> (r:
    Result<(), ExpansionError>)
    ensures
        errors::faulted_as(r, assignment_fault(expression@, line as nat, context@)),
{
    if expression.has_assignments() {
        return Err(
            ExpansionError::new(
                line,
                text2("parameter assignment is not supported in ", context),
            ),
        );
    }
    Ok(())
}

/// The condition that a text is which a condition on `line` was expanded to.
#[verifier::opaque]
pub open spec fn replaced_condition(
    line: nat,
    negated: bool,
    expanded: Seq<char>,
    case_sensitive: bool,
) -> Result<ConditionModel, Fault> {
    match conditions::reparsed_condition(text::trim_start(expanded), line, case_sensitive) {
        Err(error) => Err(errors::fault(error.line, error.message)),
        Ok(parsed) => Ok(
            ConditionModel { line, negated: negated != parsed.negated, kind: parsed.kind },
        ),
    }
}

/// A condition once all that is known has been expanded in it, after `pass`
/// expansions.
#[verifier::opaque]
pub open spec fn prepared_condition(
    condition: ConditionModel,
    pass: nat,
    scope: Scope,
    case_sensitive: bool,
) -> Result<ConditionModel, Fault>
    decreases MAX_EXPANSION_DEPTH + 1 - pass,
{
    match condition.kind {
        ConditionKindModel::ShellExpanded { source, .. } => match condition_expression(
            source,
            condition.line,
        ) {
            Err(error) => Err(error),
            Ok(expression) => {
                let found = analysis::analyzed(scope, expression);
                if let Some(error) = assignment_fault(
                    expression,
                    condition.line,
                    "shell-expanded condition"@,
                ) {
                    Err(error)
                } else if let Some(error) = analysis::missing_fault(
                    found.missing_shell_condition,
                    condition.line,
                ) {
                    Err(error)
                } else if !found.shell_condition_static {
                    Ok(
                        ConditionModel {
                            kind: ConditionKindModel::ShellExpanded {
                                source,
                                expansion: Some(expression),
                            },
                            ..condition
                        },
                    )
                } else if pass >= MAX_EXPANSION_DEPTH {
                    Err(
                        errors::fault(
                            condition.line,
                            "condition expansion exceeds the hard depth limit of "@ + text::decimal(
                                MAX_EXPANSION_DEPTH as nat,
                            ),
                        ),
                    )
                } else {
                    match condition_text(
                        expression,
                        condition.line,
                        shell_eval::known_bytes(scope.known),
                    ) {
                        Err(error) => Err(error),
                        Ok(expanded) => match replaced_condition(
                            condition.line,
                            condition.negated,
                            expanded,
                            case_sensitive,
                        ) {
                            Err(error) => Err(error),
                            Ok(next) => prepared_condition(next, pass + 1, scope, case_sensitive),
                        },
                    }
                }
            },
        },
        _ => Ok(condition),
    }
}

fn replace_condition(
    line: usize,
    negated: bool,
    expanded: String,
    case_sensitive: bool,
) -> (r: Result<Condition, ExpansionError>)
    ensures
        errors::expanded_as(
            r,
            replaced_condition(line as nat, negated, expanded@, case_sensitive),
        ),
{
    proof {
        reveal(replaced_condition);
    }
    let chars = to_chars(expanded.as_str());
    match parse_reparsed_condition(trimmed_start(chars.as_slice()), line, case_sensitive) {
        Ok(parsed) => Ok(Condition { line, negated: negated != parsed.negated, kind: parsed.kind }),
        Err(error) => Err(ExpansionError::new(error.line, error.message)),
    }
}

/// Expands all that is known in a condition. A known value may be another
/// condition of this kind, so that several expansions may follow each other.
pub fn prepare_condition(
    condition: Condition,
    known: &NameTable<ExpandedValue>,
    dynamic: &NameSet,
    case_sensitive: bool,
) -> (r: Result<Condition, ExpansionError>)
    ensures
        errors::expanded_as(
            r,
            prepared_condition(
                condition@,
                0,
                Scope { known: known@, dynamic: dynamic@ },
                case_sensitive,
            ),
        ),
{
    let ghost scope = Scope { known: known@, dynamic: dynamic@ };
    let ghost whole = prepared_condition(condition@, 0, scope, case_sensitive);
    let mut current = condition;
    let mut pass: usize = 0;
    loop
        invariant
            pass <= MAX_EXPANSION_DEPTH,
            scope == (Scope { known: known@, dynamic: dynamic@ }),
            whole == prepared_condition(condition@, 0, scope, case_sensitive),
            whole == prepared_condition(current@, pass as nat, scope, case_sensitive),
        decreases MAX_EXPANSION_DEPTH - pass,
    {
        proof {
            reveal(prepared_condition);
        }
        let Condition { line, negated, kind } = current;
        let shell = match kind {
            ConditionKind::ShellExpanded(shell) => shell,
            other => {
                return Ok(Condition { line, negated, kind: other });
            },
        };
        let expression = match parse_shell_condition_expression(shell.source.as_str(), line) {
            Ok(expression) => expression,
            Err(error) => {
                return Err(error);
            },
        };
        match reject_parameter_assignments(&expression, line, "shell-expanded condition") {
            Ok(()) => {},
            Err(error) => {
                return Err(error);
            },
        }
        let found = ExpressionAnalysis::new(&expression, known, dynamic);
        match found.validate_shell_condition_references(line) {
            Ok(()) => {},
            Err(error) => {
                return Err(error);
            },
        }
        if !found.shell_condition_static {
            let kept = ShellExpandedCondition { source: shell.source, expansion: Some(expression) };
            return Ok(Condition { line, negated, kind: ConditionKind::ShellExpanded(kept) });
        }
        if pass == MAX_EXPANSION_DEPTH {
            return Err(
                ExpansionError::new(
                    line,
                    counted(
                        "condition expansion exceeds the hard depth limit of ",
                        MAX_EXPANSION_DEPTH,
                    ),
                ),
            );
        }
        let expanded = match evaluate_condition(&expression, line, Values::Known(known)) {
            Ok(expanded) => expanded,
            Err(error) => {
                return Err(error);
            },
        };
        match replace_condition(line, negated, expanded, case_sensitive) {
            Ok(next) => {
                current = next;
            },
            Err(error) => {
                return Err(error);
            },
        }
        pass = pass + 1;
    }
}

/// The first `n` conditions once all that is known has been expanded in them.
pub open spec fn prepared_conditions(
    conditions: Seq<ConditionModel>,
    n: nat,
    scope: Scope,
    case_sensitive: bool,
) -> Result<Seq<ConditionModel>, Fault>
    decreases n,
{
    if n == 0 || n > conditions.len() {
        Ok(Seq::empty())
    } else {
        match prepared_conditions(conditions, (n - 1) as nat, scope, case_sensitive) {
            Err(error) => Err(error),
            Ok(before) => match prepared_condition(
                conditions[n - 1],
                0,
                scope,
                case_sensitive,
            ) {
                Err(error) => Err(error),
                Ok(condition) => Ok(before.push(condition)),
            },
        }
    }
}

proof fn lemma_first_fault(
    conditions: Seq<ConditionModel>,
    n: nat,
    m: nat,
    scope: Scope,
    case_sensitive: bool,
)
    requires
        n <= m <= conditions.len(),
        prepared_conditions(conditions, n, scope, case_sensitive) is Err,
    ensures
        prepared_conditions(conditions, m, scope, case_sensitive) == prepared_conditions(
            conditions,
            n,
            scope,
            case_sensitive,
        ),
    decreases m,
{
    if n < m {
        lemma_first_fault(conditions, n, (m - 1) as nat, scope, case_sensitive);
    }
}

/// Expands all that is known in the conditions of a recipe.
pub fn prepare_shell_conditions(
    conditions: Vec<Condition>,
    known: &NameTable<ExpandedValue>,
    dynamic: &NameSet,
    case_sensitive: bool,
) -> (r: Result<Vec<Condition>, ExpansionError>)
    ensures
        match prepared_conditions(
            recipe::condition_models(conditions@),
            conditions@.len(),
            Scope { known: known@, dynamic: dynamic@ },
            case_sensitive,
        ) {
            Ok(models) => r matches Ok(found) && recipe::condition_models(found@) == models,
            Err(error) => r matches Err(found) && found@ == error,
        },
{
    let ghost scope = Scope { known: known@, dynamic: dynamic@ };
    let ghost models = recipe::condition_models(conditions@);
    let ghost count = conditions@.len();
    let mut prepared: Vec<Condition> = Vec::new();
    assert(recipe::condition_models(prepared@) =~= Seq::empty());
    for condition in it: conditions
        invariant
            models.len() == count,
            it.seq().len() == count,
            models == recipe::condition_models(it.seq()),
            scope == (Scope { known: known@, dynamic: dynamic@ }),
            prepared_conditions(models, it.index() as nat, scope, case_sensitive) == Ok::<
                Seq<ConditionModel>,
                Fault,
            >(recipe::condition_models(prepared@)),
    {
        let ghost position = it.index();
        assert(models[position as int] == condition@);
        match prepare_condition(condition, known, dynamic, case_sensitive) {
            Ok(next) => {
                let ghost before = prepared@;
                prepared.push(next);
                assert(recipe::condition_models(prepared@) =~= recipe::condition_models(
                    before,
                ).push(next@));
            },
            Err(error) => {
                proof {
                    lemma_first_fault(
                        models,
                        (position + 1) as nat,
                        count,
                        scope,
                        case_sensitive,
                    );
                }
                return Err(error);
            },
        }
    }
    Ok(prepared)
}

} // verus!
