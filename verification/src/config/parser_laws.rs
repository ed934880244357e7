//! What holds of every rc file that is read.

use vstd::prelude::*;

use crate::config::action_parser::ActionKind;
use crate::config::assignments;
use crate::config::conditions;
use crate::config::header_actions;
use crate::config::limits::{self, AssignmentUse, ParseBudget};
use crate::config::parser;
use crate::config::recipe::{ActionModel, ConditionModel, StatementModel};
use crate::config::recipe_header::RecipeHeaderModel;
use crate::config::variables::{AssignmentTarget, RcLimitVariable};
use crate::config::{
    HARD_MAX_RC_ASSIGNMENTS, HARD_MAX_RC_CONDITIONS, HARD_MAX_RC_RECIPES, HARD_MAX_RC_STATEMENTS,
    HARD_MAX_RECIPE_NESTING_DEPTH, MAX_LINEBUF, MIN_LINEBUF,
};
use crate::text;

verus! {

/// A comment or an empty line says nothing: what is read is what would be read
/// without it, and it counts as no statement.
pub proof fn comments_and_blank_lines_say_nothing(
    lines: Seq<Seq<char>>,
    index: int,
    depth: nat,
    statements: Seq<StatementModel>,
    budget: ParseBudget,
)
    requires
        0 <= index < lines.len(),
        header_actions::silent_line(text::trim(lines[index])),
        text::byte_len(lines[index]) <= budget.limits.linebuf,
    ensures
        parser::statements_from(lines, index, depth, statements, budget)
            == parser::statements_from(lines, index + 1, depth, statements, budget),
{
    reveal(parser::statements_from);
}

/// Whether the limits are within their hard limits, and what has been counted
/// is too.
pub open spec fn within_hard_limits(budget: ParseBudget) -> bool {
    &&& forall|kind: RcLimitVariable| #[trigger]
        budget.limits.value(kind) <= limits::hard_limit(kind)
    &&& MIN_LINEBUF <= budget.limits.linebuf <= MAX_LINEBUF
    &&& budget.counts.assignments <= HARD_MAX_RC_ASSIGNMENTS
    &&& budget.counts.statements <= HARD_MAX_RC_STATEMENTS
    &&& budget.counts.recipes <= HARD_MAX_RC_RECIPES
    &&& budget.counts.conditions <= HARD_MAX_RC_CONDITIONS
}

/// Whether blocks nest no deeper than they may, and no limit is set inside of
/// one, in the first `n` statements of a block of this depth.
pub open spec fn nested_well(statements: Seq<StatementModel>, n: nat, depth: nat) -> bool
    decreases statements, n,
{
    n == 0 || n > statements.len() || (nested_well(statements, (n - 1) as nat, depth)
        && statement_nested_well(statements[n - 1], depth))
}

pub open spec fn statement_nested_well(statement: StatementModel, depth: nat) -> bool
    decreases statement, 0nat,
{
    match statement {
        StatementModel::Assignment(assignment) => depth == 0
            || !assignment.target.steers_parsing(),
        StatementModel::CommandAssignment(assignment) => !assignment.target.steers_parsing(),
        StatementModel::Recipe(recipe) => match recipe.action {
            ActionModel::Block(children) => depth + 1 <= HARD_MAX_RECIPE_NESTING_DEPTH
                && nested_well(children, children.len(), depth + 1),
            _ => true,
        },
        _ => true,
    }
}

proof fn lemma_nested_prefix(
    statements: Seq<StatementModel>,
    statement: StatementModel,
    n: nat,
    depth: nat,
)
    requires
        n <= statements.len(),
    ensures
        nested_well(statements.push(statement), n, depth) == nested_well(statements, n, depth),
    decreases n,
{
    if n > 0 {
        lemma_nested_prefix(statements, statement, (n - 1) as nat, depth);
        assert(statements.push(statement)[n - 1] == statements[n - 1]);
    }
}

proof fn lemma_nested_push(
    statements: Seq<StatementModel>,
    statement: StatementModel,
    depth: nat,
)
    requires
        nested_well(statements, statements.len(), depth),
        statement_nested_well(statement, depth),
    ensures
        nested_well(statements.push(statement), statements.len() + 1, depth),
{
    lemma_nested_prefix(statements, statement, statements.len(), depth);
}

proof fn lemma_hard_limits(budget: ParseBudget)
    requires
        within_hard_limits(budget),
    ensures
        budget.limits.assignments <= HARD_MAX_RC_ASSIGNMENTS,
        budget.limits.statements <= HARD_MAX_RC_STATEMENTS,
        budget.limits.recipes <= HARD_MAX_RC_RECIPES,
        budget.limits.conditions <= HARD_MAX_RC_CONDITIONS,
        budget.limits.nesting_depth <= HARD_MAX_RECIPE_NESTING_DEPTH,
{
    assert(budget.limits.value(RcLimitVariable::Assignments) <= limits::hard_limit(
        RcLimitVariable::Assignments,
    ));
    assert(budget.limits.value(RcLimitVariable::Statements) <= limits::hard_limit(
        RcLimitVariable::Statements,
    ));
    assert(budget.limits.value(RcLimitVariable::Recipes) <= limits::hard_limit(
        RcLimitVariable::Recipes,
    ));
    assert(budget.limits.value(RcLimitVariable::Conditions) <= limits::hard_limit(
        RcLimitVariable::Conditions,
    ));
    assert(budget.limits.value(RcLimitVariable::NestingDepth) <= limits::hard_limit(
        RcLimitVariable::NestingDepth,
    ));
}

/// A recipe has no more conditions than the file may have.
proof fn lemma_conditions(
    lines: Seq<Seq<char>>,
    index: int,
    conditions: Seq<ConditionModel>,
    regexes: nat,
    case_sensitive: bool,
    budget: ParseBudget,
)
    requires
        conditions.len() == 0 || budget.counts.conditions + conditions.len()
            <= budget.limits.conditions,
        parser::conditions_from(lines, index, conditions, regexes, case_sensitive, budget) is Ok,
    ensures
        ({
            let list = parser::conditions_from(
                lines,
                index,
                conditions,
                regexes,
                case_sensitive,
                budget,
            )->Ok_0;
            list.conditions.len() == 0 || budget.counts.conditions + list.conditions.len()
                <= budget.limits.conditions
        }),
    decreases lines.len() - index,
{
    reveal(parser::conditions_from);
    if 0 <= index < lines.len() {
        let line = text::trim(lines[index]);
        let number = (index + 1) as nat;
        if header_actions::silent_line(line) {
            lemma_conditions(lines, index + 1, conditions, regexes, case_sensitive, budget);
        } else if text::begins_with(line, '*') {
            let (source, next) = conditions::condition_at(
                lines,
                index,
                budget.limits.linebuf,
            )->Ok_0;
            let (condition, is_regex) = conditions::condition_of(
                source,
                number,
                case_sensitive,
                regexes,
                budget,
            )->Ok_0;
            if index < next <= lines.len() {
                let more = if is_regex {
                    regexes + 1
                } else {
                    regexes
                };
                lemma_conditions(
                    lines,
                    next,
                    conditions.push(condition),
                    more,
                    case_sensitive,
                    budget,
                );
            }
        }
    }
}

proof fn lemma_opening(lines: Seq<Seq<char>>, start: int, budget: ParseBudget)
    requires
        within_hard_limits(budget),
    ensures
        within_hard_limits(parser::opening_at(lines, start, budget).1),
{
    reveal(parser::opening_at);
    reveal(parser::head_at);
    lemma_hard_limits(budget);
    if parser::head_at(lines, start, budget) is Ok {
        let head = parser::head_at(lines, start, budget)->Ok_0;
        lemma_conditions(
            lines,
            start + 1,
            Seq::empty(),
            0,
            head.header.options.case_mode is Sensitive,
            budget,
        );
        let counted = budget.with_contents(
            head.list.conditions.len(),
            head.list.regexes,
            (start + 1) as nat,
        ).1;
        assert(counted.limits == budget.limits);
        assert forall|kind: RcLimitVariable| #[trigger]
            counted.limits.value(kind) <= limits::hard_limit(kind) by {
            assert(budget.limits.value(kind) <= limits::hard_limit(kind));
        }
    }
}

proof fn lemma_same_limits(before: ParseBudget, after: ParseBudget)
    requires
        within_hard_limits(before),
        after.limits == before.limits,
        after.counts.assignments <= HARD_MAX_RC_ASSIGNMENTS,
        after.counts.statements <= HARD_MAX_RC_STATEMENTS,
        after.counts.recipes <= HARD_MAX_RC_RECIPES,
        after.counts.conditions <= HARD_MAX_RC_CONDITIONS,
    ensures
        within_hard_limits(after),
{
    assert forall|kind: RcLimitVariable| #[trigger]
        after.limits.value(kind) <= limits::hard_limit(kind) by {
        assert(before.limits.value(kind) <= limits::hard_limit(kind));
    }
}

proof fn lemma_plain_action(
    lines: Seq<Seq<char>>,
    index: int,
    action: Seq<char>,
    capture: Option<(Seq<char>, AssignmentTarget)>,
    kind: ActionKind,
    budget: ParseBudget,
)
    requires
        within_hard_limits(budget),
    ensures
        ({
            let (found, after) = parser::plain_action(
                lines,
                index,
                action,
                capture,
                kind,
                budget,
            );
            within_hard_limits(after) && (found matches Ok((parsed, _)) ==> !(parsed is Block))
        }),
{
    reveal(parser::plain_action);
    lemma_hard_limits(budget);
    let charged = budget.with_assignment((index + 1) as nat, AssignmentUse::CaptureAction).1;
    lemma_same_limits(budget, charged);
}

proof fn lemma_assignment_at(
    lines: Seq<Seq<char>>,
    index: int,
    depth: nat,
    budget: ParseBudget,
)
    requires
        within_hard_limits(budget),
        budget.counts.statements < budget.limits.statements,
    ensures
        ({
            let (found, after) = parser::assignment_at(lines, index, depth, budget);
            within_hard_limits(after) && (found matches Ok(statement) ==> statement_nested_well(
                statement,
                depth,
            ))
        }),
{
    reveal(parser::assignment_at);
    lemma_hard_limits(budget);
    let number = (index + 1) as nat;
    let counted = budget.with_assignment(number, AssignmentUse::Statement).1;
    lemma_same_limits(budget, counted);
    if let Ok(Some(assignment)) = assignments::assignment_on(
        text::trim_start(lines[index]),
        number,
    ) {
        if let Ok(StatementModel::Assignment(found)) = assignments::assignment_statement(
            assignment,
            depth,
        ) {
            limits::assigned_limits_stay_in_bounds(counted, found);
        }
    }
}

proof fn lemma_block(
    lines: Seq<Seq<char>>,
    start: int,
    index: int,
    header: RecipeHeaderModel,
    depth: nat,
    budget: ParseBudget,
)
    requires
        within_hard_limits(budget),
    ensures
        ({
            let (found, after) = parser::block_at(lines, start, index, header, depth, budget);
            within_hard_limits(after) && (found matches Ok((action, _)) ==> match action {
                ActionModel::Block(children) => depth + 1 <= HARD_MAX_RECIPE_NESTING_DEPTH
                    && nested_well(children, children.len(), depth + 1),
                _ => true,
            })
        }),
    decreases lines.len() - index, 2nat,
{
    reveal(parser::block_at);
    reveal(parser::statements_from);
    lemma_hard_limits(budget);
    if index < lines.len() && budget.nested(depth, (index + 1) as nat) is Ok {
        lemma_statements(lines, index + 1, depth + 1, Seq::empty(), budget);
    }
}

proof fn lemma_recipe(lines: Seq<Seq<char>>, start: int, depth: nat, budget: ParseBudget)
    requires
        within_hard_limits(budget),
    ensures
        ({
            let (found, after) = parser::recipe_at(lines, start, depth, budget);
            within_hard_limits(after) && (found matches Ok((recipe, _)) ==> statement_nested_well(
                StatementModel::Recipe(recipe),
                depth,
            ))
        }),
    decreases lines.len() - start, 0nat,
{
    reveal(parser::recipe_at);
    reveal(parser::block_at);
    lemma_opening(lines, start, budget);
    let (opened, counted) = parser::opening_at(lines, start, budget);
    if let Ok(opening) = opened {
        let index = opening.index;
        if opening.kind is Block && start < index < lines.len() {
            lemma_block(lines, start, index, opening.header, depth, counted);
        } else {
            lemma_plain_action(
                lines,
                index,
                text::trim(lines[index]),
                opening.capture,
                opening.kind,
                counted,
            );
        }
    }
}

proof fn lemma_statements(
    lines: Seq<Seq<char>>,
    index: int,
    depth: nat,
    statements: Seq<StatementModel>,
    budget: ParseBudget,
)
    requires
        within_hard_limits(budget),
        nested_well(statements, statements.len(), depth),
    ensures
        ({
            let (found, after) = parser::statements_from(lines, index, depth, statements, budget);
            within_hard_limits(after) && (found matches Ok((all, _)) ==> nested_well(
                all,
                all.len(),
                depth,
            ))
        }),
    decreases lines.len() - index, 1nat,
{
    reveal(parser::statements_from);
    reveal(parser::recipe_at);
    lemma_hard_limits(budget);
    if 0 <= index < lines.len() {
        let line = text::trim(lines[index]);
        let number = (index + 1) as nat;
        if limits::over_linebuf(lines[index], number, budget.limits.linebuf) is Some {
        } else if header_actions::silent_line(line) {
            lemma_statements(lines, index + 1, depth, statements, budget);
        } else if line == "}"@ || budget.no_statement(number) is Some {
        } else if text::begins_with(line, ':') {
            let (refused, counted) = budget.with_recipe(number);
            lemma_same_limits(budget, counted);
            if refused is None {
                lemma_recipe(lines, index, depth, counted);
                let (found, after) = parser::recipe_at(lines, index, depth, counted);
                if let Ok((recipe, next)) = found {
                    if index < next <= lines.len() {
                        let statement = StatementModel::Recipe(recipe);
                        lemma_nested_push(statements, statement, depth);
                        lemma_statements(lines, next, depth, statements.push(statement), after);
                    }
                }
            }
        } else {
            lemma_assignment_at(lines, index, depth, budget);
            let (found, after) = parser::assignment_at(lines, index, depth, budget);
            if let Ok(statement) = found {
                lemma_nested_push(statements, statement, depth);
                lemma_statements(lines, index + 1, depth, statements.push(statement), after);
            }
        }
    }
}

/// However an rc file is written, reading it stays within the hard limits: it
/// cannot give itself more statements, recipes, conditions or assignments, nor
/// longer lines, and this holds whether it is accepted or refused.
pub proof fn reading_stays_within_the_hard_limits(input: Seq<char>, budget: ParseBudget)
    requires
        within_hard_limits(budget),
    ensures
        within_hard_limits(parser::config_of(input, budget).1),
{
    lemma_statements(parser::lines_from(input, 0), 0, 0, Seq::empty(), budget);
}

/// In every rc file that is accepted, blocks nest no deeper than they may, and
/// no block sets a limit on reading or takes one from a command.
pub proof fn accepted_blocks_are_shallow_and_set_no_limits(input: Seq<char>, budget: ParseBudget)
    requires
        within_hard_limits(budget),
        parser::config_of(input, budget).0 is Ok,
    ensures
        ({
            let statements = parser::config_of(input, budget).0->Ok_0.statements;
            nested_well(statements, statements.len(), 0)
        }),
{
    lemma_statements(parser::lines_from(input, 0), 0, 0, Seq::empty(), budget);
}

/// The limits that hold by default are within their hard limits.
pub proof fn default_limits_are_within_the_hard_limits()
    ensures
        within_hard_limits(
            ParseBudget { counts: limits::no_counts(), limits: limits::default_limits() },
        ),
{
}

/// No text that is larger than an rc file may be is read at all.
pub proof fn oversized_files_are_refused(input: Seq<char>, budget: ParseBudget)
    requires
        text::byte_len(input) > crate::config::MAX_RC_SIZE,
    ensures
        parser::config_of(input, budget).0 is Err,
        parser::config_of(input, budget).0->Err_0.limit,
        parser::config_of(input, budget).1 == budget,
{
}

} // verus!
