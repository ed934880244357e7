//! What is counted while an rc file is read.

use vstd::prelude::*;

use crate::config::action_parser::{self, ActionKind};
use crate::config::assignments;
use crate::config::conditions;
use crate::config::header_actions;
use crate::config::limits::{self, AssignmentUse, ParseBudget, RcParseCounts};
use crate::config::parser;
use crate::config::recipe::{
    ActionModel, ConditionKindModel, ConditionModel, HeaderOperationModel, StatementModel,
};
use crate::config::recipe_header::RecipeHeaderModel;
use crate::config::variables::AssignmentTarget;
use crate::text;

verus! {

/// How much of each kind there is.
pub struct Tally {
    pub assignments: nat,
    pub statements: nat,
    pub recipes: nat,
    pub conditions: nat,
    pub regexes: nat,
}

pub open spec fn nothing() -> Tally {
    Tally { assignments: 0, statements: 0, recipes: 0, conditions: 0, regexes: 0 }
}

pub open spec fn sum(a: Tally, b: Tally) -> Tally {
    Tally {
        assignments: a.assignments + b.assignments,
        statements: a.statements + b.statements,
        recipes: a.recipes + b.recipes,
        conditions: a.conditions + b.conditions,
        regexes: a.regexes + b.regexes,
    }
}

/// Counts as a tally.
pub open spec fn tally(counts: RcParseCounts) -> Tally {
    Tally {
        assignments: counts.assignments as nat,
        statements: counts.statements as nat,
        recipes: counts.recipes as nat,
        conditions: counts.conditions as nat,
        regexes: counts.regexes as nat,
    }
}

/// Whether a condition counts as a regular expression: one that is expanded
/// first may become one.
pub open spec fn counts_as_regex(kind: ConditionKindModel) -> bool {
    !(kind is Program || kind is SmallerThan || kind is LargerThan)
}

/// How many of the first `n` conditions count as regular expressions.
pub open spec fn regexes_among(conditions: Seq<ConditionModel>, n: nat) -> nat
    decreases n,
{
    if n == 0 || n > conditions.len() {
        0
    } else {
        regexes_among(conditions, (n - 1) as nat) + if counts_as_regex(conditions[n - 1].kind) {
            1nat
        } else {
            0nat
        }
    }
}

/// What the first `n` statements hold, with all that is in their blocks.
pub open spec fn held_by(statements: Seq<StatementModel>, n: nat) -> Tally
    decreases statements, n,
{
    if n == 0 || n > statements.len() {
        nothing()
    } else {
        sum(held_by(statements, (n - 1) as nat), held_by_statement(statements[n - 1]))
    }
}

/// What a statement holds, itself counted.
pub open spec fn held_by_statement(statement: StatementModel) -> Tally
    decreases statement, 0nat,
{
    match statement {
        StatementModel::Recipe(recipe) => sum(
            Tally {
                assignments: if recipe.action is Capture {
                    1
                } else {
                    0
                },
                statements: 1,
                recipes: 1,
                conditions: recipe.conditions.len(),
                regexes: regexes_among(recipe.conditions, recipe.conditions.len()),
            },
            match recipe.action {
                ActionModel::Block(children) => held_by(children, children.len()),
                _ => nothing(),
            },
        ),
        _ => Tally { assignments: 1, statements: 1, ..nothing() },
    }
}

proof fn lemma_held_prefix(statements: Seq<StatementModel>, statement: StatementModel, n: nat)
    requires
        n <= statements.len(),
    ensures
        held_by(statements.push(statement), n) == held_by(statements, n),
    decreases n,
{
    if n > 0 {
        lemma_held_prefix(statements, statement, (n - 1) as nat);
        assert(statements.push(statement)[n - 1] == statements[n - 1]);
    }
}

proof fn lemma_held_push(statements: Seq<StatementModel>, statement: StatementModel)
    ensures
        held_by(statements.push(statement), statements.len() + 1) == sum(
            held_by(statements, statements.len()),
            held_by_statement(statement),
        ),
{
    lemma_held_prefix(statements, statement, statements.len());
    assert(statements.push(statement)[statements.len() as int] == statement);
}

proof fn lemma_regexes_prefix(conditions: Seq<ConditionModel>, condition: ConditionModel, n: nat)
    requires
        n <= conditions.len(),
    ensures
        regexes_among(conditions.push(condition), n) == regexes_among(conditions, n),
    decreases n,
{
    if n > 0 {
        lemma_regexes_prefix(conditions, condition, (n - 1) as nat);
    }
}

proof fn lemma_condition_end(
    lines: Seq<Seq<char>>,
    start: int,
    index: int,
    physical: Seq<char>,
    condition: Seq<char>,
    preserve: bool,
    linebuf: usize,
)
    ensures
        conditions::condition_from(
            lines,
            start,
            index,
            physical,
            condition,
            preserve,
            linebuf,
        ) matches Ok((_, next)) ==> index < next <= lines.len(),
    decreases lines.len() - index,
{
    if 0 <= index && index + 1 < lines.len() {
        let next = if preserve {
            lines[index + 1]
        } else {
            text::trim_start(lines[index + 1])
        };
        let fragment = conditions::without_backslash(physical);
        lemma_condition_end(
            lines,
            start,
            index + 1,
            next,
            condition + fragment,
            preserve,
            linebuf,
        );
    }
}

proof fn lemma_command_end(
    lines: Seq<Seq<char>>,
    start: int,
    index: int,
    physical: Seq<char>,
    command: Seq<char>,
    linebuf: usize,
    description: Seq<char>,
)
    ensures
        conditions::command_from(
            lines,
            start,
            index,
            physical,
            command,
            linebuf,
            description,
        ) matches Ok((_, next)) ==> index < next <= lines.len(),
    decreases lines.len() - index,
{
    if 0 <= index && index + 1 < lines.len() {
        lemma_command_end(
            lines,
            start,
            index + 1,
            lines[index + 1],
            (command + physical).push('\n'),
            linebuf,
            description,
        );
    }
}

proof fn lemma_operations_end(
    lines: Seq<Seq<char>>,
    opening: int,
    index: int,
    operations: Seq<HeaderOperationModel>,
    linebuf: usize,
)
    ensures
        header_actions::operations_from(
            lines,
            opening,
            index,
            operations,
            linebuf,
        ) matches Ok((_, next)) ==> index < next <= lines.len(),
    decreases lines.len() - index,
{
    if 0 <= index < lines.len() {
        let line = text::trim(lines[index]);
        lemma_operations_end(lines, opening, index + 1, operations, linebuf);
        if let Ok(operation) = header_actions::operation_on(line, (index + 1) as nat) {
            lemma_operations_end(
                lines,
                opening,
                index + 1,
                operations.push(operation),
                linebuf,
            );
        }
    }
}

proof fn lemma_conditions_counted(
    lines: Seq<Seq<char>>,
    index: int,
    conditions: Seq<ConditionModel>,
    regexes: nat,
    case_sensitive: bool,
    budget: ParseBudget,
)
    requires
        0 <= index <= lines.len(),
        regexes == regexes_among(conditions, conditions.len()),
    ensures
        parser::conditions_from(
            lines,
            index,
            conditions,
            regexes,
            case_sensitive,
            budget,
        ) matches Ok(list) ==> list.regexes == regexes_among(
            list.conditions,
            list.conditions.len(),
        ) && index <= list.next <= lines.len(),
    decreases lines.len() - index,
{
    reveal(parser::conditions_from);
    if index < lines.len() {
        let line = text::trim(lines[index]);
        let number = (index + 1) as nat;
        lemma_conditions_counted(lines, index + 1, conditions, regexes, case_sensitive, budget);
        if let Ok((source, next)) = conditions::condition_at(lines, index, budget.limits.linebuf) {
            let rest = text::rest_of(text::trim_start(lines[index]));
            lemma_condition_end(
                lines,
                index,
                index,
                rest,
                Seq::empty(),
                conditions::shell_expanded(rest),
                budget.limits.linebuf,
            );
            if let Ok((condition, is_regex)) = conditions::condition_of(
                source,
                number,
                case_sensitive,
                regexes,
                budget,
            ) {
                assert(is_regex == counts_as_regex(condition.kind));
                lemma_regexes_prefix(conditions, condition, conditions.len());
                lemma_conditions_counted(
                    lines,
                    next,
                    conditions.push(condition),
                    if is_regex {
                        regexes + 1
                    } else {
                        regexes
                    },
                    case_sensitive,
                    budget,
                );
            }
        }
    }
}

proof fn lemma_opening_counted(lines: Seq<Seq<char>>, start: int, budget: ParseBudget)
    requires
        0 <= start < lines.len(),
    ensures
        ({
            let (found, after) = parser::opening_at(lines, start, budget);
            found matches Ok(opening) ==> start < opening.index < lines.len() && tally(after.counts)
                == sum(
                tally(budget.counts),
                Tally {
                    conditions: opening.conditions.len(),
                    regexes: regexes_among(opening.conditions, opening.conditions.len()),
                    ..nothing()
                },
            )
        }),
{
    reveal(parser::opening_at);
    reveal(parser::head_at);
    if let Ok(head) = parser::head_at(lines, start, budget) {
        lemma_conditions_counted(
            lines,
            start + 1,
            Seq::empty(),
            0,
            head.header.options.case_mode is Sensitive,
            budget,
        );
    }
}

proof fn lemma_plain_action_counted(
    lines: Seq<Seq<char>>,
    index: int,
    action: Seq<char>,
    capture: Option<(Seq<char>, AssignmentTarget)>,
    kind: ActionKind,
    budget: ParseBudget,
)
    requires
        0 <= index < lines.len(),
    ensures
        ({
            let (found, after) = parser::plain_action(
                lines,
                index,
                action,
                capture,
                kind,
                budget,
            );
            found matches Ok((parsed, next)) ==> !(parsed is Block) && index < next <= lines.len()
                && tally(after.counts) == sum(
                tally(budget.counts),
                Tally {
                    assignments: if parsed is Capture {
                        1
                    } else {
                        0
                    },
                    ..nothing()
                },
            )
        }),
{
    reveal(parser::plain_action);
    let linebuf = budget.limits.linebuf;
    if capture is Some {
        if let Some((_, command)) = action_parser::capture_parts(action) {
            lemma_command_end(
                lines,
                index,
                index,
                text::trim_start(command),
                Seq::empty(),
                linebuf,
                "capture action command"@,
            );
        }
    } else {
        lemma_command_end(
            lines,
            index,
            index,
            text::trim_start(text::rest_of(text::trim_start(lines[index]))),
            Seq::empty(),
            linebuf,
            "pipe command"@,
        );
        lemma_operations_end(lines, index, index + 1, Seq::empty(), linebuf);
    }
}

proof fn lemma_assignment_counted(
    lines: Seq<Seq<char>>,
    index: int,
    depth: nat,
    budget: ParseBudget,
)
    requires
        0 <= index < lines.len(),
    ensures
        ({
            let (found, after) = parser::assignment_at(lines, index, depth, budget);
            found matches Ok(statement) ==> tally(after.counts) == sum(
                tally(budget.counts),
                held_by_statement(statement),
            )
        }),
{
    reveal(parser::assignment_at);
    let number = (index + 1) as nat;
    if let Ok(Some(assignment)) = assignments::assignment_on(
        text::trim_start(lines[index]),
        number,
    ) {
        let counted = budget.with_assignment(number, AssignmentUse::Statement).1;
        if let Ok(statement) = assignments::assignment_statement(assignment, depth) {
            assert(!(statement is Recipe));
            if let StatementModel::Assignment(found) = statement {
                assert(counted.assigned(found).1.counts == counted.counts);
            }
        }
    }
}

proof fn lemma_block_counted(
    lines: Seq<Seq<char>>,
    start: int,
    index: int,
    header: RecipeHeaderModel,
    depth: nat,
    budget: ParseBudget,
)
    requires
        0 <= index < lines.len(),
    ensures
        ({
            let (found, after) = parser::block_at(lines, start, index, header, depth, budget);
            found matches Ok((action, next)) ==> index < next <= lines.len() && (action matches
                ActionModel::Block(children) && tally(after.counts) == sum(
                tally(budget.counts),
                held_by(children, children.len()),
            ))
        }),
    decreases lines.len() - index, 2nat,
{
    reveal(parser::block_at);
    reveal(parser::statements_from);
    if let Ok(next_depth) = budget.nested(depth, (index + 1) as nat) {
        lemma_statements_counted(lines, index + 1, next_depth, Seq::empty(), budget);
    }
}

proof fn lemma_recipe_counted(lines: Seq<Seq<char>>, start: int, depth: nat, budget: ParseBudget)
    requires
        0 <= start < lines.len(),
    ensures
        ({
            let (found, after) = parser::recipe_at(lines, start, depth, budget);
            found matches Ok((recipe, next)) ==> start < next <= lines.len() && sum(
                tally(after.counts),
                Tally { statements: 1, recipes: 1, ..nothing() },
            ) == sum(tally(budget.counts), held_by_statement(StatementModel::Recipe(recipe)))
        }),
    decreases lines.len() - start, 0nat,
{
    reveal(parser::recipe_at);
    reveal(parser::block_at);
    lemma_opening_counted(lines, start, budget);
    let (opened, counted) = parser::opening_at(lines, start, budget);
    if let Ok(opening) = opened {
        let index = opening.index;
        if opening.kind is Block {
            lemma_block_counted(lines, start, index, opening.header, depth, counted);
        } else {
            lemma_plain_action_counted(
                lines,
                index,
                text::trim(lines[index]),
                opening.capture,
                opening.kind,
                counted,
            );
        }
    }
}

proof fn lemma_statements_counted(
    lines: Seq<Seq<char>>,
    index: int,
    depth: nat,
    statements: Seq<StatementModel>,
    budget: ParseBudget,
)
    requires
        0 <= index <= lines.len(),
    ensures
        ({
            let (found, after) = parser::statements_from(lines, index, depth, statements, budget);
            found matches Ok((all, next)) ==> index <= next <= lines.len() && sum(
                tally(after.counts),
                held_by(statements, statements.len()),
            ) == sum(tally(budget.counts), held_by(all, all.len()))
        }),
    decreases lines.len() - index, 1nat,
{
    reveal(parser::statements_from);
    reveal(parser::recipe_at);
    if index < lines.len() {
        let line = text::trim(lines[index]);
        let number = (index + 1) as nat;
        if limits::over_linebuf(lines[index], number, budget.limits.linebuf) is Some {
        } else if header_actions::silent_line(line) {
            lemma_statements_counted(lines, index + 1, depth, statements, budget);
        } else if line == "}"@ || budget.no_statement(number) is Some {
        } else if text::begins_with(line, ':') {
            let (refused, counted) = budget.with_recipe(number);
            if refused is None {
                lemma_recipe_counted(lines, index, depth, counted);
                let (found, after) = parser::recipe_at(lines, index, depth, counted);
                if let Ok((recipe, next)) = found {
                    let statement = StatementModel::Recipe(recipe);
                    lemma_held_push(statements, statement);
                    lemma_statements_counted(
                        lines,
                        next,
                        depth,
                        statements.push(statement),
                        after,
                    );
                }
            }
        } else {
            lemma_assignment_counted(lines, index, depth, budget);
            let (found, after) = parser::assignment_at(lines, index, depth, budget);
            if let Ok(statement) = found {
                lemma_held_push(statements, statement);
                lemma_statements_counted(
                    lines,
                    index + 1,
                    depth,
                    statements.push(statement),
                    after,
                );
            }
        }
    }
}

/// The counts of a file that is accepted tell exactly what it holds, in blocks
/// of any depth: its assignments and captures, its statements, its recipes,
/// their conditions, and those that count as regular expressions. The budget
/// has been charged with as much.
pub proof fn counts_tell_what_a_file_holds(input: Seq<char>, budget: ParseBudget)
    requires
        parser::config_of(input, budget).0 is Ok,
    ensures
        ({
            let (found, after) = parser::config_of(input, budget);
            let config = found->Ok_0;
            let held = held_by(config.statements, config.statements.len());
            tally(config.parse_counts) == held && tally(after.counts) == sum(
                tally(budget.counts),
                held,
            )
        }),
{
    lemma_statements_counted(parser::lines_from(input, 0), 0, 0, Seq::empty(), budget);
}

} // verus!
