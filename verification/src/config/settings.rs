//! Settings: the values that a configuration assigns to one target.

use vstd::prelude::*;
use vstd::string::*;

use crate::config::recipe::{self, Config, Statement, StatementModel};
use crate::config::variables::AssignmentTarget;
use crate::text::{self, decimal_text, text2, text3};

verus! {

/// The assignments to `target` among the first `n` statements: their lines and
/// their values.
pub open spec fn assigned_values(
    statements: Seq<StatementModel>,
    n: nat,
    target: AssignmentTarget,
) -> Seq<(nat, Seq<char>)>
    decreases n,
{
    if n == 0 || n > statements.len() {
        Seq::empty()
    } else {
        let before = assigned_values(statements, (n - 1) as nat, target);
        match statements[n - 1] {
            StatementModel::Assignment(assignment) => if assignment.target == target {
                before.push((assignment.line, assignment.value))
            } else {
                before
            },
            _ => before,
        }
    }
}

pub open spec fn value_models(values: Seq<(usize, String)>) -> Seq<(nat, Seq<char>)> {
    Seq::new(values.len(), |i: int| (values[i].0 as nat, values[i].1@))
}

/// Finds the assignments to `target` outside of blocks, in order.
pub fn settings_of(config: &Config, target: AssignmentTarget) -> (r: Vec<(usize, String)>)
    ensures
        value_models(r@) == assigned_values(
            config@.statements,
            config@.statements.len(),
            target,
        ),
{
    let ghost models = config@.statements;
    proof {
        recipe::lemma_statement_models(config.statements@, config.statements@.len());
    }
    let mut values: Vec<(usize, String)> = Vec::new();
    assert(value_models(values@) =~= Seq::empty());
    let mut i: usize = 0;
    while i < config.statements.len()
        invariant
            i <= config.statements@.len(),
            models == config@.statements,
            models.len() == config.statements@.len(),
            forall|j: int|
                0 <= j < config.statements@.len() ==> #[trigger] models[j]
                    == config.statements@[j]@,
            value_models(values@) == assigned_values(models, i as nat, target),
        decreases config.statements.len() - i,
    {
        assert(models[i as int] == config.statements@[i as int]@);
        if let Statement::Assignment(assignment) = &config.statements[i] {
            if assignment.target == target {
                let ghost before = values@;
                values.push((assignment.line, assignment.value.clone()));
                assert(value_models(values@) =~= value_models(before).push(
                    (assignment.line as nat, assignment.value@),
                ));
            }
        }
        i = i + 1;
    }
    values
}

/// A message about what stands on a line.
pub open spec fn on_line(line: nat, message: Seq<char>) -> Seq<char> {
    "line "@ + text::decimal(line) + (": "@ + message)
}

/// A message about what stands on a line.
pub fn line_message(line: usize, message: &str) -> (r: String)
    ensures
        r@ == on_line(line as nat, message@),
{
    let digits = decimal_text(line);
    let rest = text2(": ", message);
    text3("line ", digits.as_str(), rest.as_str())
}

} // verus!
