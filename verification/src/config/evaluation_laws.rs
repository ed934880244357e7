//! What holds of every evaluation of an expression.

use vstd::prelude::*;
use vstd::utf8::*;

use crate::config::expression::{ExpressionModel, OperationModel, PartModel};
use crate::config::shell_eval::{self, ContextModel, Evaluated};

verus! {

/// Whether no assigned value is longer than `most`.
pub open spec fn assignments_within(assignments: Seq<(Seq<char>, Seq<u8>)>, most: nat) -> bool {
    forall|i: int| 0 <= i < assignments.len() ==> (#[trigger] assignments[i]).1.len() <= most
}

proof fn lemma_assignment_place(assignments: Seq<(Seq<char>, Seq<u8>)>, name: Seq<char>, i: int)
    requires
        0 <= i,
    ensures
        shell_eval::assignment_place(assignments, name, i) matches Some(place) ==> i <= place
            < assignments.len(),
    decreases assignments.len() - i,
{
    if i < assignments.len() && assignments[i].0 != name {
        lemma_assignment_place(assignments, name, i + 1);
    }
}

proof fn lemma_assigned(
    assignments: Seq<(Seq<char>, Seq<u8>)>,
    name: Seq<char>,
    value: Seq<u8>,
    most: nat,
)
    requires
        assignments_within(assignments, most),
        value.len() <= most,
    ensures
        assignments_within(shell_eval::assigned(assignments, name, value), most),
{
    lemma_assignment_place(assignments, name, 0);
}

proof fn lemma_expression(
    context: ContextModel,
    expression: ExpressionModel,
    limit: usize,
    nesting: nat,
    assignments: Seq<(Seq<char>, Seq<u8>)>,
    most: nat,
)
    requires
        limit <= most,
        assignments_within(assignments, most),
        shell_eval::evaluated_at(context, expression, limit, nesting, assignments) is Ok,
    ensures
        ({
            let result = shell_eval::evaluated_at(
                context,
                expression,
                limit,
                nesting,
                assignments,
            )->Ok_0;
            result.bytes.len() <= limit && assignments_within(result.assignments, most)
        }),
    decreases expression, 1nat, 0nat,
{
    let start = Evaluated {
        bytes: Seq::empty(),
        depth: shell_eval::initial_depth(context, nesting),
        assignments,
    };
    lemma_parts(context, expression.parts, 0, limit, nesting, start, most);
}

proof fn lemma_parts(
    context: ContextModel,
    parts: Seq<PartModel>,
    i: nat,
    limit: usize,
    nesting: nat,
    so_far: Evaluated,
    most: nat,
)
    requires
        limit <= most,
        so_far.bytes.len() <= limit,
        assignments_within(so_far.assignments, most),
        shell_eval::evaluated_parts(context, parts, i, limit, nesting, so_far) is Ok,
    ensures
        ({
            let result = shell_eval::evaluated_parts(
                context,
                parts,
                i,
                limit,
                nesting,
                so_far,
            )->Ok_0;
            result.bytes.len() <= limit && assignments_within(result.assignments, most)
        }),
    decreases parts, 1nat, parts.len() - i,
{
    if i < parts.len() {
        lemma_part(context, parts[i as int], limit, nesting, so_far, most);
        let next = shell_eval::evaluated_part(
            context,
            parts[i as int],
            limit,
            nesting,
            so_far,
        )->Ok_0;
        lemma_parts(context, parts, i + 1, limit, nesting, next, most);
    }
}

proof fn lemma_word(
    context: ContextModel,
    word: ExpressionModel,
    limit: usize,
    nesting: nat,
    so_far: Evaluated,
    most: nat,
)
    requires
        limit <= most,
        so_far.bytes.len() <= limit,
        assignments_within(so_far.assignments, most),
        shell_eval::evaluated_word(context, word, limit, nesting, so_far) is Ok,
    ensures
        ({
            let result = shell_eval::evaluated_word(context, word, limit, nesting, so_far)->Ok_0;
            result.bytes.len() <= limit && assignments_within(result.assignments, most)
        }),
    decreases word, 2nat, 0nat,
{
    lemma_expression(
        context,
        word,
        (limit - so_far.bytes.len()) as usize,
        nesting + 1,
        so_far.assignments,
        most,
    );
}

proof fn lemma_part(
    context: ContextModel,
    part: PartModel,
    limit: usize,
    nesting: nat,
    so_far: Evaluated,
    most: nat,
)
    requires
        limit <= most,
        so_far.bytes.len() <= limit,
        assignments_within(so_far.assignments, most),
        shell_eval::evaluated_part(context, part, limit, nesting, so_far) is Ok,
    ensures
        ({
            let result = shell_eval::evaluated_part(context, part, limit, nesting, so_far)->Ok_0;
            result.bytes.len() <= limit && assignments_within(result.assignments, most)
        }),
    decreases part, 0nat, 0nat,
{
    match part {
        PartModel::PatternQuote(expression) => {
            let room = (limit - so_far.bytes.len()) as usize;
            lemma_expression(context, expression, room, nesting, so_far.assignments, most);
        },
        PartModel::Variable { name, operation } => {
            let found = shell_eval::found_value(context, name, so_far.assignments);
            let is_set = found is Some;
            let is_empty = found is Some && found->0.bytes.len() == 0;
            match operation {
                OperationModel::Length => {},
                OperationModel::RemovePrefix { pattern, .. } => {
                    lemma_word(context, pattern, limit, nesting, so_far, most);
                },
                OperationModel::RemoveSuffix { pattern, .. } => {
                    lemma_word(context, pattern, limit, nesting, so_far, most);
                },
                OperationModel::ChangeCase { pattern, .. } => {
                    lemma_word(context, pattern, limit, nesting, so_far, most);
                },
                _ => {
                    if let Some(word) = operation.selected_word(is_set, is_empty) {
                        lemma_word(context, word, limit, nesting, so_far, most);
                        let value = shell_eval::evaluated_word(
                            context,
                            word,
                            limit,
                            nesting,
                            so_far,
                        )->Ok_0;
                        lemma_assigned(value.assignments, name, value.bytes, most);
                    }
                },
            }
        },
        _ => {},
    }
}

/// Whatever an expression holds and whatever its variables are, what it writes
/// stays within its limit, and so does every value that it assigns.
pub proof fn evaluation_stays_within_its_limit(
    context: ContextModel,
    expression: ExpressionModel,
    limit: usize,
)
    requires
        shell_eval::evaluated_at(context, expression, limit, 0, Seq::empty()) is Ok,
    ensures
        ({
            let result = shell_eval::evaluated_at(
                context,
                expression,
                limit,
                0,
                Seq::empty(),
            )->Ok_0;
            result.bytes.len() <= limit && assignments_within(result.assignments, limit as nat)
        }),
{
    lemma_expression(context, expression, limit, 0, Seq::empty(), limit as nat);
}

/// The value of a variable is written as it is: nothing in it is read as a
/// reference or a quote again.
pub proof fn values_are_not_scanned_again(
    context: ContextModel,
    name: Seq<char>,
    limit: usize,
)
    requires
        context.values.contains_key(name),
        context.values[name].bytes.len() <= limit,
        context.values[name].depth < crate::config::MAX_EXPANSION_DEPTH,
    ensures
        ({
            let expression = ExpressionModel {
                parts: seq![PartModel::Variable { name, operation: OperationModel::Value }],
            };
            shell_eval::evaluated_at(context, expression, limit, 0, Seq::empty()) matches Ok(
                result,
            ) && result.bytes == context.values[name].bytes
        }),
{
    let part = PartModel::Variable { name, operation: OperationModel::Value };
    let parts = seq![part];
    let value = context.values[name];
    let start = Evaluated {
        bytes: Seq::empty(),
        depth: shell_eval::initial_depth(context, 0),
        assignments: Seq::empty(),
    };
    reveal_with_fuel(shell_eval::evaluated_parts, 3);
    reveal_with_fuel(shell_eval::assigned_value, 2);
    assert(shell_eval::found_value(context, name, Seq::empty()) == Some(value));
    assert(Seq::<u8>::empty() + value.bytes =~= value.bytes);
    assert(parts[0] == part);
    let outcome = shell_eval::evaluated_part(context, part, limit, 0, start);
    assert(outcome is Ok);
    assert(outcome->Ok_0.bytes == value.bytes);
}

} // verus!
