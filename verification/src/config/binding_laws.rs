//! What binding an expression leaves unchanged.

use vstd::prelude::*;
use vstd::utf8::*;

use crate::config::binding;
use crate::config::expression::{self, ExpressionModel, OperationModel, PartModel};
use crate::config::expression_parser;
use crate::config::recipe::DestinationModel;
use crate::config::resolution;
use crate::config::shell_eval::{self, ContextModel, Evaluated, Purpose};
use crate::config::shell_pattern::{self, Edge, PatternError};
use crate::config::variables;
use crate::config::{MAX_ASSIGNMENT_VALUE_LEN, MAX_EXPANSION_DEPTH, MAX_PATH_EXPRESSION_LEN};
use crate::text;

verus! {

/// The first `n` bytes, each behind a backslash where it means something in a
/// pattern.
pub open spec fn quoted_bytes(bytes: Seq<u8>, n: nat) -> Seq<u8>
    decreases n,
{
    if n == 0 || n > bytes.len() {
        Seq::empty()
    } else {
        let before = quoted_bytes(bytes, (n - 1) as nat);
        if shell_eval::pattern_special(bytes[n - 1]) {
            before.push(92).push(bytes[n - 1])
        } else {
            before.push(bytes[n - 1])
        }
    }
}

/// What an operation on patterns gives, where it is not too complex.
pub open spec fn given(outcome: Result<Seq<u8>, PatternError>) -> Option<Seq<u8>> {
    match outcome {
        Ok(bytes) => Some(bytes),
        Err(_) => None,
    }
}

/// What an expression writes, apart from all limits, where it neither fails nor
/// assigns a variable.
pub open spec fn written(values: Map<Seq<char>, Seq<char>>, expression: ExpressionModel) -> Option<
    Seq<u8>,
>
    decreases expression, 1nat, 0nat,
{
    written_parts(values, expression.parts, expression.parts.len())
}

/// The same of the first `n` parts.
pub open spec fn written_parts(
    values: Map<Seq<char>, Seq<char>>,
    parts: Seq<PartModel>,
    n: nat,
) -> Option<Seq<u8>>
    decreases parts, 1nat, n,
{
    if n == 0 || n > parts.len() {
        Some(Seq::empty())
    } else {
        match (written_parts(values, parts, (n - 1) as nat), written_part(values, parts[n - 1])) {
            (Some(before), Some(bytes)) => Some(before + bytes),
            _ => None,
        }
    }
}

/// The same of one part.
pub open spec fn written_part(values: Map<Seq<char>, Seq<char>>, part: PartModel) -> Option<Seq<u8>>
    decreases part, 0nat, 0nat,
{
    match part {
        PartModel::Literal(text) => Some(encode_utf8(text)),
        PartModel::RegexQuotedVariable(_) | PartModel::Command(_) => None,
        PartModel::PatternQuote(expression) => match written(values, expression) {
            Some(bytes) => Some(quoted_bytes(bytes, bytes.len())),
            None => None,
        },
        PartModel::Variable { name, operation } => {
            let found = if values.contains_key(name) {
                Some(encode_utf8(values[name]))
            } else {
                None
            };
            let is_set = found is Some;
            let is_empty = found is Some && found->0.len() == 0;
            match operation {
                OperationModel::Length => match found {
                    Some(value) => Some(encode_utf8(text::decimal(value.len()))),
                    None => None,
                },
                OperationModel::RemovePrefix { pattern, longest } => match (
                    found,
                    written(values, pattern),
                ) {
                    (Some(value), Some(word)) => given(
                        shell_pattern::removed(
                            value,
                            word,
                            Edge::Prefix,
                            shell_eval::selection_of(longest),
                        ),
                    ),
                    _ => None,
                },
                OperationModel::RemoveSuffix { pattern, longest } => match (
                    found,
                    written(values, pattern),
                ) {
                    (Some(value), Some(word)) => given(
                        shell_pattern::removed(
                            value,
                            word,
                            Edge::Suffix,
                            shell_eval::selection_of(longest),
                        ),
                    ),
                    _ => None,
                },
                OperationModel::ChangeCase { pattern, direction, all } => match (
                    found,
                    written(values, pattern),
                ) {
                    (Some(value), Some(word)) => given(
                        shell_pattern::case_changed(value, word, all, direction),
                    ),
                    _ => None,
                },
                _ => if operation is ErrorIfUnsetOrEmpty && (!is_set || is_empty) {
                    None
                } else {
                    match operation.selected_word(is_set, is_empty) {
                        Some(word) => if operation is AssignIfUnsetOrEmpty {
                            None
                        } else {
                            written(values, word)
                        },
                        None => if operation.uses_value_when_word_is_not_selected() {
                            found
                        } else {
                            Some(Seq::empty())
                        },
                    }
                },
            }
        },
    }
}

/// Whether what an expression writes, and every word that is evaluated on the
/// way, fits into `limit` bytes and is not nested too deeply.
pub open spec fn fits(
    values: Map<Seq<char>, Seq<char>>,
    expression: ExpressionModel,
    limit: usize,
    nesting: nat,
) -> bool
    decreases expression, 1nat, 0nat,
{
    nesting <= MAX_EXPANSION_DEPTH && parts_fit(
        values,
        expression.parts,
        expression.parts.len(),
        limit,
        nesting,
    )
}

/// The same of the first `n` parts.
pub open spec fn parts_fit(
    values: Map<Seq<char>, Seq<char>>,
    parts: Seq<PartModel>,
    n: nat,
    limit: usize,
    nesting: nat,
) -> bool
    decreases parts, 1nat, n,
{
    if n == 0 || n > parts.len() {
        true
    } else {
        let before = written_parts(values, parts, (n - 1) as nat);
        let bytes = written_part(values, parts[n - 1]);
        &&& parts_fit(values, parts, (n - 1) as nat, limit, nesting)
        &&& before is Some && bytes is Some
        &&& before->0.len() + bytes->0.len() <= limit
        &&& part_fits(values, parts[n - 1], (limit - before->0.len()) as usize, nesting)
    }
}

/// The same of what is evaluated for one part.
pub open spec fn part_fits(
    values: Map<Seq<char>, Seq<char>>,
    part: PartModel,
    room: usize,
    nesting: nat,
) -> bool
    decreases part, 0nat, 0nat,
{
    match part {
        PartModel::PatternQuote(expression) => fits(values, expression, room, nesting),
        PartModel::Variable { name, operation } => {
            let is_set = values.contains_key(name);
            let is_empty = is_set && encode_utf8(values[name]).len() == 0;
            match operation {
                OperationModel::Length => true,
                OperationModel::RemovePrefix { pattern, .. } => fits(
                    values,
                    pattern,
                    room,
                    nesting + 1,
                ),
                OperationModel::RemoveSuffix { pattern, .. } => fits(
                    values,
                    pattern,
                    room,
                    nesting + 1,
                ),
                OperationModel::ChangeCase { pattern, .. } => fits(
                    values,
                    pattern,
                    room,
                    nesting + 1,
                ),
                _ => match operation.selected_word(is_set, is_empty) {
                    Some(word) => fits(values, word, room, nesting + 1),
                    None => operation.uses_value_when_word_is_not_selected() && !is_empty
                        ==> nesting < MAX_EXPANSION_DEPTH,
                },
            }
        },
        _ => true,
    }
}

/// What a message's expressions are evaluated in.
pub open spec fn message_context(values: Map<Seq<char>, Seq<char>>, line: nat) -> ContextModel {
    ContextModel { purpose: Purpose::RuntimeText, line, values: shell_eval::text_values(values) }
}

proof fn lemma_quoted(output: Seq<u8>, limit: usize, bytes: Seq<u8>, i: nat)
    requires
        i <= bytes.len(),
        output == quoted_bytes(bytes, i),
        shell_eval::quoted_from(output, limit, bytes, i as int) is Ok,
    ensures
        shell_eval::quoted_from(output, limit, bytes, i as int)->Ok_0 == quoted_bytes(
            bytes,
            bytes.len(),
        ),
    decreases bytes.len() - i,
{
    if i < bytes.len() {
        let byte = bytes[i as int];
        let next = quoted_bytes(bytes, i + 1);
        assert(output + seq![92u8] =~= output.push(92));
        assert(output + seq![byte] =~= output.push(byte));
        assert(output.push(92) + seq![byte] =~= output.push(92).push(byte));
        lemma_quoted(next, limit, bytes, i + 1);
    }
}

proof fn lemma_assigned_grows(
    assignments: Seq<(Seq<char>, Seq<u8>)>,
    name: Seq<char>,
    value: Seq<u8>,
)
    ensures
        shell_eval::assigned(assignments, name, value).len() >= assignments.len(),
        shell_eval::assigned(assignments, name, value).len() > 0,
{
    lemma_place(assignments, name, 0);
}

proof fn lemma_place(assignments: Seq<(Seq<char>, Seq<u8>)>, name: Seq<char>, i: int)
    requires
        0 <= i,
    ensures
        shell_eval::assignment_place(assignments, name, i) matches Some(place) ==> i <= place
            < assignments.len(),
    decreases assignments.len() - i,
{
    if i < assignments.len() && assignments[i].0 != name {
        lemma_place(assignments, name, i + 1);
    }
}

proof fn lemma_expression_keeps(
    context: ContextModel,
    expression: ExpressionModel,
    limit: usize,
    nesting: nat,
    assignments: Seq<(Seq<char>, Seq<u8>)>,
)
    requires
        shell_eval::evaluated_at(context, expression, limit, nesting, assignments) is Ok,
    ensures
        shell_eval::evaluated_at(
            context,
            expression,
            limit,
            nesting,
            assignments,
        )->Ok_0.assignments.len() >= assignments.len(),
    decreases expression, 1nat, 0nat,
{
    let start = Evaluated {
        bytes: Seq::empty(),
        depth: shell_eval::initial_depth(context, nesting),
        assignments,
    };
    lemma_parts_keep(context, expression.parts, 0, limit, nesting, start);
}

proof fn lemma_parts_keep(
    context: ContextModel,
    parts: Seq<PartModel>,
    i: nat,
    limit: usize,
    nesting: nat,
    so_far: Evaluated,
)
    requires
        shell_eval::evaluated_parts(context, parts, i, limit, nesting, so_far) is Ok,
    ensures
        shell_eval::evaluated_parts(
            context,
            parts,
            i,
            limit,
            nesting,
            so_far,
        )->Ok_0.assignments.len() >= so_far.assignments.len(),
    decreases parts, 1nat, parts.len() - i,
{
    if i < parts.len() {
        lemma_part_keeps(context, parts[i as int], limit, nesting, so_far);
        let next = shell_eval::evaluated_part(
            context,
            parts[i as int],
            limit,
            nesting,
            so_far,
        )->Ok_0;
        lemma_parts_keep(context, parts, i + 1, limit, nesting, next);
    }
}

proof fn lemma_word_keeps(
    context: ContextModel,
    word: ExpressionModel,
    limit: usize,
    nesting: nat,
    so_far: Evaluated,
)
    requires
        shell_eval::evaluated_word(context, word, limit, nesting, so_far) is Ok,
    ensures
        shell_eval::evaluated_word(context, word, limit, nesting, so_far)->Ok_0.assignments.len()
            >= so_far.assignments.len(),
    decreases word, 2nat, 0nat,
{
    lemma_expression_keeps(
        context,
        word,
        (limit - so_far.bytes.len()) as usize,
        nesting + 1,
        so_far.assignments,
    );
}

proof fn lemma_part_keeps(
    context: ContextModel,
    part: PartModel,
    limit: usize,
    nesting: nat,
    so_far: Evaluated,
)
    requires
        shell_eval::evaluated_part(context, part, limit, nesting, so_far) is Ok,
    ensures
        shell_eval::evaluated_part(context, part, limit, nesting, so_far)->Ok_0.assignments.len()
            >= so_far.assignments.len(),
    decreases part, 0nat, 0nat,
{
    match part {
        PartModel::PatternQuote(expression) => {
            let room = (limit - so_far.bytes.len()) as usize;
            lemma_expression_keeps(context, expression, room, nesting, so_far.assignments);
        },
        PartModel::Variable { name, operation } => {
            let found = shell_eval::found_value(context, name, so_far.assignments);
            let is_set = found is Some;
            let is_empty = found is Some && found->0.bytes.len() == 0;
            match operation {
                OperationModel::Length => {},
                OperationModel::RemovePrefix { pattern, .. } => {
                    lemma_word_keeps(context, pattern, limit, nesting, so_far);
                },
                OperationModel::RemoveSuffix { pattern, .. } => {
                    lemma_word_keeps(context, pattern, limit, nesting, so_far);
                },
                OperationModel::ChangeCase { pattern, .. } => {
                    lemma_word_keeps(context, pattern, limit, nesting, so_far);
                },
                _ => {
                    if let Some(word) = operation.selected_word(is_set, is_empty) {
                        lemma_word_keeps(context, word, limit, nesting, so_far);
                        let value = shell_eval::evaluated_word(
                            context,
                            word,
                            limit,
                            nesting,
                            so_far,
                        )->Ok_0;
                        lemma_assigned_grows(value.assignments, name, value.bytes);
                    }
                },
            }
        },
        _ => {},
    }
}

proof fn lemma_expression_written(
    values: Map<Seq<char>, Seq<char>>,
    line: nat,
    expression: ExpressionModel,
    limit: usize,
    nesting: nat,
)
    requires
        ({
            let evaluated = shell_eval::evaluated_at(
                message_context(values, line),
                expression,
                limit,
                nesting,
                Seq::empty(),
            );
            evaluated is Ok && evaluated->Ok_0.assignments.len() == 0
        }),
    ensures
        written(values, expression) == Some(
            shell_eval::evaluated_at(
                message_context(values, line),
                expression,
                limit,
                nesting,
                Seq::empty(),
            )->Ok_0.bytes,
        ),
        fits(values, expression, limit, nesting),
    decreases expression, 1nat, 0nat,
{
    let start = Evaluated {
        bytes: Seq::empty(),
        depth: shell_eval::initial_depth(message_context(values, line), nesting),
        assignments: Seq::empty(),
    };
    lemma_parts_written(values, line, expression.parts, 0, limit, nesting, start);
}

proof fn lemma_parts_written(
    values: Map<Seq<char>, Seq<char>>,
    line: nat,
    parts: Seq<PartModel>,
    i: nat,
    limit: usize,
    nesting: nat,
    so_far: Evaluated,
)
    requires
        i <= parts.len(),
        so_far.assignments == Seq::<(Seq<char>, Seq<u8>)>::empty(),
        so_far.bytes.len() <= limit,
        written_parts(values, parts, i) == Some(so_far.bytes),
        nesting <= MAX_EXPANSION_DEPTH,
        parts_fit(values, parts, i, limit, nesting),
        ({
            let evaluated = shell_eval::evaluated_parts(
                message_context(values, line),
                parts,
                i,
                limit,
                nesting,
                so_far,
            );
            evaluated is Ok && evaluated->Ok_0.assignments.len() == 0
        }),
    ensures
        written_parts(values, parts, parts.len()) == Some(
            shell_eval::evaluated_parts(
                message_context(values, line),
                parts,
                i,
                limit,
                nesting,
                so_far,
            )->Ok_0.bytes,
        ),
        parts_fit(values, parts, parts.len(), limit, nesting),
    decreases parts, 1nat, parts.len() - i,
{
    if i < parts.len() {
        let context = message_context(values, line);
        let next = shell_eval::evaluated_part(
            context,
            parts[i as int],
            limit,
            nesting,
            so_far,
        )->Ok_0;
        lemma_parts_keep(context, parts, i + 1, limit, nesting, next);
        lemma_part_written(values, line, parts[i as int], limit, nesting, so_far);
        assert(next.assignments =~= Seq::empty());
        lemma_parts_written(values, line, parts, i + 1, limit, nesting, next);
    }
}

proof fn lemma_part_written(
    values: Map<Seq<char>, Seq<char>>,
    line: nat,
    part: PartModel,
    limit: usize,
    nesting: nat,
    so_far: Evaluated,
)
    requires
        so_far.assignments == Seq::<(Seq<char>, Seq<u8>)>::empty(),
        so_far.bytes.len() <= limit,
        nesting <= MAX_EXPANSION_DEPTH,
        ({
            let next = shell_eval::evaluated_part(
                message_context(values, line),
                part,
                limit,
                nesting,
                so_far,
            );
            next is Ok && next->Ok_0.assignments.len() == 0
        }),
    ensures
        ({
            let next = shell_eval::evaluated_part(
                message_context(values, line),
                part,
                limit,
                nesting,
                so_far,
            )->Ok_0;
            &&& written_part(values, part) is Some
            &&& next.bytes == so_far.bytes + written_part(values, part)->0
            &&& next.bytes.len() <= limit
            &&& part_fits(values, part, (limit - so_far.bytes.len()) as usize, nesting)
        }),
    decreases part, 0nat, 0nat,
{
    let context = message_context(values, line);
    let room = (limit - so_far.bytes.len()) as usize;
    match part {
        PartModel::PatternQuote(expression) => {
            lemma_expression_written(values, line, expression, room, nesting);
            let value = shell_eval::evaluated_at(
                context,
                expression,
                room,
                nesting,
                Seq::empty(),
            )->Ok_0;
            lemma_quoted(Seq::empty(), room, value.bytes, 0);
        },
        PartModel::Variable { name, operation } => {
            let found = shell_eval::found_value(context, name, so_far.assignments);
            assert(found == context.value_of(name));
            let is_set = found is Some;
            let is_empty = found is Some && found->0.bytes.len() == 0;
            match operation {
                OperationModel::Length => {},
                OperationModel::RemovePrefix { pattern, .. } => {
                    lemma_expression_written(values, line, pattern, room, nesting + 1);
                },
                OperationModel::RemoveSuffix { pattern, .. } => {
                    lemma_expression_written(values, line, pattern, room, nesting + 1);
                },
                OperationModel::ChangeCase { pattern, .. } => {
                    lemma_expression_written(values, line, pattern, room, nesting + 1);
                },
                _ => {
                    if let Some(word) = operation.selected_word(is_set, is_empty) {
                        let value = shell_eval::evaluated_word(
                            context,
                            word,
                            limit,
                            nesting,
                            so_far,
                        )->Ok_0;
                        lemma_assigned_grows(value.assignments, name, value.bytes);
                        assert(!(operation is AssignIfUnsetOrEmpty));
                        lemma_expression_written(values, line, word, room, nesting + 1);
                    }
                },
            }
        },
        _ => {},
    }
}

proof fn lemma_same_start(
    values: Map<Seq<char>, Seq<char>>,
    a: Seq<PartModel>,
    b: Seq<PartModel>,
    n: nat,
)
    requires
        n <= a.len(),
        n <= b.len(),
        forall|i: int| 0 <= i < n ==> a[i] == b[i],
    ensures
        written_parts(values, a, n) == written_parts(values, b, n),
    decreases n,
{
    if n > 0 {
        lemma_same_start(values, a, b, (n - 1) as nat);
        assert(a[n - 1] == b[n - 1]);
    }
}

proof fn lemma_pushed(values: Map<Seq<char>, Seq<char>>, parts: Seq<PartModel>, part: PartModel)
    requires
        written_parts(values, parts, parts.len()) is Some,
        written_part(values, part) is Some,
    ensures
        written_parts(values, parts.push(part), parts.len() + 1) == Some(
            written_parts(values, parts, parts.len())->0 + written_part(values, part)->0,
        ),
{
    lemma_same_start(values, parts, parts.push(part), parts.len());
}

proof fn lemma_literal(values: Map<Seq<char>, Seq<char>>, parts: Seq<PartModel>, text: Seq<char>)
    requires
        written_parts(values, parts, parts.len()) is Some,
    ensures
        ({
            let after = expression_parser::with_literal(parts, text);
            written_parts(values, after, after.len()) == Some(
                written_parts(values, parts, parts.len())->0 + encode_utf8(text),
            )
        }),
{
    let before = written_parts(values, parts, parts.len())->0;
    if text.len() == 0 {
        assert(text =~= Seq::empty());
        assert(before + encode_utf8(text) =~= before);
    } else if parts.len() > 0 && parts.last() is Literal {
        let last = parts.last()->Literal_0;
        let shorter = parts.drop_last();
        lemma_same_start(values, parts, shorter, shorter.len());
        lemma_pushed(values, shorter, PartModel::Literal(last + text));
        text::lemma_encode_concat(last, text);
        let start = written_parts(values, shorter, shorter.len())->0;
        assert(parts[parts.len() - 1] == PartModel::Literal(last));
        assert(written_part(values, parts[parts.len() - 1]) == Some(encode_utf8(last)));
        assert(before == start + encode_utf8(last));
        assert(start + (encode_utf8(last) + encode_utf8(text)) =~= before + encode_utf8(text));
    } else {
        lemma_pushed(values, parts, PartModel::Literal(text));
    }
}

proof fn lemma_joined(
    values: Map<Seq<char>, Seq<char>>,
    parts: Seq<PartModel>,
    more: Seq<PartModel>,
    i: nat,
)
    requires
        i <= more.len(),
        written_parts(values, parts, parts.len()) is Some,
        written_parts(values, more, more.len()) is Some,
        written_parts(values, more, i) is Some,
    ensures
        ({
            let all = binding::joined(parts, more, i);
            let whole = written_parts(values, all, all.len());
            let head = written_parts(values, parts, parts.len())->0;
            let before = written_parts(values, more, i)->0;
            let tail = written_parts(values, more, more.len())->0;
            &&& whole is Some
            &&& tail.len() >= before.len()
            &&& tail.take(before.len() as int) == before
            &&& whole->0 == head + tail.skip(before.len() as int)
        }),
    decreases more.len() - i,
{
    let head = written_parts(values, parts, parts.len())->0;
    let before = written_parts(values, more, i)->0;
    let tail = written_parts(values, more, more.len())->0;
    if i < more.len() {
        lemma_some_before(values, more, i + 1, more.len());
        let bytes = written_part(values, more[i as int])->0;
        let next = match more[i as int] {
            PartModel::Literal(text) => expression_parser::with_literal(parts, text),
            other => parts.push(other),
        };
        match more[i as int] {
            PartModel::Literal(text) => {
                lemma_literal(values, parts, text);
            },
            other => {
                lemma_pushed(values, parts, other);
            },
        }
        lemma_joined(values, next, more, i + 1);
        let after = before + bytes;
        assert(before =~= after.take(before.len() as int));
        assert(tail.take(before.len() as int) =~= tail.take(after.len() as int).take(
            before.len() as int,
        ));
        assert(head + bytes + tail.skip(after.len() as int) =~= head + tail.skip(
            before.len() as int,
        )) by {
            assert(tail.skip(before.len() as int) =~= bytes + tail.skip(after.len() as int)) by {
                assert(tail =~= tail.take(after.len() as int) + tail.skip(after.len() as int));
            }
        }
    } else {
        assert(tail.take(before.len() as int) =~= before);
        assert(head + tail.skip(before.len() as int) =~= head);
    }
}

proof fn lemma_some_before(
    values: Map<Seq<char>, Seq<char>>,
    parts: Seq<PartModel>,
    n: nat,
    m: nat,
)
    requires
        n <= m <= parts.len(),
        written_parts(values, parts, m) is Some,
    ensures
        written_parts(values, parts, n) is Some,
    decreases m,
{
    if n < m {
        lemma_some_before(values, parts, n, (m - 1) as nat);
    }
}

/// Binding changes nothing of what an expression writes: it writes the same
/// with the values that it was bound to.
proof fn lemma_expression_bound(
    values: Map<Seq<char>, Seq<char>>,
    line: nat,
    expression: ExpressionModel,
    nesting: nat,
)
    requires
        binding::bound_at(expression, line, values, nesting) is Ok,
        written(values, expression) is Some,
    ensures
        written(values, binding::bound_at(expression, line, values, nesting)->Ok_0) == written(
            values,
            expression,
        ),
    decreases expression, 1nat, 0nat,
{
    lemma_parts_bound(values, line, expression.parts, 0, nesting, Seq::empty());
}

proof fn lemma_parts_bound(
    values: Map<Seq<char>, Seq<char>>,
    line: nat,
    parts: Seq<PartModel>,
    i: nat,
    nesting: nat,
    so_far: Seq<PartModel>,
)
    requires
        i <= parts.len(),
        binding::bound_parts(parts, i, line, values, nesting, so_far) is Ok,
        written_parts(values, parts, parts.len()) is Some,
        written_parts(values, so_far, so_far.len()) == written_parts(values, parts, i),
    ensures
        ({
            let bound = binding::bound_parts(parts, i, line, values, nesting, so_far)->Ok_0;
            written_parts(values, bound, bound.len()) == written_parts(values, parts, parts.len())
        }),
    decreases parts, 1nat, parts.len() - i,
{
    if i < parts.len() {
        lemma_some_before(values, parts, i + 1, parts.len());
        lemma_part_bound(values, line, parts[i as int], nesting, so_far);
        let next = binding::bound_part(parts[i as int], line, values, nesting, so_far)->Ok_0;
        lemma_parts_bound(values, line, parts, i + 1, nesting, next);
    }
}

proof fn lemma_not_empty(text: Seq<char>)
    ensures
        (encode_utf8(text).len() == 0) == (text.len() == 0),
{
    if text.len() > 0 {
        encode_utf8_first_scalar(text);
    }
}

proof fn lemma_part_bound(
    values: Map<Seq<char>, Seq<char>>,
    line: nat,
    part: PartModel,
    nesting: nat,
    so_far: Seq<PartModel>,
)
    requires
        binding::bound_part(part, line, values, nesting, so_far) is Ok,
        written_parts(values, so_far, so_far.len()) is Some,
        written_part(values, part) is Some,
    ensures
        ({
            let next = binding::bound_part(part, line, values, nesting, so_far)->Ok_0;
            written_parts(values, next, next.len()) == Some(
                written_parts(values, so_far, so_far.len())->0 + written_part(values, part)->0,
            )
        }),
    decreases part, 0nat, 0nat,
{
    let head = written_parts(values, so_far, so_far.len())->0;
    match part {
        PartModel::Literal(text) => {
            lemma_literal(values, so_far, text);
        },
        PartModel::RegexQuotedVariable(_) | PartModel::Command(_) => {},
        PartModel::PatternQuote(expression) => {
            lemma_expression_bound(values, line, expression, nesting + 1);
            let bound = binding::bound_at(expression, line, values, nesting + 1)->Ok_0;
            lemma_pushed(values, so_far, PartModel::PatternQuote(bound));
        },
        PartModel::Variable { name, operation } => {
            if operation.is_value_transform() {
                let alone = ExpressionModel { parts: seq![part] };
                let value = binding::runtime_text(
                    alone,
                    line,
                    MAX_ASSIGNMENT_VALUE_LEN,
                    values,
                )->Ok_0;
                lemma_runtime_text(values, line, alone, MAX_ASSIGNMENT_VALUE_LEN);
                lemma_alone(values, part);
                lemma_literal(values, so_far, value);
            } else if variables::policy_of(name) is RuntimeOnly {
                let bound = binding::bound_operation(operation, line, values, nesting + 1)->Ok_0;
                lemma_operation_bound(values, line, name, operation, nesting + 1);
                lemma_pushed(values, so_far, PartModel::Variable { name, operation: bound });
            } else {
                let is_set = values.contains_key(name);
                let is_empty = is_set && values[name].len() == 0;
                if is_set {
                    lemma_not_empty(values[name]);
                }
                match operation.selected_word(is_set, is_empty) {
                    Some(word) => {
                        lemma_expression_bound(values, line, word, nesting + 1);
                        let bound = binding::bound_at(word, line, values, nesting + 1)->Ok_0;
                        lemma_joined(values, so_far, bound.parts, 0);
                        let tail = written(values, word)->0;
                        assert(tail.skip(0) =~= tail);
                    },
                    None => {
                        if operation.uses_value_when_word_is_not_selected() {
                            lemma_literal(values, so_far, values[name]);
                        } else {
                            assert(head + Seq::<u8>::empty() =~= head);
                        }
                    },
                }
            }
        },
    }
}

proof fn lemma_alone(values: Map<Seq<char>, Seq<char>>, part: PartModel)
    requires
        written(values, ExpressionModel { parts: seq![part] }) is Some,
    ensures
        written(values, ExpressionModel { parts: seq![part] }) == written_part(values, part),
{
    let parts = seq![part];
    reveal_with_fuel(written_parts, 3);
    assert(written_parts(values, parts, 0) == Some(Seq::<u8>::empty()));
    assert(parts[0] == part);
    let bytes = written_part(values, part)->0;
    assert(Seq::<u8>::empty() + bytes =~= bytes);
}

proof fn lemma_operation_bound(
    values: Map<Seq<char>, Seq<char>>,
    line: nat,
    name: Seq<char>,
    operation: OperationModel,
    nesting: nat,
)
    requires
        binding::bound_operation(operation, line, values, nesting) is Ok,
        !operation.is_value_transform(),
        written_part(values, PartModel::Variable { name, operation }) is Some,
    ensures
        written_part(
            values,
            PartModel::Variable {
                name,
                operation: binding::bound_operation(operation, line, values, nesting)->Ok_0,
            },
        ) == written_part(values, PartModel::Variable { name, operation }),
    decreases operation, 0nat, 0nat,
{
    let is_set = values.contains_key(name);
    let is_empty = is_set && encode_utf8(values[name]).len() == 0;
    if let Some(word) = operation.selected_word(is_set, is_empty) {
        lemma_expression_bound(values, line, word, nesting);
    }
}

/// Where an expression has a text, the text is what it writes.
proof fn lemma_runtime_text(
    values: Map<Seq<char>, Seq<char>>,
    line: nat,
    expression: ExpressionModel,
    limit: usize,
)
    requires
        binding::runtime_text(expression, line, limit, values) is Ok,
    ensures
        written(values, expression) == Some(
            encode_utf8(binding::runtime_text(expression, line, limit, values)->Ok_0),
        ),
{
    let narrow = binding::smaller(binding::linebuf_of(values), limit);
    let evaluated = shell_eval::evaluated_at(
        message_context(values, line),
        expression,
        narrow,
        0,
        Seq::empty(),
    )->Ok_0;
    lemma_expression_written(values, line, expression, narrow, 0);
    decode_utf8_encode_utf8(evaluated.bytes);
}

proof fn lemma_quoted_length(bytes: Seq<u8>, n: nat, m: nat)
    requires
        n <= m <= bytes.len(),
    ensures
        quoted_bytes(bytes, n).len() <= quoted_bytes(bytes, m).len(),
    decreases m,
{
    if n < m {
        lemma_quoted_length(bytes, n, (m - 1) as nat);
    }
}

proof fn lemma_quotes_fit(output: Seq<u8>, limit: usize, bytes: Seq<u8>, i: nat)
    requires
        i <= bytes.len(),
        output == quoted_bytes(bytes, i),
        quoted_bytes(bytes, bytes.len()).len() <= limit,
    ensures
        shell_eval::quoted_from(output, limit, bytes, i as int) is Ok,
    decreases bytes.len() - i,
{
    if i < bytes.len() {
        let byte = bytes[i as int];
        let next = quoted_bytes(bytes, i + 1);
        lemma_quoted_length(bytes, i + 1, bytes.len());
        assert(output + seq![92u8] =~= output.push(92));
        assert(output + seq![byte] =~= output.push(byte));
        assert(output.push(92) + seq![byte] =~= output.push(92).push(byte));
        lemma_quotes_fit(next, limit, bytes, i + 1);
    }
}

proof fn lemma_fit_before(
    values: Map<Seq<char>, Seq<char>>,
    parts: Seq<PartModel>,
    n: nat,
    m: nat,
    limit: usize,
    nesting: nat,
)
    requires
        n <= m <= parts.len(),
        parts_fit(values, parts, m, limit, nesting),
    ensures
        parts_fit(values, parts, n, limit, nesting),
    decreases m,
{
    if n < m {
        lemma_fit_before(values, parts, n, (m - 1) as nat, limit, nesting);
    }
}

proof fn lemma_expression_evaluates(
    values: Map<Seq<char>, Seq<char>>,
    line: nat,
    expression: ExpressionModel,
    limit: usize,
    nesting: nat,
)
    requires
        written(values, expression) is Some,
        fits(values, expression, limit, nesting),
    ensures
        ({
            let evaluated = shell_eval::evaluated_at(
                message_context(values, line),
                expression,
                limit,
                nesting,
                Seq::empty(),
            );
            evaluated is Ok && evaluated->Ok_0.assignments.len() == 0 && evaluated->Ok_0.depth
                <= MAX_EXPANSION_DEPTH
        }),
    decreases expression, 1nat, 0nat,
{
    let start = Evaluated {
        bytes: Seq::empty(),
        depth: shell_eval::initial_depth(message_context(values, line), nesting),
        assignments: Seq::empty(),
    };
    lemma_parts_evaluate(values, line, expression.parts, 0, limit, nesting, start);
}

proof fn lemma_parts_evaluate(
    values: Map<Seq<char>, Seq<char>>,
    line: nat,
    parts: Seq<PartModel>,
    i: nat,
    limit: usize,
    nesting: nat,
    so_far: Evaluated,
)
    requires
        i <= parts.len(),
        nesting <= MAX_EXPANSION_DEPTH,
        so_far.assignments == Seq::<(Seq<char>, Seq<u8>)>::empty(),
        so_far.depth <= MAX_EXPANSION_DEPTH,
        written_parts(values, parts, i) == Some(so_far.bytes),
        written_parts(values, parts, parts.len()) is Some,
        parts_fit(values, parts, parts.len(), limit, nesting),
    ensures
        ({
            let evaluated = shell_eval::evaluated_parts(
                message_context(values, line),
                parts,
                i,
                limit,
                nesting,
                so_far,
            );
            evaluated is Ok && evaluated->Ok_0.assignments.len() == 0 && evaluated->Ok_0.depth
                <= MAX_EXPANSION_DEPTH
        }),
    decreases parts, 1nat, parts.len() - i,
{
    if i < parts.len() {
        let context = message_context(values, line);
        lemma_some_before(values, parts, i + 1, parts.len());
        lemma_fit_before(values, parts, i + 1, parts.len(), limit, nesting);
        lemma_part_evaluates(values, line, parts[i as int], limit, nesting, so_far);
        let next = shell_eval::evaluated_part(
            context,
            parts[i as int],
            limit,
            nesting,
            so_far,
        )->Ok_0;
        assert(next.assignments =~= Seq::empty());
        lemma_parts_evaluate(values, line, parts, i + 1, limit, nesting, next);
    }
}

proof fn lemma_part_evaluates(
    values: Map<Seq<char>, Seq<char>>,
    line: nat,
    part: PartModel,
    limit: usize,
    nesting: nat,
    so_far: Evaluated,
)
    requires
        nesting <= MAX_EXPANSION_DEPTH,
        so_far.assignments == Seq::<(Seq<char>, Seq<u8>)>::empty(),
        so_far.depth <= MAX_EXPANSION_DEPTH,
        written_part(values, part) is Some,
        so_far.bytes.len() + written_part(values, part)->0.len() <= limit,
        part_fits(values, part, (limit - so_far.bytes.len()) as usize, nesting),
    ensures
        ({
            let next = shell_eval::evaluated_part(
                message_context(values, line),
                part,
                limit,
                nesting,
                so_far,
            );
            &&& next is Ok
            &&& next->Ok_0.assignments.len() == 0
            &&& next->Ok_0.depth <= MAX_EXPANSION_DEPTH
            &&& next->Ok_0.bytes == so_far.bytes + written_part(values, part)->0
        }),
    decreases part, 0nat, 0nat,
{
    let context = message_context(values, line);
    let room = (limit - so_far.bytes.len()) as usize;
    match part {
        PartModel::PatternQuote(expression) => {
            lemma_expression_evaluates(values, line, expression, room, nesting);
            lemma_expression_written(values, line, expression, room, nesting);
            let value = shell_eval::evaluated_at(
                context,
                expression,
                room,
                nesting,
                Seq::empty(),
            )->Ok_0;
            assert(value.assignments =~= Seq::empty());
            lemma_quotes_fit(Seq::empty(), room, value.bytes, 0);
            lemma_quoted(Seq::empty(), room, value.bytes, 0);
        },
        PartModel::Variable { name, operation } => {
            let found = shell_eval::found_value(context, name, so_far.assignments);
            assert(found == context.value_of(name));
            let is_set = found is Some;
            let is_empty = found is Some && found->0.bytes.len() == 0;
            match operation {
                OperationModel::Length => {},
                OperationModel::RemovePrefix { pattern, .. } => {
                    lemma_expression_evaluates(values, line, pattern, room, nesting + 1);
                    lemma_expression_written(values, line, pattern, room, nesting + 1);
                },
                OperationModel::RemoveSuffix { pattern, .. } => {
                    lemma_expression_evaluates(values, line, pattern, room, nesting + 1);
                    lemma_expression_written(values, line, pattern, room, nesting + 1);
                },
                OperationModel::ChangeCase { pattern, .. } => {
                    lemma_expression_evaluates(values, line, pattern, room, nesting + 1);
                    lemma_expression_written(values, line, pattern, room, nesting + 1);
                },
                _ => {
                    if let Some(word) = operation.selected_word(is_set, is_empty) {
                        lemma_expression_evaluates(values, line, word, room, nesting + 1);
                        lemma_expression_written(values, line, word, room, nesting + 1);
                    }
                },
            }
        },
        _ => {},
    }
}

proof fn lemma_fit_start(
    values: Map<Seq<char>, Seq<char>>,
    a: Seq<PartModel>,
    b: Seq<PartModel>,
    n: nat,
    limit: usize,
    nesting: nat,
)
    requires
        n <= a.len(),
        n <= b.len(),
        forall|i: int| 0 <= i < n ==> a[i] == b[i],
        parts_fit(values, a, n, limit, nesting),
    ensures
        parts_fit(values, b, n, limit, nesting),
    decreases n,
{
    if n > 0 {
        lemma_fit_start(values, a, b, (n - 1) as nat, limit, nesting);
        lemma_same_start(values, a, b, (n - 1) as nat);
        assert(a[n - 1] == b[n - 1]);
    }
}

proof fn lemma_pushed_fits(
    values: Map<Seq<char>, Seq<char>>,
    parts: Seq<PartModel>,
    part: PartModel,
    limit: usize,
    nesting: nat,
)
    requires
        parts_fit(values, parts, parts.len(), limit, nesting),
        written_parts(values, parts, parts.len()) is Some,
        written_part(values, part) is Some,
        written_parts(values, parts, parts.len())->0.len() + written_part(values, part)->0.len()
            <= limit,
        part_fits(
            values,
            part,
            (limit - written_parts(values, parts, parts.len())->0.len()) as usize,
            nesting,
        ),
    ensures
        parts_fit(values, parts.push(part), parts.len() + 1, limit, nesting),
{
    let all = parts.push(part);
    lemma_fit_start(values, parts, all, parts.len(), limit, nesting);
    lemma_same_start(values, parts, all, parts.len());
    assert(all[parts.len() as int] == part);
}

proof fn lemma_literal_fits(
    values: Map<Seq<char>, Seq<char>>,
    parts: Seq<PartModel>,
    text: Seq<char>,
    limit: usize,
    nesting: nat,
)
    requires
        parts_fit(values, parts, parts.len(), limit, nesting),
        written_parts(values, parts, parts.len()) is Some,
        written_parts(values, parts, parts.len())->0.len() + encode_utf8(text).len() <= limit,
    ensures
        ({
            let after = expression_parser::with_literal(parts, text);
            parts_fit(values, after, after.len(), limit, nesting)
        }),
{
    if text.len() == 0 {
    } else if parts.len() > 0 && parts.last() is Literal {
        let last = parts.last()->Literal_0;
        let shorter = parts.drop_last();
        lemma_fit_before(values, parts, shorter.len(), parts.len(), limit, nesting);
        lemma_fit_start(values, parts, shorter, shorter.len(), limit, nesting);
        lemma_same_start(values, parts, shorter, shorter.len());
        text::lemma_encode_concat(last, text);
        assert(parts[parts.len() - 1] == PartModel::Literal(last));
        assert(written_part(values, parts[parts.len() - 1]) == Some(encode_utf8(last)));
        assert(written_part(values, PartModel::Literal(last + text)) == Some(
            encode_utf8(last + text),
        ));
        lemma_pushed_fits(values, shorter, PartModel::Literal(last + text), limit, nesting);
    } else {
        lemma_pushed_fits(values, parts, PartModel::Literal(text), limit, nesting);
    }
}

proof fn lemma_joined_fits(
    values: Map<Seq<char>, Seq<char>>,
    parts: Seq<PartModel>,
    more: Seq<PartModel>,
    i: nat,
    room: usize,
    limit: usize,
    nesting: nat,
)
    requires
        i <= more.len(),
        parts_fit(values, parts, parts.len(), limit, nesting),
        parts_fit(values, more, more.len(), room, nesting),
        written_parts(values, parts, parts.len()) is Some,
        written_parts(values, more, more.len()) is Some,
        written_parts(values, more, i) is Some,
        written_parts(values, parts, parts.len())->0.len() - written_parts(values, more, i)->0.len()
            + room == limit,
    ensures
        ({
            let all = binding::joined(parts, more, i);
            parts_fit(values, all, all.len(), limit, nesting)
        }),
    decreases more.len() - i,
{
    if i < more.len() {
        lemma_some_before(values, more, i + 1, more.len());
        lemma_fit_before(values, more, i + 1, more.len(), room, nesting);
        let next = match more[i as int] {
            PartModel::Literal(text) => expression_parser::with_literal(parts, text),
            other => parts.push(other),
        };
        match more[i as int] {
            PartModel::Literal(text) => {
                assert(written_part(values, more[i as int]) == Some(encode_utf8(text)));
                lemma_literal(values, parts, text);
                lemma_literal_fits(values, parts, text, limit, nesting);
            },
            other => {
                lemma_pushed(values, parts, other);
                lemma_pushed_fits(values, parts, other, limit, nesting);
            },
        }
        lemma_joined_fits(values, next, more, i + 1, room, limit, nesting);
    }
}

proof fn lemma_expression_still_fits(
    values: Map<Seq<char>, Seq<char>>,
    line: nat,
    expression: ExpressionModel,
    limit: usize,
    binding_nesting: nat,
    nesting: nat,
    nesting_then: nat,
)
    requires
        binding::bound_at(expression, line, values, binding_nesting) is Ok,
        written(values, expression) is Some,
        fits(values, expression, limit, nesting),
        nesting_then <= nesting,
    ensures
        fits(
            values,
            binding::bound_at(expression, line, values, binding_nesting)->Ok_0,
            limit,
            nesting_then,
        ),
    decreases expression, 1nat, 0nat,
{
    lemma_parts_still_fit(
        values,
        line,
        expression.parts,
        0,
        limit,
        binding_nesting,
        nesting,
        nesting_then,
        Seq::empty(),
    );
}

proof fn lemma_parts_still_fit(
    values: Map<Seq<char>, Seq<char>>,
    line: nat,
    parts: Seq<PartModel>,
    i: nat,
    limit: usize,
    binding_nesting: nat,
    nesting: nat,
    nesting_then: nat,
    so_far: Seq<PartModel>,
)
    requires
        i <= parts.len(),
        nesting_then <= nesting <= MAX_EXPANSION_DEPTH,
        binding::bound_parts(parts, i, line, values, binding_nesting, so_far) is Ok,
        written_parts(values, parts, parts.len()) is Some,
        written_parts(values, so_far, so_far.len()) == written_parts(values, parts, i),
        parts_fit(values, parts, parts.len(), limit, nesting),
        parts_fit(values, so_far, so_far.len(), limit, nesting_then),
    ensures
        ({
            let bound = binding::bound_parts(
                parts,
                i,
                line,
                values,
                binding_nesting,
                so_far,
            )->Ok_0;
            parts_fit(values, bound, bound.len(), limit, nesting_then)
        }),
    decreases parts, 1nat, parts.len() - i,
{
    if i < parts.len() {
        lemma_some_before(values, parts, i + 1, parts.len());
        lemma_fit_before(values, parts, i + 1, parts.len(), limit, nesting);
        lemma_part_bound(values, line, parts[i as int], binding_nesting, so_far);
        lemma_part_still_fits(
            values,
            line,
            parts[i as int],
            limit,
            binding_nesting,
            nesting,
            nesting_then,
            so_far,
        );
        let next = binding::bound_part(
            parts[i as int],
            line,
            values,
            binding_nesting,
            so_far,
        )->Ok_0;
        lemma_parts_still_fit(
            values,
            line,
            parts,
            i + 1,
            limit,
            binding_nesting,
            nesting,
            nesting_then,
            next,
        );
    }
}

proof fn lemma_part_still_fits(
    values: Map<Seq<char>, Seq<char>>,
    line: nat,
    part: PartModel,
    limit: usize,
    binding_nesting: nat,
    nesting: nat,
    nesting_then: nat,
    so_far: Seq<PartModel>,
)
    requires
        nesting_then <= nesting <= MAX_EXPANSION_DEPTH,
        binding::bound_part(part, line, values, binding_nesting, so_far) is Ok,
        written_parts(values, so_far, so_far.len()) is Some,
        written_part(values, part) is Some,
        written_parts(values, so_far, so_far.len())->0.len() + written_part(values, part)->0.len()
            <= limit,
        part_fits(
            values,
            part,
            (limit - written_parts(values, so_far, so_far.len())->0.len()) as usize,
            nesting,
        ),
        parts_fit(values, so_far, so_far.len(), limit, nesting_then),
    ensures
        ({
            let next = binding::bound_part(part, line, values, binding_nesting, so_far)->Ok_0;
            parts_fit(values, next, next.len(), limit, nesting_then)
        }),
    decreases part, 0nat, 0nat,
{
    let head = written_parts(values, so_far, so_far.len())->0;
    let room = (limit - head.len()) as usize;
    match part {
        PartModel::Literal(text) => {
            lemma_literal_fits(values, so_far, text, limit, nesting_then);
        },
        PartModel::RegexQuotedVariable(_) | PartModel::Command(_) => {},
        PartModel::PatternQuote(expression) => {
            let bound = binding::bound_at(expression, line, values, binding_nesting + 1)->Ok_0;
            lemma_expression_bound(values, line, expression, binding_nesting + 1);
            lemma_expression_still_fits(
                values,
                line,
                expression,
                room,
                binding_nesting + 1,
                nesting,
                nesting_then,
            );
            assert(written_part(values, PartModel::PatternQuote(bound)) == written_part(
                values,
                part,
            ));
            lemma_pushed_fits(
                values,
                so_far,
                PartModel::PatternQuote(bound),
                limit,
                nesting_then,
            );
        },
        PartModel::Variable { name, operation } => {
            if operation.is_value_transform() {
                let alone = ExpressionModel { parts: seq![part] };
                let value = binding::runtime_text(
                    alone,
                    line,
                    MAX_ASSIGNMENT_VALUE_LEN,
                    values,
                )->Ok_0;
                lemma_runtime_text(values, line, alone, MAX_ASSIGNMENT_VALUE_LEN);
                lemma_alone(values, part);
                lemma_literal_fits(values, so_far, value, limit, nesting_then);
            } else if variables::policy_of(name) is RuntimeOnly {
                let bound = binding::bound_operation(
                    operation,
                    line,
                    values,
                    binding_nesting + 1,
                )->Ok_0;
                lemma_operation_bound(values, line, name, operation, binding_nesting + 1);
                lemma_operation_still_fits(
                    values,
                    line,
                    name,
                    operation,
                    room,
                    binding_nesting + 1,
                    nesting,
                    nesting_then,
                );
                lemma_pushed_fits(
                    values,
                    so_far,
                    PartModel::Variable { name, operation: bound },
                    limit,
                    nesting_then,
                );
            } else {
                let is_set = values.contains_key(name);
                let is_empty = is_set && values[name].len() == 0;
                if is_set {
                    lemma_not_empty(values[name]);
                }
                match operation.selected_word(is_set, is_empty) {
                    Some(word) => {
                        let bound = binding::bound_at(
                            word,
                            line,
                            values,
                            binding_nesting + 1,
                        )->Ok_0;
                        lemma_expression_bound(values, line, word, binding_nesting + 1);
                        lemma_expression_still_fits(
                            values,
                            line,
                            word,
                            room,
                            binding_nesting + 1,
                            nesting + 1,
                            nesting_then,
                        );
                        lemma_joined_fits(
                            values,
                            so_far,
                            bound.parts,
                            0,
                            room,
                            limit,
                            nesting_then,
                        );
                    },
                    None => {
                        if operation.uses_value_when_word_is_not_selected() {
                            lemma_literal_fits(values, so_far, values[name], limit, nesting_then);
                        }
                    },
                }
            }
        },
    }
}

proof fn lemma_operation_still_fits(
    values: Map<Seq<char>, Seq<char>>,
    line: nat,
    name: Seq<char>,
    operation: OperationModel,
    room: usize,
    binding_nesting: nat,
    nesting: nat,
    nesting_then: nat,
)
    requires
        nesting_then <= nesting <= MAX_EXPANSION_DEPTH,
        binding::bound_operation(operation, line, values, binding_nesting) is Ok,
        !operation.is_value_transform(),
        written_part(values, PartModel::Variable { name, operation }) is Some,
        part_fits(values, PartModel::Variable { name, operation }, room, nesting),
    ensures
        part_fits(
            values,
            PartModel::Variable {
                name,
                operation: binding::bound_operation(
                    operation,
                    line,
                    values,
                    binding_nesting,
                )->Ok_0,
            },
            room,
            nesting_then,
        ),
    decreases operation, 0nat, 0nat,
{
    let is_set = values.contains_key(name);
    let is_empty = is_set && encode_utf8(values[name]).len() == 0;
    if let Some(word) = operation.selected_word(is_set, is_empty) {
        lemma_expression_still_fits(
            values,
            line,
            word,
            room,
            binding_nesting,
            nesting + 1,
            nesting_then + 1,
        );
    }
}

/// An expression keeps its text when it is bound: with the values that it was
/// bound to, it comes to what it came to before.
pub proof fn binding_keeps_the_text(
    expression: ExpressionModel,
    line: nat,
    values: Map<Seq<char>, Seq<char>>,
    limit: usize,
)
    requires
        binding::bound_at(expression, line, values, 0) is Ok,
        binding::runtime_text(expression, line, limit, values) is Ok,
    ensures
        binding::runtime_text(
            binding::bound_at(expression, line, values, 0)->Ok_0,
            line,
            limit,
            values,
        ) == binding::runtime_text(expression, line, limit, values),
{
    let bound = binding::bound_at(expression, line, values, 0)->Ok_0;
    let narrow = binding::smaller(binding::linebuf_of(values), limit);
    let text = binding::runtime_text(expression, line, limit, values)->Ok_0;
    lemma_runtime_text(values, line, expression, limit);
    lemma_expression_written(values, line, expression, narrow, 0);
    lemma_expression_bound(values, line, expression, 0);
    lemma_expression_still_fits(values, line, expression, narrow, 0, 0, 0);
    lemma_expression_evaluates(values, line, bound, narrow, 0);
    lemma_expression_written(values, line, bound, narrow, 0);
    encode_utf8_valid_utf8(text);
    encode_utf8_decode_utf8(text);
}

proof fn lemma_no_commands(parts: Seq<PartModel>, n: nat)
    requires
        n <= parts.len(),
        binding::are_bound(parts),
    ensures
        !expression::parts_run_commands(parts, n),
    decreases parts, n,
{
    if n > 0 {
        lemma_no_commands(parts, (n - 1) as nat);
        assert(binding::is_bound_part(parts[n - 1]));
        match parts[n - 1] {
            PartModel::PatternQuote(expression) => {
                lemma_no_commands(expression.parts, expression.parts.len());
            },
            PartModel::Variable { name, operation } => {
                if let Some(word) = operation.word() {
                    lemma_no_commands(word.parts, word.parts.len());
                }
            },
            _ => {},
        }
        assert(!expression::part_runs_command(parts[n - 1]));
    }
}

/// A destination stays the same when it is bound: with the values that it was
/// bound to, it leads where it led before.
pub proof fn binding_keeps_the_destination(
    destination: DestinationModel,
    values: Map<Seq<char>, Seq<char>>,
)
    requires
        destination.bound(values) is Ok,
        destination.resolved(values) is Ok,
    ensures
        destination.bound(values)->Ok_0.resolved(values) == destination.resolved(values),
{
    let path = destination.path;
    let expression = resolution::expression_of(path.expansion, path.source, path.line)->Ok_0;
    let bound = binding::bound_at(expression, path.line, values, 0)->Ok_0;
    binding::bound_expressions_need_only_the_message(expression, path.line, values, 0);
    lemma_no_commands(bound.parts, bound.parts.len());
    binding_keeps_the_text(expression, path.line, values, MAX_PATH_EXPRESSION_LEN);
}

} // verus!
