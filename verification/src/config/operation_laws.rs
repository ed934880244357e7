//! What the operations of a reference write, and what is written quoted.

use vstd::prelude::*;
use vstd::utf8::*;

use crate::config::errors::{self, Fault};
use crate::config::expression::{CaseDirection, ExpressionModel, OperationModel, PartModel};
use crate::config::shell_eval::{self, ContextModel, Evaluated, Purpose};
use crate::config::shell_pattern::{self, Edge, PatternError, Selection};
use crate::config::MAX_EXPANSION_DEPTH;
use crate::text;

verus! {

/// An expression that is one reference.
pub open spec fn reference(name: Seq<char>, operation: OperationModel) -> ExpressionModel {
    ExpressionModel { parts: seq![PartModel::Variable { name, operation }] }
}

/// Whether nothing was assigned to a variable on the way.
pub open spec fn unassigned(assignments: Seq<(Seq<char>, Seq<u8>)>, name: Seq<char>) -> bool {
    forall|i: int| 0 <= i < assignments.len() ==> (#[trigger] assignments[i]).0 != name
}

/// How deep the expansions behind an empty result go.
pub open spec fn depth_of_nothing(purpose: Purpose, nesting: nat) -> nat {
    match purpose {
        Purpose::Configuration => 1,
        Purpose::RuntimeText => nesting,
        Purpose::RuntimeBytes => 0,
        Purpose::ShellCondition => 0,
    }
}

/// Whether nothing was written and nothing assigned.
pub open spec fn writes_nothing(
    result: Result<Evaluated, Fault>,
    purpose: Purpose,
    nesting: nat,
    assignments: Seq<(Seq<char>, Seq<u8>)>,
) -> bool {
    result == Ok::<Evaluated, Fault>(
        Evaluated {
            bytes: Seq::empty(),
            depth: depth_of_nothing(purpose, nesting),
            assignments,
        },
    )
}

/// Whether what was written is what a word writes: it fails where the word
/// fails, and succeeds where the word does, unless that leads too deep.
pub open spec fn writes_word(
    result: Result<Evaluated, Fault>,
    word: Result<Evaluated, Fault>,
) -> bool {
    match word {
        Err(fault) => result == Err::<Evaluated, Fault>(fault),
        Ok(found) => {
            &&& found.depth < MAX_EXPANSION_DEPTH ==> result is Ok
            &&& result matches Ok(written) ==> written.bytes == found.bytes && written.assignments
                == found.assignments
        },
    }
}

/// Whether what was written is this value: it is, where it fits, unless it leads
/// too deep.
pub open spec fn writes_value(
    result: Result<Evaluated, Fault>,
    value: Seq<u8>,
    limit: usize,
    shallow: bool,
    assignments: Seq<(Seq<char>, Seq<u8>)>,
) -> bool {
    &&& value.len() <= limit && shallow ==> result is Ok
    &&& value.len() > limit ==> result is Err
    &&& result matches Ok(written) ==> written.bytes == value && written.assignments == assignments
}

proof fn lemma_unassigned(assignments: Seq<(Seq<char>, Seq<u8>)>, name: Seq<char>, n: nat)
    requires
        unassigned(assignments, name),
    ensures
        shell_eval::assigned_value(assignments, name, n) is None,
    decreases n,
{
    if n > 0 && n <= assignments.len() {
        lemma_unassigned(assignments, name, (n - 1) as nat);
    }
}

proof fn lemma_one_part(
    context: ContextModel,
    part: PartModel,
    limit: usize,
    nesting: nat,
    assignments: Seq<(Seq<char>, Seq<u8>)>,
)
    requires
        nesting <= MAX_EXPANSION_DEPTH,
    ensures
        shell_eval::evaluated_at(
            context,
            ExpressionModel { parts: seq![part] },
            limit,
            nesting,
            assignments,
        ) == shell_eval::evaluated_part(
            context,
            part,
            limit,
            nesting,
            Evaluated {
                bytes: Seq::empty(),
                depth: shell_eval::initial_depth(context, nesting),
                assignments,
            },
        ),
{
    let parts = seq![part];
    let start = Evaluated {
        bytes: Seq::empty(),
        depth: shell_eval::initial_depth(context, nesting),
        assignments,
    };
    assert(parts[0] == part);
    reveal_with_fuel(shell_eval::evaluated_parts, 2);
    if let Ok(next) = shell_eval::evaluated_part(context, part, limit, nesting, start) {
        assert(shell_eval::evaluated_parts(context, parts, 1, limit, nesting, next) == Ok::<
            Evaluated,
            Fault,
        >(next));
    }
}

/// What is written never outgrows its limit.
proof fn lemma_within(
    context: ContextModel,
    parts: Seq<PartModel>,
    i: nat,
    limit: usize,
    nesting: nat,
    so_far: Evaluated,
)
    requires
        so_far.bytes.len() <= limit,
        shell_eval::evaluated_parts(context, parts, i, limit, nesting, so_far) is Ok,
    ensures
        shell_eval::evaluated_parts(context, parts, i, limit, nesting, so_far)->Ok_0.bytes.len()
            <= limit,
    decreases parts.len() - i,
{
    if i < parts.len() {
        let part = parts[i as int];
        let next = shell_eval::evaluated_part(context, part, limit, nesting, so_far)->Ok_0;
        assert(next.bytes.len() <= limit);
        lemma_within(context, parts, i + 1, limit, nesting, next);
    }
}

proof fn lemma_word(
    context: ContextModel,
    word: ExpressionModel,
    limit: usize,
    nesting: nat,
    assignments: Seq<(Seq<char>, Seq<u8>)>,
)
    ensures
        shell_eval::evaluated_at(
            context,
            word,
            limit,
            nesting,
            assignments,
        ) matches Ok(found) ==> found.bytes.len() <= limit && Seq::<u8>::empty() + found.bytes
            == found.bytes,
{
    if let Ok(found) = shell_eval::evaluated_at(context, word, limit, nesting, assignments) {
        lemma_within(
            context,
            word.parts,
            0,
            limit,
            nesting,
            Evaluated {
                bytes: Seq::empty(),
                depth: shell_eval::initial_depth(context, nesting),
                assignments,
            },
        );
        assert(Seq::<u8>::empty() + found.bytes =~= found.bytes);
    }
}

/// References to a variable that has no value: `${NAME-word}`, `${NAME:-word}`
/// and `${NAME:=word}` write the word, `${NAME+word}` and `${NAME:+word}` write
/// nothing, and every other reference fails.
pub proof fn references_without_a_value(
    context: ContextModel,
    name: Seq<char>,
    word: ExpressionModel,
    longest: bool,
    limit: usize,
    nesting: nat,
    assignments: Seq<(Seq<char>, Seq<u8>)>,
)
    requires
        nesting <= MAX_EXPANSION_DEPTH,
        !context.values.contains_key(name),
        unassigned(assignments, name),
    ensures
        ({
            let evaluated = |operation: OperationModel|
                shell_eval::evaluated_at(
                    context,
                    reference(name, operation),
                    limit,
                    nesting,
                    assignments,
                );
            let alone = shell_eval::evaluated_at(context, word, limit, nesting + 1, assignments);
            let purpose = context.purpose;
            &&& writes_word(evaluated(OperationModel::DefaultIfUnset(word)), alone)
            &&& writes_word(evaluated(OperationModel::DefaultIfUnsetOrEmpty(word)), alone)
            &&& writes_nothing(
                evaluated(OperationModel::AlternateIfSet(word)),
                purpose,
                nesting,
                assignments,
            )
            &&& writes_nothing(
                evaluated(OperationModel::AlternateIfSetAndNotEmpty(word)),
                purpose,
                nesting,
                assignments,
            )
            &&& evaluated(OperationModel::ErrorIfUnsetOrEmpty(word)) == Err::<Evaluated, Fault>(
                errors::fault(context.line, "parameter "@ + name + " is unset or empty"@),
            )
            &&& evaluated(OperationModel::Value) is Err
            &&& evaluated(OperationModel::Length) is Err
            &&& evaluated(OperationModel::RemovePrefix { pattern: word, longest }) is Err
            &&& evaluated(OperationModel::RemoveSuffix { pattern: word, longest }) is Err
        }),
{
    lemma_unassigned(assignments, name, assignments.len());
    lemma_word(context, word, limit, nesting + 1, assignments);
    assert(Seq::<u8>::empty() + Seq::<u8>::empty() =~= Seq::<u8>::empty());
    lemma_references(context, name, word, longest, limit, nesting, assignments);
}

proof fn lemma_references(
    context: ContextModel,
    name: Seq<char>,
    word: ExpressionModel,
    longest: bool,
    limit: usize,
    nesting: nat,
    assignments: Seq<(Seq<char>, Seq<u8>)>,
)
    requires
        nesting <= MAX_EXPANSION_DEPTH,
    ensures
        forall|operation: OperationModel| #[trigger]
            shell_eval::evaluated_at(
                context,
                reference(name, operation),
                limit,
                nesting,
                assignments,
            ) == shell_eval::evaluated_part(
                context,
                PartModel::Variable { name, operation },
                limit,
                nesting,
                Evaluated {
                    bytes: Seq::empty(),
                    depth: shell_eval::initial_depth(context, nesting),
                    assignments,
                },
            ),
{
    assert forall|operation: OperationModel| #[trigger]
        shell_eval::evaluated_at(
            context,
            reference(name, operation),
            limit,
            nesting,
            assignments,
        ) == shell_eval::evaluated_part(
            context,
            PartModel::Variable { name, operation },
            limit,
            nesting,
            Evaluated {
                bytes: Seq::empty(),
                depth: shell_eval::initial_depth(context, nesting),
                assignments,
            },
        ) by {
        lemma_one_part(
            context,
            PartModel::Variable { name, operation },
            limit,
            nesting,
            assignments,
        );
    }
}

/// References to a variable that has a value: the value itself, which
/// `${NAME-word}` writes too; the word, for `${NAME+word}`; and the number of
/// its bytes, for `${#NAME}`. Where the value is empty,
/// `${NAME:-word}` writes the word, `${NAME:+word}` nothing, and `${NAME:?word}`
/// fails; where it is not, they write the value, the word and the value.
pub proof fn references_with_a_value(
    context: ContextModel,
    name: Seq<char>,
    word: ExpressionModel,
    limit: usize,
    nesting: nat,
    assignments: Seq<(Seq<char>, Seq<u8>)>,
)
    requires
        nesting <= MAX_EXPANSION_DEPTH,
        context.values.contains_key(name),
        unassigned(assignments, name),
    ensures
        ({
            let evaluated = |operation: OperationModel|
                shell_eval::evaluated_at(
                    context,
                    reference(name, operation),
                    limit,
                    nesting,
                    assignments,
                );
            let alone = shell_eval::evaluated_at(context, word, limit, nesting + 1, assignments);
            let value = context.values[name].bytes;
            let shallow = context.values[name].depth < MAX_EXPANSION_DEPTH && nesting
                < MAX_EXPANSION_DEPTH;
            let purpose = context.purpose;
            let plain = evaluated(OperationModel::Value);
            let number = encode_utf8(text::decimal(value.len()));
            &&& writes_value(plain, value, limit, shallow, assignments)
            &&& evaluated(OperationModel::DefaultIfUnset(word)) == plain
            &&& writes_word(evaluated(OperationModel::AlternateIfSet(word)), alone)
            &&& writes_value(
                evaluated(OperationModel::Length),
                number,
                limit,
                true,
                assignments,
            )
            &&& if value.len() == 0 {
                &&& writes_word(evaluated(OperationModel::DefaultIfUnsetOrEmpty(word)), alone)
                &&& writes_nothing(
                    evaluated(OperationModel::AlternateIfSetAndNotEmpty(word)),
                    purpose,
                    nesting,
                    assignments,
                )
                &&& evaluated(OperationModel::ErrorIfUnsetOrEmpty(word)) == Err::<
                    Evaluated,
                    Fault,
                >(errors::fault(context.line, "parameter "@ + name + " is unset or empty"@))
            } else {
                &&& evaluated(OperationModel::DefaultIfUnsetOrEmpty(word)) == plain
                &&& writes_word(evaluated(OperationModel::AlternateIfSetAndNotEmpty(word)), alone)
                &&& evaluated(OperationModel::ErrorIfUnsetOrEmpty(word)) == plain
                &&& writes_nothing(
                    evaluated(OperationModel::AssignIfUnsetOrEmpty(word)),
                    purpose,
                    nesting,
                    assignments,
                )
            }
        }),
{
    lemma_unassigned(assignments, name, assignments.len());
    lemma_word(context, word, limit, nesting + 1, assignments);
    let value = context.values[name].bytes;
    let number = encode_utf8(text::decimal(value.len()));
    assert(Seq::<u8>::empty() + value =~= value);
    assert(Seq::<u8>::empty() + number =~= number);
    assert(Seq::<u8>::empty() + Seq::<u8>::empty() =~= Seq::<u8>::empty());
    lemma_references(context, name, word, true, limit, nesting, assignments);
}

proof fn lemma_assigned_last(
    assignments: Seq<(Seq<char>, Seq<u8>)>,
    name: Seq<char>,
    value: Seq<u8>,
    other: Seq<char>,
    n: nat,
)
    requires
        unassigned(assignments, name),
        n <= assignments.len(),
    ensures
        shell_eval::assigned_value(assignments.push((name, value)), other, n)
            == shell_eval::assigned_value(assignments, other, n),
    decreases n,
{
    if n > 0 {
        lemma_assigned_last(assignments, name, value, other, (n - 1) as nat);
    }
}

proof fn lemma_no_place(assignments: Seq<(Seq<char>, Seq<u8>)>, name: Seq<char>, i: int)
    requires
        0 <= i,
        unassigned(assignments, name),
    ensures
        shell_eval::assignment_place(assignments, name, i) is None,
    decreases assignments.len() - i,
{
    if i < assignments.len() {
        lemma_no_place(assignments, name, i + 1);
    }
}

/// `${NAME:=word}` without a value, or with an empty one, writes the word and
/// keeps it: from then on `NAME` is what the word wrote, and every other
/// variable is what it was when the word had been written.
pub proof fn assigned_words_are_kept(
    context: ContextModel,
    name: Seq<char>,
    word: ExpressionModel,
    limit: usize,
    nesting: nat,
    assignments: Seq<(Seq<char>, Seq<u8>)>,
    other: Seq<char>,
)
    requires
        nesting <= MAX_EXPANSION_DEPTH,
        context.values.contains_key(name) ==> context.values[name].bytes.len() == 0,
        unassigned(assignments, name),
        shell_eval::evaluated_at(context, word, limit, nesting + 1, assignments) is Ok,
        unassigned(
            shell_eval::evaluated_at(
                context,
                word,
                limit,
                nesting + 1,
                assignments,
            )->Ok_0.assignments,
            name,
        ),
        shell_eval::evaluated_at(context, word, limit, nesting + 1, assignments)->Ok_0.depth
            < MAX_EXPANSION_DEPTH,
    ensures
        ({
            let alone = shell_eval::evaluated_at(
                context,
                word,
                limit,
                nesting + 1,
                assignments,
            )->Ok_0;
            let result = shell_eval::evaluated_at(
                context,
                reference(name, OperationModel::AssignIfUnsetOrEmpty(word)),
                limit,
                nesting,
                assignments,
            );
            &&& result is Ok
            &&& result->Ok_0.bytes == alone.bytes
            &&& shell_eval::found_value(context, name, result->Ok_0.assignments) matches Some(
                kept,
            ) && kept.bytes == alone.bytes
            &&& other != name ==> shell_eval::found_value(
                context,
                other,
                result->Ok_0.assignments,
            ) == shell_eval::found_value(context, other, alone.assignments)
        }),
{
    lemma_unassigned(assignments, name, assignments.len());
    lemma_word(context, word, limit, nesting + 1, assignments);
    lemma_references(context, name, word, true, limit, nesting, assignments);
    let alone = shell_eval::evaluated_at(context, word, limit, nesting + 1, assignments)->Ok_0;
    let before = alone.assignments;
    lemma_no_place(before, name, 0);
    let after = before.push((name, alone.bytes));
    assert(shell_eval::assigned(before, name, alone.bytes) == after);
    lemma_assigned_last(before, name, alone.bytes, other, before.len());
    assert(after[before.len() as int] == (name, alone.bytes));
    assert(shell_eval::assigned_value(after, name, after.len()) == Some(alone.bytes));
}

/// What an expression assigned goes before what the context holds, and the
/// last assignment before earlier ones.
pub proof fn assigned_values_go_first(
    context: ContextModel,
    assignments: Seq<(Seq<char>, Seq<u8>)>,
    i: int,
)
    requires
        0 <= i < assignments.len(),
        forall|j: int|
            i < j < assignments.len() ==> (#[trigger] assignments[j]).0 != assignments[i].0,
    ensures
        shell_eval::found_value(context, assignments[i].0, assignments) matches Some(found)
            && found.bytes == assignments[i].1,
{
    lemma_last_assignment(assignments, i, assignments.len());
}

proof fn lemma_last_assignment(assignments: Seq<(Seq<char>, Seq<u8>)>, i: int, n: nat)
    requires
        0 <= i < n <= assignments.len(),
        forall|j: int| i < j < n ==> (#[trigger] assignments[j]).0 != assignments[i].0,
    ensures
        shell_eval::assigned_value(assignments, assignments[i].0, n) == Some(assignments[i].1),
    decreases n,
{
    if i < n - 1 {
        lemma_last_assignment(assignments, i, (n - 1) as nat);
    }
}

/// The operations that change a value, `#`, `##`, `%`, `%%` and the changes of
/// case, are those of patterns, with the pattern that the word writes: a
/// doubled sign takes the longest match, a single one the shortest.
pub proof fn values_are_changed_by_patterns(
    context: ContextModel,
    name: Seq<char>,
    pattern: ExpressionModel,
    longest: bool,
    direction: CaseDirection,
    all: bool,
    limit: usize,
    nesting: nat,
    assignments: Seq<(Seq<char>, Seq<u8>)>,
)
    requires
        nesting <= MAX_EXPANSION_DEPTH,
        context.values.contains_key(name),
        unassigned(assignments, name),
    ensures
        ({
            let evaluated = |operation: OperationModel|
                shell_eval::evaluated_at(
                    context,
                    reference(name, operation),
                    limit,
                    nesting,
                    assignments,
                );
            let value = context.values[name].bytes;
            let prefix = evaluated(OperationModel::RemovePrefix { pattern, longest });
            let suffix = evaluated(OperationModel::RemoveSuffix { pattern, longest });
            let cased = evaluated(OperationModel::ChangeCase { pattern, direction, all });
            let selection = if longest {
                Selection::Longest
            } else {
                Selection::Shortest
            };
            match shell_eval::evaluated_at(context, pattern, limit, nesting + 1, assignments) {
                Err(fault) => prefix == Err::<Evaluated, Fault>(fault) && suffix == Err::<
                    Evaluated,
                    Fault,
                >(fault) && cased == Err::<Evaluated, Fault>(fault),
                Ok(word) => {
                    &&& writes_change(
                        prefix,
                        shell_pattern::removed(value, word.bytes, Edge::Prefix, selection),
                        limit,
                        word.assignments,
                    )
                    &&& writes_change(
                        suffix,
                        shell_pattern::removed(value, word.bytes, Edge::Suffix, selection),
                        limit,
                        word.assignments,
                    )
                    &&& writes_change(
                        cased,
                        shell_pattern::case_changed(value, word.bytes, all, direction),
                        limit,
                        word.assignments,
                    )
                },
            }
        }),
{
    lemma_unassigned(assignments, name, assignments.len());
    lemma_references(context, name, pattern, longest, limit, nesting, assignments);
    assert forall|bytes: Seq<u8>| #[trigger] (Seq::<u8>::empty() + bytes) == bytes by {
        assert(Seq::<u8>::empty() + bytes =~= bytes);
    }
}

/// Whether what was written is what came of a change.
pub open spec fn writes_change(
    result: Result<Evaluated, Fault>,
    change: Result<Seq<u8>, PatternError>,
    limit: usize,
    assignments: Seq<(Seq<char>, Seq<u8>)>,
) -> bool {
    match change {
        Err(_) => result is Err,
        Ok(value) => writes_value(result, value, limit, true, assignments),
    }
}

/// A text is written as it is, and a command is never run.
pub proof fn texts_are_written_as_they_are(
    context: ContextModel,
    written: Seq<char>,
    limit: usize,
    nesting: nat,
    assignments: Seq<(Seq<char>, Seq<u8>)>,
)
    requires
        nesting <= MAX_EXPANSION_DEPTH,
    ensures
        writes_value(
            shell_eval::evaluated_at(
                context,
                ExpressionModel { parts: seq![PartModel::Literal(written)] },
                limit,
                nesting,
                assignments,
            ),
            encode_utf8(written),
            limit,
            true,
            assignments,
        ),
        shell_eval::evaluated_at(
            context,
            ExpressionModel { parts: seq![PartModel::Command(written)] },
            limit,
            nesting,
            assignments,
        ) is Err,
{
    lemma_one_part(context, PartModel::Literal(written), limit, nesting, assignments);
    lemma_one_part(context, PartModel::Command(written), limit, nesting, assignments);
    assert(Seq::<u8>::empty() + encode_utf8(written) =~= encode_utf8(written));
}

/// A text in which a backslash takes the meaning from the character behind it,
/// read without those backslashes.
pub open spec fn read_back(escaped: Seq<char>) -> Seq<char>
    decreases escaped.len(),
{
    if escaped.len() == 0 {
        Seq::empty()
    } else if escaped[0] == '\\' && escaped.len() > 1 {
        seq![escaped[1]] + read_back(escaped.skip(2))
    } else {
        seq![escaped[0]] + read_back(escaped.skip(1))
    }
}

/// Whether each of the characters stands behind a backslash, and no other one
/// does.
pub open spec fn escapes(escaped: Seq<char>, special: Seq<char>) -> bool
    decreases escaped.len(),
{
    if escaped.len() == 0 {
        true
    } else if escaped[0] == '\\' {
        escaped.len() > 1 && special.contains(escaped[1]) && escapes(escaped.skip(2), special)
    } else {
        !special.contains(escaped[0]) && escapes(escaped.skip(1), special)
    }
}

proof fn lemma_escapes_more(escaped: Seq<char>, more: Seq<char>, special: Seq<char>)
    requires
        escapes(escaped, special),
        escapes(more, special),
    ensures
        escapes(escaped + more, special),
        read_back(escaped + more) == read_back(escaped) + read_back(more),
    decreases escaped.len(),
{
    let both = escaped + more;
    if escaped.len() == 0 {
        assert(both =~= more);
        assert(read_back(escaped) + read_back(more) =~= read_back(more));
    } else if escaped[0] == '\\' {
        lemma_escapes_more(escaped.skip(2), more, special);
        assert(both.skip(2) =~= escaped.skip(2) + more);
        assert(read_back(both) =~= read_back(escaped) + read_back(more));
    } else {
        lemma_escapes_more(escaped.skip(1), more, special);
        assert(both.skip(1) =~= escaped.skip(1) + more);
        assert(read_back(both) =~= read_back(escaped) + read_back(more));
    }
}

proof fn lemma_escapes_one(c: char, special: Seq<char>)
    requires
        special.contains('\\'),
    ensures
        ({
            let escaped = if special.contains(c) {
                seq!['\\', c]
            } else {
                seq![c]
            };
            escapes(escaped, special) && read_back(escaped) == seq![c]
        }),
{
    reveal_with_fuel(escapes, 3);
    reveal_with_fuel(read_back, 3);
    let two = seq!['\\', c];
    let one = seq![c];
    assert(two.skip(2) =~= Seq::<char>::empty());
    assert(one.skip(1) =~= Seq::<char>::empty());
    assert(seq![c] + Seq::<char>::empty() =~= seq![c]);
}

/// The chunks one behind the other, after `output`.
proof fn lemma_chunks(
    output: Seq<u8>,
    limit: usize,
    chunks: Seq<Seq<u8>>,
    i: int,
)
    requires
        0 <= i <= chunks.len(),
        shell_eval::extended_by(output, limit, chunks, i) is Ok,
    ensures
        shell_eval::extended_by(output, limit, chunks, i)->Ok_0 == output + joined_chunks(
            chunks,
            i,
        ),
    decreases chunks.len() - i,
{
    if i < chunks.len() {
        lemma_chunks(output + chunks[i], limit, chunks, i + 1);
        assert(output + chunks[i] + joined_chunks(chunks, i + 1) =~= output + (chunks[i]
            + joined_chunks(chunks, i + 1)));
    } else {
        assert(output + Seq::<u8>::empty() =~= output);
    }
}

/// The chunks from `i` on, one behind the other.
spec fn joined_chunks(chunks: Seq<Seq<u8>>, i: int) -> Seq<u8>
    decreases chunks.len() - i,
{
    if i < 0 || i >= chunks.len() {
        Seq::empty()
    } else {
        chunks[i] + joined_chunks(chunks, i + 1)
    }
}

proof fn lemma_joined_last(chunks: Seq<Seq<u8>>, chunk: Seq<u8>, i: int)
    requires
        0 <= i <= chunks.len(),
    ensures
        joined_chunks(chunks.push(chunk), i) == joined_chunks(chunks, i) + chunk,
    decreases chunks.len() - i,
{
    let more = chunks.push(chunk);
    if i < chunks.len() {
        lemma_joined_last(chunks, chunk, i + 1);
        assert(more[i] == chunks[i]);
        assert(chunks[i] + (joined_chunks(chunks, i + 1) + chunk) =~= chunks[i] + joined_chunks(
            chunks,
            i + 1,
        ) + chunk);
    } else {
        reveal_with_fuel(joined_chunks, 2);
        assert(more[i] == chunk);
        assert(chunk + Seq::<u8>::empty() =~= chunk);
        assert(Seq::<u8>::empty() + chunk =~= chunk);
    }
}

/// The characters that mean something in a regular expression.
pub open spec fn regex_signs() -> Seq<char> {
    "\\.+*?()|[]{}^$"@
}

proof fn lemma_regex_signs(c: char)
    ensures
        regex_signs().contains(c) == shell_eval::regex_special(c),
        regex_signs().contains('\\'),
{
    reveal_strlit("\\.+*?()|[]{}^$");
    let signs = regex_signs();
    assert(signs.len() == 14);
    assert(signs[0] == '\\' && signs[1] == '.' && signs[2] == '+' && signs[3] == '*' && signs[4]
        == '?' && signs[5] == '(' && signs[6] == ')' && signs[7] == '|' && signs[8] == '['
        && signs[9] == ']' && signs[10] == '{' && signs[11] == '}' && signs[12] == '^' && signs[13]
        == '$');
}

proof fn lemma_escaped_chars(chars: Seq<char>, n: nat) -> (escaped: Seq<char>)
    requires
        n <= chars.len(),
    ensures
        joined_chunks(shell_eval::escaped_chars(chars, n), 0) == encode_utf8(escaped),
        escapes(escaped, regex_signs()),
        read_back(escaped) == chars.take(n as int),
    decreases n,
{
    if n == 0 {
        assert(chars.take(0) =~= Seq::<char>::empty());
        assert(joined_chunks(shell_eval::escaped_chars(chars, 0), 0) =~= Seq::<u8>::empty());
        Seq::empty()
    } else {
        let before = lemma_escaped_chars(chars, (n - 1) as nat);
        let c = chars[n - 1];
        let chunks = shell_eval::escaped_chars(chars, (n - 1) as nat);
        lemma_regex_signs(c);
        lemma_escapes_one(c, regex_signs());
        let last = if regex_signs().contains(c) {
            seq!['\\', c]
        } else {
            seq![c]
        };
        lemma_escapes_more(before, last, regex_signs());
        text::lemma_encode_concat(before, last);
        reveal_strlit("\\");
        let backslash = encode_utf8("\\"@);
        let own = encode_utf8(seq![c]);
        assert(chars.take(n as int) =~= chars.take(n - 1) + seq![c]);
        if regex_signs().contains(c) {
            lemma_joined_last(chunks, backslash, 0);
            lemma_joined_last(chunks.push(backslash), own, 0);
            assert("\\"@ =~= seq!['\\']);
            text::lemma_encode_concat(seq!['\\'], seq![c]);
            assert(seq!['\\'] + seq![c] =~= last);
            assert(encode_utf8(before) + backslash + own =~= encode_utf8(before) + (backslash
                + own));
        } else {
            lemma_joined_last(chunks, own, 0);
        }
        before + last
    }
}

proof fn lemma_joined_tail(start: Seq<u8>, chunks: Seq<Seq<u8>>, i: int)
    requires
        0 <= i <= chunks.len(),
    ensures
        joined_chunks(seq![start] + chunks, i + 1) == joined_chunks(chunks, i),
    decreases chunks.len() - i,
{
    let all = seq![start] + chunks;
    if i < chunks.len() {
        lemma_joined_tail(start, chunks, i + 1);
        assert(all[i + 1] == chunks[i]);
    }
}

proof fn lemma_chunks_fit(output: Seq<u8>, limit: usize, chunks: Seq<Seq<u8>>, i: int)
    requires
        0 <= i <= chunks.len(),
        output.len() <= limit,
    ensures
        shell_eval::extended_by(output, limit, chunks, i) is Ok <==> output.len() + joined_chunks(
            chunks,
            i,
        ).len() <= limit,
    decreases chunks.len() - i,
{
    if i < chunks.len() && output.len() + chunks[i].len() <= limit {
        lemma_chunks_fit(output + chunks[i], limit, chunks, i + 1);
    }
}

/// The regular expression that stands for a value of text is `(?:)` and the
/// text, in which a backslash stands before each of the characters
/// `\ . + * ? ( ) | [ ] { } ^ $` and before no other one. Read without these
/// backslashes it is the value. It is written where it fits.
pub proof fn escaped_values_are_read_back(value: Seq<u8>, limit: usize)
    requires
        valid_utf8(value),
    ensures
        exists|escaped: Seq<char>|
            {
                let written = shell_eval::regex_escaped(value, limit);
                &&& #[trigger] escapes(escaped, "\\.+*?()|[]{}^$"@)
                &&& encode_utf8(read_back(escaped)) == value
                &&& written is Ok <==> text::byte_len("(?:)"@ + escaped) <= limit
                &&& written is Ok ==> written->Ok_0 == encode_utf8("(?:)"@ + escaped)
            },
{
    let chars = decode_utf8(value);
    let start = encode_utf8("(?:)"@);
    let chunks = shell_eval::escaped_chars(chars, chars.len());
    let escaped = lemma_escaped_chars(chars, chars.len());
    let all = shell_eval::escape_chunks(value);
    lemma_chunks_fit(Seq::empty(), limit, all, 0);
    if shell_eval::regex_escaped(value, limit) is Ok {
        lemma_chunks(Seq::empty(), limit, all, 0);
    }
    lemma_joined_tail(start, chunks, 0);
    assert(all[0] == start);
    assert(joined_chunks(all, 0) == start + joined_chunks(chunks, 0));
    text::lemma_encode_concat("(?:)"@, escaped);
    assert(Seq::<u8>::empty() + joined_chunks(all, 0) =~= encode_utf8("(?:)"@ + escaped));
    assert(chars.take(chars.len() as int) =~= chars);
    decode_utf8_encode_utf8(value);
    assert(escapes(escaped, "\\.+*?()|[]{}^$"@));
}

/// The byte that spells a digit of base sixteen.
pub open spec fn hex_byte(n: int) -> u8 {
    "0123456789abcdef"@[n] as u8
}

proof fn lemma_hex_escape(byte: u8)
    ensures
        shell_eval::hex_escape(byte).len() == 4,
        shell_eval::hex_escape(byte)[0] == 92,
        shell_eval::hex_escape(byte)[1] == 120,
        shell_eval::hex_escape(byte)[2] == hex_byte(byte as int / 16),
        shell_eval::hex_escape(byte)[3] == hex_byte(byte as int % 16),
{
    reveal_strlit("\\x");
    reveal_strlit("0123456789abcdef");
    let digits = "0123456789abcdef"@;
    assert(digits[0] == '0' && digits[1] == '1' && digits[2] == '2' && digits[3] == '3'
        && digits[4] == '4' && digits[5] == '5' && digits[6] == '6' && digits[7] == '7'
        && digits[8] == '8' && digits[9] == '9' && digits[10] == 'a' && digits[11] == 'b'
        && digits[12] == 'c' && digits[13] == 'd' && digits[14] == 'e' && digits[15] == 'f');
    let upper = shell_eval::hex_char(byte as nat / 16);
    let lower = shell_eval::hex_char(byte as nat % 16);
    let spelled = "\\x"@.push(upper).push(lower);
    assert(upper == digits[byte as int / 16]);
    assert(lower == digits[byte as int % 16]);
    assert(spelled.len() == 4 && spelled[0] == '\\' && spelled[1] == 'x' && spelled[2] == upper
        && spelled[3] == lower);
    is_ascii_chars_encode_utf8(spelled);
}

proof fn lemma_escaped_bytes(bytes: Seq<u8>, n: nat, i: int)
    requires
        n <= bytes.len(),
    ensures
        ({
            let written = joined_chunks(shell_eval::escaped_bytes(bytes, n), 0);
            &&& written.len() == 4 * n
            &&& 0 <= i < n ==> written[4 * i] == 92 && written[4 * i + 1] == 120 && written[4 * i
                + 2] == hex_byte(bytes[i] as int / 16) && written[4 * i + 3] == hex_byte(
                bytes[i] as int % 16,
            )
        }),
    decreases n,
{
    if n > 0 {
        lemma_escaped_bytes(bytes, (n - 1) as nat, i);
        lemma_hex_escape(bytes[n - 1]);
        lemma_joined_last(
            shell_eval::escaped_bytes(bytes, (n - 1) as nat),
            shell_eval::hex_escape(bytes[n - 1]),
            0,
        );
    }
}

/// The regular expression that stands for a value that is no text gives each
/// byte by its number: `(?:)(?-u:`, then `\x` and two digits for each byte, the
/// upper half first, then `)`.
pub proof fn other_values_are_escaped_by_number(value: Seq<u8>, limit: usize, i: int)
    requires
        !valid_utf8(value),
        0 <= i < value.len(),
        shell_eval::regex_escaped(value, limit) is Ok,
    ensures
        ({
            let written = shell_eval::regex_escaped(value, limit)->Ok_0;
            &&& written.len() == 10 + 4 * value.len()
            &&& written.take(9) == encode_utf8("(?:)(?-u:"@)
            &&& written[9 + 4 * i] == 92
            &&& written[10 + 4 * i] == 120
            &&& written[11 + 4 * i] == hex_byte(value[i] as int / 16)
            &&& written[12 + 4 * i] == hex_byte(value[i] as int % 16)
            &&& written.last() == 41
        }),
{
    reveal_strlit("(?:)");
    reveal_strlit("(?-u:");
    reveal_strlit("(?:)(?-u:");
    reveal_strlit(")");
    let first = encode_utf8("(?:)"@);
    let second = encode_utf8("(?-u:"@);
    let last = encode_utf8(")"@);
    is_ascii_chars_encode_utf8("(?:)"@);
    is_ascii_chars_encode_utf8("(?-u:"@);
    is_ascii_chars_encode_utf8(")"@);
    assert("(?:)"@ + "(?-u:"@ =~= "(?:)(?-u:"@);
    text::lemma_encode_concat("(?:)"@, "(?-u:"@);
    let escaped = shell_eval::escaped_bytes(value, value.len());
    let rest = escaped.push(last);
    let all = shell_eval::escape_chunks(value);
    assert(all =~= seq![first] + (seq![second] + rest));
    lemma_chunks(Seq::empty(), limit, all, 0);
    lemma_joined_tail(first, seq![second] + rest, 0);
    lemma_joined_tail(second, rest, 0);
    lemma_joined_last(escaped, last, 0);
    lemma_escaped_bytes(value, value.len(), i);
    assert(all[0] == first);
    assert((seq![second] + rest)[0] == second);
    let body = joined_chunks(escaped, 0);
    let written = shell_eval::regex_escaped(value, limit)->Ok_0;
    assert(written =~= first + (second + (body + last)));
    assert(written.take(9) =~= first + second);
    assert(written[9 + 4 * i] == body[4 * i]);
    assert(written[10 + 4 * i] == body[4 * i + 1]);
    assert(written[11 + 4 * i] == body[4 * i + 2]);
    assert(written[12 + 4 * i] == body[4 * i + 3]);
}

/// `$\NAME` writes the escaped value, in a condition that is expanded and
/// nowhere else, and fails without a value. A quoted piece of a pattern is
/// written as the pattern that matches what it says.
pub proof fn quoted_parts_match_themselves(
    context: ContextModel,
    name: Seq<char>,
    quoted: ExpressionModel,
    limit: usize,
    nesting: nat,
    assignments: Seq<(Seq<char>, Seq<u8>)>,
)
    requires
        nesting <= MAX_EXPANSION_DEPTH,
    ensures
        ({
            let result = shell_eval::evaluated_at(
                context,
                ExpressionModel { parts: seq![PartModel::RegexQuotedVariable(name)] },
                limit,
                nesting,
                assignments,
            );
            if context.purpose is ShellCondition && context.values.contains_key(name) {
                match shell_eval::regex_escaped(context.values[name].bytes, limit) {
                    Ok(escaped) => writes_value(result, escaped, limit, true, assignments),
                    Err(_) => result is Err,
                }
            } else {
                result is Err
            }
        }),
        ({
            let result = shell_eval::evaluated_at(
                context,
                ExpressionModel { parts: seq![PartModel::PatternQuote(quoted)] },
                limit,
                nesting,
                assignments,
            );
            match shell_eval::evaluated_at(context, quoted, limit, nesting, assignments) {
                Err(fault) => result == Err::<Evaluated, Fault>(fault),
                Ok(value) => match shell_eval::quoted_from(
                    Seq::empty(),
                    limit,
                    value.bytes,
                    0,
                ) {
                    Ok(written) => writes_value(result, written, limit, true, value.assignments),
                    Err(_) => result is Err,
                },
            }
        }),
{
    lemma_one_part(
        context,
        PartModel::RegexQuotedVariable(name),
        limit,
        nesting,
        assignments,
    );
    lemma_one_part(context, PartModel::PatternQuote(quoted), limit, nesting, assignments);
    assert forall|bytes: Seq<u8>| #[trigger] (Seq::<u8>::empty() + bytes) == bytes by {
        assert(Seq::<u8>::empty() + bytes =~= bytes);
    }
}

proof fn lemma_parts_pushed(
    context: ContextModel,
    parts: Seq<PartModel>,
    last: PartModel,
    i: nat,
    limit: usize,
    nesting: nat,
    so_far: Evaluated,
)
    requires
        i <= parts.len(),
    ensures
        shell_eval::evaluated_parts(context, parts.push(last), i, limit, nesting, so_far)
            == match shell_eval::evaluated_parts(context, parts, i, limit, nesting, so_far) {
            Ok(before) => shell_eval::evaluated_part(context, last, limit, nesting, before),
            Err(error) => Err(error),
        },
    decreases parts.len() - i,
{
    let more = parts.push(last);
    if i < parts.len() {
        assert(more[i as int] == parts[i as int]);
        if let Ok(next) = shell_eval::evaluated_part(
            context,
            parts[i as int],
            limit,
            nesting,
            so_far,
        ) {
            lemma_parts_pushed(context, parts, last, i + 1, limit, nesting, next);
        }
    } else {
        assert(more[i as int] == last);
        reveal_with_fuel(shell_eval::evaluated_parts, 2);
    }
}

/// The parts of an expression are written one behind the other: a text at its
/// end comes behind what the parts before it write, and changes nothing of it.
pub proof fn parts_are_written_in_order(
    context: ContextModel,
    parts: Seq<PartModel>,
    written: Seq<char>,
    limit: usize,
    nesting: nat,
    assignments: Seq<(Seq<char>, Seq<u8>)>,
)
    requires
        nesting <= MAX_EXPANSION_DEPTH,
    ensures
        ({
            let before = shell_eval::evaluated_at(
                context,
                ExpressionModel { parts },
                limit,
                nesting,
                assignments,
            );
            let after = shell_eval::evaluated_at(
                context,
                ExpressionModel { parts: parts.push(PartModel::Literal(written)) },
                limit,
                nesting,
                assignments,
            );
            match before {
                Err(fault) => after == Err::<Evaluated, Fault>(fault),
                Ok(found) => writes_value(
                    after,
                    found.bytes + encode_utf8(written),
                    limit,
                    true,
                    found.assignments,
                ),
            }
        }),
{
    lemma_parts_pushed(
        context,
        parts,
        PartModel::Literal(written),
        0,
        limit,
        nesting,
        Evaluated {
            bytes: Seq::empty(),
            depth: shell_eval::initial_depth(context, nesting),
            assignments,
        },
    );
}

} // verus!
