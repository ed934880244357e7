//! Values of expressions as text, and expressions bound to known values.

use vstd::prelude::*;
use vstd::string::*;
use vstd::utf8::*;

use crate::config::analysis::{self, ExpressionAnalysis, Scope};
use crate::config::errors::{self, ExpansionError, Fault};
use crate::config::expression::{
    self, ExpressionModel, OperationModel, ParameterOperation, PartModel, ShellExpression,
    ShellPart,
};
use crate::config::expression_parser::{self, parse_expression, push_literal_part};
use crate::config::shell_eval::{
    self, depth_error, evaluate, ContextModel, EvaluationContext, Purpose, TextValues, Values,
};
use crate::config::tables::{ExpandedValue, NameSet, NameTable, ValueText};
use crate::config::variables::{self, variable_policy, VariablePolicy};
use crate::config::{
    DEFAULT_LINEBUF, MAX_ASSIGNMENT_VALUE_LEN, MAX_EXPANSION_DEPTH, MAX_LINEBUF, MIN_LINEBUF,
};
use crate::text::{
    self, decimal_text, numbered, parse_usize, same_text, string_from_utf8, text3, text5, to_chars,
};

verus! {

/// The active bound on the length of lines and values: what `LINEBUF` holds,
/// or the default.
pub open spec fn linebuf_of(values: Map<Seq<char>, Seq<char>>) -> usize {
    if values.contains_key("LINEBUF"@) {
        match text::unsigned_number(values["LINEBUF"@], usize::MAX as nat) {
            Some(value) => value as usize,
            None => DEFAULT_LINEBUF,
        }
    } else {
        DEFAULT_LINEBUF
    }
}

pub(crate) fn active_linebuf(values: &TextValues<'_>) -> (r: usize)
    ensures
        r == linebuf_of(values@),
{
    match values.get("LINEBUF") {
        Some(value) => {
            let chars = to_chars(value.as_str());
            match parse_usize(chars.as_slice()) {
                Some(parsed) => parsed,
                None => DEFAULT_LINEBUF,
            }
        },
        None => DEFAULT_LINEBUF,
    }
}

/// A fault that names the active limit where that was the narrower one.
pub open spec fn relabelled(fault: Fault, linebuf: usize, hard_limit: usize) -> Fault {
    if linebuf < hard_limit && fault.message == shell_eval::limit_message(linebuf) {
        errors::fault(
            fault.line,
            "expanded value exceeds the active LINEBUF limit of "@ + text::decimal(linebuf as nat)
                + " bytes"@,
        )
    } else {
        fault
    }
}

pub(crate) fn relabel_linebuf_error(error: ExpansionError, linebuf: usize, hard_limit: usize) -> (r:
    ExpansionError)
    ensures
        r@ == relabelled(error@, linebuf, hard_limit),
{
    let limit_text = numbered("expanded value exceeds the hard limit of ", linebuf, " bytes");
    if linebuf < hard_limit && same_text(error.message.as_str(), limit_text.as_str()) {
        ExpansionError::new(
            error.line,
            numbered("expanded value exceeds the active LINEBUF limit of ", linebuf, " bytes"),
        )
    } else {
        error
    }
}

pub open spec fn smaller(a: usize, b: usize) -> usize {
    if a < b {
        a
    } else {
        b
    }
}

/// The text that an expression is, of at most `limit` bytes, with how many
/// expansions led to it.
pub open spec fn text_value(
    context: ContextModel,
    expression: ExpressionModel,
    limit: usize,
    assignment_refused: Seq<char>,
) -> Result<ValueText, Fault> {
    match shell_eval::evaluated_at(context, expression, limit, 0, Seq::empty()) {
        Err(error) => Err(error),
        Ok(evaluated) => if evaluated.assignments.len() > 0 {
            Err(errors::fault(context.line, assignment_refused))
        } else if !valid_utf8(evaluated.bytes) {
            Err(errors::fault(context.line, "expanded value is not valid UTF-8"@))
        } else {
            Ok(ValueText { text: decode_utf8(evaluated.bytes), depth: evaluated.depth })
        },
    }
}

fn evaluate_text(
    context: &EvaluationContext<'_>,
    expression: &ShellExpression,
    limit: usize,
    assignment_refused: &str,
) -> (r: Result<ExpandedValue, ExpansionError>)
    ensures
        match text_value(context@, expression@, limit, assignment_refused@) {
            Ok(value) => r matches Ok(found) && found@ == value,
            Err(error) => r matches Err(found) && found@ == error,
        },
{
    let evaluated = match evaluate(expression, limit, context) {
        Ok(evaluated) => evaluated,
        Err(error) => {
            return Err(error);
        },
    };
    assert(evaluated@.assignments.len() == evaluated.assignments@.len());
    if evaluated.assignments.len() > 0 {
        return Err(ExpansionError::told(context.line, assignment_refused));
    }
    let ghost bytes = evaluated.bytes@;
    match string_from_utf8(evaluated.bytes) {
        Some(found) => {
            proof {
                encode_utf8_decode_utf8(found@);
            }
            Ok(ExpandedValue { text: found, depth: evaluated.depth })
        },
        None => Err(ExpansionError::told(context.line, "expanded value is not valid UTF-8")),
    }
}

/// The text that an expression is when a message has selected it.
pub open spec fn runtime_text(
    expression: ExpressionModel,
    line: nat,
    hard_limit: usize,
    values: Map<Seq<char>, Seq<char>>,
) -> Result<Seq<char>, Fault> {
    let linebuf = linebuf_of(values);
    match text_value(
        ContextModel {
            purpose: Purpose::RuntimeText,
            line,
            values: shell_eval::text_values(values),
        },
        expression,
        smaller(linebuf, hard_limit),
        "parameter assignment requires ordered evaluation"@,
    ) {
        Ok(value) => Ok(value.text),
        Err(error) => Err(relabelled(error, linebuf, hard_limit)),
    }
}

/// Evaluates an expression that a message has selected.
pub fn evaluate_with_linebuf(
    expression: &ShellExpression,
    line: usize,
    hard_limit: usize,
    values: TextValues<'_>,
) -> (r: Result<String, ExpansionError>)
    ensures
        match runtime_text(expression@, line as nat, hard_limit, values@) {
            Ok(value) => r matches Ok(found) && found@ == value,
            Err(error) => r matches Err(found) && found@ == error,
        },
{
    let linebuf = active_linebuf(&values);
    let limit: usize = if linebuf < hard_limit {
        linebuf
    } else {
        hard_limit
    };
    let context = EvaluationContext {
        purpose: Purpose::RuntimeText,
        line,
        values: Values::Text(values),
    };
    match evaluate_text(
        &context,
        expression,
        limit,
        "parameter assignment requires ordered evaluation",
    ) {
        Ok(value) => Ok(value.text),
        Err(error) => Err(relabel_linebuf_error(error, linebuf, hard_limit)),
    }
}

/// The text that an expression is before any message is read.
pub open spec fn known_text(
    expression: ExpressionModel,
    line: nat,
    limit: usize,
    known: Map<Seq<char>, ValueText>,
) -> Result<ValueText, Fault> {
    text_value(
        ContextModel {
            purpose: Purpose::Configuration,
            line,
            values: shell_eval::known_bytes(known),
        },
        expression,
        limit,
        "parameter assignment is not valid in this expression context"@,
    )
}

/// Evaluates an expression before any message is read.
pub fn evaluate_config_expression(
    expression: &ShellExpression,
    line: usize,
    limit: usize,
    known: &NameTable<ExpandedValue>,
) -> (r: Result<ExpandedValue, ExpansionError>)
    ensures
        match known_text(expression@, line as nat, limit, known@) {
            Ok(value) => r matches Ok(found) && found@ == value,
            Err(error) => r matches Err(found) && found@ == error,
        },
{
    let context = EvaluationContext {
        purpose: Purpose::Configuration,
        line,
        values: Values::Known(known),
    };
    evaluate_text(
        &context,
        expression,
        limit,
        "parameter assignment is not valid in this expression context",
    )
}

/// What a text is once it is read as an expression and evaluated.
pub open spec fn expanded_text(
    input: Seq<char>,
    line: nat,
    limit: usize,
    known: Map<Seq<char>, ValueText>,
) -> Result<ValueText, Fault> {
    match expression_parser::ordinary_expression(input, line) {
        Ok(expression) => known_text(expression, line, limit, known),
        Err(error) => Err(error),
    }
}

/// Reads a text as an expression and evaluates it.
pub fn expand_text(
    input: &str,
    line: usize,
    limit: usize,
    known: &NameTable<ExpandedValue>,
) -> (r: Result<ExpandedValue, ExpansionError>)
    ensures
        match expanded_text(input@, line as nat, limit, known@) {
            Ok(value) => r matches Ok(found) && found@ == value,
            Err(error) => r matches Err(found) && found@ == error,
        },
{
    match parse_expression(input, line) {
        Ok(expression) => evaluate_config_expression(&expression, line, limit, known),
        Err(error) => Err(error),
    }
}

/// The bytes that a text is once it is read as an expression and evaluated
/// over byte values.
pub open spec fn expanded_bytes(
    input: Seq<char>,
    line: nat,
    limit: usize,
    values: Map<Seq<char>, Seq<u8>>,
) -> Result<Seq<u8>, Fault> {
    match expression_parser::ordinary_expression(input, line) {
        Err(error) => Err(error),
        Ok(expression) => match shell_eval::evaluated_at(
            ContextModel {
                purpose: Purpose::RuntimeBytes,
                line,
                values: shell_eval::byte_values(values),
            },
            expression,
            limit,
            0,
            Seq::empty(),
        ) {
            Err(error) => Err(error),
            Ok(evaluated) => if evaluated.assignments.len() > 0 {
                Err(
                    errors::fault(
                        line,
                        "parameter assignment is not valid in this expression context"@,
                    ),
                )
            } else {
                Ok(evaluated.bytes)
            },
        },
    }
}

/// Reads a text as an expression and evaluates it over byte values.
pub fn expand_runtime_bytes(
    input: &str,
    line: usize,
    limit: usize,
    values: &NameTable<Vec<u8>>,
) -> (r: Result<Vec<u8>, ExpansionError>)
    ensures
        match expanded_bytes(input@, line as nat, limit, values@) {
            Ok(bytes) => r matches Ok(found) && found@ == bytes,
            Err(error) => r matches Err(found) && found@ == error,
        },
{
    let expression = match parse_expression(input, line) {
        Ok(expression) => expression,
        Err(error) => {
            return Err(error);
        },
    };
    let context = EvaluationContext {
        purpose: Purpose::RuntimeBytes,
        line,
        values: Values::Bytes(values),
    };
    match evaluate(&expression, limit, &context) {
        Err(error) => Err(error),
        Ok(evaluated) => {
            assert(evaluated@.assignments.len() == evaluated.assignments@.len());
            if evaluated.assignments.len() > 0 {
                Err(
                    ExpansionError::told(
                        line,
                        "parameter assignment is not valid in this expression context",
                    ),
                )
            } else {
                Ok(evaluated.bytes)
            }
        },
    }
}

/// The bound that a value of `LINEBUF` sets.
pub open spec fn linebuf_value(value: Seq<char>, line: nat) -> Result<usize, Fault> {
    match text::unsigned_number(value, usize::MAX as nat) {
        None => Err(errors::fault(line, "LINEBUF must be an unsigned decimal integer"@)),
        Some(parsed) => if MIN_LINEBUF <= parsed <= MAX_LINEBUF {
            Ok(parsed as usize)
        } else {
            Err(errors::fault(line, linebuf_range_message()))
        },
    }
}

pub open spec fn linebuf_range_message() -> Seq<char> {
    "LINEBUF must be from "@ + text::decimal(MIN_LINEBUF as nat) + " through "@ + text::decimal(
        MAX_LINEBUF as nat,
    ) + " bytes"@
}

pub(crate) fn linebuf_range_text() -> (r: String)
    ensures
        r@ == linebuf_range_message(),
{
    let least = decimal_text(MIN_LINEBUF);
    let most = decimal_text(MAX_LINEBUF);
    text5("LINEBUF must be from ", least.as_str(), " through ", most.as_str(), " bytes")
}

/// Reads a value of `LINEBUF`.
pub fn parse_linebuf(value: &str, line: usize) -> (r: Result<usize, ExpansionError>)
    ensures
        match linebuf_value(value@, line as nat) {
            Ok(parsed) => r == Ok::<usize, ExpansionError>(parsed),
            Err(error) => r matches Err(found) && found@ == error,
        },
{
    let chars = to_chars(value);
    match parse_usize(chars.as_slice()) {
        None => Err(ExpansionError::told(line, "LINEBUF must be an unsigned decimal integer")),
        Some(parsed) => if MIN_LINEBUF <= parsed && parsed <= MAX_LINEBUF {
            Ok(parsed)
        } else {
            Err(ExpansionError::new(line, linebuf_range_text()))
        },
    }
}

/// Whether an expression cannot be bound to known values alone.
pub open spec fn has_runtime(expression: ExpressionModel) -> bool {
    analysis::analyzed(
        Scope { known: Map::empty(), dynamic: Set::empty() },
        expression,
    ).has_runtime_part()
}

/// Whether an expression cannot be bound to known values alone.
pub fn expression_has_runtime(expression: &ShellExpression) -> (r: bool)
    ensures
        r == has_runtime(expression@),
{
    let known: NameTable<ExpandedValue> = NameTable::new();
    let dynamic = NameSet::new();
    ExpressionAnalysis::new(expression, &known, &dynamic).has_runtime_part()
}

/// Parts that go on with those from `i` on, with literal parts joined.
pub open spec fn joined(parts: Seq<PartModel>, more: Seq<PartModel>, i: nat) -> Seq<PartModel>
    decreases more.len() - i,
{
    if i >= more.len() {
        parts
    } else {
        joined(
            match more[i as int] {
                PartModel::Literal(text) => expression_parser::with_literal(parts, text),
                other => parts.push(other),
            },
            more,
            i + 1,
        )
    }
}

/// An expression in which the variables that no message sets have been
/// replaced by their values.
pub open spec fn bound_at(
    expression: ExpressionModel,
    line: nat,
    values: Map<Seq<char>, Seq<char>>,
    nesting: nat,
) -> Result<ExpressionModel, Fault>
    decreases expression, 1nat, 0nat,
{
    if nesting > MAX_EXPANSION_DEPTH {
        Err(shell_eval::depth_fault(line))
    } else {
        match bound_parts(expression.parts, 0, line, values, nesting, Seq::empty()) {
            Ok(parts) => Ok(ExpressionModel { parts }),
            Err(error) => Err(error),
        }
    }
}

/// The parts from `i` on, bound, behind those that were bound before.
pub open spec fn bound_parts(
    parts: Seq<PartModel>,
    i: nat,
    line: nat,
    values: Map<Seq<char>, Seq<char>>,
    nesting: nat,
    so_far: Seq<PartModel>,
) -> Result<Seq<PartModel>, Fault>
    decreases parts, 1nat, parts.len() - i,
{
    if i >= parts.len() {
        Ok(so_far)
    } else {
        match bound_part(parts[i as int], line, values, nesting, so_far) {
            Ok(next) => bound_parts(parts, i + 1, line, values, nesting, next),
            Err(error) => Err(error),
        }
    }
}

/// A part, bound, behind those that were bound before.
pub open spec fn bound_part(
    part: PartModel,
    line: nat,
    values: Map<Seq<char>, Seq<char>>,
    nesting: nat,
    so_far: Seq<PartModel>,
) -> Result<Seq<PartModel>, Fault>
    decreases part, 0nat, 0nat,
{
    match part {
        PartModel::Literal(text) => Ok(expression_parser::with_literal(so_far, text)),
        PartModel::RegexQuotedVariable(_) | PartModel::Command(_) => Err(
            errors::fault(line, "expression cannot be statically bound"@),
        ),
        PartModel::PatternQuote(expression) => match bound_at(
            expression,
            line,
            values,
            nesting + 1,
        ) {
            Ok(bound) => Ok(so_far.push(PartModel::PatternQuote(bound))),
            Err(error) => Err(error),
        },
        PartModel::Variable { name, operation } => if operation.is_value_transform() {
            match runtime_text(
                ExpressionModel { parts: seq![part] },
                line,
                MAX_ASSIGNMENT_VALUE_LEN,
                values,
            ) {
                Ok(value) => Ok(expression_parser::with_literal(so_far, value)),
                Err(error) => Err(error),
            }
        } else if variables::policy_of(name) is RuntimeOnly {
            match bound_operation(operation, line, values, nesting + 1) {
                Ok(bound) => Ok(so_far.push(PartModel::Variable { name, operation: bound })),
                Err(error) => Err(error),
            }
        } else {
            let is_set = values.contains_key(name);
            let is_empty = is_set && values[name].len() == 0;
            match operation.selected_word(is_set, is_empty) {
                Some(word) => match bound_at(word, line, values, nesting + 1) {
                    Ok(bound) => Ok(joined(so_far, bound.parts, 0)),
                    Err(error) => Err(error),
                },
                None => if !operation.uses_value_when_word_is_not_selected() {
                    Ok(so_far)
                } else if is_set {
                    Ok(expression_parser::with_literal(so_far, values[name]))
                } else if operation is ErrorIfUnsetOrEmpty {
                    Err(errors::fault(line, "parameter "@ + name + " is unset or empty"@))
                } else {
                    Err(errors::fault(line, "variable "@ + name + " is not set"@))
                },
            }
        },
    }
}

/// An operation with its word bound.
pub open spec fn bound_operation(
    operation: OperationModel,
    line: nat,
    values: Map<Seq<char>, Seq<char>>,
    nesting: nat,
) -> Result<OperationModel, Fault>
    decreases operation, 0nat, 0nat,
{
    match operation {
        OperationModel::Value => Ok(OperationModel::Value),
        OperationModel::Length => Ok(OperationModel::Length),
        OperationModel::ErrorIfUnsetOrEmpty(word) => Ok(operation),
        OperationModel::DefaultIfUnset(word) => match bound_at(word, line, values, nesting) {
            Ok(bound) => Ok(OperationModel::DefaultIfUnset(bound)),
            Err(error) => Err(error),
        },
        OperationModel::DefaultIfUnsetOrEmpty(word) => match bound_at(
            word,
            line,
            values,
            nesting,
        ) {
            Ok(bound) => Ok(OperationModel::DefaultIfUnsetOrEmpty(bound)),
            Err(error) => Err(error),
        },
        OperationModel::AlternateIfSet(word) => match bound_at(word, line, values, nesting) {
            Ok(bound) => Ok(OperationModel::AlternateIfSet(bound)),
            Err(error) => Err(error),
        },
        OperationModel::AlternateIfSetAndNotEmpty(word) => match bound_at(
            word,
            line,
            values,
            nesting,
        ) {
            Ok(bound) => Ok(OperationModel::AlternateIfSetAndNotEmpty(bound)),
            Err(error) => Err(error),
        },
        OperationModel::AssignIfUnsetOrEmpty(word) => match bound_at(word, line, values, nesting) {
            Ok(bound) => Ok(OperationModel::AssignIfUnsetOrEmpty(bound)),
            Err(error) => Err(error),
        },
        OperationModel::RemovePrefix { pattern, longest } => match bound_at(
            pattern,
            line,
            values,
            nesting,
        ) {
            Ok(bound) => Ok(OperationModel::RemovePrefix { pattern: bound, longest }),
            Err(error) => Err(error),
        },
        OperationModel::RemoveSuffix { pattern, longest } => match bound_at(
            pattern,
            line,
            values,
            nesting,
        ) {
            Ok(bound) => Ok(OperationModel::RemoveSuffix { pattern: bound, longest }),
            Err(error) => Err(error),
        },
        OperationModel::ChangeCase { pattern, direction, all } => match bound_at(
            pattern,
            line,
            values,
            nesting,
        ) {
            Ok(bound) => Ok(OperationModel::ChangeCase { pattern: bound, direction, all }),
            Err(error) => Err(error),
        },
    }
}

/// Appends parts, with literal parts joined.
fn push_parts(parts: &mut Vec<ShellPart>, more: Vec<ShellPart>)
    ensures
        expression::models_of(final(parts)@) == joined(
            expression::models_of(old(parts)@),
            expression::models_of(more@),
            0,
        ),
{
    let ghost all = expression::models_of(more@);
    let ghost start = expression::models_of(parts@);
    let mut i: usize = 0;
    proof {
        expression::lemma_part_models(more@, more@.len());
    }
    while i < more.len()
        invariant
            i <= more@.len(),
            all == expression::models_of(more@),
            all.len() == more@.len(),
            forall|j: int| 0 <= j < more@.len() ==> #[trigger] all[j] == more@[j]@,
            joined(start, all, 0) == joined(expression::models_of(parts@), all, i as nat),
        decreases more.len() - i,
    {
        assert(all[i as int] == more@[i as int]@);
        match &more[i] {
            ShellPart::Literal(text) => {
                push_literal_part(parts, text.as_str());
            },
            other => {
                let part = other.duplicate();
                proof {
                    expression::lemma_models_of(parts@, part);
                }
                parts.push(part);
            },
        }
        i = i + 1;
    }
}

/// Binds an expression to known values; what a message sets stays as it is.
pub fn bind_static_expression(
    expression: &ShellExpression,
    line: usize,
    values: TextValues<'_>,
    nesting: usize,
) -> (r: Result<ShellExpression, ExpansionError>)
    ensures
        match bound_at(expression@, line as nat, values@, nesting as nat) {
            Ok(bound) => r matches Ok(found) && found@ == bound,
            Err(error) => r matches Err(found) && found@ == error,
        },
    decreases expression, 1nat,
{
    if nesting > MAX_EXPANSION_DEPTH {
        return Err(depth_error(line));
    }
    proof {
        expression::lemma_expression_parts(*expression);
    }
    let mut parts: Vec<ShellPart> = Vec::new();
    proof {
        expression::lemma_models_of(parts@, arbitrary());
        assert(expression::models_of(parts@) =~= Seq::empty());
    }
    let ghost whole = bound_parts(
        expression@.parts,
        0,
        line as nat,
        values@,
        nesting as nat,
        Seq::empty(),
    );
    let mut i: usize = 0;
    while i < expression.parts.len()
        invariant
            i <= expression.parts@.len(),
            nesting <= MAX_EXPANSION_DEPTH,
            expression@.parts.len() == expression.parts@.len(),
            forall|j: int|
                0 <= j < expression.parts@.len() ==> #[trigger] expression@.parts[j]
                    == expression.parts@[j]@,
            whole == bound_parts(
                expression@.parts,
                0,
                line as nat,
                values@,
                nesting as nat,
                Seq::empty(),
            ),
            whole == bound_parts(
                expression@.parts,
                i as nat,
                line as nat,
                values@,
                nesting as nat,
                expression::models_of(parts@),
            ),
        decreases expression.parts.len() - i,
    {
        assert(expression@.parts[i as int] == expression.parts@[i as int]@);
        match bind_part(&expression.parts[i], line, values, nesting, &mut parts) {
            Ok(()) => {},
            Err(error) => {
                return Err(error);
            },
        }
        i = i + 1;
    }
    Ok(ShellExpression { parts })
}

fn bind_part(
    part: &ShellPart,
    line: usize,
    values: TextValues<'_>,
    nesting: usize,
    parts: &mut Vec<ShellPart>,
) -> (r: Result<(), ExpansionError>)
    requires
        nesting <= MAX_EXPANSION_DEPTH,
    ensures
        match bound_part(
            part@,
            line as nat,
            values@,
            nesting as nat,
            expression::models_of(old(parts)@),
        ) {
            Ok(next) => r is Ok && expression::models_of(final(parts)@) == next,
            Err(error) => r matches Err(found) && found@ == error,
        },
    decreases part, 0nat,
{
    match part {
        ShellPart::Literal(text) => {
            push_literal_part(parts, text.as_str());
            Ok(())
        },
        ShellPart::RegexQuotedVariable(_) => Err(
            ExpansionError::told(line, "expression cannot be statically bound"),
        ),
        ShellPart::Command(_) => Err(
            ExpansionError::told(line, "expression cannot be statically bound"),
        ),
        ShellPart::PatternQuote(inner) => match bind_static_expression(
            inner,
            line,
            values,
            nesting + 1,
        ) {
            Ok(bound) => {
                let quoted = ShellPart::PatternQuote(Box::new(bound));
                proof {
                    expression::lemma_models_of(parts@, quoted);
                }
                parts.push(quoted);
                Ok(())
            },
            Err(error) => Err(error),
        },
        ShellPart::Variable { name, operation } => {
            if operation.is_value_transform() {
                let mut alone: Vec<ShellPart> = Vec::new();
                let copy = part.duplicate();
                proof {
                    expression::lemma_models_of(alone@, copy);
                }
                alone.push(copy);
                let single = ShellExpression { parts: alone };
                assert(single@.parts =~= seq![part@]);
                return match evaluate_with_linebuf(
                    &single,
                    line,
                    MAX_ASSIGNMENT_VALUE_LEN,
                    values,
                ) {
                    Ok(value) => {
                        push_literal_part(parts, value.as_str());
                        Ok(())
                    },
                    Err(error) => Err(error),
                };
            }
            if variable_policy(name.as_str()) == VariablePolicy::RuntimeOnly {
                return match bind_parameter_operation(operation, line, values, nesting + 1) {
                    Ok(bound) => {
                        let reference = ShellPart::Variable {
                            name: name.clone(),
                            operation: bound,
                        };
                        proof {
                            expression::lemma_models_of(parts@, reference);
                        }
                        parts.push(reference);
                        Ok(())
                    },
                    Err(error) => Err(error),
                };
            }
            let value = values.get(name.as_str());
            let is_set = value.is_some();
            let is_empty = match &value {
                Some(given) => given.as_str().is_empty(),
                None => false,
            };
            match operation.selected_word(is_set, is_empty) {
                Some(word) => match bind_static_expression(word, line, values, nesting + 1) {
                    Ok(bound) => {
                        push_parts(parts, bound.parts);
                        Ok(())
                    },
                    Err(error) => Err(error),
                },
                None => {
                    if !operation.uses_value_when_word_is_not_selected() {
                        return Ok(());
                    }
                    match value {
                        Some(given) => {
                            push_literal_part(parts, given.as_str());
                            Ok(())
                        },
                        None => if matches!(operation, ParameterOperation::ErrorIfUnsetOrEmpty(_)) {
                            Err(
                                ExpansionError::new(
                                    line,
                                    text3("parameter ", name.as_str(), " is unset or empty"),
                                ),
                            )
                        } else {
                            Err(
                                ExpansionError::new(
                                    line,
                                    text3("variable ", name.as_str(), " is not set"),
                                ),
                            )
                        },
                    }
                },
            }
        },
    }
}

fn bind_parameter_operation(
    operation: &ParameterOperation,
    line: usize,
    values: TextValues<'_>,
    nesting: usize,
) -> (r: Result<ParameterOperation, ExpansionError>)
    ensures
        match bound_operation(operation@, line as nat, values@, nesting as nat) {
            Ok(bound) => r matches Ok(found) && found@ == bound,
            Err(error) => r matches Err(found) && found@ == error,
        },
    decreases operation, 0nat,
{
    match operation {
        ParameterOperation::Value => Ok(ParameterOperation::Value),
        ParameterOperation::Length => Ok(ParameterOperation::Length),
        ParameterOperation::ErrorIfUnsetOrEmpty(word) => Ok(
            ParameterOperation::ErrorIfUnsetOrEmpty(word.duplicate()),
        ),
        ParameterOperation::DefaultIfUnset(word) => match bind_static_expression(
            word,
            line,
            values,
            nesting,
        ) {
            Ok(bound) => Ok(ParameterOperation::DefaultIfUnset(bound)),
            Err(error) => Err(error),
        },
        ParameterOperation::DefaultIfUnsetOrEmpty(word) => match bind_static_expression(
            word,
            line,
            values,
            nesting,
        ) {
            Ok(bound) => Ok(ParameterOperation::DefaultIfUnsetOrEmpty(bound)),
            Err(error) => Err(error),
        },
        ParameterOperation::AlternateIfSet(word) => match bind_static_expression(
            word,
            line,
            values,
            nesting,
        ) {
            Ok(bound) => Ok(ParameterOperation::AlternateIfSet(bound)),
            Err(error) => Err(error),
        },
        ParameterOperation::AlternateIfSetAndNotEmpty(word) => match bind_static_expression(
            word,
            line,
            values,
            nesting,
        ) {
            Ok(bound) => Ok(ParameterOperation::AlternateIfSetAndNotEmpty(bound)),
            Err(error) => Err(error),
        },
        ParameterOperation::AssignIfUnsetOrEmpty(word) => match bind_static_expression(
            word,
            line,
            values,
            nesting,
        ) {
            Ok(bound) => Ok(ParameterOperation::AssignIfUnsetOrEmpty(bound)),
            Err(error) => Err(error),
        },
        ParameterOperation::RemovePrefix { pattern, longest } => match bind_static_expression(
            pattern,
            line,
            values,
            nesting,
        ) {
            Ok(bound) => Ok(
                ParameterOperation::RemovePrefix { pattern: bound, longest: *longest },
            ),
            Err(error) => Err(error),
        },
        ParameterOperation::RemoveSuffix { pattern, longest } => match bind_static_expression(
            pattern,
            line,
            values,
            nesting,
        ) {
            Ok(bound) => Ok(
                ParameterOperation::RemoveSuffix { pattern: bound, longest: *longest },
            ),
            Err(error) => Err(error),
        },
        ParameterOperation::ChangeCase { pattern, direction, all } => match bind_static_expression(
            pattern,
            line,
            values,
            nesting,
        ) {
            Ok(bound) => Ok(
                ParameterOperation::ChangeCase { pattern: bound, direction: *direction, all: *all },
            ),
            Err(error) => Err(error),
        },
    }
}

/// Whether an expression is made of texts and of variables that only a message
/// sets.
pub open spec fn is_bound(expression: ExpressionModel) -> bool
    decreases expression, 1nat,
{
    are_bound(expression.parts)
}

/// The same of parts.
pub open spec fn are_bound(parts: Seq<PartModel>) -> bool
    decreases parts, 1nat,
{
    forall|i: int| 0 <= i < parts.len() ==> is_bound_part(#[trigger] parts[i])
}

/// The same of a part.
pub open spec fn is_bound_part(part: PartModel) -> bool
    decreases part, 0nat,
{
    match part {
        PartModel::Literal(_) => true,
        PartModel::RegexQuotedVariable(_) | PartModel::Command(_) => false,
        PartModel::PatternQuote(expression) => is_bound(expression),
        PartModel::Variable { name, operation } => variables::policy_of(name) is RuntimeOnly
            && !operation.is_value_transform() && is_bound_operation(operation),
    }
}

/// The same of the word of an operation, other than that of an error, which is
/// read only once the error has come.
pub open spec fn is_bound_operation(operation: OperationModel) -> bool
    decreases operation, 0nat,
{
    match operation {
        OperationModel::Value | OperationModel::Length => true,
        OperationModel::ErrorIfUnsetOrEmpty(_) => true,
        OperationModel::DefaultIfUnset(word) => is_bound(word),
        OperationModel::DefaultIfUnsetOrEmpty(word) => is_bound(word),
        OperationModel::AlternateIfSet(word) => is_bound(word),
        OperationModel::AlternateIfSetAndNotEmpty(word) => is_bound(word),
        OperationModel::AssignIfUnsetOrEmpty(word) => is_bound(word),
        OperationModel::RemovePrefix { pattern, .. } => is_bound(pattern),
        OperationModel::RemoveSuffix { pattern, .. } => is_bound(pattern),
        OperationModel::ChangeCase { pattern, .. } => is_bound(pattern),
    }
}

proof fn lemma_with_literal_bound(parts: Seq<PartModel>, text: Seq<char>)
    requires
        are_bound(parts),
    ensures
        are_bound(expression_parser::with_literal(parts, text)),
{
    let after = expression_parser::with_literal(parts, text);
    assert forall|i: int| 0 <= i < after.len() implies is_bound_part(#[trigger] after[i]) by {
        if i < parts.len() && after[i] == parts[i] {
            assert(is_bound_part(parts[i]));
        }
    }
}

proof fn lemma_joined_bound(parts: Seq<PartModel>, more: Seq<PartModel>, i: nat)
    requires
        are_bound(parts),
        are_bound(more),
    ensures
        are_bound(joined(parts, more, i)),
    decreases more.len() - i,
{
    if i < more.len() {
        assert(is_bound_part(more[i as int]));
        match more[i as int] {
            PartModel::Literal(text) => {
                lemma_with_literal_bound(parts, text);
                lemma_joined_bound(expression_parser::with_literal(parts, text), more, i + 1);
            },
            other => {
                let next = parts.push(other);
                assert forall|j: int| 0 <= j < next.len() implies is_bound_part(
                    #[trigger] next[j],
                ) by {
                    if j < parts.len() {
                        assert(is_bound_part(parts[j]));
                    }
                }
                lemma_joined_bound(next, more, i + 1);
            },
        }
    }
}

/// Once an expression has been bound, the texts of all variables but those
/// that only a message sets stand in it: it holds no other reference, and no
/// command.
pub proof fn bound_expressions_need_only_the_message(
    expression: ExpressionModel,
    line: nat,
    values: Map<Seq<char>, Seq<char>>,
    nesting: nat,
)
    requires
        bound_at(expression, line, values, nesting) is Ok,
    ensures
        is_bound(bound_at(expression, line, values, nesting)->Ok_0),
    decreases expression, 1nat, 0nat,
{
    lemma_bound_parts(expression.parts, 0, line, values, nesting, Seq::empty());
}

proof fn lemma_bound_parts(
    parts: Seq<PartModel>,
    i: nat,
    line: nat,
    values: Map<Seq<char>, Seq<char>>,
    nesting: nat,
    so_far: Seq<PartModel>,
)
    requires
        are_bound(so_far),
        bound_parts(parts, i, line, values, nesting, so_far) is Ok,
    ensures
        are_bound(bound_parts(parts, i, line, values, nesting, so_far)->Ok_0),
    decreases parts, 1nat, parts.len() - i,
{
    if i < parts.len() {
        lemma_bound_part(parts[i as int], line, values, nesting, so_far);
        let next = bound_part(parts[i as int], line, values, nesting, so_far)->Ok_0;
        lemma_bound_parts(parts, i + 1, line, values, nesting, next);
    }
}

proof fn lemma_pushed_bound(parts: Seq<PartModel>, part: PartModel)
    requires
        are_bound(parts),
        is_bound_part(part),
    ensures
        are_bound(parts.push(part)),
{
    let next = parts.push(part);
    assert forall|j: int| 0 <= j < next.len() implies is_bound_part(#[trigger] next[j]) by {
        if j < parts.len() {
            assert(is_bound_part(parts[j]));
        }
    }
}

proof fn lemma_bound_part(
    part: PartModel,
    line: nat,
    values: Map<Seq<char>, Seq<char>>,
    nesting: nat,
    so_far: Seq<PartModel>,
)
    requires
        are_bound(so_far),
        bound_part(part, line, values, nesting, so_far) is Ok,
    ensures
        are_bound(bound_part(part, line, values, nesting, so_far)->Ok_0),
    decreases part, 0nat, 0nat,
{
    match part {
        PartModel::Literal(text) => {
            lemma_with_literal_bound(so_far, text);
        },
        PartModel::RegexQuotedVariable(_) | PartModel::Command(_) => {},
        PartModel::PatternQuote(expression) => {
            bound_expressions_need_only_the_message(expression, line, values, nesting + 1);
            let bound = bound_at(expression, line, values, nesting + 1)->Ok_0;
            lemma_pushed_bound(so_far, PartModel::PatternQuote(bound));
        },
        PartModel::Variable { name, operation } => {
            if operation.is_value_transform() {
                let value = runtime_text(
                    ExpressionModel { parts: seq![part] },
                    line,
                    MAX_ASSIGNMENT_VALUE_LEN,
                    values,
                )->Ok_0;
                lemma_with_literal_bound(so_far, value);
            } else if variables::policy_of(name) is RuntimeOnly {
                lemma_bound_operation(operation, line, values, nesting + 1);
                let bound = bound_operation(operation, line, values, nesting + 1)->Ok_0;
                lemma_pushed_bound(so_far, PartModel::Variable { name, operation: bound });
            } else {
                let is_set = values.contains_key(name);
                let is_empty = is_set && values[name].len() == 0;
                match operation.selected_word(is_set, is_empty) {
                    Some(word) => {
                        bound_expressions_need_only_the_message(word, line, values, nesting + 1);
                        let bound = bound_at(word, line, values, nesting + 1)->Ok_0;
                        lemma_joined_bound(so_far, bound.parts, 0);
                    },
                    None => {
                        if operation.uses_value_when_word_is_not_selected() {
                            lemma_with_literal_bound(so_far, values[name]);
                        }
                    },
                }
            }
        },
    }
}

proof fn lemma_bound_operation(
    operation: OperationModel,
    line: nat,
    values: Map<Seq<char>, Seq<char>>,
    nesting: nat,
)
    requires
        bound_operation(operation, line, values, nesting) is Ok,
        !operation.is_value_transform(),
    ensures
        is_bound_operation(bound_operation(operation, line, values, nesting)->Ok_0),
        !bound_operation(operation, line, values, nesting)->Ok_0.is_value_transform(),
    decreases operation, 0nat, 0nat,
{
    match operation {
        OperationModel::DefaultIfUnset(word) => {
            bound_expressions_need_only_the_message(word, line, values, nesting);
        },
        OperationModel::DefaultIfUnsetOrEmpty(word) => {
            bound_expressions_need_only_the_message(word, line, values, nesting);
        },
        OperationModel::AlternateIfSet(word) => {
            bound_expressions_need_only_the_message(word, line, values, nesting);
        },
        OperationModel::AlternateIfSetAndNotEmpty(word) => {
            bound_expressions_need_only_the_message(word, line, values, nesting);
        },
        OperationModel::AssignIfUnsetOrEmpty(word) => {
            bound_expressions_need_only_the_message(word, line, values, nesting);
        },
        _ => {},
    }
}

} // verus!
