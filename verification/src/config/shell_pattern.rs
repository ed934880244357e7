//! Shell patterns over bytes: which ends of a value they cover, and which
//! single bytes they match.

use vstd::prelude::*;
use vstd::slice::{slice_subrange, slice_to_vec};

use crate::config::CaseDirection;

verus! {

/// The most transitions that one pattern operation may take.
pub const MAX_PATTERN_STEPS: usize = 16 * 1024 * 1024;

pub const BANG: u8 = 33;

pub const STAR: u8 = 42;

pub const DASH: u8 = 45;

pub const QUESTION: u8 = 63;

pub const OPEN: u8 = 91;

pub const BACKSLASH: u8 = 92;

pub const CLOSE: u8 = 93;

pub const CARET: u8 = 94;

/// The end of a value from which a match is removed.
#[derive(Debug, Clone, Copy, PartialEq, Eq, Structural)]
pub enum Edge {
    Prefix,
    Suffix,
}

/// Which of several matches is removed.
#[derive(Debug, Clone, Copy, PartialEq, Eq, Structural)]
pub enum Selection {
    Shortest,
    Longest,
}

/// A pattern that would take too many steps.
#[derive(Debug, Clone, Copy, PartialEq, Eq, Structural)]
pub enum PatternError {
    TooComplex { attempted: usize },
}

enum Token {
    Literal(u8),
    AnyByte,
    AnyBytes,
    Class(ByteClass),
}

struct ByteClass {
    negated: bool,
    ranges: Vec<(u8, u8)>,
}

/// One element of a pattern.
pub enum PatternToken {
    /// Exactly this byte.
    Literal(u8),
    /// Any one byte.
    AnyByte,
    /// Any number of bytes.
    AnyBytes,
    /// A byte in one of the ranges or, when negated, in none of them.
    Class { negated: bool, ranges: Seq<(u8, u8)> },
}

impl ByteClass {
    spec fn model(&self) -> PatternToken {
        PatternToken::Class { negated: self.negated, ranges: self.ranges@ }
    }

    fn matches(&self, byte: u8) -> (r: bool)
        ensures
            r == token_takes(self.model(), byte),
    {
        let mut included = false;
        let mut i: usize = 0;
        while i < self.ranges.len()
            invariant
                i <= self.ranges.len(),
                included == in_some_range(self.ranges@.take(i as int), byte),
            decreases self.ranges.len() - i,
        {
            let (start, end) = self.ranges[i];
            assert(self.ranges@.take(i + 1) =~= self.ranges@.take(i as int).push((start, end)));
            proof {
                lemma_one_more_range(self.ranges@.take(i as int), (start, end), byte);
            }
            if start <= byte && byte <= end {
                included = true;
            }
            i = i + 1;
        }
        assert(self.ranges@.take(self.ranges@.len() as int) =~= self.ranges@);
        included != self.negated
    }
}

impl Token {
    spec fn model(&self) -> PatternToken {
        match self {
            Token::Literal(byte) => PatternToken::Literal(*byte),
            Token::AnyByte => PatternToken::AnyByte,
            Token::AnyBytes => PatternToken::AnyBytes,
            Token::Class(class) => class.model(),
        }
    }
}

spec fn models(tokens: Seq<Token>) -> Seq<PatternToken> {
    Seq::new(tokens.len(), |i: int| tokens[i].model())
}

/// Whether `byte` lies between the ends of a range.
pub open spec fn in_range(range: (u8, u8), byte: u8) -> bool {
    range.0 <= byte <= range.1
}

/// Whether `byte` lies in one of the ranges.
pub open spec fn in_some_range(ranges: Seq<(u8, u8)>, byte: u8) -> bool {
    exists|j: int| 0 <= j < ranges.len() && in_range(#[trigger] ranges[j], byte)
}

proof fn lemma_one_more_range(ranges: Seq<(u8, u8)>, range: (u8, u8), byte: u8)
    ensures
        in_some_range(ranges.push(range), byte) == (in_some_range(ranges, byte) || in_range(
            range,
            byte,
        )),
{
    let more = ranges.push(range);
    if in_some_range(ranges, byte) {
        let j = choose|j: int| 0 <= j < ranges.len() && in_range(#[trigger] ranges[j], byte);
        assert(more[j] == ranges[j]);
    }
    if in_range(range, byte) {
        assert(more[ranges.len() as int] == range);
    }
}

/// Whether a token that stands for one byte stands for `byte`.
pub open spec fn token_takes(token: PatternToken, byte: u8) -> bool {
    match token {
        PatternToken::Literal(expected) => expected == byte,
        PatternToken::AnyByte => true,
        PatternToken::AnyBytes => false,
        PatternToken::Class { negated, ranges } => negated != in_some_range(ranges, byte),
    }
}

/// Whether token `i` stands for the bytes from cut `i` to cut `i + 1`.
pub open spec fn takes_share(
    tokens: Seq<PatternToken>,
    bytes: Seq<u8>,
    cuts: Seq<int>,
    i: int,
) -> bool {
    &&& 0 <= cuts[i] <= cuts[i + 1] <= bytes.len()
    &&& tokens[i] !is AnyBytes ==> cuts[i + 1] == cuts[i] + 1 && token_takes(
        tokens[i],
        bytes[cuts[i]],
    )
}

/// Whether `cuts` divide all of `bytes` among the tokens, in order.
pub open spec fn divides(tokens: Seq<PatternToken>, bytes: Seq<u8>, cuts: Seq<int>) -> bool {
    &&& cuts.len() == tokens.len() + 1
    &&& cuts[0] == 0
    &&& cuts[tokens.len() as int] == bytes.len()
    &&& forall|i: int| 0 <= i < tokens.len() ==> #[trigger] takes_share(tokens, bytes, cuts, i)
}

/// Whether the pattern matches the whole of `bytes`.
pub open spec fn pattern_matches(tokens: Seq<PatternToken>, bytes: Seq<u8>) -> bool {
    exists|cuts: Seq<int>| divides(tokens, bytes, cuts)
}

/// The same relation by the last token, which is how it is computed.
spec fn matches_by_last(tokens: Seq<PatternToken>, bytes: Seq<u8>) -> bool
    decreases tokens.len(), bytes.len(),
{
    if tokens.len() == 0 {
        bytes.len() == 0
    } else if tokens.last() is AnyBytes {
        matches_by_last(tokens.drop_last(), bytes) || (bytes.len() > 0 && matches_by_last(
            tokens,
            bytes.drop_last(),
        ))
    } else {
        bytes.len() > 0 && token_takes(tokens.last(), bytes.last()) && matches_by_last(
            tokens.drop_last(),
            bytes.drop_last(),
        )
    }
}

proof fn lemma_by_last_divides(tokens: Seq<PatternToken>, bytes: Seq<u8>) -> (cuts: Seq<int>)
    requires
        matches_by_last(tokens, bytes),
    ensures
        divides(tokens, bytes, cuts),
    decreases tokens.len(), bytes.len(),
{
    if tokens.len() == 0 {
        seq![0int]
    } else if tokens.last() is AnyBytes && !matches_by_last(tokens.drop_last(), bytes) {
        let shorter = lemma_by_last_divides(tokens, bytes.drop_last());
        let cuts = shorter.update(tokens.len() as int, bytes.len() as int);
        assert forall|i: int| 0 <= i < tokens.len() implies #[trigger] takes_share(
            tokens,
            bytes,
            cuts,
            i,
        ) by {
            assert(takes_share(tokens, bytes.drop_last(), shorter, i));
            assert(tokens[i] !is AnyBytes ==> bytes.drop_last()[cuts[i]] == bytes[cuts[i]]);
        }
        cuts
    } else {
        let rest = if tokens.last() is AnyBytes {
            bytes
        } else {
            bytes.drop_last()
        };
        let head = lemma_by_last_divides(tokens.drop_last(), rest);
        let cuts = head.push(bytes.len() as int);
        assert forall|i: int| 0 <= i < tokens.len() implies #[trigger] takes_share(
            tokens,
            bytes,
            cuts,
            i,
        ) by {
            if i < tokens.len() - 1 {
                assert(takes_share(tokens.drop_last(), rest, head, i));
                assert(tokens.drop_last()[i] == tokens[i]);
                assert(tokens[i] !is AnyBytes ==> rest[cuts[i]] == bytes[cuts[i]]);
            }
        }
        cuts
    }
}

proof fn lemma_divides_by_last(tokens: Seq<PatternToken>, bytes: Seq<u8>, cuts: Seq<int>)
    requires
        divides(tokens, bytes, cuts),
    ensures
        matches_by_last(tokens, bytes),
    decreases tokens.len(), bytes.len(),
{
    if tokens.len() > 0 {
        let last = tokens.len() - 1;
        assert(takes_share(tokens, bytes, cuts, last));
        if tokens.last() is AnyBytes && cuts[last] < bytes.len() {
            let shorter = cuts.update(tokens.len() as int, bytes.len() - 1);
            assert forall|i: int| 0 <= i < tokens.len() implies #[trigger] takes_share(
                tokens,
                bytes.drop_last(),
                shorter,
                i,
            ) by {
                assert(takes_share(tokens, bytes, cuts, i));
                if i < last {
                    lemma_cuts_ordered(tokens, bytes, cuts, i + 1, last);
                }
            }
            lemma_divides_by_last(tokens, bytes.drop_last(), shorter);
        } else {
            let rest = bytes.take(cuts[last]);
            let head = cuts.drop_last();
            assert forall|i: int| 0 <= i < tokens.drop_last().len() implies #[trigger] takes_share(
                tokens.drop_last(),
                rest,
                head,
                i,
            ) by {
                assert(takes_share(tokens, bytes, cuts, i));
                assert(tokens.drop_last()[i] == tokens[i]);
                lemma_cuts_ordered(tokens, bytes, cuts, i + 1, last);
            }
            lemma_divides_by_last(tokens.drop_last(), rest, head);
            if tokens.last() is AnyBytes {
                assert(rest =~= bytes);
            } else {
                assert(rest =~= bytes.drop_last());
            }
        }
    }
}

proof fn lemma_cuts_ordered(
    tokens: Seq<PatternToken>,
    bytes: Seq<u8>,
    cuts: Seq<int>,
    i: int,
    j: int,
)
    requires
        divides(tokens, bytes, cuts),
        0 <= i <= j <= tokens.len(),
    ensures
        0 <= cuts[i] <= cuts[j] <= bytes.len(),
    decreases j - i,
{
    if i < j {
        assert(takes_share(tokens, bytes, cuts, i));
        lemma_cuts_ordered(tokens, bytes, cuts, i + 1, j);
    } else if i < tokens.len() {
        assert(takes_share(tokens, bytes, cuts, i));
    } else if tokens.len() > 0 {
        assert(takes_share(tokens, bytes, cuts, i - 1));
    }
}

proof fn lemma_matches(tokens: Seq<PatternToken>, bytes: Seq<u8>)
    ensures
        pattern_matches(tokens, bytes) == matches_by_last(tokens, bytes),
{
    if pattern_matches(tokens, bytes) {
        let cuts = choose|cuts: Seq<int>| divides(tokens, bytes, cuts);
        lemma_divides_by_last(tokens, bytes, cuts);
    }
    if matches_by_last(tokens, bytes) {
        let cuts = lemma_by_last_divides(tokens, bytes);
    }
}

proof fn lemma_reverse_divides(tokens: Seq<PatternToken>, bytes: Seq<u8>, cuts: Seq<int>)
    requires
        divides(tokens, bytes, cuts),
    ensures
        pattern_matches(tokens.reverse(), bytes.reverse()),
{
    let n = tokens.len() as int;
    let back = Seq::new(cuts.len(), |i: int| bytes.len() - cuts[n - i]);
    assert forall|i: int| 0 <= i < n implies #[trigger] takes_share(
        tokens.reverse(),
        bytes.reverse(),
        back,
        i,
    ) by {
        assert(takes_share(tokens, bytes, cuts, n - 1 - i));
        assert(tokens.reverse()[i] == tokens[n - 1 - i]);
        if tokens.reverse()[i] !is AnyBytes {
            assert(bytes.reverse()[back[i]] == bytes[cuts[n - 1 - i]]);
        }
    }
    assert(divides(tokens.reverse(), bytes.reverse(), back));
}

/// A pattern read backwards matches exactly the bytes that the pattern
/// matches, read backwards.
pub proof fn reversed_pattern_matches_reversed_bytes(tokens: Seq<PatternToken>, bytes: Seq<u8>)
    ensures
        pattern_matches(tokens.reverse(), bytes.reverse()) == pattern_matches(tokens, bytes),
{
    if pattern_matches(tokens, bytes) {
        let cuts = choose|cuts: Seq<int>| divides(tokens, bytes, cuts);
        lemma_reverse_divides(tokens, bytes, cuts);
    }
    if pattern_matches(tokens.reverse(), bytes.reverse()) {
        let cuts = choose|cuts: Seq<int>| divides(tokens.reverse(), bytes.reverse(), cuts);
        lemma_reverse_divides(tokens.reverse(), bytes.reverse(), cuts);
        assert(tokens.reverse().reverse() =~= tokens);
        assert(bytes.reverse().reverse() =~= bytes);
    }
}

/// The token for the class of bytes whose members start at `index`, and where
/// the pattern goes on behind it.
pub open spec fn class_token(pattern: Seq<u8>, index: int) -> Option<(PatternToken, int)> {
    let negated = index < pattern.len() && (pattern[index] == BANG || pattern[index] == CARET);
    let first = if negated {
        index + 1
    } else {
        index
    };
    let bracket = first < pattern.len() && pattern[first] == CLOSE;
    let (bytes, end) = if bracket {
        class_bytes(pattern, first + 1, seq![(CLOSE, false)])
    } else {
        class_bytes(pattern, first, Seq::empty())
    };
    if end >= pattern.len() || bytes.len() == 0 {
        None
    } else {
        Some((PatternToken::Class { negated, ranges: class_ranges(bytes, 0, Seq::empty()) }, end + 1))
    }
}

/// The members of a class from `index` to its closing bracket, each with
/// whether it was quoted, behind those in `found`; and where they end.
pub open spec fn class_bytes(pattern: Seq<u8>, index: int, found: Seq<(u8, bool)>) -> (
    Seq<(u8, bool)>,
    int,
)
    decreases pattern.len() - index,
{
    if index < 0 || index >= pattern.len() || pattern[index] == CLOSE {
        (found, index)
    } else if pattern[index] == BACKSLASH && index + 1 < pattern.len() {
        class_bytes(pattern, index + 2, found.push((pattern[index + 1], true)))
    } else {
        class_bytes(pattern, index + 1, found.push((pattern[index], false)))
    }
}

/// The ranges that the members from `item` on write, behind those in `found`:
/// an unquoted `-` between two members makes them the ends of a range.
pub open spec fn class_ranges(bytes: Seq<(u8, bool)>, item: int, found: Seq<(u8, u8)>) -> Seq<
    (u8, u8),
>
    decreases bytes.len() - item,
{
    if item < 0 || item >= bytes.len() {
        found
    } else if item + 2 < bytes.len() && bytes[item + 1] == (DASH, false) {
        class_ranges(bytes, item + 3, found.push((bytes[item].0, bytes[item + 2].0)))
    } else {
        class_ranges(bytes, item + 1, found.push((bytes[item].0, bytes[item].0)))
    }
}

/// The tokens of the pattern from `index` on, behind those in `found`.
pub open spec fn tokens_from(pattern: Seq<u8>, index: int, found: Seq<PatternToken>) -> Seq<
    PatternToken,
>
    decreases pattern.len() - index,
{
    if index < 0 || index >= pattern.len() {
        found
    } else if pattern[index] == BACKSLASH && index + 1 < pattern.len() {
        tokens_from(pattern, index + 2, found.push(PatternToken::Literal(pattern[index + 1])))
    } else if pattern[index] == STAR {
        tokens_from(
            pattern,
            index + 1,
            if found.len() > 0 && found.last() is AnyBytes {
                found
            } else {
                found.push(PatternToken::AnyBytes)
            },
        )
    } else if pattern[index] == QUESTION {
        tokens_from(pattern, index + 1, found.push(PatternToken::AnyByte))
    } else if pattern[index] == OPEN {
        match class_token(pattern, index + 1) {
            Some((token, next)) => if next > index {
                tokens_from(pattern, next, found.push(token))
            } else {
                found
            },
            None => tokens_from(pattern, index + 1, found.push(PatternToken::Literal(OPEN))),
        }
    } else {
        tokens_from(pattern, index + 1, found.push(PatternToken::Literal(pattern[index])))
    }
}

/// The tokens that a pattern is made of.
pub open spec fn pattern_tokens(pattern: Seq<u8>) -> Seq<PatternToken> {
    tokens_from(pattern, 0, Seq::empty())
}

/// What one step through a token costs.
pub open spec fn token_cost(token: PatternToken) -> nat {
    match token {
        PatternToken::Class { negated, ranges } => if ranges.len() > 0 {
            ranges.len()
        } else {
            1
        },
        _ => 1,
    }
}

/// What one step through all the tokens costs.
pub open spec fn tokens_cost(tokens: Seq<PatternToken>) -> nat
    decreases tokens.len(),
{
    if tokens.len() == 0 {
        0
    } else {
        tokens_cost(tokens.drop_last()) + token_cost(tokens.last())
    }
}

/// `n`, or the largest number that fits where `n` does not.
pub open spec fn saturated(n: int) -> int {
    if n > usize::MAX {
        usize::MAX as int
    } else {
        n
    }
}

/// How many steps it takes to try the tokens on `candidates` inputs of
/// `length` bytes each.
pub open spec fn steps(candidates: int, length: int, tokens: Seq<PatternToken>) -> int {
    let cost = saturated(tokens_cost(tokens) as int);
    candidates * saturated(length + 1) * (if cost > 1 {
        cost
    } else {
        1
    })
}

/// The error of an operation that takes too many steps.
pub open spec fn too_complex(steps: int) -> PatternError {
    PatternError::TooComplex { attempted: saturated(steps) as usize }
}

fn parse_class(pattern: &[u8], start: usize) -> (r: Option<(ByteClass, usize)>)
    requires
        start <= pattern@.len(),
    ensures
        match class_token(pattern@, start as int) {
            Some((token, next)) => r matches Some(found) && found.0.model() == token && found.1
                == next && start < next <= pattern@.len(),
            None => r is None,
        },
{
    let mut index: usize = start;
    let mut negated = false;
    if index < pattern.len() && (pattern[index] == BANG || pattern[index] == CARET) {
        negated = true;
        index = index + 1;
    }
    let mut bytes: Vec<(u8, bool)> = Vec::new();
    if index < pattern.len() && pattern[index] == CLOSE {
        bytes.push((CLOSE, false));
        index = index + 1;
        assert(bytes@ =~= seq![(CLOSE, false)]);
    }
    let ghost (all, end) = class_bytes(pattern@, index as int, bytes@);
    while index < pattern.len() && pattern[index] != CLOSE
        invariant
            start <= index <= pattern.len(),
            class_bytes(pattern@, index as int, bytes@) == (all, end),
        decreases pattern.len() - index,
    {
        if pattern[index] == BACKSLASH && index + 1 < pattern.len() {
            bytes.push((pattern[index + 1], true));
            index = index + 2;
        } else {
            bytes.push((pattern[index], false));
            index = index + 1;
        }
    }
    assert(bytes@ == all && index == end);
    if index == pattern.len() || bytes.len() == 0 {
        return None;
    }
    let mut ranges: Vec<(u8, u8)> = Vec::new();
    let mut item: usize = 0;
    while item < bytes.len()
        invariant
            item <= bytes.len(),
            class_ranges(bytes@, 0, Seq::empty()) == class_ranges(bytes@, item as int, ranges@),
        decreases bytes.len() - item,
    {
        if bytes.len() - item > 2 && bytes[item + 1].0 == DASH && !bytes[item + 1].1 {
            ranges.push((bytes[item].0, bytes[item + 2].0));
            item = item + 3;
        } else {
            ranges.push((bytes[item].0, bytes[item].0));
            item = item + 1;
        }
    }
    Some((ByteClass { negated, ranges }, index + 1))
}

proof fn lemma_models_push(tokens: Seq<Token>, token: Token)
    ensures
        models(tokens.push(token)) == models(tokens).push(token.model()),
{
    assert(models(tokens.push(token)) =~= models(tokens).push(token.model()));
}

fn tokenize(pattern: &[u8]) -> (r: Vec<Token>)
    ensures
        models(r@) == pattern_tokens(pattern@),
{
    let mut tokens: Vec<Token> = Vec::with_capacity(pattern.len());
    let mut index: usize = 0;
    assert(models(tokens@) =~= Seq::empty());
    while index < pattern.len()
        invariant
            index <= pattern.len(),
            pattern_tokens(pattern@) == tokens_from(pattern@, index as int, models(tokens@)),
        decreases pattern.len() - index,
    {
        let byte = pattern[index];
        let ghost before = tokens@;
        if byte == BACKSLASH && index + 1 < pattern.len() {
            let token = Token::Literal(pattern[index + 1]);
            proof {
                lemma_models_push(before, token);
            }
            tokens.push(token);
            index = index + 2;
        } else if byte == STAR {
            let repeated = tokens.len() > 0 && matches!(tokens[tokens.len() - 1], Token::AnyBytes);
            assert(repeated == (models(before).len() > 0 && models(before).last() is AnyBytes));
            if !repeated {
                proof {
                    lemma_models_push(before, Token::AnyBytes);
                }
                tokens.push(Token::AnyBytes);
            }
            index = index + 1;
        } else if byte == QUESTION {
            proof {
                lemma_models_push(before, Token::AnyByte);
            }
            tokens.push(Token::AnyByte);
            index = index + 1;
        } else if byte == OPEN {
            match parse_class(pattern, index + 1) {
                Some((class, next)) => {
                    let token = Token::Class(class);
                    proof {
                        lemma_models_push(before, token);
                    }
                    tokens.push(token);
                    index = next;
                },
                None => {
                    proof {
                        lemma_models_push(before, Token::Literal(OPEN));
                    }
                    tokens.push(Token::Literal(OPEN));
                    index = index + 1;
                },
            }
        } else {
            proof {
                lemma_models_push(before, Token::Literal(byte));
            }
            tokens.push(Token::Literal(byte));
            index = index + 1;
        }
    }
    tokens
}

fn check_steps(candidates: usize, length: usize, tokens: &[Token]) -> (r: Result<(), PatternError>)
    ensures
        r == (if steps(candidates as int, length as int, models(tokens@)) <= MAX_PATTERN_STEPS {
            Ok(())
        } else {
            Err(too_complex(steps(candidates as int, length as int, models(tokens@))))
        }),
{
    let ghost model = models(tokens@);
    let mut total: usize = 0;
    let mut i: usize = 0;
    while i < tokens.len()
        invariant
            i <= tokens.len(),
            model == models(tokens@),
            total == saturated(tokens_cost(model.take(i as int)) as int),
        decreases tokens.len() - i,
    {
        let cost: usize = match &tokens[i] {
            Token::Class(class) => if class.ranges.len() > 1 {
                class.ranges.len()
            } else {
                1
            },
            _ => 1,
        };
        assert(cost == token_cost(model[i as int]));
        assert(model.take(i + 1).drop_last() =~= model.take(i as int));
        total = total.saturating_add(cost);
        i = i + 1;
    }
    assert(model.take(model.len() as int) =~= model);
    let per_byte: usize = if total > 1 {
        total
    } else {
        1
    };
    let width: usize = length.saturating_add(1);
    let ghost wanted = steps(candidates as int, length as int, model);
    assert(wanted == candidates * width * per_byte);
    let attempted = match candidates.checked_mul(width) {
        Some(product) => product.checked_mul(per_byte),
        None => {
            assert(candidates * width * per_byte >= candidates * width) by (nonlinear_arith)
                requires
                    per_byte >= 1,
                    candidates * width >= 0,
            ;
            None
        },
    };
    match attempted {
        Some(count) => if count > MAX_PATTERN_STEPS {
            Err(PatternError::TooComplex { attempted: count })
        } else {
            Ok(())
        },
        None => Err(PatternError::TooComplex { attempted: usize::MAX }),
    }
}

/// Whether a search that has read `bytes` may stand before token `i`.
spec fn stands(tokens: Seq<PatternToken>, bytes: Seq<u8>, i: int) -> bool {
    if i < tokens.len() && tokens[i] is AnyBytes {
        matches_by_last(tokens.take(i + 1), bytes)
    } else {
        matches_by_last(tokens.take(i), bytes)
    }
}

proof fn lemma_take(tokens: Seq<PatternToken>, i: int)
    requires
        0 <= i < tokens.len(),
    ensures
        tokens.take(i + 1).last() == tokens[i],
        tokens.take(i + 1).drop_last() == tokens.take(i),
{
    assert(tokens.take(i + 1).drop_last() =~= tokens.take(i));
}

/// How the places where a search stands follow from those before one byte.
proof fn lemma_step(tokens: Seq<PatternToken>, bytes: Seq<u8>, byte: u8, j: int)
    requires
        0 <= j <= tokens.len(),
    ensures
        stands(tokens, bytes.push(byte), j) == {
            ||| j < tokens.len() && tokens[j] is AnyBytes && stands(tokens, bytes, j)
            ||| j > 0 && tokens[j - 1] !is AnyBytes && token_takes(tokens[j - 1], byte) && stands(
                tokens,
                bytes,
                j - 1,
            )
            ||| j > 0 && tokens[j - 1] is AnyBytes && stands(tokens, bytes.push(byte), j - 1)
        },
{
    reveal_with_fuel(matches_by_last, 3);
    let longer = bytes.push(byte);
    assert(longer.drop_last() =~= bytes);
    if j > 0 {
        lemma_take(tokens, j - 1);
    }
    if j < tokens.len() {
        lemma_take(tokens, j);
    }
}

proof fn lemma_start(tokens: Seq<PatternToken>, j: int)
    requires
        0 <= j <= tokens.len(),
    ensures
        stands(tokens, Seq::<u8>::empty(), j) == (j == 0 || (tokens[j - 1] is AnyBytes && stands(
            tokens,
            Seq::<u8>::empty(),
            j - 1,
        ))),
{
    reveal_with_fuel(matches_by_last, 3);
    if j > 0 {
        lemma_take(tokens, j - 1);
    } else {
        assert(tokens.take(0).len() == 0);
    }
    if j < tokens.len() {
        lemma_take(tokens, j);
    }
}

fn is_star(token: &Token) -> (r: bool)
    ensures
        r == (token.model() is AnyBytes),
{
    matches!(token, Token::AnyBytes)
}

/// Lets a search that stands before a `*` stand behind it too.
fn close_stars(states: &mut Vec<bool>, tokens: &[Token])
    requires
        old(states)@.len() == tokens@.len() + 1,
    ensures
        final(states)@.len() == tokens@.len() + 1,
        final(states)@[0] == old(states)@[0],
        forall|j: int|
            0 < j <= tokens@.len() ==> #[trigger] final(states)@[j] == (old(states)@[j] || (models(
                tokens@,
            )[j - 1] is AnyBytes && final(states)@[j - 1])),
{
    let ghost before = states@;
    let mut index: usize = 0;
    while index < tokens.len()
        invariant
            index <= tokens.len(),
            states@.len() == tokens@.len() + 1,
            before.len() == tokens@.len() + 1,
            states@[0] == before[0],
            forall|j: int| index < j <= tokens@.len() ==> states@[j] == before[j],
            forall|j: int|
                0 < j <= index ==> #[trigger] states@[j] == (before[j] || (models(tokens@)[j
                    - 1] is AnyBytes && states@[j - 1])),
        decreases tokens.len() - index,
    {
        if states[index] && is_star(&tokens[index]) {
            states.set(index + 1, true);
        }
        index = index + 1;
    }
}

/// The length, as the selection asks for it, of what the pattern matches at
/// the start of the input.
spec fn endpoint(tokens: Seq<PatternToken>, input: Seq<u8>, selection: Selection) -> Option<int> {
    prefix_length(tokens, input, selection)
}

/// The least length from `from` on at which the pattern matches what `input`
/// begins with.
pub open spec fn shortest_prefix(
    tokens: Seq<PatternToken>,
    input: Seq<u8>,
    from: int,
) -> Option<int>
    decreases input.len() + 1 - from,
{
    if from < 0 || from > input.len() {
        None
    } else if pattern_matches(tokens, input.take(from)) {
        Some(from)
    } else {
        shortest_prefix(tokens, input, from + 1)
    }
}

/// The greatest length up to `to` at which the pattern matches what `input`
/// begins with.
pub open spec fn longest_prefix(tokens: Seq<PatternToken>, input: Seq<u8>, to: int) -> Option<int>
    decreases to + 1,
{
    if to < 0 || to > input.len() {
        None
    } else if pattern_matches(tokens, input.take(to)) {
        Some(to)
    } else {
        longest_prefix(tokens, input, to - 1)
    }
}

fn matching_endpoint_unchecked(input: &[u8], tokens: &[Token], selection: Selection) -> (r: Option<
    usize,
>)
    requires
        tokens@.len() < usize::MAX,
    ensures
        match endpoint(models(tokens@), input@, selection) {
            Some(length) => r == Some(length as usize) && 0 <= length <= input@.len(),
            None => r is None,
        },
{
    let ghost model = models(tokens@);
    let width: usize = tokens.len() + 1;
    let mut states: Vec<bool> = Vec::with_capacity(width);
    states.push(true);
    while states.len() < width
        invariant
            1 <= states@.len() <= width,
            states@[0],
            forall|j: int| 1 <= j < states@.len() ==> !states@[j],
        decreases width - states.len(),
    {
        states.push(false);
    }
    close_stars(&mut states, tokens);
    assert(input@.take(0) =~= Seq::<u8>::empty());
    proof {
        lemma_states_at_start(model, states@);
    }
    let mut matched: Option<usize> = None;
    proof {
        assert(model.take(model.len() as int) =~= model);
        lemma_matches(model, input@.take(0));
    }
    if states[tokens.len()] {
        if selection == Selection::Shortest {
            return Some(0);
        }
        matched = Some(0);
    }
    let mut offset: usize = 0;
    assert(longest_prefix(model, input@, -1) is None);
    while offset < input.len()
        invariant
            offset <= input.len(),
            model == models(tokens@),
            width == tokens@.len() + 1,
            states@.len() == width,
            forall|j: int|
                0 <= j <= model.len() ==> #[trigger] states@[j] == stands(
                    model,
                    input@.take(offset as int),
                    j,
                ),
            selection == Selection::Shortest ==> matched is None && shortest_prefix(model, input@, 0)
                == shortest_prefix(model, input@, offset + 1),
            selection == Selection::Longest ==> match longest_prefix(model, input@, offset as int) {
                Some(length) => matched == Some(length as usize) && 0 <= length <= offset,
                None => matched is None,
            },
        decreases input.len() - offset,
    {
        let byte = input[offset];
        let ghost read = input@.take(offset as int);
        assert(input@.take(offset + 1) =~= read.push(byte));
        let mut next: Vec<bool> = Vec::with_capacity(width);
        while next.len() < width
            invariant
                next@.len() <= width,
                forall|j: int| 0 <= j < next@.len() ==> !next@[j],
            decreases width - next.len(),
        {
            next.push(false);
        }
        let mut index: usize = 0;
        while index < tokens.len()
            invariant
                index <= tokens.len(),
                model == models(tokens@),
                width == tokens@.len() + 1,
                states@.len() == width,
                next@.len() == width,
                forall|j: int|
                    0 <= j < width ==> #[trigger] next@[j] == ({
                        ||| j < index && model[j] is AnyBytes && states@[j]
                        ||| 0 < j <= index && model[j - 1] !is AnyBytes && token_takes(
                            model[j - 1],
                            byte,
                        ) && states@[j - 1]
                    }),
            decreases tokens.len() - index,
        {
            let ghost before = next@;
            if states[index] {
                match &tokens[index] {
                    Token::AnyBytes => {
                        next.set(index, true);
                    },
                    Token::AnyByte => {
                        next.set(index + 1, true);
                    },
                    Token::Literal(expected) => {
                        if *expected == byte {
                            next.set(index + 1, true);
                        }
                    },
                    Token::Class(class) => {
                        if class.matches(byte) {
                            next.set(index + 1, true);
                        }
                    },
                }
            }
            assert forall|j: int| 0 <= j < width implies #[trigger] next@[j] == ({
                ||| j < index + 1 && model[j] is AnyBytes && states@[j]
                ||| 0 < j <= index + 1 && model[j - 1] !is AnyBytes && token_takes(
                    model[j - 1],
                    byte,
                ) && states@[j - 1]
            }) by {
                assert(model[index as int] == tokens@[index as int].model());
                if j != index && j != index + 1 {
                    assert(next@[j] == before[j]);
                }
            }
            index = index + 1;
        }
        let ghost moved = next@;
        close_stars(&mut next, tokens);
        proof {
            lemma_states_after(model, read, byte, states@, moved, next@);
        }
        states = next;
        proof {
            assert(model.take(model.len() as int) =~= model);
            lemma_matches(model, input@.take(offset + 1));
        }
        offset = offset + 1;
        if states[tokens.len()] {
            if selection == Selection::Shortest {
                return Some(offset);
            }
            matched = Some(offset);
        }
    }
    matched
}

proof fn lemma_states_at_start(tokens: Seq<PatternToken>, states: Seq<bool>)
    requires
        states.len() == tokens.len() + 1,
        states[0],
        forall|j: int|
            0 < j <= tokens.len() ==> #[trigger] states[j] == (tokens[j - 1] is AnyBytes && states[j
                - 1]),
    ensures
        forall|j: int|
            0 <= j <= tokens.len() ==> #[trigger] states[j] == stands(
                tokens,
                Seq::<u8>::empty(),
                j,
            ),
{
    assert forall|j: int| 0 <= j <= tokens.len() implies #[trigger] states[j] == stands(
        tokens,
        Seq::<u8>::empty(),
        j,
    ) by {
        lemma_state_at_start(tokens, states, j);
    }
}

proof fn lemma_state_at_start(tokens: Seq<PatternToken>, states: Seq<bool>, j: int)
    requires
        states.len() == tokens.len() + 1,
        states[0],
        forall|j: int|
            0 < j <= tokens.len() ==> #[trigger] states[j] == (tokens[j - 1] is AnyBytes && states[j
                - 1]),
        0 <= j <= tokens.len(),
    ensures
        states[j] == stands(tokens, Seq::<u8>::empty(), j),
    decreases j,
{
    lemma_start(tokens, j);
    if j > 0 {
        lemma_state_at_start(tokens, states, j - 1);
    }
}

proof fn lemma_states_after(
    tokens: Seq<PatternToken>,
    read: Seq<u8>,
    byte: u8,
    states: Seq<bool>,
    moved: Seq<bool>,
    closed: Seq<bool>,
)
    requires
        states.len() == tokens.len() + 1,
        moved.len() == tokens.len() + 1,
        closed.len() == tokens.len() + 1,
        forall|j: int| 0 <= j <= tokens.len() ==> #[trigger] states[j] == stands(tokens, read, j),
        forall|j: int|
            0 <= j < moved.len() ==> #[trigger] moved[j] == ({
                ||| j < tokens.len() && tokens[j] is AnyBytes && states[j]
                ||| 0 < j <= tokens.len() && tokens[j - 1] !is AnyBytes && token_takes(
                    tokens[j - 1],
                    byte,
                ) && states[j - 1]
            }),
        closed[0] == moved[0],
        forall|j: int|
            0 < j <= tokens.len() ==> #[trigger] closed[j] == (moved[j] || (tokens[j
                - 1] is AnyBytes && closed[j - 1])),
    ensures
        forall|j: int|
            0 <= j <= tokens.len() ==> #[trigger] closed[j] == stands(tokens, read.push(byte), j),
{
    assert forall|j: int| 0 <= j <= tokens.len() implies #[trigger] closed[j] == stands(
        tokens,
        read.push(byte),
        j,
    ) by {
        lemma_state_after(tokens, read, byte, states, moved, closed, j);
    }
}

proof fn lemma_state_after(
    tokens: Seq<PatternToken>,
    read: Seq<u8>,
    byte: u8,
    states: Seq<bool>,
    moved: Seq<bool>,
    closed: Seq<bool>,
    j: int,
)
    requires
        states.len() == tokens.len() + 1,
        moved.len() == tokens.len() + 1,
        closed.len() == tokens.len() + 1,
        forall|j: int| 0 <= j <= tokens.len() ==> #[trigger] states[j] == stands(tokens, read, j),
        forall|j: int|
            0 <= j < moved.len() ==> #[trigger] moved[j] == ({
                ||| j < tokens.len() && tokens[j] is AnyBytes && states[j]
                ||| 0 < j <= tokens.len() && tokens[j - 1] !is AnyBytes && token_takes(
                    tokens[j - 1],
                    byte,
                ) && states[j - 1]
            }),
        closed[0] == moved[0],
        forall|j: int|
            0 < j <= tokens.len() ==> #[trigger] closed[j] == (moved[j] || (tokens[j
                - 1] is AnyBytes && closed[j - 1])),
        0 <= j <= tokens.len(),
    ensures
        closed[j] == stands(tokens, read.push(byte), j),
    decreases j,
{
    lemma_step(tokens, read, byte, j);
    assert(moved[j] == moved[j]);
    assert(states[j] == stands(tokens, read, j));
    if j > 0 {
        lemma_state_after(tokens, read, byte, states, moved, closed, j - 1);
        assert(states[j - 1] == stands(tokens, read, j - 1));
        assert(closed[j] == (moved[j] || (tokens[j - 1] is AnyBytes && closed[j - 1])));
    }
}

/// The length of the removed prefix.
pub open spec fn prefix_length(
    tokens: Seq<PatternToken>,
    value: Seq<u8>,
    selection: Selection,
) -> Option<int> {
    match selection {
        Selection::Shortest => shortest_prefix(tokens, value, 0),
        Selection::Longest => longest_prefix(tokens, value, value.len() as int),
    }
}

/// The least length from `from` on at which the pattern matches what `value`
/// ends with.
pub open spec fn shortest_suffix(
    tokens: Seq<PatternToken>,
    value: Seq<u8>,
    from: int,
) -> Option<int>
    decreases value.len() + 1 - from,
{
    if from < 0 || from > value.len() {
        None
    } else if pattern_matches(tokens, value.skip(value.len() - from)) {
        Some(from)
    } else {
        shortest_suffix(tokens, value, from + 1)
    }
}

/// The greatest length up to `to` at which the pattern matches what `value`
/// ends with.
pub open spec fn longest_suffix(tokens: Seq<PatternToken>, value: Seq<u8>, to: int) -> Option<int>
    decreases to + 1,
{
    if to < 0 || to > value.len() {
        None
    } else if pattern_matches(tokens, value.skip(value.len() - to)) {
        Some(to)
    } else {
        longest_suffix(tokens, value, to - 1)
    }
}

/// The length of the removed suffix.
pub open spec fn suffix_length(
    tokens: Seq<PatternToken>,
    value: Seq<u8>,
    selection: Selection,
) -> Option<int> {
    match selection {
        Selection::Shortest => shortest_suffix(tokens, value, 0),
        Selection::Longest => longest_suffix(tokens, value, value.len() as int),
    }
}

/// What is left of `value` once the selected match at `edge` is removed.
pub open spec fn removed(
    value: Seq<u8>,
    pattern: Seq<u8>,
    edge: Edge,
    selection: Selection,
) -> Result<Seq<u8>, PatternError> {
    let tokens = pattern_tokens(pattern);
    let count = steps(1, value.len() as int, tokens);
    if count > MAX_PATTERN_STEPS {
        Err(too_complex(count))
    } else {
        Ok(
            match edge {
                Edge::Prefix => match prefix_length(tokens, value, selection) {
                    Some(length) => value.skip(length),
                    None => value,
                },
                Edge::Suffix => match suffix_length(tokens, value, selection) {
                    Some(length) => value.take(value.len() - length),
                    None => value,
                },
            },
        )
    }
}

proof fn lemma_reversed_take(value: Seq<u8>, n: int)
    requires
        0 <= n <= value.len(),
    ensures
        value.reverse().take(n) == value.skip(value.len() - n).reverse(),
{
    assert(value.reverse().take(n) =~= value.skip(value.len() - n).reverse());
}

proof fn lemma_shortest_reversed(tokens: Seq<PatternToken>, value: Seq<u8>, from: int)
    requires
        0 <= from,
    ensures
        shortest_prefix(tokens.reverse(), value.reverse(), from) == shortest_suffix(
            tokens,
            value,
            from,
        ),
        shortest_suffix(tokens, value, from) matches Some(n) ==> 0 <= n <= value.len(),
    decreases value.len() + 1 - from,
{
    if from <= value.len() {
        lemma_reversed_take(value, from);
        reversed_pattern_matches_reversed_bytes(tokens, value.skip(value.len() - from));
        lemma_shortest_reversed(tokens, value, from + 1);
    }
}

proof fn lemma_longest_reversed(tokens: Seq<PatternToken>, value: Seq<u8>, to: int)
    requires
        to <= value.len(),
    ensures
        longest_prefix(tokens.reverse(), value.reverse(), to) == longest_suffix(tokens, value, to),
        longest_suffix(tokens, value, to) matches Some(n) ==> 0 <= n <= value.len(),
    decreases to + 1,
{
    if 0 <= to {
        lemma_reversed_take(value, to);
        reversed_pattern_matches_reversed_bytes(tokens, value.skip(value.len() - to));
        lemma_longest_reversed(tokens, value, to - 1);
    }
}

proof fn lemma_cost_prefix(tokens: Seq<PatternToken>, n: int)
    requires
        0 <= n <= tokens.len(),
    ensures
        tokens_cost(tokens) == tokens_cost(tokens.take(n)) + tokens_cost(tokens.skip(n)),
    decreases tokens.len() - n,
{
    if n < tokens.len() {
        lemma_cost_prefix(tokens.drop_last(), n);
        assert(tokens.drop_last().take(n) =~= tokens.take(n));
        assert(tokens.drop_last().skip(n) =~= tokens.skip(n).drop_last());
        assert(tokens.skip(n).last() == tokens.last());
    } else {
        assert(tokens.take(n) =~= tokens);
        assert(tokens.skip(n).len() == 0);
    }
}

proof fn lemma_cost_reversed(tokens: Seq<PatternToken>)
    ensures
        tokens_cost(tokens.reverse()) == tokens_cost(tokens),
    decreases tokens.len(),
{
    if tokens.len() > 0 {
        let back = tokens.reverse();
        lemma_cost_prefix(back, 1);
        assert(back.take(1).drop_last().len() == 0);
        assert(back.take(1).last() == tokens.last());
        assert(back.skip(1) =~= tokens.drop_last().reverse());
        lemma_cost_reversed(tokens.drop_last());
        assert(tokens_cost(back.take(1)) == token_cost(tokens.last())) by {
            reveal_with_fuel(tokens_cost, 2);
        }
    }
}

proof fn lemma_cost_at_least_length(tokens: Seq<PatternToken>)
    ensures
        tokens.len() <= tokens_cost(tokens),
    decreases tokens.len(),
{
    if tokens.len() > 0 {
        lemma_cost_at_least_length(tokens.drop_last());
    }
}

/// An admitted operation has no more tokens than steps.
proof fn lemma_steps_bound_tokens(candidates: int, length: int, tokens: Seq<PatternToken>)
    requires
        candidates >= 1,
        length >= 0,
        steps(candidates, length, tokens) <= MAX_PATTERN_STEPS,
    ensures
        tokens.len() <= MAX_PATTERN_STEPS,
{
    lemma_cost_at_least_length(tokens);
    let cost = saturated(tokens_cost(tokens) as int);
    let width = saturated(length + 1);
    let per_byte = if cost > 1 {
        cost
    } else {
        1
    };
    assert(candidates * width * per_byte >= per_byte) by (nonlinear_arith)
        requires
            candidates >= 1,
            width >= 1,
            per_byte >= 1,
    ;
}

fn reversed_tokens(tokens: Vec<Token>) -> (r: Vec<Token>)
    ensures
        models(r@) == models(tokens@).reverse(),
        r@.len() == tokens@.len(),
{
    let mut rest = tokens;
    let mut result: Vec<Token> = Vec::with_capacity(rest.len());
    while rest.len() > 0
        invariant
            rest@.len() + result@.len() == tokens@.len(),
            rest@ == tokens@.take(rest@.len() as int),
            forall|j: int|
                0 <= j < result@.len() ==> #[trigger] result@[j] == tokens@[tokens@.len() - 1 - j],
        decreases rest@.len(),
    {
        match rest.pop() {
            Some(token) => {
                result.push(token);
            },
            None => {},
        }
        assert(rest@ =~= tokens@.take(rest@.len() as int));
    }
    assert(models(result@) =~= models(tokens@).reverse());
    result
}

fn reversed_bytes(value: &[u8]) -> (r: Vec<u8>)
    ensures
        r@ == value@.reverse(),
{
    let mut result: Vec<u8> = Vec::with_capacity(value.len());
    let mut left: usize = value.len();
    while left > 0
        invariant
            left <= value.len(),
            result@.len() + left == value@.len(),
            forall|j: int|
                0 <= j < result@.len() ==> #[trigger] result@[j] == value@[value@.len() - 1 - j],
        decreases left,
    {
        left = left - 1;
        result.push(value[left]);
    }
    assert(result@ =~= value@.reverse());
    result
}

proof fn lemma_longest_in_range(tokens: Seq<PatternToken>, value: Seq<u8>, to: int)
    ensures
        longest_prefix(tokens, value, to) matches Some(n) ==> 0 <= n <= value.len(),
    decreases to + 1,
{
    if 0 <= to && to <= value.len() {
        lemma_longest_in_range(tokens, value, to - 1);
    }
}

/// Removes the selected match of `pattern` from one end of `value`, which is
/// handed back whole where nothing matches there.
pub fn remove(value: &[u8], pattern: &[u8], edge: Edge, selection: Selection) -> (r: Result<
    Vec<u8>,
    PatternError,
>)
    ensures
        match removed(value@, pattern@, edge, selection) {
            Ok(left) => r matches Ok(bytes) && bytes@ == left,
            Err(error) => r == Err::<Vec<u8>, _>(error),
        },
{
    let tokens = tokenize(pattern);
    let ghost model = models(tokens@);
    match edge {
        Edge::Prefix => match matching_endpoint(value, tokens.as_slice(), selection) {
            Ok(Some(length)) => Ok(slice_to_vec(slice_subrange(value, length, value.len()))),
            Ok(None) => Ok(slice_to_vec(value)),
            Err(error) => Err(error),
        },
        Edge::Suffix => {
            let backwards = reversed_tokens(tokens);
            let input = reversed_bytes(value);
            proof {
                lemma_cost_reversed(model);
                lemma_shortest_reversed(model, value@, 0);
                lemma_longest_reversed(model, value@, value@.len() as int);
            }
            match matching_endpoint(input.as_slice(), backwards.as_slice(), selection) {
                Ok(Some(length)) => {
                    let kept = slice_subrange(value, 0, value.len() - length);
                    assert(kept@ =~= value@.take(value@.len() - length));
                    Ok(slice_to_vec(kept))
                },
                Ok(None) => Ok(slice_to_vec(value)),
                Err(error) => Err(error),
            }
        },
    }
}

/// A byte with its ASCII case changed.
pub open spec fn cased(byte: u8, direction: CaseDirection) -> u8 {
    match direction {
        CaseDirection::Upper => if 97 <= byte <= 122 {
            (byte - 32) as u8
        } else {
            byte
        },
        CaseDirection::Lower => if 65 <= byte <= 90 {
            (byte + 32) as u8
        } else {
            byte
        },
    }
}

fn change_byte(byte: u8, direction: CaseDirection) -> (r: u8)
    ensures
        r == cased(byte, direction),
{
    match direction {
        CaseDirection::Upper => if 97 <= byte && byte <= 122 {
            byte - 32
        } else {
            byte
        },
        CaseDirection::Lower => if 65 <= byte && byte <= 90 {
            byte + 32
        } else {
            byte
        },
    }
}

/// The pattern that a case change applies: `?` where none is given.
pub open spec fn case_pattern(pattern: Seq<u8>) -> Seq<u8> {
    if pattern.len() == 0 {
        seq![QUESTION]
    } else {
        pattern
    }
}

/// `value` with the case changed of those of its bytes that the pattern
/// matches: of all of them, or of the first alone.
pub open spec fn case_changed(
    value: Seq<u8>,
    pattern: Seq<u8>,
    all: bool,
    direction: CaseDirection,
) -> Result<Seq<u8>, PatternError> {
    let tokens = pattern_tokens(case_pattern(pattern));
    let candidates = if all {
        value.len() as int
    } else if value.len() > 0 {
        1
    } else {
        0
    };
    let count = steps(candidates, 1, tokens);
    if count > MAX_PATTERN_STEPS {
        Err(too_complex(count))
    } else {
        Ok(
            Seq::new(
                value.len(),
                |i: int|
                    if (all || i == 0) && pattern_matches(tokens, seq![value[i]]) {
                        cased(value[i], direction)
                    } else {
                        value[i]
                    },
            ),
        )
    }
}

/// Changes the case of the bytes that `pattern` matches.
pub fn transform_matching_bytes(
    value: &[u8],
    pattern: &[u8],
    all: bool,
    direction: CaseDirection,
) -> (r: Result<Vec<u8>, PatternError>)
    ensures
        match case_changed(value@, pattern@, all, direction) {
            Ok(changed) => r matches Ok(bytes) && bytes@ == changed,
            Err(error) => r == Err::<Vec<u8>, _>(error),
        },
{
    let mut whole: Vec<u8> = Vec::new();
    if pattern.len() == 0 {
        whole.push(QUESTION);
        assert(whole@ =~= case_pattern(pattern@));
    } else {
        whole = slice_to_vec(pattern);
    }
    let tokens = tokenize(whole.as_slice());
    let ghost model = models(tokens@);
    let candidates: usize = if all {
        value.len()
    } else if value.len() > 0 {
        1
    } else {
        0
    };
    if let Err(error) = check_steps(candidates, 1, tokens.as_slice()) {
        return Err(error);
    }
    proof {
        if candidates > 0 {
            lemma_steps_bound_tokens(candidates as int, 1, model);
        }
    }
    let ghost wanted = Seq::new(
        value@.len(),
        |i: int|
            if (all || i == 0) && pattern_matches(model, seq![value@[i]]) {
                cased(value@[i], direction)
            } else {
                value@[i]
            },
    );
    let mut result: Vec<u8> = Vec::with_capacity(value.len());
    let mut i: usize = 0;
    while i < value.len()
        invariant
            i <= value.len(),
            model == models(tokens@),
            value@.len() > 0 ==> tokens@.len() < usize::MAX,
            wanted.len() == value@.len(),
            wanted == Seq::new(
                value@.len(),
                |i: int|
                    if (all || i == 0) && pattern_matches(model, seq![value@[i]]) {
                        cased(value@[i], direction)
                    } else {
                        value@[i]
                    },
            ),
            result@ == wanted.take(i as int),
        decreases value.len() - i,
    {
        let byte = value[i];
        let mut changed = byte;
        if all || i == 0 {
            let mut one: Vec<u8> = Vec::new();
            one.push(byte);
            let found = matching_endpoint_unchecked(
                one.as_slice(),
                tokens.as_slice(),
                Selection::Longest,
            );
            proof {
                assert(one@ =~= seq![value@[i as int]]);
                assert(one@.take(1) =~= one@);
                lemma_longest_in_range(model, one@, 0);
                lemma_longest_at_most(model, one@, 0);
            }
            if found == Some(1usize) {
                changed = change_byte(byte, direction);
            }
        }
        result.push(changed);
        assert(wanted.take(i + 1) =~= wanted.take(i as int).push(wanted[i as int]));
        i = i + 1;
    }
    assert(wanted.take(value@.len() as int) =~= wanted);
    Ok(result)
}

proof fn lemma_longest_at_most(tokens: Seq<PatternToken>, value: Seq<u8>, to: int)
    ensures
        longest_prefix(tokens, value, to) matches Some(n) ==> n <= to,
    decreases to + 1,
{
    if 0 <= to && to <= value.len() {
        lemma_longest_at_most(tokens, value, to - 1);
    }
}

fn matching_endpoint(input: &[u8], tokens: &[Token], selection: Selection) -> (r: Result<
    Option<usize>,
    PatternError,
>)
    ensures
        if steps(1, input@.len() as int, models(tokens@)) <= MAX_PATTERN_STEPS {
            match endpoint(models(tokens@), input@, selection) {
                Some(length) => r == Ok::<_, PatternError>(Some(length as usize)) && 0 <= length
                    <= input@.len(),
                None => r == Ok::<Option<usize>, PatternError>(None),
            }
        } else {
            r == Err::<Option<usize>, _>(
                too_complex(steps(1, input@.len() as int, models(tokens@))),
            )
        },
{
    match check_steps(1, input.len(), tokens) {
        Ok(()) => {
            proof {
                lemma_steps_bound_tokens(1, input@.len() as int, models(tokens@));
            }
            Ok(matching_endpoint_unchecked(input, tokens, selection))
        },
        Err(error) => Err(error),
    }
}

} // verus!
