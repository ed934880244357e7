//! What the patterns of parameter expansions match, sign by sign, and what is
//! removed from a value or changed in it.

use crate::config::expression::CaseDirection;
use crate::config::shell_eval;
use crate::config::shell_pattern::{self, Edge, PatternToken, Selection};
use vstd::prelude::*;

verus! {

/// Whether the pattern matches all of the bytes.
pub open spec fn matched(pattern: Seq<u8>, bytes: Seq<u8>) -> bool {
    shell_pattern::pattern_matches(shell_pattern::pattern_tokens(pattern), bytes)
}

/// Whether the byte is none of `*`, `?`, `[` and the backslash.
pub open spec fn plain_byte(byte: u8) -> bool {
    byte != 42 && byte != 63 && byte != 91 && byte != 92
}

/// The tokens of a pattern, each `*` for itself.
spec fn all_tokens(pattern: Seq<u8>) -> Seq<PatternToken>
    decreases pattern.len(),
{
    if pattern.len() == 0 {
        Seq::empty()
    } else if pattern[0] == 92 && pattern.len() > 1 {
        seq![PatternToken::Literal(pattern[1])] + all_tokens(pattern.skip(2))
    } else if pattern[0] == 42 {
        seq![PatternToken::AnyBytes] + all_tokens(pattern.skip(1))
    } else if pattern[0] == 63 {
        seq![PatternToken::AnyByte] + all_tokens(pattern.skip(1))
    } else if pattern[0] == 91 {
        match shell_pattern::class_token(pattern, 1) {
            Some((token, next)) => if 0 < next <= pattern.len() {
                seq![token] + all_tokens(pattern.skip(next))
            } else {
                Seq::empty()
            },
            None => seq![PatternToken::Literal(91)] + all_tokens(pattern.skip(1)),
        }
    } else {
        seq![PatternToken::Literal(pattern[0])] + all_tokens(pattern.skip(1))
    }
}

proof fn lemma_class_bytes(pattern: Seq<u8>, k: int, index: int, found: Seq<(u8, bool)>)
    requires
        0 <= k <= pattern.len(),
        0 <= index,
    ensures
        shell_pattern::class_bytes(pattern, k + index, found).0 == shell_pattern::class_bytes(
            pattern.skip(k),
            index,
            found,
        ).0,
        shell_pattern::class_bytes(pattern, k + index, found).1 == k + shell_pattern::class_bytes(
            pattern.skip(k),
            index,
            found,
        ).1,
        shell_pattern::class_bytes(pattern, k + index, found).1 >= k + index,
    decreases pattern.len() - k - index,
{
    let tail = pattern.skip(k);
    if k + index < pattern.len() {
        assert(tail[index] == pattern[k + index]);
        if tail[index] != 93 {
            if tail[index] == 92 && index + 1 < tail.len() {
                assert(tail[index + 1] == pattern[k + index + 1]);
                lemma_class_bytes(pattern, k, index + 2, found.push((tail[index + 1], true)));
            } else {
                lemma_class_bytes(pattern, k, index + 1, found.push((tail[index], false)));
            }
        }
    }
}

proof fn lemma_class_token(pattern: Seq<u8>, k: int)
    requires
        0 <= k < pattern.len(),
    ensures
        ({
            let here = shell_pattern::class_token(pattern, k + 1);
            let there = shell_pattern::class_token(pattern.skip(k), 1);
            &&& here is Some <==> there is Some
            &&& here is Some ==> here->Some_0.0 == there->Some_0.0 && here->Some_0.1 == k
                + there->Some_0.1 && k + 1 < here->Some_0.1 <= pattern.len()
                && here->Some_0.0 is Class
        }),
{
    let tail = pattern.skip(k);
    if k + 1 < pattern.len() {
        assert(tail[1] == pattern[k + 1]);
    }
    if k + 2 < pattern.len() {
        assert(tail[2] == pattern[k + 2]);
    }
    lemma_class_bytes(pattern, k, 1, Seq::empty());
    lemma_class_bytes(pattern, k, 2, Seq::empty());
    lemma_class_bytes(pattern, k, 2, seq![(93u8, false)]);
    lemma_class_bytes(pattern, k, 3, seq![(93u8, false)]);
}

/// A second `*` behind a `*` matches no more.
proof fn lemma_stars(before: Seq<PatternToken>, after: Seq<PatternToken>, bytes: Seq<u8>)
    requires
        before.len() > 0,
        before.last() is AnyBytes,
    ensures
        shell_pattern::pattern_matches(before + after, bytes) == shell_pattern::pattern_matches(
            before.push(PatternToken::AnyBytes) + after,
            bytes,
        ),
{
    let one = before + after;
    let two = before.push(PatternToken::AnyBytes) + after;
    let n = before.len() as int;
    if shell_pattern::pattern_matches(one, bytes) {
        let cuts = choose|cuts: Seq<int>| shell_pattern::divides(one, bytes, cuts);
        let more = cuts.take(n + 1) + cuts.skip(n);
        assert forall|i: int| 0 <= i < two.len() implies #[trigger] shell_pattern::takes_share(
            two,
            bytes,
            more,
            i,
        ) by {
            if i < n {
                assert(shell_pattern::takes_share(one, bytes, cuts, i));
            } else if i == n {
                assert(shell_pattern::takes_share(one, bytes, cuts, n - 1));
            } else {
                assert(shell_pattern::takes_share(one, bytes, cuts, i - 1));
            }
        }
        assert(shell_pattern::divides(two, bytes, more));
    }
    if shell_pattern::pattern_matches(two, bytes) {
        let cuts = choose|cuts: Seq<int>| shell_pattern::divides(two, bytes, cuts);
        let fewer = cuts.take(n) + cuts.skip(n + 1);
        assert forall|i: int| 0 <= i < one.len() implies #[trigger] shell_pattern::takes_share(
            one,
            bytes,
            fewer,
            i,
        ) by {
            if i < n - 1 {
                assert(shell_pattern::takes_share(two, bytes, cuts, i));
            } else if i == n - 1 {
                assert(shell_pattern::takes_share(two, bytes, cuts, n - 1));
                assert(shell_pattern::takes_share(two, bytes, cuts, n));
            } else {
                assert(shell_pattern::takes_share(two, bytes, cuts, i + 1));
            }
        }
        assert(shell_pattern::divides(one, bytes, fewer));
    }
}

proof fn lemma_all_tokens(
    pattern: Seq<u8>,
    index: int,
    found: Seq<PatternToken>,
    bytes: Seq<u8>,
)
    requires
        0 <= index <= pattern.len(),
    ensures
        shell_pattern::pattern_matches(
            shell_pattern::tokens_from(pattern, index, found),
            bytes,
        ) == shell_pattern::pattern_matches(found + all_tokens(pattern.skip(index)), bytes),
    decreases pattern.len() - index,
{
    let tail = pattern.skip(index);
    if index == pattern.len() {
        assert(found + all_tokens(tail) =~= found);
    } else {
        assert(tail[0] == pattern[index]);
        if pattern[index] == 92 && index + 1 < pattern.len() {
            assert(tail[1] == pattern[index + 1]);
            let token = PatternToken::Literal(pattern[index + 1]);
            assert(tail.skip(2) =~= pattern.skip(index + 2));
            assert(found + all_tokens(tail) =~= found.push(token) + all_tokens(
                pattern.skip(index + 2),
            ));
            lemma_all_tokens(pattern, index + 2, found.push(token), bytes);
        } else if pattern[index] == 91 && shell_pattern::class_token(pattern, index + 1) is Some {
            lemma_class_token(pattern, index);
            let (token, next) = shell_pattern::class_token(pattern, index + 1)->Some_0;
            assert(tail.skip(next - index) =~= pattern.skip(next));
            assert(found + all_tokens(tail) =~= found.push(token) + all_tokens(
                pattern.skip(next),
            ));
            lemma_all_tokens(pattern, next, found.push(token), bytes);
        } else {
            if pattern[index] == 91 {
                lemma_class_token(pattern, index);
            }
            let token = if pattern[index] == 42 {
                PatternToken::AnyBytes
            } else if pattern[index] == 63 {
                PatternToken::AnyByte
            } else {
                PatternToken::Literal(pattern[index])
            };
            assert(tail.skip(1) =~= pattern.skip(index + 1));
            let rest = all_tokens(pattern.skip(index + 1));
            assert(found + all_tokens(tail) =~= found.push(token) + rest);
            if token is AnyBytes && found.len() > 0 && found.last() is AnyBytes {
                lemma_all_tokens(pattern, index + 1, found, bytes);
                lemma_stars(found, rest, bytes);
            } else {
                lemma_all_tokens(pattern, index + 1, found.push(token), bytes);
            }
        }
    }
}

proof fn lemma_matched(pattern: Seq<u8>, bytes: Seq<u8>)
    ensures
        matched(pattern, bytes) == shell_pattern::pattern_matches(all_tokens(pattern), bytes),
{
    lemma_all_tokens(pattern, 0, Seq::empty(), bytes);
    assert(pattern.skip(0) =~= pattern);
    assert(Seq::<PatternToken>::empty() + all_tokens(pattern) =~= all_tokens(pattern));
}

proof fn lemma_first_token(token: PatternToken, rest: Seq<PatternToken>, bytes: Seq<u8>)
    requires
        token !is AnyBytes,
    ensures
        shell_pattern::pattern_matches(seq![token] + rest, bytes) == (bytes.len() > 0
            && shell_pattern::token_takes(token, bytes[0]) && shell_pattern::pattern_matches(
            rest,
            bytes.skip(1),
        )),
{
    let tokens = seq![token] + rest;
    let tail = bytes.skip(1);
    if shell_pattern::pattern_matches(tokens, bytes) {
        let cuts = choose|cuts: Seq<int>| shell_pattern::divides(tokens, bytes, cuts);
        assert(shell_pattern::takes_share(tokens, bytes, cuts, 0));
        let later = Seq::new(rest.len() + 1, |i: int| cuts[i + 1] - 1);
        assert forall|i: int| 0 <= i < rest.len() implies #[trigger] shell_pattern::takes_share(
            rest,
            tail,
            later,
            i,
        ) by {
            assert(shell_pattern::takes_share(tokens, bytes, cuts, i + 1));
            lemma_cuts_from(tokens, bytes, cuts, i + 1);
        }
        assert(shell_pattern::divides(rest, tail, later));
    }
    if bytes.len() > 0 && shell_pattern::token_takes(token, bytes[0])
        && shell_pattern::pattern_matches(rest, tail) {
        let later = choose|cuts: Seq<int>| shell_pattern::divides(rest, tail, cuts);
        let cuts = seq![0int] + Seq::new(later.len(), |i: int| later[i] + 1);
        assert forall|i: int| 0 <= i < tokens.len() implies #[trigger] shell_pattern::takes_share(
            tokens,
            bytes,
            cuts,
            i,
        ) by {
            if i > 0 {
                assert(shell_pattern::takes_share(rest, tail, later, i - 1));
            }
        }
        assert(shell_pattern::divides(tokens, bytes, cuts));
    }
}

proof fn lemma_cuts_from(tokens: Seq<PatternToken>, bytes: Seq<u8>, cuts: Seq<int>, i: int)
    requires
        shell_pattern::divides(tokens, bytes, cuts),
        1 <= i <= tokens.len(),
    ensures
        cuts[i] >= cuts[1],
    decreases i,
{
    if i > 1 {
        lemma_cuts_from(tokens, bytes, cuts, i - 1);
        assert(shell_pattern::takes_share(tokens, bytes, cuts, i - 1));
    }
}

proof fn lemma_first_star(rest: Seq<PatternToken>, bytes: Seq<u8>)
    ensures
        shell_pattern::pattern_matches(seq![PatternToken::AnyBytes] + rest, bytes) <==> exists|
            n: int,
        |
            0 <= n <= bytes.len() && shell_pattern::pattern_matches(rest, #[trigger] bytes.skip(n)),
{
    let tokens = seq![PatternToken::AnyBytes] + rest;
    if shell_pattern::pattern_matches(tokens, bytes) {
        let cuts = choose|cuts: Seq<int>| shell_pattern::divides(tokens, bytes, cuts);
        assert(shell_pattern::takes_share(tokens, bytes, cuts, 0));
        let n = cuts[1];
        let tail = bytes.skip(n);
        let later = Seq::new(rest.len() + 1, |i: int| cuts[i + 1] - n);
        assert forall|i: int| 0 <= i < rest.len() implies #[trigger] shell_pattern::takes_share(
            rest,
            tail,
            later,
            i,
        ) by {
            assert(shell_pattern::takes_share(tokens, bytes, cuts, i + 1));
            lemma_cuts_from(tokens, bytes, cuts, i + 1);
        }
        assert(shell_pattern::divides(rest, tail, later));
    }
    if exists|n: int|
        0 <= n <= bytes.len() && shell_pattern::pattern_matches(rest, #[trigger] bytes.skip(n)) {
        let n = choose|n: int|
            0 <= n <= bytes.len() && shell_pattern::pattern_matches(rest, #[trigger] bytes.skip(n));
        let tail = bytes.skip(n);
        let later = choose|cuts: Seq<int>| shell_pattern::divides(rest, tail, cuts);
        let cuts = seq![0int] + Seq::new(later.len(), |i: int| later[i] + n);
        assert forall|i: int| 0 <= i < tokens.len() implies #[trigger] shell_pattern::takes_share(
            tokens,
            bytes,
            cuts,
            i,
        ) by {
            if i > 0 {
                assert(shell_pattern::takes_share(rest, tail, later, i - 1));
            }
        }
        assert(shell_pattern::divides(tokens, bytes, cuts));
    }
}

/// How a pattern is read from its first byte on, for any bytes. An empty
/// pattern matches nothing but the empty value; a backslash takes the meaning
/// from the byte behind it; `?` matches any byte and `*` any number of bytes;
/// every other byte but `[` matches itself.
pub proof fn patterns_are_read_sign_by_sign(byte: u8, rest: Seq<u8>, bytes: Seq<u8>)
    ensures
        matched(Seq::empty(), bytes) <==> bytes.len() == 0,
        plain_byte(byte) ==> (matched(seq![byte] + rest, bytes) <==> bytes.len() > 0 && bytes[0]
            == byte && matched(rest, bytes.skip(1))),
        matched(seq![92u8, byte] + rest, bytes) <==> bytes.len() > 0 && bytes[0] == byte
            && matched(rest, bytes.skip(1)),
        matched(seq![63u8] + rest, bytes) <==> bytes.len() > 0 && matched(rest, bytes.skip(1)),
        matched(seq![42u8] + rest, bytes) <==> exists|n: int|
            0 <= n <= bytes.len() && matched(rest, #[trigger] bytes.skip(n)),
        matched(seq![92u8], bytes) <==> bytes == seq![92u8],
        matched(seq![91u8], bytes) <==> bytes == seq![91u8],
{
    let empty = Seq::<u8>::empty();
    lemma_matched(empty, bytes);
    assert forall|bytes: Seq<u8>| #[trigger]
        shell_pattern::pattern_matches(Seq::empty(), bytes) <==> bytes.len() == 0 by {
        if bytes.len() == 0 {
            assert(shell_pattern::divides(Seq::empty(), bytes, seq![0int]));
        }
    }
    let tokens = all_tokens(rest);
    lemma_matched(seq![byte] + rest, bytes);
    lemma_matched(rest, bytes.skip(1));
    assert((seq![byte] + rest).skip(1) =~= rest);
    lemma_first_token(PatternToken::Literal(byte), tokens, bytes);
    lemma_matched(seq![92u8, byte] + rest, bytes);
    assert((seq![92u8, byte] + rest).skip(2) =~= rest);
    lemma_matched(seq![63u8] + rest, bytes);
    assert((seq![63u8] + rest).skip(1) =~= rest);
    lemma_first_token(PatternToken::AnyByte, tokens, bytes);
    lemma_matched(seq![42u8] + rest, bytes);
    assert((seq![42u8] + rest).skip(1) =~= rest);
    lemma_first_star(tokens, bytes);
    assert forall|n: int| 0 <= n <= bytes.len() implies matched(rest, #[trigger] bytes.skip(n))
        == shell_pattern::pattern_matches(tokens, bytes.skip(n)) by {
        lemma_matched(rest, bytes.skip(n));
    }
    lemma_matched(seq![92u8], bytes);
    lemma_matched(seq![91u8], bytes);
    assert(seq![92u8].skip(1) =~= empty);
    assert(seq![91u8].skip(1) =~= empty);
    lemma_first_token(PatternToken::Literal(92), Seq::empty(), bytes);
    lemma_first_token(PatternToken::Literal(91), Seq::empty(), bytes);
    assert(shell_pattern::class_token(seq![91u8], 1) is None);
    assert(bytes.len() == 1 && bytes[0] == 92 ==> bytes =~= seq![92u8]);
    assert(bytes.len() == 1 && bytes[0] == 91 ==> bytes =~= seq![91u8]);
    assert(all_tokens(empty) =~= Seq::empty());
}

/// What one read of a class adds to the bytes found.
proof fn lemma_listed(pattern: Seq<u8>, index: int, found: Seq<(u8, bool)>, end: int)
    requires
        0 <= index <= end < pattern.len(),
        pattern[end] == 93,
        forall|i: int|
            index <= i < end ==> (#[trigger] pattern[i]) != 93 && pattern[i] != 92,
    ensures
        shell_pattern::class_bytes(pattern, index, found).1 == end,
        shell_pattern::class_bytes(pattern, index, found).0 == found + Seq::new(
            (end - index) as nat,
            |i: int| (pattern[index + i], false),
        ),
    decreases end - index,
{
    let listed = Seq::new((end - index) as nat, |i: int| (pattern[index + i], false));
    if index < end {
        let more = found.push((pattern[index], false));
        lemma_listed(pattern, index + 1, more, end);
        assert(more + Seq::new((end - index - 1) as nat, |i: int| (pattern[index + 1 + i], false))
            =~= found + listed);
    } else {
        assert(found + listed =~= found);
    }
}

proof fn lemma_single_ranges(bytes: Seq<(u8, bool)>, item: int, found: Seq<(u8, u8)>)
    requires
        0 <= item <= bytes.len(),
        forall|i: int| 0 <= i < bytes.len() ==> (#[trigger] bytes[i]) != (45u8, false),
    ensures
        shell_pattern::class_ranges(bytes, item, found) == found + Seq::new(
            (bytes.len() - item) as nat,
            |i: int| (bytes[item + i].0, bytes[item + i].0),
        ),
    decreases bytes.len() - item,
{
    let single = Seq::new(
        (bytes.len() - item) as nat,
        |i: int| (bytes[item + i].0, bytes[item + i].0),
    );
    if item < bytes.len() {
        let more = found.push((bytes[item].0, bytes[item].0));
        lemma_single_ranges(bytes, item + 1, more);
        assert(more + Seq::new(
            (bytes.len() - item - 1) as nat,
            |i: int| (bytes[item + 1 + i].0, bytes[item + 1 + i].0),
        ) =~= found + single);
    } else {
        assert(found + single =~= found);
    }
}

/// A class lists bytes. `[abc]` matches a byte that stands in it; `[!abc]` and
/// `[^abc]` match a byte that does not.
pub proof fn classes_list_bytes(listed: Seq<u8>, rest: Seq<u8>, bytes: Seq<u8>)
    requires
        listed.len() > 0,
        listed[0] != 33 && listed[0] != 94,
        forall|i: int|
            0 <= i < listed.len() ==> (#[trigger] listed[i]) != 93 && listed[i] != 92 && listed[i]
                != 45,
    ensures
        matched(seq![91u8] + listed + seq![93u8] + rest, bytes) <==> bytes.len() > 0
            && listed.contains(bytes[0]) && matched(rest, bytes.skip(1)),
        matched(seq![91u8, 33u8] + listed + seq![93u8] + rest, bytes) <==> bytes.len() > 0
            && !listed.contains(bytes[0]) && matched(rest, bytes.skip(1)),
        matched(seq![91u8, 94u8] + listed + seq![93u8] + rest, bytes) <==> bytes.len() > 0
            && !listed.contains(bytes[0]) && matched(rest, bytes.skip(1)),
{
    lemma_class(seq![91u8], listed, rest, bytes);
    lemma_class(seq![91u8, 33u8], listed, rest, bytes);
    lemma_class(seq![91u8, 94u8], listed, rest, bytes);
}

proof fn lemma_class(opening: Seq<u8>, listed: Seq<u8>, rest: Seq<u8>, bytes: Seq<u8>)
    requires
        opening == seq![91u8] || opening == seq![91u8, 33u8] || opening == seq![91u8, 94u8],
        listed.len() > 0,
        listed[0] != 33 && listed[0] != 94,
        forall|i: int|
            0 <= i < listed.len() ==> (#[trigger] listed[i]) != 93 && listed[i] != 92 && listed[i]
                != 45,
    ensures
        matched(opening + listed + seq![93u8] + rest, bytes) <==> bytes.len() > 0 && (
        opening.len() > 1) != listed.contains(bytes[0]) && matched(rest, bytes.skip(1)),
{
    let pattern = opening + listed + seq![93u8] + rest;
    let start = opening.len() as int;
    let end = start + listed.len();
    assert(pattern[0] == 91);
    assert(pattern[start] == listed[0]);
    assert(pattern[end] == 93);
    assert forall|i: int| start <= i < end implies (#[trigger] pattern[i]) != 93 && pattern[i]
        != 92 by {
        assert(pattern[i] == listed[i - start]);
    }
    lemma_listed(pattern, start, Seq::empty(), end);
    let found = shell_pattern::class_bytes(pattern, start, Seq::empty()).0;
    assert forall|i: int| 0 <= i < found.len() implies (#[trigger] found[i]) != (45u8, false) by {
        assert(found[i].0 == listed[i]);
    }
    lemma_single_ranges(found, 0, Seq::empty());
    let ranges = shell_pattern::class_ranges(found, 0, Seq::empty());
    let token = PatternToken::Class { negated: opening.len() > 1, ranges };
    if opening.len() > 1 {
        assert(pattern[1] == opening[1]);
    }
    assert(shell_pattern::class_token(pattern, 1) == Some((token, end + 1)));
    assert(pattern.skip(end + 1) =~= rest);
    assert(all_tokens(pattern) == seq![token] + all_tokens(rest));
    lemma_matched(pattern, bytes);
    lemma_matched(rest, bytes.skip(1));
    lemma_first_token(token, all_tokens(rest), bytes);
    if bytes.len() > 0 {
        if listed.contains(bytes[0]) {
            let j = choose|j: int| 0 <= j < listed.len() && listed[j] == bytes[0];
            assert(pattern[start + j] == listed[j]);
            assert(shell_pattern::in_range(ranges[j], bytes[0]));
        }
        if shell_pattern::in_some_range(ranges, bytes[0]) {
            let j = choose|j: int|
                0 <= j < ranges.len() && shell_pattern::in_range(#[trigger] ranges[j], bytes[0]);
            assert(pattern[start + j] == listed[j]);
            assert(listed[j] == bytes[0]);
        }
    }
}

/// A class of a range, `[a-z]`, matches the bytes from its first to its last
/// one; with `!` or `^` in front, the others.
pub proof fn classes_hold_ranges(first: u8, last: u8, rest: Seq<u8>, bytes: Seq<u8>)
    requires
        first != 33 && first != 94 && first != 93 && first != 92,
        last != 93 && last != 92,
    ensures
        matched(seq![91u8, first, 45u8, last, 93u8] + rest, bytes) <==> bytes.len() > 0 && first
            <= bytes[0] <= last && matched(rest, bytes.skip(1)),
        matched(seq![91u8, 33u8, first, 45u8, last, 93u8] + rest, bytes) <==> bytes.len() > 0 && !(
        first <= bytes[0] <= last) && matched(rest, bytes.skip(1)),
        matched(seq![91u8, 94u8, first, 45u8, last, 93u8] + rest, bytes) <==> bytes.len() > 0 && !(
        first <= bytes[0] <= last) && matched(rest, bytes.skip(1)),
{
    lemma_range(seq![91u8], first, last, rest, bytes);
    lemma_range(seq![91u8, 33u8], first, last, rest, bytes);
    lemma_range(seq![91u8, 94u8], first, last, rest, bytes);
    let class = seq![first, 45u8, last, 93u8];
    assert(seq![91u8] + class =~= seq![91u8, first, 45u8, last, 93u8]);
    assert(seq![91u8, 33u8] + class =~= seq![91u8, 33u8, first, 45u8, last, 93u8]);
    assert(seq![91u8, 94u8] + class =~= seq![91u8, 94u8, first, 45u8, last, 93u8]);
}

proof fn lemma_range(opening: Seq<u8>, first: u8, last: u8, rest: Seq<u8>, bytes: Seq<u8>)
    requires
        opening == seq![91u8] || opening == seq![91u8, 33u8] || opening == seq![91u8, 94u8],
        first != 33 && first != 94 && first != 93 && first != 92,
        last != 93 && last != 92,
    ensures
        matched(opening + seq![first, 45u8, last, 93u8] + rest, bytes) <==> bytes.len() > 0 && (
        opening.len() > 1) != (first <= bytes[0] <= last) && matched(rest, bytes.skip(1)),
{
    let pattern = opening + seq![first, 45u8, last, 93u8] + rest;
    let start = opening.len() as int;
    let end = start + 3;
    assert(pattern[0] == 91);
    assert(pattern[start] == first);
    assert(pattern[start + 1] == 45);
    assert(pattern[start + 2] == last);
    assert(pattern[end] == 93);
    lemma_listed(pattern, start, Seq::empty(), end);
    let found = shell_pattern::class_bytes(pattern, start, Seq::empty()).0;
    assert(found.len() == 3 && found[0] == (first, false) && found[1] == (45u8, false) && found[2]
        == (last, false));
    reveal_with_fuel(shell_pattern::class_ranges, 2);
    let ranges = shell_pattern::class_ranges(found, 0, Seq::empty());
    assert(ranges =~= seq![(first, last)]);
    let token = PatternToken::Class { negated: opening.len() > 1, ranges };
    if opening.len() > 1 {
        assert(pattern[1] == opening[1]);
    }
    assert(shell_pattern::class_token(pattern, 1) == Some((token, end + 1)));
    assert(pattern.skip(end + 1) =~= rest);
    assert(all_tokens(pattern) == seq![token] + all_tokens(rest));
    lemma_matched(pattern, bytes);
    lemma_matched(rest, bytes.skip(1));
    lemma_first_token(token, all_tokens(rest), bytes);
    if bytes.len() > 0 {
        assert(shell_pattern::in_range(ranges[0], bytes[0]) == (first <= bytes[0] <= last));
        assert(shell_pattern::in_some_range(ranges, bytes[0]) == (first <= bytes[0] <= last));
    }
}

proof fn lemma_unclosed(pattern: Seq<u8>, index: int, found: Seq<(u8, bool)>)
    requires
        0 <= index,
        forall|i: int| index <= i < pattern.len() ==> (#[trigger] pattern[i]) != 93,
    ensures
        shell_pattern::class_bytes(pattern, index, found).1 >= pattern.len(),
    decreases pattern.len() - index,
{
    if index < pattern.len() {
        if pattern[index] == 92 && index + 1 < pattern.len() {
            lemma_unclosed(pattern, index + 2, found.push((pattern[index + 1], true)));
        } else {
            lemma_unclosed(pattern, index + 1, found.push((pattern[index], false)));
        }
    }
}

/// A `[` that no `]` closes matches itself.
pub proof fn open_brackets_match_themselves(rest: Seq<u8>, bytes: Seq<u8>)
    requires
        !rest.contains(93),
    ensures
        matched(seq![91u8] + rest, bytes) <==> bytes.len() > 0 && bytes[0] == 91 && matched(
            rest,
            bytes.skip(1),
        ),
{
    let pattern = seq![91u8] + rest;
    assert forall|i: int| 1 <= i < pattern.len() implies (#[trigger] pattern[i]) != 93 by {
        assert(pattern[i] == rest[i - 1]);
    }
    lemma_unclosed(pattern, 1, Seq::empty());
    lemma_unclosed(pattern, 2, Seq::empty());
    assert(shell_pattern::class_token(pattern, 1) is None);
    assert(pattern.skip(1) =~= rest);
    lemma_matched(pattern, bytes);
    lemma_matched(rest, bytes.skip(1));
    lemma_first_token(PatternToken::Literal(91), all_tokens(rest), bytes);
}

proof fn lemma_shortest_prefix(tokens: Seq<PatternToken>, value: Seq<u8>, from: int, m: int)
    requires
        0 <= from,
    ensures
        ({
            let found = shell_pattern::shortest_prefix(tokens, value, from);
            let fits = from <= m <= value.len() && shell_pattern::pattern_matches(
                tokens,
                value.take(m),
            );
            &&& found is None ==> !fits
            &&& found is Some ==> from <= found->Some_0 <= value.len()
                && shell_pattern::pattern_matches(tokens, value.take(found->Some_0)) && (fits
                ==> found->Some_0 <= m)
        }),
    decreases value.len() + 1 - from,
{
    if from <= value.len() {
        lemma_shortest_prefix(tokens, value, from + 1, m);
    }
}

proof fn lemma_longest_prefix(tokens: Seq<PatternToken>, value: Seq<u8>, to: int, m: int)
    requires
        to <= value.len(),
    ensures
        ({
            let found = shell_pattern::longest_prefix(tokens, value, to);
            let fits = 0 <= m <= to && shell_pattern::pattern_matches(tokens, value.take(m));
            &&& found is None ==> !fits
            &&& found is Some ==> 0 <= found->Some_0 <= to && shell_pattern::pattern_matches(
                tokens,
                value.take(found->Some_0),
            ) && (fits ==> m <= found->Some_0)
        }),
    decreases to + 1,
{
    if to >= 0 {
        lemma_longest_prefix(tokens, value, to - 1, m);
    }
}

proof fn lemma_shortest_suffix(tokens: Seq<PatternToken>, value: Seq<u8>, from: int, m: int)
    requires
        0 <= from,
    ensures
        ({
            let found = shell_pattern::shortest_suffix(tokens, value, from);
            let fits = from <= m <= value.len() && shell_pattern::pattern_matches(
                tokens,
                value.skip(value.len() - m),
            );
            &&& found is None ==> !fits
            &&& found is Some ==> from <= found->Some_0 <= value.len()
                && shell_pattern::pattern_matches(
                tokens,
                value.skip(value.len() - found->Some_0),
            ) && (fits ==> found->Some_0 <= m)
        }),
    decreases value.len() + 1 - from,
{
    if from <= value.len() {
        lemma_shortest_suffix(tokens, value, from + 1, m);
    }
}

proof fn lemma_longest_suffix(tokens: Seq<PatternToken>, value: Seq<u8>, to: int, m: int)
    requires
        to <= value.len(),
    ensures
        ({
            let found = shell_pattern::longest_suffix(tokens, value, to);
            let fits = 0 <= m <= to && shell_pattern::pattern_matches(
                tokens,
                value.skip(value.len() - m),
            );
            &&& found is None ==> !fits
            &&& found is Some ==> 0 <= found->Some_0 <= to && shell_pattern::pattern_matches(
                tokens,
                value.skip(value.len() - found->Some_0),
            ) && (fits ==> m <= found->Some_0)
        }),
    decreases to + 1,
{
    if to >= 0 {
        lemma_longest_suffix(tokens, value, to - 1, m);
    }
}

/// What `#` and `##` leave of a value. Where no beginning of the value matches
/// the pattern, that is the value. Else it is what stands behind a beginning
/// that matches: the shortest one for `#`, the longest for `##`. `m` is any
/// other length.
pub proof fn prefixes_are_removed(value: Seq<u8>, pattern: Seq<u8>, m: int)
    requires
        0 <= m <= value.len(),
    ensures
        ({
            let short = shell_pattern::removed(value, pattern, Edge::Prefix, Selection::Shortest);
            let long = shell_pattern::removed(value, pattern, Edge::Prefix, Selection::Longest);
            &&& short is Ok <==> long is Ok
            &&& short is Ok ==> {
                ||| short->Ok_0 == value && long->Ok_0 == value && !matched(pattern, value.take(m))
                ||| exists|n: int, k: int|
                    0 <= n <= k <= value.len() && short->Ok_0 == #[trigger] value.skip(n)
                        && long->Ok_0 == #[trigger] value.skip(k) && matched(pattern, value.take(n))
                        && matched(pattern, value.take(k)) && (matched(pattern, value.take(m)) ==> n
                        <= m <= k)
            }
        }),
{
    let tokens = shell_pattern::pattern_tokens(pattern);
    lemma_shortest_prefix(tokens, value, 0, m);
    lemma_longest_prefix(tokens, value, value.len() as int, m);
    let short = shell_pattern::prefix_length(tokens, value, Selection::Shortest);
    let long = shell_pattern::prefix_length(tokens, value, Selection::Longest);
    if short is Some {
        lemma_longest_prefix(tokens, value, value.len() as int, short->Some_0);
        assert(value.skip(short->Some_0) == value.skip(short->Some_0));
        assert(value.skip(long->Some_0) == value.skip(long->Some_0));
    } else if long is Some {
        lemma_shortest_prefix(tokens, value, 0, long->Some_0);
    }
}

/// What `%` and `%%` leave of a value. Where no end of the value matches the
/// pattern, that is the value. Else it is what stands before an end that
/// matches: the shortest one for `%`, the longest for `%%`. `m` is the length
/// of any other end.
pub proof fn suffixes_are_removed(value: Seq<u8>, pattern: Seq<u8>, m: int)
    requires
        0 <= m <= value.len(),
    ensures
        ({
            let end = |n: int| value.skip(value.len() - n);
            let short = shell_pattern::removed(value, pattern, Edge::Suffix, Selection::Shortest);
            let long = shell_pattern::removed(value, pattern, Edge::Suffix, Selection::Longest);
            &&& short is Ok <==> long is Ok
            &&& short is Ok ==> {
                ||| short->Ok_0 == value && long->Ok_0 == value && !matched(pattern, end(m))
                ||| exists|n: int, k: int|
                    0 <= n <= k <= value.len() && short->Ok_0 == #[trigger] value.take(
                        value.len() - n,
                    ) && long->Ok_0 == #[trigger] value.take(value.len() - k) && matched(
                        pattern,
                        end(n),
                    ) && matched(pattern, end(k)) && (matched(pattern, end(m)) ==> n <= m <= k)
            }
        }),
{
    let tokens = shell_pattern::pattern_tokens(pattern);
    lemma_shortest_suffix(tokens, value, 0, m);
    lemma_longest_suffix(tokens, value, value.len() as int, m);
    let short = shell_pattern::suffix_length(tokens, value, Selection::Shortest);
    let long = shell_pattern::suffix_length(tokens, value, Selection::Longest);
    if short is Some {
        lemma_longest_suffix(tokens, value, value.len() as int, short->Some_0);
        let n = short->Some_0;
        let k = long->Some_0;
        assert(value.take(value.len() - n) == value.take(value.len() - n));
        assert(value.take(value.len() - k) == value.take(value.len() - k));
    } else if long is Some {
        lemma_shortest_suffix(tokens, value, 0, long->Some_0);
    }
}

/// `^^` and `,,` change every byte that the pattern matches, `^` and `,` the
/// first byte alone; with no pattern, `?` is meant. A change to upper case
/// takes `a` to `A` and so on to `z`, one to lower case goes back, and neither
/// touches another byte.
pub proof fn cases_are_changed(
    value: Seq<u8>,
    pattern: Seq<u8>,
    all: bool,
    direction: CaseDirection,
    i: int,
)
    requires
        0 <= i < value.len(),
        shell_pattern::case_changed(value, pattern, all, direction) is Ok,
    ensures
        ({
            let changed = shell_pattern::case_changed(value, pattern, all, direction)->Ok_0;
            let byte = value[i];
            let chosen = (all || i == 0) && (pattern.len() == 0 || matched(pattern, seq![byte]));
            let letter = match direction {
                CaseDirection::Upper => 97 <= byte <= 122,
                CaseDirection::Lower => 65 <= byte <= 90,
            };
            &&& changed.len() == value.len()
            &&& chosen && letter && direction == CaseDirection::Upper ==> changed[i] + 32 == byte
            &&& chosen && letter && direction == CaseDirection::Lower ==> changed[i] == byte + 32
            &&& !chosen || !letter ==> changed[i] == byte
        }),
{
    if pattern.len() == 0 {
        let one = seq![value[i]];
        patterns_are_read_sign_by_sign(0, Seq::empty(), one);
        assert(one.skip(1) =~= Seq::<u8>::empty());
        patterns_are_read_sign_by_sign(0, Seq::empty(), one.skip(1));
        assert(seq![63u8] + Seq::<u8>::empty() =~= seq![63u8]);
        assert(matched(seq![63u8], one));
    }
}

/// The bytes with a backslash before each `*`, `?`, `[` and backslash.
spec fn quoted(bytes: Seq<u8>, i: int) -> Seq<u8>
    decreases bytes.len() - i,
{
    if i < 0 || i >= bytes.len() {
        Seq::empty()
    } else if plain_byte(bytes[i]) {
        seq![bytes[i]] + quoted(bytes, i + 1)
    } else {
        seq![92u8, bytes[i]] + quoted(bytes, i + 1)
    }
}

proof fn lemma_quoted(output: Seq<u8>, limit: usize, bytes: Seq<u8>, i: int)
    requires
        0 <= i <= bytes.len(),
        output.len() <= limit,
    ensures
        ({
            let result = shell_eval::quoted_from(output, limit, bytes, i);
            let whole = output + quoted(bytes, i);
            &&& result is Ok <==> whole.len() <= limit
            &&& result is Ok ==> result->Ok_0 == whole
        }),
    decreases bytes.len() - i,
{
    if i < bytes.len() {
        let byte = bytes[i];
        let rest = quoted(bytes, i + 1);
        if plain_byte(byte) {
            assert(output + quoted(bytes, i) =~= output + seq![byte] + rest);
            if output.len() + 1 <= limit {
                lemma_quoted(output + seq![byte], limit, bytes, i + 1);
            }
        } else {
            let before = output + seq![92u8];
            assert(output + quoted(bytes, i) =~= before + seq![byte] + rest);
            if output.len() + 2 <= limit {
                lemma_quoted(before + seq![byte], limit, bytes, i + 1);
            }
        }
    } else {
        assert(output + quoted(bytes, i) =~= output);
    }
}

proof fn lemma_quoted_matches(bytes: Seq<u8>, i: int, other: Seq<u8>)
    requires
        0 <= i <= bytes.len(),
    ensures
        matched(quoted(bytes, i), other) <==> other == bytes.skip(i),
    decreases bytes.len() - i,
{
    let rest = quoted(bytes, i + 1);
    let tail = bytes.skip(i);
    if i < bytes.len() {
        patterns_are_read_sign_by_sign(bytes[i], rest, other);
        lemma_quoted_matches(bytes, i + 1, other.skip(1));
        assert(tail[0] == bytes[i]);
        assert(tail.skip(1) =~= bytes.skip(i + 1));
        if other.len() > 0 && other[0] == bytes[i] && other.skip(1) == tail.skip(1) {
            assert(other =~= seq![other[0]] + other.skip(1));
            assert(tail =~= seq![tail[0]] + tail.skip(1));
        }
    } else {
        patterns_are_read_sign_by_sign(0, Seq::empty(), other);
        assert(other.len() == 0 ==> other =~= tail);
    }
}

/// A value quoted for a pattern matches itself and nothing else, whatever
/// bytes it holds, and never grows to more than twice its length.
pub proof fn quoted_values_match_themselves(value: Seq<u8>, limit: usize, other: Seq<u8>)
    ensures
        ({
            let result = shell_eval::quoted_from(Seq::empty(), limit, value, 0);
            &&& 2 * value.len() <= limit ==> result is Ok
            &&& value.len() > limit ==> result is Err
            &&& result is Ok ==> (matched(result->Ok_0, other) <==> other == value)
        }),
{
    lemma_quoted(Seq::empty(), limit, value, 0);
    lemma_quoted_matches(value, 0, other);
    lemma_quoted_length(value, 0);
    assert(value.skip(0) =~= value);
    assert(Seq::<u8>::empty() + quoted(value, 0) =~= quoted(value, 0));
}

proof fn lemma_quoted_length(bytes: Seq<u8>, i: int)
    requires
        0 <= i <= bytes.len(),
    ensures
        bytes.len() - i <= quoted(bytes, i).len() <= 2 * (bytes.len() - i),
    decreases bytes.len() - i,
{
    if i < bytes.len() {
        lemma_quoted_length(bytes, i + 1);
    }
}

} // verus!
