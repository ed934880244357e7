//! Text as sequences of characters: classes of characters, trimming,
//! splitting, numbers, and the passage between text and its UTF-8 bytes.

use vstd::prelude::*;
use vstd::slice::slice_subrange;
use vstd::string::*;
use vstd::utf8::*;

verus! {

/// `String::push` appends one character.
pub assume_specification[ std::string::String::push ](s: &mut String, ch: char)
    ensures
        final(s)@ == old(s)@.push(ch),
;

/// `String::from_utf8` accepts exactly the byte sequences that are valid
/// UTF-8, and yields the text whose encoding they are.
#[verifier::external_body]
pub(crate) fn string_from_utf8(bytes: Vec<u8>) -> (r: Option<String>)
    ensures
        r is Some == valid_utf8(bytes@),
        r matches Some(text) ==> encode_utf8(text@) == bytes@,
{
    String::from_utf8(bytes).ok()
}

/// The characters of `text`.
pub fn to_chars(text: &str) -> (r: Vec<char>)
    ensures
        r@ == text@,
{
    let mut result: Vec<char> = Vec::new();
    for c in it: text.chars()
        invariant
            it.seq() == text@,
            result@ == text@.take(it.index() as int),
    {
        result.push(c);
        assert(result@ =~= text@.take(it.index() + 1));
    }
    assert(text@.take(text@.len() as int) =~= text@);
    result
}

/// The text made of `chars`.
pub fn from_chars(chars: &[char]) -> (r: String)
    ensures
        r@ == chars@,
{
    let mut result = String::new();
    let mut i: usize = 0;
    while i < chars.len()
        invariant
            i <= chars.len(),
            result@ == chars@.take(i as int),
        decreases chars.len() - i,
    {
        result.push(chars[i]);
        i = i + 1;
        assert(chars@.take(i as int) =~= chars@.take(i - 1).push(chars@[i - 1]));
    }
    assert(chars@.take(chars@.len() as int) =~= chars@);
    result
}

/// How many bytes the UTF-8 encoding of `chars` takes.
pub open spec fn byte_len(chars: Seq<char>) -> nat {
    encode_utf8(chars).len()
}

/// The length in bytes of a piece of text.
pub fn text_len(text: &str) -> (r: usize)
    ensures
        r == byte_len(text@),
{
    text.as_bytes().len()
}

/// The length in bytes that `chars` has as text.
pub fn chars_len(chars: &[char]) -> (r: usize)
    ensures
        r == byte_len(chars@),
{
    let text = from_chars(chars);
    text_len(text.as_str())
}

/// A copy of the bytes of `text`.
pub fn text_bytes(text: &str) -> (r: Vec<u8>)
    ensures
        r@ == encode_utf8(text@),
{
    text.as_bytes_vec()
}

/// Whether two byte strings are the same.
pub fn same_bytes(a: &[u8], b: &[u8]) -> (r: bool)
    ensures
        r == (a@ == b@),
{
    if a.len() != b.len() {
        return false;
    }
    let mut i: usize = 0;
    while i < a.len()
        invariant
            i <= a.len(),
            a.len() == b.len(),
            forall|j: int| 0 <= j < i ==> a@[j] == b@[j],
        decreases a.len() - i,
    {
        if a[i] != b[i] {
            assert(a@[i as int] != b@[i as int]);
            return false;
        }
        i = i + 1;
    }
    assert(a@ =~= b@);
    true
}

/// Whether two pieces of text are the same.
pub fn same_text(a: &str, b: &str) -> (r: bool)
    ensures
        r == (a@ == b@),
{
    proof {
        encode_utf8_decode_utf8(a@);
        encode_utf8_decode_utf8(b@);
    }
    same_bytes(a.as_bytes(), b.as_bytes())
}

/// Whether `chars` spell `text`.
pub fn chars_are(chars: &[char], text: &str) -> (r: bool)
    ensures
        r == (chars@ == text@),
{
    let spelled = from_chars(chars);
    same_text(spelled.as_str(), text)
}

/// Unicode's White_Space characters.
pub open spec fn white_space(c: char) -> bool {
    ||| 0x9 <= c as u32 <= 0xd
    ||| c as u32 == 0x20
    ||| c as u32 == 0x85
    ||| c as u32 == 0xa0
    ||| c as u32 == 0x1680
    ||| 0x2000 <= c as u32 <= 0x200a
    ||| c as u32 == 0x2028
    ||| c as u32 == 0x2029
    ||| c as u32 == 0x202f
    ||| c as u32 == 0x205f
    ||| c as u32 == 0x3000
}

pub fn is_white_space(c: char) -> (r: bool)
    ensures
        r == white_space(c),
{
    let code: u32 = c as u32;
    (0x9 <= code && code <= 0xd) || code == 0x20 || code == 0x85 || code == 0xa0 || code == 0x1680
        || (0x2000 <= code && code <= 0x200a) || code == 0x2028 || code == 0x2029 || code == 0x202f
        || code == 0x205f || code == 0x3000
}

/// Space, tab, line feed, form feed and carriage return.
pub open spec fn ascii_white_space(c: char) -> bool {
    c == ' ' || c == '\t' || c == '\n' || c == '\r' || c as u32 == 0xc
}

pub fn is_ascii_white_space(c: char) -> (r: bool)
    ensures
        r == ascii_white_space(c),
{
    c == ' ' || c == '\t' || c == '\n' || c == '\r' || c as u32 == 0xc
}

pub open spec fn ascii_digit(c: char) -> bool {
    '0' <= c <= '9'
}

pub fn is_ascii_digit(c: char) -> (r: bool)
    ensures
        r == ascii_digit(c),
{
    '0' <= c && c <= '9'
}

pub open spec fn ascii_alphabetic(c: char) -> bool {
    'a' <= c <= 'z' || 'A' <= c <= 'Z'
}

pub fn is_ascii_alphabetic(c: char) -> (r: bool)
    ensures
        r == ascii_alphabetic(c),
{
    ('a' <= c && c <= 'z') || ('A' <= c && c <= 'Z')
}

/// A letter or `_`: what a variable's name begins with.
pub open spec fn name_start(c: char) -> bool {
    c == '_' || ascii_alphabetic(c)
}

pub fn is_name_start(c: char) -> (r: bool)
    ensures
        r == name_start(c),
{
    c == '_' || is_ascii_alphabetic(c)
}

/// A letter, a digit or `_`: what a variable's name goes on with.
pub open spec fn name_continue(c: char) -> bool {
    c == '_' || ascii_alphabetic(c) || ascii_digit(c)
}

pub fn is_name_continue(c: char) -> (r: bool)
    ensures
        r == name_continue(c),
{
    c == '_' || is_ascii_alphabetic(c) || is_ascii_digit(c)
}

/// A variable's name: one that begins with a letter or `_` and goes on with
/// letters, digits and `_`.
pub open spec fn variable_name(name: Seq<char>) -> bool {
    name.len() > 0 && name_start(name[0]) && forall|i: int|
        0 <= i < name.len() ==> name_continue(#[trigger] name[i])
}

pub fn is_variable_name(name: &[char]) -> (r: bool)
    ensures
        r == variable_name(name@),
{
    if name.len() == 0 || !is_name_start(name[0]) {
        return false;
    }
    let mut i: usize = 0;
    while i < name.len()
        invariant
            i <= name.len(),
            forall|j: int| 0 <= j < i ==> name_continue(#[trigger] name@[j]),
        decreases name.len() - i,
    {
        if !is_name_continue(name[i]) {
            assert(!name_continue(name@[i as int]));
            return false;
        }
        i = i + 1;
    }
    true
}

/// Whether `c` occurs in `chars`.
pub fn has_char(chars: &[char], c: char) -> (r: bool)
    ensures
        r == chars@.contains(c),
{
    let mut i: usize = 0;
    while i < chars.len()
        invariant
            i <= chars.len(),
            forall|j: int| 0 <= j < i ==> chars@[j] != c,
        decreases chars.len() - i,
    {
        if chars[i] == c {
            assert(chars@[i as int] == c);
            return true;
        }
        i = i + 1;
    }
    false
}

/// Text without its leading white space.
pub open spec fn trim_start(s: Seq<char>) -> Seq<char>
    decreases s.len(),
{
    if s.len() > 0 && white_space(s[0]) {
        trim_start(s.subrange(1, s.len() as int))
    } else {
        s
    }
}

/// Text without its trailing white space.
pub open spec fn trim_end(s: Seq<char>) -> Seq<char>
    decreases s.len(),
{
    if s.len() > 0 && white_space(s[s.len() - 1]) {
        trim_end(s.subrange(0, s.len() - 1))
    } else {
        s
    }
}

/// Text without the white space around it.
pub open spec fn trim(s: Seq<char>) -> Seq<char> {
    trim_end(trim_start(s))
}

pub fn trimmed_start(s: &[char]) -> (r: &[char])
    ensures
        r@ == trim_start(s@),
{
    let mut i: usize = 0;
    assert(s@.subrange(0, s@.len() as int) =~= s@);
    while i < s.len() && is_white_space(s[i])
        invariant
            i <= s.len(),
            trim_start(s@) == trim_start(s@.subrange(i as int, s@.len() as int)),
        decreases s.len() - i,
    {
        assert(s@.subrange(i as int, s@.len() as int).subrange(1, s@.len() - i)
            =~= s@.subrange(i + 1, s@.len() as int));
        i = i + 1;
    }
    slice_subrange(s, i, s.len())
}

pub fn trimmed_end(s: &[char]) -> (r: &[char])
    ensures
        r@ == trim_end(s@),
{
    let mut n: usize = s.len();
    assert(s@.subrange(0, s@.len() as int) =~= s@);
    while n > 0 && is_white_space(s[n - 1])
        invariant
            n <= s.len(),
            trim_end(s@) == trim_end(s@.subrange(0, n as int)),
        decreases n,
    {
        assert(s@.subrange(0, n as int).subrange(0, n - 1) =~= s@.subrange(0, n - 1));
        n = n - 1;
    }
    slice_subrange(s, 0, n)
}

pub fn trimmed(s: &[char]) -> (r: &[char])
    ensures
        r@ == trim(s@),
{
    trimmed_end(trimmed_start(s))
}

/// The first place at or after `from` where `c` stands in `s`, or the length
/// of `s`.
pub open spec fn find_from(s: Seq<char>, c: char, from: int) -> int
    decreases s.len() - from,
{
    if from < 0 || from >= s.len() {
        s.len() as int
    } else if s[from] == c {
        from
    } else {
        find_from(s, c, from + 1)
    }
}

/// The text before the first `c` and the text after it.
pub open spec fn split_once(s: Seq<char>, c: char) -> Option<(Seq<char>, Seq<char>)> {
    let at = find_from(s, c, 0);
    if at < s.len() {
        Some((s.subrange(0, at), s.subrange(at + 1, s.len() as int)))
    } else {
        None
    }
}

/// What [`find_from`] finds lies in the text from `from` on.
pub proof fn lemma_find_from(s: Seq<char>, c: char, from: int)
    requires
        0 <= from <= s.len(),
    ensures
        from <= find_from(s, c, from) <= s.len(),
        find_from(s, c, from) < s.len() ==> s[find_from(s, c, from)] == c,
        forall|i: int| from <= i < find_from(s, c, from) ==> s[i] != c,
    decreases s.len() - from,
{
    if from < s.len() && s[from] != c {
        lemma_find_from(s, c, from + 1);
    }
}

/// The first place at or after `from` where `c` stands.
pub fn find_char(s: &[char], c: char, from: usize) -> (r: usize)
    requires
        from <= s@.len(),
    ensures
        r == find_from(s@, c, from as int),
        from <= r <= s@.len(),
{
    let mut i: usize = from;
    while i < s.len() && s[i] != c
        invariant
            from <= i <= s.len(),
            find_from(s@, c, from as int) == find_from(s@, c, i as int),
        decreases s.len() - i,
    {
        i = i + 1;
    }
    i
}

pub fn split_at_char(s: &[char], c: char) -> (r: Option<(&[char], &[char])>)
    ensures
        match split_once(s@, c) {
            Some(parts) => r matches Some(found) && found.0@ == parts.0 && found.1@ == parts.1,
            None => r is None,
        },
{
    let at = find_char(s, c, 0);
    if at < s.len() {
        Some((slice_subrange(s, 0, at), slice_subrange(s, at + 1, s.len())))
    } else {
        None
    }
}

/// Whether `s` begins with `prefix`.
pub open spec fn begins(s: Seq<char>, prefix: Seq<char>) -> bool {
    prefix.len() <= s.len() && s.subrange(0, prefix.len() as int) == prefix
}

/// What follows `prefix` at the start of `s`.
pub open spec fn after_prefix(s: Seq<char>, prefix: Seq<char>) -> Seq<char> {
    s.subrange(prefix.len() as int, s.len() as int)
}

/// What follows `prefix` in `s`, when `s` begins with it.
pub fn strip_text<'a>(s: &'a [char], prefix: &str) -> (r: Option<&'a [char]>)
    ensures
        r is Some == begins(s@, prefix@),
        r matches Some(rest) ==> rest@ == after_prefix(s@, prefix@),
{
    let wanted = to_chars(prefix);
    if wanted.len() > s.len() {
        return None;
    }
    let mut i: usize = 0;
    while i < wanted.len()
        invariant
            i <= wanted.len() <= s.len(),
            wanted@ == prefix@,
            forall|j: int| 0 <= j < i ==> s@[j] == wanted@[j],
        decreases wanted.len() - i,
    {
        if s[i] != wanted[i] {
            assert(s@.subrange(0, wanted@.len() as int)[i as int] != wanted@[i as int]);
            return None;
        }
        i = i + 1;
    }
    assert(s@.subrange(0, wanted@.len() as int) =~= wanted@);
    Some(slice_subrange(s, wanted.len(), s.len()))
}

/// Whether `s` begins with the character `c`.
pub open spec fn begins_with(s: Seq<char>, c: char) -> bool {
    s.len() > 0 && s[0] == c
}

pub fn starts_with(s: &[char], c: char) -> (r: bool)
    ensures
        r == begins_with(s@, c),
{
    s.len() > 0 && s[0] == c
}

/// Whether `s` ends with the character `c`.
pub open spec fn closes_with(s: Seq<char>, c: char) -> bool {
    s.len() > 0 && s[s.len() - 1] == c
}

pub fn ends_with(s: &[char], c: char) -> (r: bool)
    ensures
        r == closes_with(s@, c),
{
    s.len() > 0 && s[s.len() - 1] == c
}

/// The rest of `s` after its first character.
pub open spec fn rest_of(s: Seq<char>) -> Seq<char> {
    s.subrange(1, s.len() as int)
}

/// The number that a row of decimal digits writes.
pub open spec fn digits_value(s: Seq<char>) -> Option<nat>
    decreases s.len(),
{
    if s.len() == 0 {
        Some(0)
    } else if !ascii_digit(s[s.len() - 1]) {
        None
    } else {
        match digits_value(s.subrange(0, s.len() - 1)) {
            Some(head) => Some(10 * head + (s[s.len() - 1] as nat - '0' as nat) as nat),
            None => None,
        }
    }
}

/// The unsigned number no greater than `max` that `s` writes: one or more
/// decimal digits, with at most one `+` before them.
pub open spec fn unsigned_number(s: Seq<char>, max: nat) -> Option<nat> {
    let digits = if s.len() > 1 && s[0] == '+' {
        rest_of(s)
    } else {
        s
    };
    if digits.len() == 0 {
        None
    } else {
        match digits_value(digits) {
            Some(value) => if value <= max {
                Some(value)
            } else {
                None
            },
            None => None,
        }
    }
}

/// A longer row of digits writes a number at least as large.
proof fn lemma_digits_value_prefix(s: Seq<char>, n: int)
    requires
        0 <= n <= s.len(),
    ensures
        digits_value(s) is Some ==> digits_value(s.subrange(0, n)) is Some,
        digits_value(s) is Some ==> digits_value(s.subrange(0, n))->0 <= digits_value(s)->0,
    decreases s.len() - n,
{
    if n < s.len() {
        let shorter = s.subrange(0, s.len() - 1);
        lemma_digits_value_prefix(shorter, n);
        assert(shorter.subrange(0, n) =~= s.subrange(0, n));
    } else {
        assert(s.subrange(0, n) =~= s);
    }
}

/// Reads an unsigned number no greater than `max`.
pub fn parse_unsigned(s: &[char], max: u64) -> (r: Option<u64>)
    ensures
        match unsigned_number(s@, max as nat) {
            Some(value) => r == Some(value as u64) && value <= max,
            None => r is None,
        },
{
    let start: usize = if s.len() > 1 && s[0] == '+' {
        1
    } else {
        0
    };
    let digits = slice_subrange(s, start, s.len());
    assert(start == 0 ==> digits@ =~= s@);
    if digits.len() == 0 {
        return None;
    }
    let mut value: u64 = 0;
    let mut i: usize = 0;
    assert(digits@.subrange(0, 0) =~= Seq::<char>::empty());
    while i < digits.len()
        invariant
            i <= digits.len(),
            value <= max,
            digits_value(digits@.subrange(0, i as int)) == Some(value as nat),
            digits@ == (if s@.len() > 1 && s@[0] == '+' {
                rest_of(s@)
            } else {
                s@
            }),
            digits@.len() > 0,
        decreases digits.len() - i,
    {
        let c = digits[i];
        let ghost longer = digits@.subrange(0, i + 1);
        assert(longer.subrange(0, i as int) =~= digits@.subrange(0, i as int));
        proof {
            lemma_digits_value_prefix(digits@, i + 1);
        }
        if !is_ascii_digit(c) {
            return None;
        }
        let digit: u64 = (c as u32 - '0' as u32) as u64;
        assert(digits_value(longer) == Some((10 * value + digit) as nat));
        let tenfold = match value.checked_mul(10) {
            Some(product) => product,
            None => {
                return None;
            },
        };
        let grown = match tenfold.checked_add(digit) {
            Some(sum) => sum,
            None => {
                return None;
            },
        };
        if grown > max {
            return None;
        }
        value = grown;
        i = i + 1;
    }
    assert(digits@.subrange(0, digits@.len() as int) =~= digits@);
    Some(value)
}

/// Reads an unsigned number that fits `usize`.
pub fn parse_usize(s: &[char]) -> (r: Option<usize>)
    ensures
        match unsigned_number(s@, usize::MAX as nat) {
            Some(value) => r == Some(value as usize) && value <= usize::MAX,
            None => r is None,
        },
{
    match parse_unsigned(s, usize::MAX as u64) {
        Some(value) => Some(value as usize),
        None => None,
    }
}

/// The character for a decimal digit.
pub open spec fn digit_char(d: nat) -> char {
    ('0' as nat + d) as char
}

/// A number written in decimal.
pub open spec fn decimal(n: nat) -> Seq<char>
    decreases n,
{
    if n < 10 {
        seq![digit_char(n)]
    } else {
        decimal(n / 10).push(digit_char(n % 10))
    }
}

fn digit_character(d: u8) -> (r: char)
    requires
        d < 10,
    ensures
        r == digit_char(d as nat),
{
    (48u8 + d) as char
}

/// Appends a number in decimal.
pub fn push_decimal(text: &mut String, n: u64)
    ensures
        final(text)@ == old(text)@ + decimal(n as nat),
    decreases n,
{
    if n < 10 {
        text.push(digit_character(n as u8));
        assert(text@ =~= old(text)@ + decimal(n as nat));
    } else {
        push_decimal(text, n / 10);
        text.push(digit_character((n % 10) as u8));
        assert(text@ =~= old(text)@ + decimal(n as nat));
    }
}

/// A number in decimal.
pub fn decimal_text(n: usize) -> (r: String)
    ensures
        r@ == decimal(n as nat),
{
    let mut text = String::new();
    push_decimal(&mut text, n as u64);
    assert(text@ =~= decimal(n as nat));
    text
}

/// The encoding of two texts, one behind the other, is their encodings, one
/// behind the other.
pub proof fn lemma_encode_concat(a: Seq<char>, b: Seq<char>)
    ensures
        encode_utf8(a + b) == encode_utf8(a) + encode_utf8(b),
    decreases a.len(),
{
    if a.len() == 0 {
        assert(a + b =~= b);
        assert(encode_utf8(a) + encode_utf8(b) =~= encode_utf8(b));
    } else {
        let rest = a.drop_first();
        lemma_encode_concat(rest, b);
        assert((a + b).drop_first() =~= rest + b);
        assert((a + b)[0] == a[0]);
        assert(encode_utf8(a + b) =~= encode_utf8(a) + encode_utf8(b));
    }
}

/// Two texts, one behind the other.
pub fn text2(a: &str, b: &str) -> (r: String)
    ensures
        r@ == a@ + b@,
{
    let mut text = a.to_owned();
    text.append(b);
    text
}

/// Three texts, one behind the other.
pub fn text3(a: &str, b: &str, c: &str) -> (r: String)
    ensures
        r@ == a@ + b@ + c@,
{
    let mut text = text2(a, b);
    text.append(c);
    text
}

/// Five texts, one behind the other.
pub fn text5(a: &str, b: &str, c: &str, d: &str, e: &str) -> (r: String)
    ensures
        r@ == a@ + b@ + c@ + d@ + e@,
{
    let mut text = text3(a, b, c);
    text.append(d);
    text.append(e);
    text
}

/// A number between two texts.
pub fn numbered(a: &str, n: usize, b: &str) -> (r: String)
    ensures
        r@ == a@ + decimal(n as nat) + b@,
{
    let digits = decimal_text(n);
    text3(a, digits.as_str(), b)
}

/// A message that ends with a number.
pub fn counted(a: &str, n: usize) -> (r: String)
    ensures
        r@ == a@ + decimal(n as nat),
{
    let mut result = a.to_owned();
    push_decimal(&mut result, n as u64);
    result
}

/// Trimming makes no text longer.
pub proof fn lemma_trim_start_len(s: Seq<char>)
    ensures
        trim_start(s).len() <= s.len(),
    decreases s.len(),
{
    if s.len() > 0 && white_space(s[0]) {
        lemma_trim_start_len(s.subrange(1, s.len() as int));
    }
}

/// The lines of a text, as sequences of characters.
pub open spec fn line_texts(lines: Seq<Vec<char>>) -> Seq<Seq<char>> {
    Seq::new(lines.len(), |i: int| lines[i]@)
}

/// The decimal spelling of a number: one digit for each place, the last one for
/// the ones, and no zero in front.
pub proof fn decimals_spell_their_number(n: nat)
    ensures
        decimal(n).len() > 0,
        decimal(n).last() as int == 48 + n % 10,
        n < 10 ==> decimal(n).len() == 1,
        n >= 10 ==> decimal(n).drop_last() == decimal(n / 10),
        decimal(n)[0] == '0' ==> n == 0,
    decreases n,
{
    if n >= 10 {
        decimals_spell_their_number(n / 10);
        assert(decimal(n).drop_last() =~= decimal(n / 10));
    }
}

/// What is spelled in decimal is read as the number that it spells.
pub proof fn decimals_are_read_back(n: nat)
    ensures
        digits_value(decimal(n)) == Some(n),
    decreases n,
{
    if n >= 10 {
        decimals_are_read_back(n / 10);
        assert(decimal(n).drop_last() =~= decimal(n / 10));
    } else {
        assert(decimal(n).drop_last() =~= Seq::<char>::empty());
        reveal_with_fuel(digits_value, 2);
    }
}

/// Trimming takes white space from both ends and nothing else: the text is what
/// is left between two stretches of white space, and neither end of what is
/// left is white space.
pub proof fn trimming_takes_white_space_alone(s: Seq<char>)
    ensures
        trim(s).len() > 0 ==> !white_space(trim(s)[0]) && !white_space(trim(s).last()),
        exists|before: Seq<char>, after: Seq<char>|
            s == #[trigger] (before + trim(s) + after) && all_white(before) && all_white(after),
        trim_start(s).len() > 0 ==> !white_space(trim_start(s)[0]),
        exists|before: Seq<char>| s == #[trigger] (before + trim_start(s)) && all_white(before),
        trim_end(s).len() > 0 ==> !white_space(trim_end(s).last()),
        exists|after: Seq<char>| s == #[trigger] (trim_end(s) + after) && all_white(after),
{
    let before = lemma_trimmed_start(s);
    let middle = trim_start(s);
    let after = lemma_trimmed_end(middle);
    let end = lemma_trimmed_end(s);
    assert(s == before + middle);
    assert(s =~= before + trim(s) + after);
    assert(s == trim_end(s) + end);
    if trim(s).len() > 0 {
        assert(trim(s)[0] == middle[0]);
    }
}

/// Whether the text is white space alone.
pub open spec fn all_white(s: Seq<char>) -> bool {
    forall|i: int| 0 <= i < s.len() ==> white_space(#[trigger] s[i])
}

proof fn lemma_trimmed_start(s: Seq<char>) -> (before: Seq<char>)
    ensures
        s == before + trim_start(s),
        all_white(before),
        trim_start(s).len() > 0 ==> !white_space(trim_start(s)[0]),
    decreases s.len(),
{
    if s.len() > 0 && white_space(s[0]) {
        let rest = s.subrange(1, s.len() as int);
        let more = lemma_trimmed_start(rest);
        let before = seq![s[0]] + more;
        assert(s =~= seq![s[0]] + rest);
        assert(s =~= before + trim_start(s));
        before
    } else {
        assert(s =~= Seq::<char>::empty() + s);
        Seq::empty()
    }
}

proof fn lemma_trimmed_end(s: Seq<char>) -> (after: Seq<char>)
    ensures
        s == trim_end(s) + after,
        all_white(after),
        trim_end(s).len() > 0 ==> !white_space(trim_end(s).last()),
    decreases s.len(),
{
    if s.len() > 0 && white_space(s[s.len() - 1]) {
        let rest = s.subrange(0, s.len() - 1);
        let less = lemma_trimmed_end(rest);
        let after = less.push(s[s.len() - 1]);
        assert(s =~= rest.push(s[s.len() - 1]));
        assert(s =~= trim_end(s) + after);
        after
    } else {
        assert(s =~= s + Seq::<char>::empty());
        Seq::empty()
    }
}

/// White space is what Unicode lists under that name. The ASCII part of it,
/// without the vertical tab, is the white space of ASCII.
pub proof fn white_space_is_listed(c: char)
    ensures
        white_space(c) <==> "\t\n\u{b}\u{c}\r \u{85}\u{a0}\u{1680}\u{2000}\u{2001}\u{2002}\u{2003}\u{2004}\u{2005}\u{2006}\u{2007}\u{2008}\u{2009}\u{200a}\u{2028}\u{2029}\u{202f}\u{205f}\u{3000}"@.contains(
            c,
        ),
        ascii_white_space(c) <==> "\t\n\u{c}\r "@.contains(c),
{
    reveal_strlit(
        "\t\n\u{b}\u{c}\r \u{85}\u{a0}\u{1680}\u{2000}\u{2001}\u{2002}\u{2003}\u{2004}\u{2005}\u{2006}\u{2007}\u{2008}\u{2009}\u{200a}\u{2028}\u{2029}\u{202f}\u{205f}\u{3000}",
    );
    reveal_strlit("\t\n\u{c}\r ");
    let all =
        "\t\n\u{b}\u{c}\r \u{85}\u{a0}\u{1680}\u{2000}\u{2001}\u{2002}\u{2003}\u{2004}\u{2005}\u{2006}\u{2007}\u{2008}\u{2009}\u{200a}\u{2028}\u{2029}\u{202f}\u{205f}\u{3000}"@;
    let ascii = "\t\n\u{c}\r "@;
    assert(ascii[0] == '\t' && ascii[1] == '\n' && ascii[2] as u32 == 12 && ascii[3] == '\r'
        && ascii[4] == ' ' && ascii.len() == 5);
    assert(all.len() == 25);
    assert(all[0] as u32 == 9 && all[1] as u32 == 10 && all[2] as u32 == 11 && all[3] as u32 == 12
        && all[4] as u32 == 13 && all[5] as u32 == 32 && all[6] as u32 == 0x85 && all[7] as u32
        == 0xa0 && all[8] as u32 == 0x1680);
    assert(all[9] as u32 == 0x2000 && all[10] as u32 == 0x2001 && all[11] as u32 == 0x2002
        && all[12] as u32 == 0x2003 && all[13] as u32 == 0x2004 && all[14] as u32 == 0x2005
        && all[15] as u32 == 0x2006 && all[16] as u32 == 0x2007 && all[17] as u32 == 0x2008
        && all[18] as u32 == 0x2009 && all[19] as u32 == 0x200a);
    assert(all[20] as u32 == 0x2028 && all[21] as u32 == 0x2029 && all[22] as u32 == 0x202f
        && all[23] as u32 == 0x205f && all[24] as u32 == 0x3000);
}

/// A name of a variable holds ASCII letters, digits and underscores, one of
/// them at least, and does not begin with a digit.
pub proof fn names_are_letters_digits_and_underscores(name: Seq<char>)
    ensures
        variable_name(name) <==> {
            &&& name.len() > 0
            &&& !('0' <= name[0] <= '9')
            &&& forall|i: int| 0 <= i < name.len() ==> #[trigger] named_by(name[i])
        },
{
    if variable_name(name) {
        assert forall|i: int| 0 <= i < name.len() implies #[trigger] named_by(name[i]) by {
            assert(name_continue(name[i]));
        }
    }
    if name.len() > 0 && !('0' <= name[0] <= '9') && forall|i: int|
        0 <= i < name.len() ==> #[trigger] named_by(name[i]) {
        assert(named_by(name[0]));
        assert forall|i: int| 0 <= i < name.len() implies name_continue(#[trigger] name[i]) by {
            assert(named_by(name[i]));
        }
    }
}

/// Whether the character is an ASCII letter, a digit or an underscore.
pub open spec fn named_by(c: char) -> bool {
    '0' <= c <= '9' || 'A' <= c <= 'Z' || c == '_' || 'a' <= c <= 'z'
}

/// A text is split at the first place of the character, and at none where it
/// does not hold it.
pub proof fn texts_are_split_at_the_first_place(s: Seq<char>, c: char)
    ensures
        match split_once(s, c) {
            Some((before, after)) => s == before + seq![c] + after && !before.contains(c),
            None => !s.contains(c),
        },
{
    lemma_first_place(s, c, 0);
    let at = find_from(s, c, 0);
    if at < s.len() {
        assert(s =~= s.subrange(0, at) + seq![c] + s.subrange(at + 1, s.len() as int));
    }
}

pub proof fn lemma_first_place(s: Seq<char>, c: char, from: int)
    requires
        0 <= from <= s.len(),
    ensures
        from <= find_from(s, c, from) <= s.len(),
        forall|i: int| from <= i < find_from(s, c, from) ==> s[i] != c,
        find_from(s, c, from) < s.len() ==> s[find_from(s, c, from)] == c,
    decreases s.len() - from,
{
    if from < s.len() && s[from] != c {
        lemma_first_place(s, c, from + 1);
    }
}

/// A number is read from its digits, with or without a `+` in front, and only
/// up to the largest one admitted.
pub proof fn numbers_are_read_from_their_digits(n: nat, max: nat)
    ensures
        n <= max ==> unsigned_number(decimal(n), max) == Some(n) && unsigned_number(
            seq!['+'] + decimal(n),
            max,
        ) == Some(n),
        n > max ==> unsigned_number(decimal(n), max) is None,
        unsigned_number(Seq::empty(), max) is None,
{
    decimals_are_read_back(n);
    decimals_spell_their_number(n);
    lemma_decimal_digits(n);
    let signed = seq!['+'] + decimal(n);
    assert(rest_of(signed) =~= decimal(n));
    assert(ascii_digit(decimal(n)[0]));
}

/// What holds anything but digits is no number, but for a `+` in front.
pub proof fn other_texts_are_no_numbers(s: Seq<char>, i: int, max: nat)
    requires
        0 <= i < s.len(),
        !(48 <= s[i] as u32 <= 57),
        i == 0 ==> s[0] != '+' || s.len() == 1,
    ensures
        unsigned_number(s, max) is None,
{
    if s.len() > 1 && s[0] == '+' {
        assert(rest_of(s)[i - 1] == s[i]);
        lemma_no_digits_value(rest_of(s), i - 1);
    } else {
        lemma_no_digits_value(s, i);
    }
}

proof fn lemma_no_digits_value(s: Seq<char>, i: int)
    requires
        0 <= i < s.len(),
        !(48 <= s[i] as u32 <= 57),
    ensures
        digits_value(s) is None,
    decreases s.len(),
{
    if i < s.len() - 1 {
        lemma_no_digits_value(s.subrange(0, s.len() - 1), i);
    }
}

pub proof fn lemma_decimal_digits(n: nat)
    ensures
        forall|i: int| 0 <= i < decimal(n).len() ==> ascii_digit(#[trigger] decimal(n)[i]),
    decreases n,
{
    if n >= 10 {
        lemma_decimal_digits(n / 10);
        let before = decimal(n / 10);
        assert forall|i: int| 0 <= i < decimal(n).len() implies ascii_digit(
            #[trigger] decimal(n)[i],
        ) by {
            if i < before.len() {
                assert(decimal(n)[i] == before[i]);
            } else {
                assert(decimal(n)[i] == digit_char(n % 10));
            }
        }
    }
}

} // verus!
