//! Regular expressions of conditions: what is translated before they are
//! compiled, and which groups of the compiled expression are whose.

use regex::bytes::RegexBuilder;
use regex_syntax::ast::parse::ParserBuilder;
use regex_syntax::ast::Ast::{Alternation, Assertion, Concat, Group, Literal, Repetition};
use vstd::prelude::*;
use vstd::slice::slice_subrange;
use vstd::string::*;
use vstd::utf8::*;

use crate::bounded_bytes::{self, BoundedBytes, BoundedBytesError};
use crate::config::errors::{self, ParseError, Refusal};
use crate::config::recipe::{RegexCondition, RegexModel};
use crate::config::{
    MAX_REGEX_AST_NESTING, MAX_REGEX_CAPTURES, MAX_REGEX_COMPILED_SIZE, MAX_REGEX_PATTERN_LEN,
};
use crate::text::{self, counted, numbered, same_text, string_from_utf8, text2, text_bytes, text_len};

verus! {

/// What `^TO_` stands for: a field that names recipients, up to an address.
pub const TO_ADDRESS: &'static str = "(?:^(?:(?:Original-)?(?:Resent-)?(?:To|Cc|Bcc)|(?:X-Envelope|Apparently(?:-Resent)?)\
    -To):(?:.*[^-a-zA-Z0-9_.])?)";

/// What `^TO` stands for: a field that names recipients, up to a word.
pub const TO_WORD: &'static str = "(?:^(?:(?:Original-)?(?:Resent-)?(?:To|Cc|Bcc)|(?:X-Envelope|Apparently(?:-Resent)?)\
    -To):(?:.*[^a-zA-Z])?)";

/// What `^FROM_DAEMON` stands for: mail that a program sent.
pub const FROM_DAEMON: &'static str = "(?:^(?:Mailing-List:|Precedence:.*(?:junk|bulk|list)|To: Multiple recipients of |(?:\
    (?:(?:Resent-)?(?:From|Sender)|X-Envelope-From):|>?From )(?:[^>]*[^(.%@a-z0-9])?(?:P\
    ost(?:ma?(?:st(?:e?r)?|n)|office)|(?:send)?Mail(?:er)?|daemon|m(?:mdf|ajordomo)|n?uu\
    cp|LIST(?:SERV|proc)|NETSERV|o(?:wner|ps)|r(?:e(?:quest|sponse)|oot)|b(?:ounce|bs\\.\
    smtp)|echo|mirror|s(?:erv(?:ices?|er)|mtp(?:error)?|ystem)|A(?:dmin(?:istrator)?|MMG\
    R|utoanswer))(?:(?:[^).!:a-z0-9][-_a-z0-9]*)?[%@>\t ][^<)]*(?:\\(.*\\).*)?)?$(?:[^>]\
    |$)))";

/// What `^FROM_MAILER` stands for: mail that a mail system sent.
pub const FROM_MAILER: &'static str = "(?:^(?:(?:(?:Resent-)?(?:From|Sender)|X-Envelope-From):|>?From )(?:[^>]*[^(.%@a-z0-9\
    ])?(?:Post(?:ma(?:st(?:er)?|n)|office)|(?:send)?Mail(?:er)?|daemon|mmdf|n?uucp|ops|r\
    (?:esponse|oot)|(?:bbs\\.)?smtp(?:error)?|s(?:erv(?:ices?|er)|ystem)|A(?:dmin(?:istr\
    ator)?|MMGR))(?:(?:[^).!:a-z0-9][-_a-z0-9]*)?[%@>\t ][^<)]*(?:\\(.*\\).*)?)?$(?:[^>]\
    |$))";

/// The group that marks where `MATCH` starts.
pub const MATCH_MARKER: &'static str = "__procmail_rs_match_0";

/// What a node of a pattern's syntax tree is.
#[derive(Debug, Clone, Copy, PartialEq, Eq, Structural)]
pub enum NodeKind {
    Assertion,
    Literal,
    Other,
}

/// The nodes of a pattern's syntax tree, each before those in it, the last of
/// which comes first, or what is wrong with the pattern. Of a node it is told
/// what it is, and where it starts and ends, in bytes.
pub uninterp spec fn syntax_nodes(pattern: Seq<char>, nest_limit: u32) -> Result<
    Seq<(NodeKind, usize, usize)>,
    Seq<char>,
>;

/// `regex_syntax::ast::parse::Parser::parse`, with octal escapes and verbose
/// mode off as they are by default, depends on the pattern and the nesting
/// limit alone. The result lists the nodes of the tree that it builds, each
/// before those in it, the last of which comes first, or is the text of its
/// error. Of a node it tells what it is, and its span.
#[verifier::external_body]
fn read_syntax(pattern: &str, nest_limit: u32) -> (r: Result<Vec<(NodeKind, usize, usize)>, String>)
    ensures
        match syntax_nodes(pattern@, nest_limit) {
            Ok(nodes) => r matches Ok(found) && found@ == nodes,
            Err(message) => r matches Err(found) && found@ == message,
        },
{
    let tree = ParserBuilder::new().nest_limit(nest_limit).build().parse(pattern).map_err(|error| error.to_string())?;
    let mut open = vec![&tree];
    let mut nodes = vec![];
    while let Some(node) = open.pop() {
        nodes.push((match node { Assertion(_) => NodeKind::Assertion, Literal(_) => NodeKind::Literal, _ => NodeKind::Other },
            node.span().start.offset, node.span().end.offset));
        match node {
            Repetition(found) => open.push(&found.ast),
            Group(found) => open.push(&found.ast),
            Alternation(found) => open.extend(&found.asts),
            Concat(found) => open.extend(&found.asts),
            _ => {},
        }
    }
    Ok(nodes)
}

/// What a pattern compiles to, or what is wrong with it.
pub uninterp spec fn compiled_regex(
    pattern: Seq<char>,
    case_sensitive: bool,
    nest_limit: u32,
    size_limit: usize,
) -> Result<regex::bytes::Regex, Seq<char>>;

/// The names of the groups of what a pattern compiles to, the whole match
/// first.
pub uninterp spec fn compiled_groups(
    pattern: Seq<char>,
    case_sensitive: bool,
    nest_limit: u32,
    size_limit: usize,
) -> Seq<Option<Seq<char>>>;

/// The names of groups as characters.
pub open spec fn group_names(names: Seq<Option<String>>) -> Seq<Option<Seq<char>>> {
    Seq::new(
        names.len(),
        |i: int|
            match names[i] {
                Some(name) => Some(name@),
                None => None,
            },
    )
}

/// `regex::bytes::RegexBuilder::build`, in multi-line mode and without
/// Unicode classes, and `regex::bytes::Regex::capture_names` on what it
/// builds, depend on these arguments alone. An error is given by its text. The
/// compiler calls itself once for each level of nesting, and takes memory up to
/// the limit on size, so that both are bounded.
#[verifier::external_body]
fn compile(pattern: &str, case_sensitive: bool, nest_limit: u32, size_limit: usize) -> (r: Result<
    (regex::bytes::Regex, Vec<Option<String>>),
    String,
>)
    requires
        nest_limit <= MAX_REGEX_AST_NESTING,
        size_limit <= MAX_REGEX_COMPILED_SIZE,
    ensures
        match compiled_regex(pattern@, case_sensitive, nest_limit, size_limit) {
            Ok(regex) => r matches Ok(found) && found.0 == regex && group_names(found.1@)
                == compiled_groups(pattern@, case_sensitive, nest_limit, size_limit),
            Err(message) => r matches Err(found) && found@ == message,
        },
{
    let mut builder = RegexBuilder::new(pattern);
    builder.case_insensitive(!case_sensitive).multi_line(true).unicode(false);
    builder.nest_limit(nest_limit).size_limit(size_limit);
    let regex = builder.build().map_err(|error| error.to_string())?;
    let names = regex.capture_names().map(|name| name.map(str::to_owned)).collect();
    Ok((regex, names))
}

/// Compiles a regular expression as it stands.
pub fn build_regex(pattern: &str, case_sensitive: bool) -> (r: Result<
    regex::bytes::Regex,
    String,
>)
    ensures
        match compiled_regex(
            pattern@,
            case_sensitive,
            MAX_REGEX_AST_NESTING,
            MAX_REGEX_COMPILED_SIZE,
        ) {
            Ok(regex) => r == Ok::<regex::bytes::Regex, String>(regex),
            Err(message) => r matches Err(found) && found@ == message,
        },
{
    match compile(pattern, case_sensitive, MAX_REGEX_AST_NESTING, MAX_REGEX_COMPILED_SIZE) {
        Ok((regex, _)) => Ok(regex),
        Err(message) => Err(message),
    }
}

/// What takes the place of a piece of a pattern.
#[derive(Debug, Clone, Copy, PartialEq, Eq, Structural)]
pub enum Replacement {
    TextStart,
    TextEnd,
    LineStart,
    LineEnd,
    WordEdge,
    ToAddress,
    ToWord,
    FromDaemon,
    FromMailer,
    MatchMarker,
}

/// A piece of a pattern, and what takes its place.
#[derive(Debug, Clone, Copy, PartialEq, Eq, Structural)]
pub struct RegexEdit {
    pub start: usize,
    pub end: usize,
    pub replacement: Replacement,
}

impl Replacement {
    pub open spec fn spelled(self) -> Seq<char> {
        match self {
            Replacement::TextStart => "\\A"@,
            Replacement::TextEnd => "\\z"@,
            Replacement::LineStart => "(?:\\A|\\n)"@,
            Replacement::LineEnd => "(?:\\n|\\z)"@,
            Replacement::WordEdge => "[^a-zA-Z0-9_]"@,
            Replacement::ToAddress => TO_ADDRESS@,
            Replacement::ToWord => TO_WORD@,
            Replacement::FromDaemon => FROM_DAEMON@,
            Replacement::FromMailer => FROM_MAILER@,
            Replacement::MatchMarker => "(?P<__procmail_rs_match_0>)"@,
        }
    }

    /// The text that takes the place.
    pub fn text(self) -> (r: &'static str)
        ensures
            r@ == self.spelled(),
    {
        match self {
            Replacement::TextStart => "\\A",
            Replacement::TextEnd => "\\z",
            Replacement::LineStart => "(?:\\A|\\n)",
            Replacement::LineEnd => "(?:\\n|\\z)",
            Replacement::WordEdge => "[^a-zA-Z0-9_]",
            Replacement::ToAddress => TO_ADDRESS,
            Replacement::ToWord => TO_WORD,
            Replacement::FromDaemon => FROM_DAEMON,
            Replacement::FromMailer => FROM_MAILER,
            Replacement::MatchMarker => "(?P<__procmail_rs_match_0>)",
        }
    }
}

/// Whether `word` stands in `bytes` at `start`.
pub open spec fn stands_at(bytes: Seq<u8>, start: int, word: Seq<char>) -> bool {
    0 <= start && start + text::byte_len(word) <= bytes.len() && bytes.subrange(
        start,
        start + text::byte_len(word),
    ) == encode_utf8(word)
}

/// An edit of `word` at `start`.
pub open spec fn word_edit(start: int, word: Seq<char>, replacement: Replacement) -> RegexEdit {
    RegexEdit { start: start as usize, end: (start + text::byte_len(word)) as usize, replacement }
}

/// An edit of all that a node takes.
pub open spec fn whole_node(node: (NodeKind, usize, usize), replacement: Replacement) -> RegexEdit {
    RegexEdit { start: node.1, end: node.2, replacement }
}

/// The edit for a node that is a `^`.
pub open spec fn caret_edit(bytes: Seq<u8>, node: (NodeKind, usize, usize), line: nat) -> Result<
    RegexEdit,
    Refusal,
> {
    let start = node.1 as int;
    if stands_at(bytes, start, "^^"@) {
        if start == 0 {
            Ok(word_edit(start, "^^"@, Replacement::TextStart))
        } else if start + text::byte_len("^^"@) == bytes.len() {
            Ok(word_edit(start, "^^"@, Replacement::TextEnd))
        } else {
            Err(
                errors::refusal(
                    line,
                    "'^^' is supported only at the start or end of a regular expression"@,
                ),
            )
        }
    } else if stands_at(bytes, start, "^FROM_DAEMON"@) {
        Ok(word_edit(start, "^FROM_DAEMON"@, Replacement::FromDaemon))
    } else if stands_at(bytes, start, "^FROM_MAILER"@) {
        Ok(word_edit(start, "^FROM_MAILER"@, Replacement::FromMailer))
    } else if stands_at(bytes, start, "^TO_"@) {
        Ok(word_edit(start, "^TO_"@, Replacement::ToAddress))
    } else if stands_at(bytes, start, "^TO"@) {
        Ok(word_edit(start, "^TO"@, Replacement::ToWord))
    } else {
        Ok(whole_node(node, Replacement::LineStart))
    }
}

/// Whether a node takes exactly the bytes of `word`.
pub open spec fn node_is(bytes: Seq<u8>, node: (NodeKind, usize, usize), word: Seq<char>) -> bool {
    node.2 == node.1 + text::byte_len(word) && stands_at(bytes, node.1 as int, word)
}

/// The edit that a node asks for. An assertion that the edit before it
/// already covers asks for none.
pub open spec fn node_edit(
    bytes: Seq<u8>,
    node: (NodeKind, usize, usize),
    is_covered: bool,
    line: nat,
) -> Result<Option<RegexEdit>, Refusal> {
    if node.0 is Literal {
        if node_is(bytes, node, "\\/"@) {
            Ok(Some(whole_node(node, Replacement::MatchMarker)))
        } else {
            Ok(None)
        }
    } else if !(node.0 is Assertion) || is_covered {
        Ok(None)
    } else if node_is(bytes, node, "^"@) {
        match caret_edit(bytes, node, line) {
            Ok(found) => Ok(Some(found)),
            Err(error) => Err(error),
        }
    } else if node_is(bytes, node, "$"@) {
        Ok(Some(whole_node(node, Replacement::LineEnd)))
    } else if node_is(bytes, node, "\\<"@) || node_is(bytes, node, "\\>"@) {
        Ok(Some(whole_node(node, Replacement::WordEdge)))
    } else {
        Ok(None)
    }
}

/// Whether the last of `edits` goes on at `offset`.
pub open spec fn covered(edits: Seq<RegexEdit>, offset: usize) -> bool {
    edits.len() > 0 && offset < edits.last().end
}

/// Whether one of `edits` is a replacement of this kind.
pub open spec fn has_replacement(edits: Seq<RegexEdit>, replacement: Replacement) -> bool {
    exists|i: int| 0 <= i < edits.len() && (#[trigger] edits[i]).replacement == replacement
}

/// The edits that the first `left` nodes ask for, the last node first, after
/// `edits`.
pub open spec fn edits_from(
    bytes: Seq<u8>,
    nodes: Seq<(NodeKind, usize, usize)>,
    left: nat,
    edits: Seq<RegexEdit>,
    line: nat,
) -> Result<Seq<RegexEdit>, Refusal>
    decreases left,
{
    if left == 0 {
        Ok(edits)
    } else {
        let node = nodes[left - 1];
        match node_edit(bytes, node, covered(edits, node.1), line) {
            Err(error) => Err(error),
            Ok(None) => edits_from(bytes, nodes, (left - 1) as nat, edits, line),
            Ok(Some(edit)) => if edit.replacement is MatchMarker && has_replacement(
                edits,
                Replacement::MatchMarker,
            ) {
                Err(
                    errors::refusal(
                        line,
                        "regular expression contains more than one '\\/' marker"@,
                    ),
                )
            } else if edits.len() == MAX_REGEX_PATTERN_LEN {
                Err(
                    errors::refusal(
                        line,
                        "regular expression edits exceed the hard limit of "@ + text::decimal(
                            MAX_REGEX_PATTERN_LEN as nat,
                        ),
                    ),
                )
            } else {
                edits_from(bytes, nodes, (left - 1) as nat, edits.push(edit), line)
            },
        }
    }
}

/// An edit put behind those that start no later.
pub open spec fn put_in_order(edits: Seq<RegexEdit>, edit: RegexEdit) -> Seq<RegexEdit>
    decreases edits.len(),
{
    if edits.len() == 0 || edits.last().start <= edit.start {
        edits.push(edit)
    } else {
        put_in_order(edits.drop_last(), edit).push(edits.last())
    }
}

/// The first `n` edits in the order of their starts.
pub open spec fn in_order(edits: Seq<RegexEdit>, n: nat) -> Seq<RegexEdit>
    decreases n,
{
    if n == 0 || n > edits.len() {
        Seq::empty()
    } else {
        put_in_order(in_order(edits, (n - 1) as nat), edits[n - 1])
    }
}

/// The edits of a pattern whose syntax has these nodes, from right to left,
/// in the order of their starts.
pub open spec fn edits_of(bytes: Seq<u8>, nodes: Seq<(NodeKind, usize, usize)>, line: nat) -> Result<
    Seq<RegexEdit>,
    Refusal,
> {
    match edits_from(bytes, nodes, nodes.len(), Seq::empty(), line) {
        Ok(edits) => Ok(in_order(edits, edits.len())),
        Err(error) => Err(error),
    }
}

/// Whether `word` stands in `bytes` at `start`.
fn word_stands_at(bytes: &[u8], start: usize, word: &str) -> (r: bool)
    ensures
        r == stands_at(bytes@, start as int, word@),
{
    let length = text_len(word);
    if start > bytes.len() || bytes.len() - start < length {
        return false;
    }
    let expected = text_bytes(word);
    crate::text::same_bytes(slice_subrange(bytes, start, start + length), expected.as_slice())
}

fn node_takes(bytes: &[u8], node: (NodeKind, usize, usize), word: &str) -> (r: bool)
    ensures
        r == node_is(bytes@, node, word@),
{
    word_stands_at(bytes, node.1, word) && node.2 >= node.1 && node.2 - node.1 == text_len(word)
}

fn word_edit_at(start: usize, word: &str, replacement: Replacement) -> (r: RegexEdit)
    requires
        start + text::byte_len(word@) <= usize::MAX,
    ensures
        r == word_edit(start as int, word@, replacement),
{
    RegexEdit { start, end: start + text_len(word), replacement }
}

fn caret_edit_at(bytes: &[u8], node: (NodeKind, usize, usize), line: usize) -> (r: Result<
    RegexEdit,
    ParseError,
>)
    ensures
        match caret_edit(bytes@, node, line as nat) {
            Ok(edit) => r == Ok::<RegexEdit, ParseError>(edit),
            Err(error) => r matches Err(found) && found@ == error,
        },
{
    let length = bytes.len();
    let start = node.1;
    if word_stands_at(bytes, start, "^^") {
        if start == 0 {
            Ok(word_edit_at(start, "^^", Replacement::TextStart))
        } else if start + text_len("^^") == length {
            Ok(word_edit_at(start, "^^", Replacement::TextEnd))
        } else {
            Err(
                ParseError::told(
                    line,
                    "'^^' is supported only at the start or end of a regular expression",
                ),
            )
        }
    } else if word_stands_at(bytes, start, "^FROM_DAEMON") {
        Ok(word_edit_at(start, "^FROM_DAEMON", Replacement::FromDaemon))
    } else if word_stands_at(bytes, start, "^FROM_MAILER") {
        Ok(word_edit_at(start, "^FROM_MAILER", Replacement::FromMailer))
    } else if word_stands_at(bytes, start, "^TO_") {
        Ok(word_edit_at(start, "^TO_", Replacement::ToAddress))
    } else if word_stands_at(bytes, start, "^TO") {
        Ok(word_edit_at(start, "^TO", Replacement::ToWord))
    } else {
        Ok(RegexEdit { start: node.1, end: node.2, replacement: Replacement::LineStart })
    }
}

fn node_edit_at(bytes: &[u8], node: (NodeKind, usize, usize), is_covered: bool, line: usize) -> (r: Result<
    Option<RegexEdit>,
    ParseError,
>)
    ensures
        match node_edit(bytes@, node, is_covered, line as nat) {
            Ok(edit) => r == Ok::<Option<RegexEdit>, ParseError>(edit),
            Err(error) => r matches Err(found) && found@ == error,
        },
{
    let edit = RegexEdit { start: node.1, end: node.2, replacement: Replacement::LineEnd };
    if node.0 == NodeKind::Literal {
        if node_takes(bytes, node, "\\/") {
            Ok(Some(RegexEdit { replacement: Replacement::MatchMarker, ..edit }))
        } else {
            Ok(None)
        }
    } else if node.0 != NodeKind::Assertion || is_covered {
        Ok(None)
    } else if node_takes(bytes, node, "^") {
        match caret_edit_at(bytes, node, line) {
            Ok(found) => Ok(Some(found)),
            Err(error) => Err(error),
        }
    } else if node_takes(bytes, node, "$") {
        Ok(Some(edit))
    } else if node_takes(bytes, node, "\\<") || node_takes(bytes, node, "\\>") {
        Ok(Some(RegexEdit { replacement: Replacement::WordEdge, ..edit }))
    } else {
        Ok(None)
    }
}

/// Puts the edits in the order of their starts.
fn put_all_in_order(edits: Vec<RegexEdit>) -> (r: Vec<RegexEdit>)
    ensures
        r@ == in_order(edits@, edits@.len()),
{
    let mut result: Vec<RegexEdit> = Vec::new();
    let mut i: usize = 0;
    while i < edits.len()
        invariant
            i <= edits@.len(),
            result@ == in_order(edits@, i as nat),
        decreases edits.len() - i,
    {
        let edit = edits[i];
        let ghost before = result@;
        let mut position: usize = result.len();
        proof {
            assert(before.take(before.len() as int) =~= before);
            assert(before.skip(before.len() as int) =~= Seq::empty());
            assert(put_in_order(before, edit) + Seq::<RegexEdit>::empty() =~= put_in_order(
                before,
                edit,
            ));
        }
        while position > 0 && result[position - 1].start > edit.start
            invariant
                position <= result@.len(),
                result@ == before,
                put_in_order(before, edit) == put_in_order(before.take(position as int), edit)
                    + before.skip(position as int),
            decreases position,
        {
            proof {
                let shorter = before.take(position as int);
                assert(shorter.drop_last() =~= before.take(position - 1));
                assert(before.skip(position - 1) =~= seq![before[position - 1]] + before.skip(
                    position as int,
                ));
                assert(put_in_order(shorter, edit) + before.skip(position as int) =~= put_in_order(
                    before.take(position - 1),
                    edit,
                ) + before.skip(position - 1));
            }
            position = position - 1;
        }
        result.insert(position, edit);
        proof {
            assert(put_in_order(before.take(position as int), edit) == before.take(
                position as int,
            ).push(edit));
            assert(result@ =~= put_in_order(before, edit));
        }
        i = i + 1;
    }
    result
}

/// Finds the edits of a pattern whose syntax has these nodes, from right to
/// left.
pub fn collect_edits(pattern: &str, nodes: &[(NodeKind, usize, usize)], line: usize) -> (r: Result<
    Vec<RegexEdit>,
    ParseError,
>)
    ensures
        match edits_of(encode_utf8(pattern@), nodes@, line as nat) {
            Ok(edits) => r matches Ok(found) && found@ == edits,
            Err(error) => r matches Err(found) && found@ == error,
        },
{
    let bytes = text_bytes(pattern);
    let ghost all = edits_from(bytes@, nodes@, nodes@.len(), Seq::empty(), line as nat);
    let mut edits: Vec<RegexEdit> = Vec::new();
    let mut marked = false;
    let mut left: usize = nodes.len();
    while left > 0
        invariant
            left <= nodes@.len(),
            bytes@ == encode_utf8(pattern@),
            marked == has_replacement(edits@, Replacement::MatchMarker),
            all == edits_from(bytes@, nodes@, left as nat, edits@, line as nat),
            edits_of(encode_utf8(pattern@), nodes@, line as nat) == match all {
                Ok(found) => Ok::<Seq<RegexEdit>, Refusal>(in_order(found, found.len())),
                Err(error) => Err(error),
            },
        decreases left,
    {
        let node = nodes[left - 1];
        let is_covered = edits.len() > 0 && node.1 < edits[edits.len() - 1].end;
        match node_edit_at(bytes.as_slice(), node, is_covered, line) {
            Err(error) => {
                return Err(error);
            },
            Ok(None) => {},
            Ok(Some(edit)) => {
                if edit.replacement == Replacement::MatchMarker {
                    if marked {
                        return Err(
                            ParseError::told(
                                line,
                                "regular expression contains more than one '\\/' marker",
                            ),
                        );
                    }
                }
                if edits.len() == MAX_REGEX_PATTERN_LEN {
                    return Err(
                        ParseError::new(
                            line,
                            counted(
                                "regular expression edits exceed the hard limit of ",
                                MAX_REGEX_PATTERN_LEN,
                            ),
                        ),
                    );
                }
                let ghost before = edits@;
                edits.push(edit);
                if edit.replacement == Replacement::MatchMarker {
                    marked = true;
                    assert(edits@[before.len() as int].replacement == Replacement::MatchMarker);
                } else if marked {
                    let ghost place = choose|i: int|
                        0 <= i < before.len() && (#[trigger] before[i]).replacement
                            == Replacement::MatchMarker;
                    assert(edits@[place].replacement == Replacement::MatchMarker);
                } else {
                    assert forall|i: int| 0 <= i < edits@.len() implies (
                    #[trigger] edits@[i]).replacement != Replacement::MatchMarker by {
                        if i < before.len() {
                            assert(edits@[i] == before[i]);
                        }
                    }
                }
            },
        }
        left = left - 1;
    }
    Ok(put_all_in_order(edits))
}

/// The bytes of `value` after those of `output`, as far as a translated
/// pattern may hold them.
pub open spec fn pattern_extended(output: Seq<u8>, value: Seq<u8>, line: nat) -> Result<
    Seq<u8>,
    Refusal,
> {
    match bounded_bytes::extension(output, MAX_REGEX_PATTERN_LEN, value) {
        Ok(bytes) => Ok(bytes),
        Err(BoundedBytesError::LengthOverflow) => Err(
            errors::refusal(line, "expanded regular expression length overflows"@),
        ),
        Err(_) => Err(
            errors::refusal(
                line,
                "expanded regular expression exceeds the hard limit of "@ + text::decimal(
                    MAX_REGEX_PATTERN_LEN as nat,
                ) + " bytes"@,
            ),
        ),
    }
}

fn push_regex_bytes(output: &mut Vec<u8>, value: &[u8], line: usize) -> (r: Result<(), ParseError>)
    ensures
        match pattern_extended(old(output)@, value@, line as nat) {
            Ok(bytes) => r is Ok && final(output)@ == bytes,
            Err(error) => r matches Err(found) && found@ == error,
        },
{
    match BoundedBytes::try_extend_vec(output, MAX_REGEX_PATTERN_LEN, value) {
        Ok(()) => Ok(()),
        Err(BoundedBytesError::LengthOverflow) => Err(
            ParseError::told(line, "expanded regular expression length overflows"),
        ),
        Err(_) => Err(
            ParseError::new(
                line,
                numbered(
                    "expanded regular expression exceeds the hard limit of ",
                    MAX_REGEX_PATTERN_LEN,
                    " bytes",
                ),
            ),
        ),
    }
}

/// What is written for the pattern from `cursor` on, with the edits from `i`
/// on, after `output`.
pub open spec fn rendered_from(
    bytes: Seq<u8>,
    edits: Seq<RegexEdit>,
    i: nat,
    cursor: int,
    output: Seq<u8>,
    line: nat,
) -> Result<Seq<u8>, Refusal>
    decreases edits.len() - i,
{
    let split = errors::refusal(
        line,
        "internal regular expression edit splits UTF-8 text"@,
    );
    if i >= edits.len() {
        if !is_char_boundary(bytes, cursor) {
            Err(split)
        } else {
            pattern_extended(output, bytes.subrange(cursor, bytes.len() as int), line)
        }
    } else {
        let edit = edits[i as int];
        if edit.start < cursor || edit.end < edit.start || edit.end > bytes.len() {
            Err(errors::refusal(line, "internal regular expression edit ranges overlap"@))
        } else if !is_char_boundary(bytes, cursor) || !is_char_boundary(bytes, edit.start as int) {
            Err(split)
        } else {
            match pattern_extended(output, bytes.subrange(cursor, edit.start as int), line) {
                Err(error) => Err(error),
                Ok(kept) => match pattern_extended(
                    kept,
                    encode_utf8(edit.replacement.spelled()),
                    line,
                ) {
                    Err(error) => Err(error),
                    Ok(replaced) => rendered_from(
                        bytes,
                        edits,
                        i + 1,
                        edit.end as int,
                        replaced,
                        line,
                    ),
                },
            }
        }
    }
}

/// A pattern with the edits made.
pub open spec fn rendered(pattern: Seq<char>, edits: Seq<RegexEdit>, line: nat) -> Result<
    Seq<char>,
    Refusal,
> {
    match rendered_from(encode_utf8(pattern), edits, 0, 0, Seq::empty(), line) {
        Err(error) => Err(error),
        Ok(bytes) => if valid_utf8(bytes) {
            Ok(decode_utf8(bytes))
        } else {
            Err(errors::refusal(line, "translated regular expression is not valid UTF-8"@))
        },
    }
}

/// Makes the edits of a pattern.
pub fn render(pattern: &str, edits: &[RegexEdit], line: usize) -> (r: Result<String, ParseError>)
    ensures
        match rendered(pattern@, edits@, line as nat) {
            Ok(text) => r matches Ok(found) && found@ == text,
            Err(error) => r matches Err(found) && found@ == error,
        },
{
    let bytes = text_bytes(pattern);
    let ghost whole = rendered_from(bytes@, edits@, 0, 0, Seq::empty(), line as nat);
    let mut output: Vec<u8> = Vec::new();
    let mut cursor: usize = 0;
    let mut i: usize = 0;
    while i < edits.len()
        invariant
            i <= edits@.len(),
            cursor <= bytes@.len(),
            bytes@ == encode_utf8(pattern@),
            bytes@ == pattern.spec_bytes(),
            whole == rendered_from(bytes@, edits@, 0, 0, Seq::empty(), line as nat),
            whole == rendered_from(
                bytes@,
                edits@,
                i as nat,
                cursor as int,
                output@,
                line as nat,
            ),
        decreases edits.len() - i,
    {
        let edit = edits[i];
        if edit.start < cursor || edit.end < edit.start || edit.end > bytes.len() {
            return Err(
                ParseError::told(line, "internal regular expression edit ranges overlap"),
            );
        }
        if !pattern.is_char_boundary(cursor) || !pattern.is_char_boundary(edit.start) {
            return Err(
                ParseError::told(line, "internal regular expression edit splits UTF-8 text"),
            );
        }
        match push_regex_bytes(
            &mut output,
            slice_subrange(bytes.as_slice(), cursor, edit.start),
            line,
        ) {
            Ok(()) => {},
            Err(error) => {
                return Err(error);
            },
        }
        let replacement = text_bytes(edit.replacement.text());
        match push_regex_bytes(&mut output, replacement.as_slice(), line) {
            Ok(()) => {},
            Err(error) => {
                return Err(error);
            },
        }
        cursor = edit.end;
        i = i + 1;
    }
    if !pattern.is_char_boundary(cursor) {
        return Err(ParseError::told(line, "internal regular expression edit splits UTF-8 text"));
    }
    match push_regex_bytes(
        &mut output,
        slice_subrange(bytes.as_slice(), cursor, bytes.len()),
        line,
    ) {
        Ok(()) => {},
        Err(error) => {
            return Err(error);
        },
    }
    match string_from_utf8(output) {
        Some(text) => {
            proof {
                encode_utf8_decode_utf8(text@);
            }
            Ok(text)
        },
        None => Err(ParseError::told(line, "translated regular expression is not valid UTF-8")),
    }
}

/// How a pattern is compiled: its translation, whether it marks where `MATCH`
/// starts, and whether it is compiled without regard to case whatever the
/// recipe says.
pub struct Translation {
    pub pattern: Seq<char>,
    pub marked: bool,
    pub force_case_insensitive: bool,
}

/// A refusal of a pattern that cannot be read.
pub open spec fn invalid_pattern(line: nat, message: Seq<char>) -> Refusal {
    errors::refusal(line, "invalid regular expression: "@ + message)
}

/// The translation of a pattern.
pub open spec fn translated(pattern: Seq<char>, line: nat) -> Result<Translation, Refusal> {
    match syntax_nodes(pattern, MAX_REGEX_AST_NESTING) {
        Err(message) => Err(invalid_pattern(line, message)),
        Ok(nodes) => match edits_of(encode_utf8(pattern), nodes, line) {
            Err(error) => Err(error),
            Ok(edits) => match rendered(pattern, edits, line) {
                Err(error) => Err(error),
                Ok(text) => match syntax_nodes(text, MAX_REGEX_AST_NESTING) {
                    Err(message) => Err(invalid_pattern(line, message)),
                    Ok(_) => Ok(
                        Translation {
                            pattern: text,
                            marked: has_replacement(edits, Replacement::MatchMarker),
                            force_case_insensitive: has_replacement(
                                edits,
                                Replacement::FromDaemon,
                            ),
                        },
                    ),
                },
            },
        },
    }
}

fn any_replacement(edits: &[RegexEdit], replacement: Replacement) -> (r: bool)
    ensures
        r == has_replacement(edits@, replacement),
{
    let mut i: usize = 0;
    while i < edits.len()
        invariant
            i <= edits@.len(),
            forall|j: int| 0 <= j < i ==> (#[trigger] edits@[j]).replacement != replacement,
        decreases edits.len() - i,
    {
        if edits[i].replacement == replacement {
            return true;
        }
        i = i + 1;
    }
    false
}

fn read_pattern(pattern: &str, line: usize) -> (r: Result<Vec<(NodeKind, usize, usize)>, ParseError>)
    ensures
        match syntax_nodes(pattern@, MAX_REGEX_AST_NESTING) {
            Ok(nodes) => r matches Ok(found) && found@ == nodes,
            Err(message) => r matches Err(found) && found@ == invalid_pattern(line as nat, message),
        },
{
    match read_syntax(pattern, MAX_REGEX_AST_NESTING) {
        Ok(nodes) => Ok(nodes),
        Err(message) => Err(
            ParseError::new(line, text2("invalid regular expression: ", message.as_str())),
        ),
    }
}

/// Translates a pattern: gives the text to compile, whether it marks where
/// `MATCH` starts, and whether case is disregarded whatever the recipe says.
pub fn prepare_condition_regex(pattern: &str, line: usize) -> (r: Result<
    (String, bool, bool),
    ParseError,
>)
    ensures
        match translated(pattern@, line as nat) {
            Ok(translation) => r matches Ok(found) && found.0@ == translation.pattern && found.1
                == translation.marked && found.2 == translation.force_case_insensitive,
            Err(error) => r matches Err(found) && found@ == error,
        },
{
    let nodes = match read_pattern(pattern, line) {
        Ok(nodes) => nodes,
        Err(error) => {
            return Err(error);
        },
    };
    let edits = match collect_edits(pattern, nodes.as_slice(), line) {
        Ok(edits) => edits,
        Err(error) => {
            return Err(error);
        },
    };
    let text = match render(pattern, edits.as_slice(), line) {
        Ok(text) => text,
        Err(error) => {
            return Err(error);
        },
    };
    match read_pattern(text.as_str(), line) {
        Ok(_) => {},
        Err(error) => {
            return Err(error);
        },
    }
    let marked = any_replacement(edits.as_slice(), Replacement::MatchMarker);
    let force_case_insensitive = any_replacement(edits.as_slice(), Replacement::FromDaemon);
    Ok((text, marked, force_case_insensitive))
}

/// The first group from `i` on with this name.
pub open spec fn group_named(names: Seq<Option<Seq<char>>>, name: Seq<char>, i: int) -> Option<
    usize,
>
    decreases names.len() - i,
{
    if i < 0 || i >= names.len() {
        None
    } else if names[i] == Some(name) {
        Some(i as usize)
    } else {
        group_named(names, name, i + 1)
    }
}

/// The groups below `n`, without the whole match and without `left_out`.
pub open spec fn groups_below(n: nat, left_out: Option<usize>) -> Seq<usize>
    decreases n,
{
    if n <= 1 {
        Seq::empty()
    } else {
        let rest = groups_below((n - 1) as nat, left_out);
        if left_out == Some((n - 1) as usize) {
            rest
        } else {
            rest.push((n - 1) as usize)
        }
    }
}

/// The group that marks where `MATCH` starts, and the groups that the author
/// of the pattern wrote.
pub open spec fn captures_of(names: Seq<Option<Seq<char>>>, marked: bool, line: nat) -> Result<
    (Option<usize>, Seq<usize>),
    Refusal,
> {
    let marker = if marked {
        group_named(names, MATCH_MARKER@, 0)
    } else {
        None
    };
    let groups = groups_below(names.len(), marker);
    if marked && marker is None {
        Err(errors::refusal(line, "internal MATCH marker capture is missing"@))
    } else if exists|i: int|
        0 <= i < names.len() && (#[trigger] names[i]) is Some && marker != Some(i as usize) {
        Err(errors::refusal(line, "named regular expression groups are not supported"@))
    } else if groups.len() > MAX_REGEX_CAPTURES {
        Err(
            errors::refusal(
                line,
                "regular expression capture count exceeds the hard limit of "@ + text::decimal(
                    MAX_REGEX_CAPTURES as nat,
                ),
            ),
        )
    } else {
        Ok((marker, groups))
    }
}

/// Tells the group that marks where `MATCH` starts from those that the author
/// of the pattern wrote, given the names of all groups.
pub fn select_captures(names: &Vec<Option<String>>, marked: bool, line: usize) -> (r: Result<
    (Option<usize>, Vec<usize>),
    ParseError,
>)
    ensures
        match captures_of(group_names(names@), marked, line as nat) {
            Ok((marker, groups)) => r matches Ok(found) && found.0 == marker && found.1@ == groups,
            Err(error) => r matches Err(found) && found@ == error,
        },
{
    let ghost all = group_names(names@);
    let mut marker: Option<usize> = None;
    if marked {
        let mut i: usize = 0;
        while i < names.len() && marker.is_none()
            invariant
                i <= names@.len(),
                all == group_names(names@),
                match marker {
                    Some(found) => group_named(all, MATCH_MARKER@, 0) == Some(found),
                    None => group_named(all, MATCH_MARKER@, 0) == group_named(
                        all,
                        MATCH_MARKER@,
                        i as int,
                    ),
                },
            decreases names.len() - i,
        {
            if let Some(name) = &names[i] {
                if same_text(name.as_str(), MATCH_MARKER) {
                    marker = Some(i);
                }
            }
            i = i + 1;
        }
        if marker.is_none() {
            return Err(ParseError::told(line, "internal MATCH marker capture is missing"));
        }
    }
    let mut groups: Vec<usize> = Vec::new();
    let mut i: usize = 0;
    while i < names.len()
        invariant
            i <= names@.len(),
            all == group_names(names@),
            marker == (if marked {
                group_named(all, MATCH_MARKER@, 0)
            } else {
                None
            }),
            marked ==> marker is Some,
            forall|j: int|
                0 <= j < i ==> !((#[trigger] all[j]) is Some && marker != Some(j as usize)),
            groups@ == groups_below(i as nat, marker),
        decreases names.len() - i,
    {
        let is_marker = match marker {
            Some(found) => found == i,
            None => false,
        };
        if names[i].is_some() && !is_marker {
            assert(all[i as int] is Some);
            return Err(
                ParseError::told(line, "named regular expression groups are not supported"),
            );
        }
        if i > 0 && !is_marker {
            groups.push(i);
        }
        i = i + 1;
    }
    if groups.len() > MAX_REGEX_CAPTURES {
        return Err(
            ParseError::new(
                line,
                counted(
                    "regular expression capture count exceeds the hard limit of ",
                    MAX_REGEX_CAPTURES,
                ),
            ),
        );
    }
    Ok((marker, groups))
}

/// The regular expression of a condition.
pub open spec fn regex_of(pattern: Seq<char>, line: nat, case_sensitive: bool) -> Result<
    RegexModel,
    Refusal,
> {
    match translated(pattern, line) {
        Err(error) => Err(error),
        Ok(translation) => match compiled_regex(
            translation.pattern,
            case_sensitive && !translation.force_case_insensitive,
            MAX_REGEX_AST_NESTING,
            MAX_REGEX_COMPILED_SIZE,
        ) {
            Err(message) => Err(invalid_pattern(line, message)),
            Ok(compiled) => match captures_of(
                compiled_groups(
                    translation.pattern,
                    case_sensitive && !translation.force_case_insensitive,
                    MAX_REGEX_AST_NESTING,
                    MAX_REGEX_COMPILED_SIZE,
                ),
                translation.marked,
                line,
            ) {
                Err(error) => Err(error),
                Ok((match_capture, capture_indexes)) => Ok(
                    RegexModel { pattern, compiled, match_capture, capture_indexes },
                ),
            },
        },
    }
}

/// Translates and compiles the regular expression of a condition.
pub fn compile_condition(pattern: String, line: usize, case_sensitive: bool) -> (r: Result<
    RegexCondition,
    ParseError,
>)
    ensures
        match regex_of(pattern@, line as nat, case_sensitive) {
            Ok(model) => r matches Ok(found) && found@ == model,
            Err(error) => r matches Err(found) && found@ == error,
        },
{
    let (text, marked, force_case_insensitive) = match prepare_condition_regex(
        pattern.as_str(),
        line,
    ) {
        Ok(found) => found,
        Err(error) => {
            return Err(error);
        },
    };
    let (compiled, names) = match compile(
        text.as_str(),
        case_sensitive && !force_case_insensitive,
        MAX_REGEX_AST_NESTING,
        MAX_REGEX_COMPILED_SIZE,
    ) {
        Ok(found) => found,
        Err(message) => {
            return Err(
                ParseError::new(line, text2("invalid regular expression: ", message.as_str())),
            );
        },
    };
    match select_captures(&names, marked, line) {
        Ok((match_capture, capture_indexes)) => Ok(
            RegexCondition { pattern, compiled, match_capture, capture_indexes },
        ),
        Err(error) => Err(error),
    }
}

/// Whether at most one of the edits marks where `MATCH` starts.
pub open spec fn one_marker(edits: Seq<RegexEdit>) -> bool {
    forall|i: int, j: int|
        0 <= i < j < edits.len() && (#[trigger] edits[i]).replacement is MatchMarker ==> !((
        #[trigger] edits[j]).replacement is MatchMarker)
}

/// Whether the edits that stand for the ends of the text stand at its ends.
pub open spec fn ends_at_ends(bytes: Seq<u8>, edits: Seq<RegexEdit>) -> bool {
    forall|i: int|
        0 <= i < edits.len() ==> {
            &&& (#[trigger] edits[i]).replacement is TextStart ==> edits[i].start == 0
            &&& edits[i].replacement is TextEnd ==> edits[i].end == bytes.len()
        }
}

proof fn lemma_edits(
    bytes: Seq<u8>,
    nodes: Seq<(NodeKind, usize, usize)>,
    left: nat,
    edits: Seq<RegexEdit>,
    line: nat,
)
    requires
        bytes.len() <= usize::MAX,
        one_marker(edits),
        ends_at_ends(bytes, edits),
        edits.len() <= MAX_REGEX_PATTERN_LEN,
        edits_from(bytes, nodes, left, edits, line) is Ok,
    ensures
        ({
            let found = edits_from(bytes, nodes, left, edits, line)->Ok_0;
            one_marker(found) && ends_at_ends(bytes, found) && found.len()
                <= MAX_REGEX_PATTERN_LEN
        }),
    decreases left,
{
    if left > 0 {
        let node = nodes[left - 1];
        match node_edit(bytes, node, covered(edits, node.1), line) {
            Ok(None) => {
                lemma_edits(bytes, nodes, (left - 1) as nat, edits, line);
            },
            Ok(Some(edit)) => {
                assert(one_marker(edits.push(edit))) by {
                    assert forall|i: int, j: int|
                        0 <= i < j < edits.len() + 1 && (#[trigger] edits.push(
                            edit,
                        )[i]).replacement is MatchMarker implies !((#[trigger] edits.push(
                        edit,
                    )[j]).replacement is MatchMarker) by {
                        assert(edits.push(edit)[i] == edits[i]);
                        if j < edits.len() {
                            assert(edits.push(edit)[j] == edits[j]);
                        }
                    }
                }
                lemma_edits(bytes, nodes, (left - 1) as nat, edits.push(edit), line);
            },
            Err(_) => {},
        }
    }
}

proof fn lemma_put_keeps_ends(bytes: Seq<u8>, edits: Seq<RegexEdit>, edit: RegexEdit)
    requires
        ends_at_ends(bytes, edits),
        ends_at_ends(bytes, seq![edit]),
    ensures
        ends_at_ends(bytes, put_in_order(edits, edit)),
        put_in_order(edits, edit).len() == edits.len() + 1,
    decreases edits.len(),
{
    assert(seq![edit][0] == edit);
    if edits.len() > 0 && edits.last().start > edit.start {
        let shorter = edits.drop_last();
        assert(ends_at_ends(bytes, shorter)) by {
            assert forall|i: int| 0 <= i < shorter.len() implies {
                &&& (#[trigger] shorter[i]).replacement is TextStart ==> shorter[i].start == 0
                &&& shorter[i].replacement is TextEnd ==> shorter[i].end == bytes.len()
            } by {
                assert(shorter[i] == edits[i]);
            }
        }
        lemma_put_keeps_ends(bytes, shorter, edit);
        assert(edits.last() == edits[edits.len() - 1]);
    }
}

proof fn lemma_order_keeps_ends(bytes: Seq<u8>, edits: Seq<RegexEdit>, n: nat)
    requires
        ends_at_ends(bytes, edits),
        n <= edits.len(),
    ensures
        ends_at_ends(bytes, in_order(edits, n)),
        in_order(edits, n).len() == n,
    decreases n,
{
    if n > 0 {
        lemma_order_keeps_ends(bytes, edits, (n - 1) as nat);
        assert(seq![edits[n - 1]][0] == edits[n - 1]);
        lemma_put_keeps_ends(bytes, in_order(edits, (n - 1) as nat), edits[n - 1]);
    }
}

/// In every pattern that is accepted, `^^` stands for the start of the text
/// only at the pattern's start, and for its end only at the pattern's end, and
/// the edits are bounded.
pub proof fn double_carets_stand_only_at_the_ends(
    bytes: Seq<u8>,
    nodes: Seq<(NodeKind, usize, usize)>,
    line: nat,
)
    requires
        bytes.len() <= usize::MAX,
        edits_of(bytes, nodes, line) is Ok,
    ensures
        ends_at_ends(bytes, edits_of(bytes, nodes, line)->Ok_0),
        edits_of(bytes, nodes, line)->Ok_0.len() <= MAX_REGEX_PATTERN_LEN,
{
    lemma_edits(bytes, nodes, nodes.len(), Seq::empty(), line);
    let edits = edits_from(bytes, nodes, nodes.len(), Seq::empty(), line)->Ok_0;
    lemma_order_keeps_ends(bytes, edits, edits.len());
}

/// A pattern that is accepted marks where `MATCH` starts at most once.
pub proof fn match_starts_at_most_once(bytes: Seq<u8>, nodes: Seq<(NodeKind, usize, usize)>, line: nat)
    requires
        bytes.len() <= usize::MAX,
        edits_from(bytes, nodes, nodes.len(), Seq::empty(), line) is Ok,
    ensures
        one_marker(edits_from(bytes, nodes, nodes.len(), Seq::empty(), line)->Ok_0),
{
    lemma_edits(bytes, nodes, nodes.len(), Seq::empty(), line);
}

proof fn lemma_rendered_bounded(
    bytes: Seq<u8>,
    edits: Seq<RegexEdit>,
    i: nat,
    cursor: int,
    output: Seq<u8>,
    line: nat,
)
    requires
        rendered_from(bytes, edits, i, cursor, output, line) is Ok,
    ensures
        rendered_from(bytes, edits, i, cursor, output, line)->Ok_0.len() <= MAX_REGEX_PATTERN_LEN,
    decreases edits.len() - i,
{
    if i < edits.len() {
        let edit = edits[i as int];
        let kept = pattern_extended(
            output,
            bytes.subrange(cursor, edit.start as int),
            line,
        )->Ok_0;
        let replaced = pattern_extended(
            kept,
            encode_utf8(edit.replacement.spelled()),
            line,
        )->Ok_0;
        lemma_rendered_bounded(bytes, edits, i + 1, edit.end as int, replaced, line);
    }
}

/// However a pattern is translated, what is compiled is no longer than patterns
/// may be.
pub proof fn translated_patterns_are_bounded(
    pattern: Seq<char>,
    edits: Seq<RegexEdit>,
    line: nat,
)
    requires
        rendered(pattern, edits, line) is Ok,
    ensures
        text::byte_len(rendered(pattern, edits, line)->Ok_0) <= MAX_REGEX_PATTERN_LEN,
{
    let bytes = rendered_from(encode_utf8(pattern), edits, 0, 0, Seq::empty(), line)->Ok_0;
    lemma_rendered_bounded(encode_utf8(pattern), edits, 0, 0, Seq::empty(), line);
    decode_utf8_encode_utf8(bytes);
}

/// A pattern that needs no edit is compiled as it is written.
pub proof fn patterns_without_edits_stay_as_they_are(pattern: Seq<char>, line: nat)
    requires
        text::byte_len(pattern) <= MAX_REGEX_PATTERN_LEN,
    ensures
        rendered(pattern, Seq::empty(), line) == Ok::<Seq<char>, Refusal>(pattern),
{
    let bytes = encode_utf8(pattern);
    encode_utf8_valid_utf8(pattern);
    encode_utf8_decode_utf8(pattern);
    assert(is_char_boundary(bytes, 0));
    assert(bytes.subrange(0, bytes.len() as int) =~= bytes);
    assert(Seq::<u8>::empty() + bytes =~= bytes);
}

} // verus!
