//! What takes the place of the signs of a pattern, and which groups of it are
//! told.

use vstd::prelude::*;
use vstd::utf8::*;

use crate::config::errors::Refusal;
use crate::config::regex_condition::{self, NodeKind, RegexEdit, Replacement};
use crate::text;

verus! {

/// What a caret in a pattern becomes. Two of them are the start of the text,
/// where the pattern begins with them, or its end, where it ends with them; a
/// caret before one of four words is what that word stands for; and every other
/// one is the start of a line. What is replaced is the caret and its word.
pub proof fn carets_are_told_by_what_follows(
    bytes: Seq<u8>,
    node: (NodeKind, usize, usize),
    line: nat,
)
    requires
        node.1 + 12 <= usize::MAX,
    ensures
        ({
            let result = regex_condition::caret_edit(bytes, node, line);
            let stands = |word: Seq<char>| regex_condition::stands_at(bytes, node.1 as int, word);
            &&& result is Err <==> stands("^^"@) && node.1 != 0 && node.1 + 2 != bytes.len()
            &&& result matches Ok(edit) ==> {
                &&& edit.start == node.1
                &&& match edit.replacement {
                    Replacement::TextStart => stands("^^"@) && node.1 == 0 && edit.end == node.1
                        + 2,
                    Replacement::TextEnd => stands("^^"@) && node.1 + 2 == bytes.len() && edit.end
                        == node.1 + 2,
                    Replacement::FromDaemon => stands("^FROM_DAEMON"@) && !stands("^^"@) && edit.end
                        == node.1 + 12,
                    Replacement::FromMailer => stands("^FROM_MAILER"@) && !stands("^^"@) && edit.end
                        == node.1 + 12,
                    Replacement::ToAddress => stands("^TO_"@) && !stands("^^"@) && edit.end
                        == node.1 + 4,
                    Replacement::ToWord => stands("^TO"@) && !stands("^TO_"@) && !stands("^^"@)
                        && edit.end == node.1 + 3,
                    Replacement::LineStart => !stands("^^"@) && !stands("^FROM_DAEMON"@) && !stands(
                        "^FROM_MAILER"@,
                    ) && !stands("^TO_"@) && !stands("^TO"@) && edit.end == node.2,
                    _ => false,
                }
            }
        }),
{
    lemma_words();
}

proof fn lemma_words()
    ensures
        text::byte_len("^^"@) == 2,
        text::byte_len("^FROM_DAEMON"@) == 12,
        text::byte_len("^FROM_MAILER"@) == 12,
        text::byte_len("^TO_"@) == 4,
        text::byte_len("^TO"@) == 3,
{
    reveal_strlit("^^");
    reveal_strlit("^FROM_DAEMON");
    reveal_strlit("^FROM_MAILER");
    reveal_strlit("^TO_");
    reveal_strlit("^TO");
    lemma_ascii("^^"@);
    lemma_ascii("^FROM_DAEMON"@);
    lemma_ascii("^FROM_MAILER"@);
    lemma_ascii("^TO_"@);
    lemma_ascii("^TO"@);
}

proof fn lemma_ascii(word: Seq<char>)
    requires
        forall|i: int| 0 <= i < word.len() ==> '\0' <= #[trigger] word[i] <= '\u{7f}',
    ensures
        text::byte_len(word) == word.len(),
{
    is_ascii_chars_encode_utf8(word);
}

/// Which nodes of a pattern are replaced: `\/` among the literals, and among
/// the assertions `^`, `$`, `\<` and `\>`, but for those that a replacement
/// covers already.
pub proof fn signs_are_replaced(
    bytes: Seq<u8>,
    node: (NodeKind, usize, usize),
    is_covered: bool,
    line: nat,
)
    ensures
        ({
            let result = regex_condition::node_edit(bytes, node, is_covered, line);
            let reads = |word: Seq<char>| regex_condition::node_is(bytes, node, word);
            &&& result matches Ok(Some(edit)) ==> match edit.replacement {
                Replacement::MatchMarker => node.0 is Literal && reads("\\/"@) && edit.start
                    == node.1 && edit.end == node.2,
                Replacement::LineEnd => node.0 is Assertion && !is_covered && reads("$"@)
                    && edit.start == node.1 && edit.end == node.2,
                Replacement::WordEdge => node.0 is Assertion && !is_covered && (reads("\\<"@) || reads(
                    "\\>"@,
                )) && edit.start == node.1 && edit.end == node.2,
                _ => node.0 is Assertion && !is_covered && reads("^"@) && Ok::<
                    RegexEdit,
                    Refusal,
                >(edit) == regex_condition::caret_edit(bytes, node, line),
            }
            &&& result matches Ok(None) ==> {
                &&& node.0 is Literal ==> !reads("\\/"@)
                &&& node.0 is Assertion && !is_covered ==> !reads("^"@) && !reads("$"@)
                    && !reads("\\<"@) && !reads("\\>"@)
            }
            &&& result is Err ==> node.0 is Assertion && !is_covered && reads("^"@)
        }),
{
    let result = regex_condition::node_edit(bytes, node, is_covered, line);
    if node.0 is Assertion && !is_covered && regex_condition::node_is(bytes, node, "^"@) {
        let edit = regex_condition::caret_edit(bytes, node, line);
        assert(edit is Ok ==> !(edit->Ok_0.replacement is MatchMarker) && !(
        edit->Ok_0.replacement is LineEnd) && !(edit->Ok_0.replacement is WordEdge));
    }
}

/// What stands for a sign in the pattern that is compiled: for a line's start
/// and end what a line feed or the text's end tells, for the four words the
/// fields that name recipients, and the senders that are programs.
pub proof fn replacements_have_their_spelling()
    ensures
        Replacement::TextStart.spelled() == "\\A"@,
        Replacement::TextEnd.spelled() == "\\z"@,
        Replacement::LineStart.spelled() == "(?:\\A|\\n)"@,
        Replacement::LineEnd.spelled() == "(?:\\n|\\z)"@,
        Replacement::WordEdge.spelled() == "[^a-zA-Z0-9_]"@,
        Replacement::MatchMarker.spelled() == "(?P<__procmail_rs_match_0>)"@,
        Replacement::ToAddress.spelled() == "(?:^(?:(?:Original-)?(?:Resent-)?(?:To|Cc|Bcc)|(?:X-Envelope|Apparently(?:-Resent)?)\
    -To):(?:.*[^-a-zA-Z0-9_.])?)"@,
        Replacement::ToWord.spelled() == "(?:^(?:(?:Original-)?(?:Resent-)?(?:To|Cc|Bcc)|(?:X-Envelope|Apparently(?:-Resent)?)\
    -To):(?:.*[^a-zA-Z])?)"@,
        Replacement::FromDaemon.spelled() == "(?:^(?:Mailing-List:|Precedence:.*(?:junk|bulk|list)|To: Multiple recipients of |(?:\
    (?:(?:Resent-)?(?:From|Sender)|X-Envelope-From):|>?From )(?:[^>]*[^(.%@a-z0-9])?(?:P\
    ost(?:ma?(?:st(?:e?r)?|n)|office)|(?:send)?Mail(?:er)?|daemon|m(?:mdf|ajordomo)|n?uu\
    cp|LIST(?:SERV|proc)|NETSERV|o(?:wner|ps)|r(?:e(?:quest|sponse)|oot)|b(?:ounce|bs\\.\
    smtp)|echo|mirror|s(?:erv(?:ices?|er)|mtp(?:error)?|ystem)|A(?:dmin(?:istrator)?|MMG\
    R|utoanswer))(?:(?:[^).!:a-z0-9][-_a-z0-9]*)?[%@>\t ][^<)]*(?:\\(.*\\).*)?)?$(?:[^>]\
    |$)))"@,
        Replacement::FromMailer.spelled() == "(?:^(?:(?:(?:Resent-)?(?:From|Sender)|X-Envelope-From):|>?From )(?:[^>]*[^(.%@a-z0-9\
    ])?(?:Post(?:ma(?:st(?:er)?|n)|office)|(?:send)?Mail(?:er)?|daemon|mmdf|n?uucp|ops|r\
    (?:esponse|oot)|(?:bbs\\.)?smtp(?:error)?|s(?:erv(?:ices?|er)|ystem)|A(?:dmin(?:istr\
    ator)?|MMGR))(?:(?:[^).!:a-z0-9][-_a-z0-9]*)?[%@>\t ][^<)]*(?:\\(.*\\).*)?)?$(?:[^>]\
    |$))"@,
{
}

/// A replacement takes the place of its piece of the pattern and leaves the
/// rest as it is.
pub proof fn replacements_leave_the_rest_alone(bytes: Seq<u8>, edit: RegexEdit, line: nat)
    requires
        regex_condition::rendered_from(bytes, seq![edit], 0, 0, Seq::empty(), line) is Ok,
    ensures
        edit.start <= edit.end <= bytes.len(),
        regex_condition::rendered_from(bytes, seq![edit], 0, 0, Seq::empty(), line)->Ok_0
            == bytes.take(edit.start as int) + encode_utf8(edit.replacement.spelled())
            + bytes.skip(edit.end as int),
{
    reveal_with_fuel(regex_condition::rendered_from, 3);
    let before = bytes.take(edit.start as int);
    let middle = encode_utf8(edit.replacement.spelled());
    assert(Seq::<u8>::empty() + bytes.subrange(0, edit.start as int) =~= before);
    assert(bytes.subrange(edit.end as int, bytes.len() as int) =~= bytes.skip(edit.end as int));
}

/// Whether each replacement begins no earlier than the one before it.
pub open spec fn sorted(edits: Seq<RegexEdit>) -> bool {
    forall|i: int, j: int| 0 <= i < j < edits.len() ==> edits[i].start <= edits[j].start
}

proof fn lemma_put_in_order(edits: Seq<RegexEdit>, edit: RegexEdit)
    requires
        sorted(edits),
    ensures
        sorted(regex_condition::put_in_order(edits, edit)),
        regex_condition::put_in_order(edits, edit).to_multiset() == edits.to_multiset().insert(
            edit,
        ),
        regex_condition::put_in_order(edits, edit).len() == edits.len() + 1,
        forall|i: int|
            0 <= i <= edits.len() ==> (#[trigger] regex_condition::put_in_order(edits, edit)[i])
                == edit || edits.contains(regex_condition::put_in_order(edits, edit)[i]),
    decreases edits.len(),
{
    broadcast use vstd::seq_lib::group_to_multiset_ensures;

    let after = regex_condition::put_in_order(edits, edit);
    if edits.len() == 0 || edits.last().start <= edit.start {
        assert forall|i: int| 0 <= i <= edits.len() implies (#[trigger] after[i]) == edit
            || edits.contains(after[i]) by {
            if i < edits.len() {
                assert(after[i] == edits[i]);
            }
        }
    } else {
        let shorter = edits.drop_last();
        lemma_put_in_order(shorter, edit);
        let inner = regex_condition::put_in_order(shorter, edit);
        assert(after == inner.push(edits.last()));
        assert forall|i: int| 0 <= i <= edits.len() implies (#[trigger] after[i]) == edit
            || edits.contains(after[i]) by {
            if i < edits.len() {
                assert(after[i] == inner[i]);
                if inner[i] != edit {
                    let k = choose|k: int| 0 <= k < shorter.len() && shorter[k] == inner[i];
                    assert(edits[k] == after[i]);
                }
            } else {
                assert(after[i] == edits[edits.len() - 1]);
            }
        }
        assert forall|i: int, j: int| 0 <= i < j < after.len() implies after[i].start
            <= after[j].start by {
            if j < inner.len() {
                assert(after[i] == inner[i] && after[j] == inner[j]);
            } else {
                assert(after[i] == inner[i]);
                if inner[i] != edit {
                    let k = choose|k: int| 0 <= k < shorter.len() && shorter[k] == inner[i];
                    assert(edits[k].start <= edits.last().start);
                }
            }
        }
        assert(shorter.push(edits.last()) =~= edits);
        assert(shorter.to_multiset().insert(edits.last()) =~= edits.to_multiset());
        assert(after.to_multiset() =~= edits.to_multiset().insert(edit));
    }
}

/// Replacements are put in the order of their places, and none is lost or made
/// up on the way.
pub proof fn replacements_are_put_in_order(edits: Seq<RegexEdit>, n: nat)
    requires
        n <= edits.len(),
    ensures
        sorted(regex_condition::in_order(edits, n)),
        regex_condition::in_order(edits, n).to_multiset() == edits.take(n as int).to_multiset(),
    decreases n,
{
    broadcast use vstd::seq_lib::group_to_multiset_ensures;

    if n > 0 {
        replacements_are_put_in_order(edits, (n - 1) as nat);
        let before = regex_condition::in_order(edits, (n - 1) as nat);
        lemma_put_in_order(before, edits[n - 1]);
        assert(edits.take(n as int) =~= edits.take(n - 1).push(edits[n - 1]));
    } else {
        assert(regex_condition::in_order(edits, n) =~= edits.take(0));
    }
}

/// The groups of a pattern that are told are all but the whole match and the
/// one that marks where `MATCH` begins, in their order.
pub proof fn groups_are_told_in_order(n: nat, left_out: Option<usize>, group: usize)
    requires
        n <= usize::MAX,
    ensures
        regex_condition::groups_below(n, left_out).contains(group) <==> 1 <= group < n && left_out
            != Some(group),
        forall|i: int, j: int|
            0 <= i < j < regex_condition::groups_below(n, left_out).len()
                ==> regex_condition::groups_below(n, left_out)[i]
                < regex_condition::groups_below(n, left_out)[j],
        forall|i: int|
            0 <= i < regex_condition::groups_below(n, left_out).len() ==> 1
                <= #[trigger] regex_condition::groups_below(n, left_out)[i] < n,
    decreases n,
{
    if n > 1 {
        groups_are_told_in_order((n - 1) as nat, left_out, group);
        let rest = regex_condition::groups_below((n - 1) as nat, left_out);
        let last = (n - 1) as usize;
        let all = regex_condition::groups_below(n, left_out);
        if left_out != Some(last) {
            assert(all == rest.push(last));
            assert(all[rest.len() as int] == last);
            if rest.contains(group) {
                let k = choose|k: int| 0 <= k < rest.len() && rest[k] == group;
                assert(all[k] == group);
            }
            if all.contains(group) {
                let k = choose|k: int| 0 <= k < all.len() && all[k] == group;
                if k < rest.len() {
                    assert(rest[k] == group);
                }
            }
        }
    }
}

/// A pattern has 64 groups at most, and gives none of them a name: the only
/// name is that of the mark where `MATCH` begins, and it is there where the
/// pattern has such a mark.
pub proof fn groups_have_no_names(names: Seq<Option<Seq<char>>>, marked: bool, line: nat)
    requires
        names.len() <= usize::MAX,
    ensures
        ({
            let found = regex_condition::captures_of(names, marked, line);
            let unnamed = forall|i: int| 0 <= i < names.len() ==> (#[trigger] names[i]) is None;
            &&& !marked && unnamed && names.len() <= 65 ==> found is Ok
            &&& !marked && !unnamed ==> found is Err
            &&& marked && unnamed ==> found is Err
            &&& found matches Ok((marker, groups)) ==> {
                &&& groups.len() <= 64
                &&& marker is Some <==> marked
                &&& forall|i: int|
                    0 <= i < names.len() && (#[trigger] names[i]) is Some ==> marker == Some(
                        i as usize,
                    ) && names[i] == Some("__procmail_rs_match_0"@)
                &&& groups == regex_condition::groups_below(names.len(), marker)
            }
        }),
{
    lemma_group_named(names, regex_condition::MATCH_MARKER@, 0);
    lemma_group_count(names.len(), None);
    let found = regex_condition::captures_of(names, marked, line);
    if let Ok((marker, groups)) = found {
        assert forall|i: int| 0 <= i < names.len() && (#[trigger] names[i]) is Some implies marker
            == Some(i as usize) && names[i] == Some("__procmail_rs_match_0"@) by {}
    }
}

proof fn lemma_group_named(names: Seq<Option<Seq<char>>>, name: Seq<char>, i: int)
    requires
        0 <= i <= names.len() <= usize::MAX,
    ensures
        match regex_condition::group_named(names, name, i) {
            Some(k) => i <= k < names.len() && names[k as int] == Some(name),
            None => forall|j: int| i <= j < names.len() ==> (#[trigger] names[j]) != Some(name),
        },
    decreases names.len() - i,
{
    if i < names.len() && names[i] != Some(name) {
        lemma_group_named(names, name, i + 1);
    }
}

proof fn lemma_group_count(n: nat, left_out: Option<usize>)
    ensures
        n > 0 ==> regex_condition::groups_below(n, left_out).len() <= n - 1,
    decreases n,
{
    if n > 1 {
        lemma_group_count((n - 1) as nat, left_out);
    }
}

} // verus!
