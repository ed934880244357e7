//! What becomes of a message: what is kept of a command's output, how a mailbox
//! holds its records, and what follows a delivery.

use vstd::prelude::*;
use vstd::utf8::*;

use crate::config::analysis::{self, Scope};
use crate::config::arguments;
use crate::config::errors::Fault;
use crate::config::expansion;
use crate::config::expression::{ExpressionModel, OperationModel, PartModel};
use crate::config::recipe::{
    AssignmentModel, Config, DestinationKind, DestinationModel, OutputEnding,
};
use crate::config::shell_eval::{self, ContextModel};
use crate::config::variables::{self, AssignmentTarget};
use crate::configuration;
use crate::delivery::fanout;
use crate::delivery::failure::{self, DeliveryFailureClass, IoError, IoErrorKind};
use crate::delivery::local_lock::{self, LockMethod};
use crate::delivery::maildir::{
    self, CommitEvent, CommitModel, CommitPhase, Durability, FileIdentity,
};
use crate::delivery::mbox;
use crate::delivery::mbox_append::MboxAppendError;
use crate::delivery::sink::{self, PublishedDelivery, SinkCommitError, WriteVerdict};
use crate::delivery::staging;
use crate::delivery_runtime::{self, AttemptModel, DeliveryStage, FailureClass, SinkModel};
use crate::environment;
use crate::eval::{self, CapturedNewlineRule, CompiledModel, PlanProperties, SequenceControl};
use crate::message::MessageHead;
use crate::publication::{self, OperationalFault};
use crate::runtime;
use crate::text;

verus! {

/// Of an output that ends with line feeds, one rule drops the last of them and
/// the other all. Nothing else is dropped.
pub proof fn line_feeds_are_dropped_at_the_end(output: Seq<u8>)
    ensures
        eval::kept_output(output.push(10), CapturedNewlineRule::StripOne) == output,
        eval::kept_output(output.push(10), CapturedNewlineRule::StripAll) == eval::kept_output(
            output,
            CapturedNewlineRule::StripAll,
        ),
        output.len() == 0 || output.last() != 10 ==> eval::kept_output(
            output,
            CapturedNewlineRule::StripOne,
        ) == output && eval::kept_output(output, CapturedNewlineRule::StripAll) == output,
{
    assert(output.push(10).drop_last() =~= output);
}

/// Two parts of a plan together need what one of them needs.
pub proof fn joined_plans_need_what_either_needs(a: PlanProperties, b: PlanProperties)
    ensures
        ({
            let both = a.joined(b);
            &&& both.requirements.needs_headers <==> a.requirements.needs_headers
                || b.requirements.needs_headers
            &&& both.requirements.needs_body_contents <==> a.requirements.needs_body_contents
                || b.requirements.needs_body_contents
            &&& both.requirements.needs_end_of_message <==> a.requirements.needs_end_of_message
                || b.requirements.needs_end_of_message
            &&& both.requires_ordered_delivery <==> a.requires_ordered_delivery
                || b.requires_ordered_delivery
            &&& both.requires_preemptive_ordered_delivery
                <==> a.requires_preemptive_ordered_delivery
                || b.requires_preemptive_ordered_delivery
            &&& both.needs_message_contents <==> a.needs_message_contents
                || b.needs_message_contents
            &&& both.has_external_commands <==> a.has_external_commands || b.has_external_commands
        }),
{
}

/// A `HOST` that is not the machine's own ends the file; one that is goes on,
/// and so does every other assignment. Without a name of the machine `HOST`
/// fails.
pub proof fn other_hosts_end_the_file(
    assignment: AssignmentModel,
    hostname: Seq<char>,
    entries: Seq<(Seq<char>, Seq<u8>)>,
)
    requires
        eval::assigned(assignment, entries) is Ok,
    ensures
        ({
            let after = eval::assigned(assignment, entries)->Ok_0;
            let host = seq![CompiledModel::Host(assignment)];
            let other = seq![CompiledModel::Assignment(assignment)];
            &&& eval::executed(other, 0, None, entries) == (
                Ok::<SequenceControl, eval::EvalFault>(SequenceControl::Continue),
                after,
            )
            &&& eval::executed(host, 0, None, entries).0 is Err
            &&& runtime::text_of(after, "HOST"@) == Some(hostname) ==> eval::executed(
                host,
                0,
                Some(hostname),
                entries,
            ) == (Ok::<SequenceControl, eval::EvalFault>(SequenceControl::Continue), after)
            &&& runtime::text_of(after, "HOST"@) is Some && runtime::text_of(after, "HOST"@)
                != Some(hostname) ==> eval::executed(host, 0, Some(hostname), entries) == (
                Ok::<SequenceControl, eval::EvalFault>(SequenceControl::EndRcFile),
                after,
            )
        }),
{
    reveal_with_fuel(eval::executed, 3);
    assert(seq![CompiledModel::Host(assignment)][0] == CompiledModel::Host(assignment));
    assert(seq![CompiledModel::Assignment(assignment)][0] == CompiledModel::Assignment(assignment));
}

/// As many `>` as asked for.
pub open spec fn marks(n: nat) -> Seq<u8>
    decreases n,
{
    if n == 0 {
        Seq::empty()
    } else {
        seq![62u8] + marks((n - 1) as nat)
    }
}

proof fn lemma_marks(n: nat, rest: Seq<u8>)
    requires
        rest.len() == 0 || rest[0] != 62,
    ensures
        marks(n).len() == n,
        forall|i: int| 0 <= i < n ==> #[trigger] marks(n)[i] == 62,
        mbox::marks_end(marks(n) + rest, 0) == n,
    decreases n,
{
    if n > 0 {
        lemma_marks((n - 1) as nat, rest);
        assert forall|i: int| 0 <= i < n implies #[trigger] marks(n)[i] == 62 by {
            if i > 0 {
                assert(marks(n)[i] == marks((n - 1) as nat)[i - 1]);
            }
        }
    }
    lemma_marks_end(marks(n) + rest, 0, n as int);
}

proof fn lemma_marks_end(line: Seq<u8>, i: int, n: int)
    requires
        0 <= i <= n <= line.len(),
        forall|j: int| i <= j < n ==> line[j] == 62,
        n < line.len() ==> line[n] != 62,
    ensures
        mbox::marks_end(line, i) == n,
    decreases n - i,
{
    if i < n {
        lemma_marks_end(line, i + 1, n);
    }
}

/// A line of a message that begins with `From `, behind any number of `>`, gets
/// one more `>`. Every other line stays as it is.
pub proof fn from_lines_are_marked(n: nat, rest: Seq<u8>)
    requires
        rest.len() == 0 || rest[0] != 62,
    ensures
        ({
            let line = marks(n) + rest;
            let from = rest.len() >= 5 && rest[0] == 70 && rest[1] == 114 && rest[2] == 111
                && rest[3] == 109 && rest[4] == 32;
            &&& from ==> mbox::quoted_line(line) == marks(n + 1) + rest
            &&& !from ==> mbox::quoted_line(line) == line
        }),
{
    let line = marks(n) + rest;
    lemma_marks(n, rest);
    if n + 5 <= line.len() {
        let word = line.subrange(n as int, n as int + 5);
        assert(word[0] == rest[0] && word[1] == rest[1] && word[2] == rest[2] && word[3] == rest[3]
            && word[4] == rest[4]);
        if rest[0] == 70 && rest[1] == 114 && rest[2] == 111 && rest[3] == 109 && rest[4] == 32 {
            assert(word =~= seq![70u8, 114u8, 111u8, 109u8, 32u8]);
        }
    }
    assert(seq![62u8] + line =~= marks(n + 1) + rest);
}

/// A record is its postmark, its message and what closes it. The usual ending
/// closes the last line and adds an empty one; the other closes the last line
/// of a message that has one.
pub proof fn records_end_as_asked(postmark: Seq<u8>, message: Seq<u8>)
    ensures
        ({
            let body = postmark + mbox::quoted_from(message, 0);
            let closed = message.len() > 0 && message.last() == 10;
            let usual = mbox::record(postmark, message, OutputEnding::Normalize);
            let kept = mbox::record(postmark, message, OutputEnding::Preserve);
            &&& closed ==> usual == body + seq![10u8] && kept == body
            &&& !closed ==> usual == body + seq![10u8, 10u8]
            &&& message.len() > 0 && !closed ==> kept == body + seq![10u8]
            &&& message.len() == 0 ==> kept == body
        }),
{
    let body = postmark + mbox::quoted_from(message, 0);
    let none = Seq::<u8>::empty();
    assert(body + (none + none) =~= body);
    assert(none + seq![10u8] =~= seq![10u8]);
    assert(seq![10u8] + none =~= seq![10u8]);
    assert(seq![10u8] + seq![10u8] =~= seq![10u8, 10u8]);
}

/// A postmark is one line of at most 512 bytes that begins with `From ` and
/// prints up to its line feed.
pub proof fn postmarks_are_printable_lines(line: Seq<u8>)
    ensures
        mbox::postmark_fault(line.push(10)) is None <==> {
            &&& line.len() < 512
            &&& line.len() >= 5 && line[0] == 70 && line[1] == 114 && line[2] == 111 && line[3]
                == 109 && line[4] == 32
            &&& forall|i: int| 0 <= i < line.len() ==> 32 <= #[trigger] line[i] <= 126
        },
        line.len() == 0 || line.last() != 10 ==> mbox::postmark_fault(line) is Some,
{
    let whole = line.push(10);
    assert(mbox::MAX_POSTMARK_LEN == 512);
    if whole.len() >= 5 {
        let word = whole.subrange(0, 5);
        assert(word[0] == whole[0] && word[1] == whole[1] && word[2] == whole[2] && word[3]
            == whole[3] && word[4] == whole[4]);
        if line.len() >= 5 && line[0] == 70 && line[1] == 114 && line[2] == 111 && line[3] == 109
            && line[4] == 32 {
            assert(word =~= seq![70u8, 114u8, 111u8, 109u8, 32u8]);
        }
    }
    if mbox::postmark_fault(whole) is None {
        assert(mbox::from_at(whole, 0));
        assert(whole[4] == 32);
        assert forall|i: int| 0 <= i < line.len() implies 32 <= #[trigger] line[i] <= 126 by {
            assert(whole[i] == line[i]);
            assert(mbox::printable(whole[i]));
        }
    }
    if forall|i: int| 0 <= i < line.len() ==> 32 <= #[trigger] line[i] <= 126 {
        assert forall|i: int| 0 <= i < whole.len() - 1 implies mbox::printable(
            #[trigger] whole[i],
        ) && whole[i] != 10 by {
            assert(whole[i] == line[i]);
        }
    }
}

/// What follows an offer of bytes. All of them taken is the end, some of them
/// means to offer the rest, none is a failure; an interruption is tried again,
/// and every other failure is one.
pub proof fn what_is_not_taken_is_offered_again(
    offset: int,
    len: int,
    taken: usize,
    error: IoError,
)
    ensures
        taken > 0 && offset + taken >= len ==> sink::write_verdict(offset, len, Ok(taken))
            == WriteVerdict::Done,
        taken > 0 && offset + taken < len ==> sink::write_verdict(offset, len, Ok(taken))
            == (WriteVerdict::Continue { offset: offset + taken }),
        sink::write_verdict(offset, len, Ok(0usize)) matches WriteVerdict::Fail(failed)
            && failed.kind == IoErrorKind::WriteZero,
        error.kind == IoErrorKind::Interrupted ==> sink::write_verdict(offset, len, Err(error))
            == WriteVerdict::Retry(error@),
        error.kind != IoErrorKind::Interrupted ==> sink::write_verdict(offset, len, Err(error))
            == WriteVerdict::Fail(error@),
{
}

/// The class of a failure as it is traced.
pub proof fn failures_are_traced_by_class()
    ensures
        delivery_runtime::traced_class(DeliveryFailureClass::Retryable) == FailureClass::Transient,
        delivery_runtime::traced_class(DeliveryFailureClass::Permanent) == FailureClass::Permanent,
        delivery_runtime::traced_class(DeliveryFailureClass::Internal) == FailureClass::Internal,
{
}

/// What is traced of an attempt: each destination that was published, in its
/// order, and then the one that failed, with the class of its failure. The
/// attempt succeeds where nothing failed, and a failure can be handled where
/// nothing was published.
pub proof fn attempts_are_traced(
    attempt: AttemptModel,
    destinations: Seq<DestinationModel>,
    entries: Seq<(Seq<char>, Seq<u8>)>,
    i: int,
)
    requires
        attempt.published <= destinations.len(),
    ensures
        ({
            let after = delivery_runtime::consequences(attempt, destinations, entries);
            &&& attempt.failure is None ==> after.result == Ok::<nat, delivery_runtime::StepFault>(
                attempt.published,
            )
            &&& attempt.failure matches Some((_, error)) ==> after.result matches Err(fault)
                && fault.error == error && fault.can_handle == (attempt.published == 0)
            &&& 0 <= i < attempt.published ==> after.events[i].stage == DeliveryStage::Published
                && after.events[i].recipe_line == destinations[i].path.line
                && after.events[i].destination == destinations[i].kind
            &&& attempt.failure is None || attempt.published == destinations.len()
                ==> after.events.len() == attempt.published
            &&& attempt.failure is Some && attempt.published < destinations.len() ==> ({
                let last = after.events[attempt.published as int];
                let class = attempt.failure->Some_0.0;
                &&& after.events.len() == attempt.published + 1
                &&& last.recipe_line == destinations[attempt.published as int].path.line
                &&& last.stage == DeliveryStage::Failed(
                    match class {
                        DeliveryFailureClass::Retryable => FailureClass::Transient,
                        DeliveryFailureClass::Permanent => FailureClass::Permanent,
                        DeliveryFailureClass::Internal => FailureClass::Internal,
                    },
                )
            })
        }),
{
}

/// What a delivery takes from the variables: a time to wait for a lock, 1024
/// seconds unless it is set; a mask, octal 077 unless it is set; a kind of
/// lock, the kernel's unless it is set. A value that is none is refused for
/// good.
pub proof fn deliveries_read_their_settings(entries: Seq<(Seq<char>, Seq<u8>)>)
    ensures
        runtime::text_of(entries, "LOCKTIMEOUT"@) is None ==> delivery_runtime::lock_timeout_of(
            entries,
        ) == Ok::<nat, OperationalFault>(1024),
        runtime::text_of(entries, "LOCKTIMEOUT"@) matches Some(value)
            ==> match variables::seconds_of(value, 86400) {
            Some(seconds) => delivery_runtime::lock_timeout_of(entries) == Ok::<
                nat,
                OperationalFault,
            >(seconds),
            None => delivery_runtime::lock_timeout_of(entries) matches Err(fault)
                && fault is PermanentDestination,
        },
        runtime::text_of(entries, "UMASK"@) is None ==> delivery_runtime::umask_of(entries) == Ok::<
            nat,
            OperationalFault,
        >(63),
        runtime::text_of(entries, "UMASK"@) matches Some(value) ==> match variables::umask_of(
            value,
        ) {
            Some(mask) => delivery_runtime::umask_of(entries) == Ok::<nat, OperationalFault>(mask),
            None => delivery_runtime::umask_of(entries) matches Err(fault)
                && fault is PermanentDestination,
        },
        runtime::text_of(entries, "LOCKMETHOD"@) is None ==> delivery_runtime::lock_method_of(
            entries,
        ) == Ok::<LockMethod, OperationalFault>(LockMethod::Flock),
        runtime::text_of(entries, "LOCKMETHOD"@) == Some("flock"@)
            ==> delivery_runtime::lock_method_of(entries) == Ok::<LockMethod, OperationalFault>(
            LockMethod::Flock,
        ),
        runtime::text_of(entries, "LOCKMETHOD"@) == Some("dotlock"@)
            ==> delivery_runtime::lock_method_of(entries) == Ok::<LockMethod, OperationalFault>(
            LockMethod::Dotlock,
        ),
{
    reveal_strlit("flock");
    reveal_strlit("dotlock");
    assert("flock"@.len() == 5 && "dotlock"@.len() == 7);
}

/// The pieces with a slash between two of them.
pub open spec fn with_slashes(pieces: Seq<Seq<char>>) -> Seq<char>
    decreases pieces.len(),
{
    if pieces.len() == 0 {
        Seq::empty()
    } else if pieces.len() == 1 {
        pieces[0]
    } else {
        pieces[0] + seq!['/'] + with_slashes(pieces.skip(1))
    }
}

/// A path is split at each of its slashes: no piece holds one, and with a slash
/// between two of them the pieces are the path again.
pub proof fn paths_are_split_at_their_slashes(path: Seq<char>)
    ensures
        maildir::segments(path, 0).len() > 0,
        with_slashes(maildir::segments(path, 0)) == path,
        forall|i: int|
            0 <= i < maildir::segments(path, 0).len() ==> !(#[trigger] maildir::segments(
                path,
                0,
            )[i]).contains('/'),
{
    lemma_segments(path, 0);
    assert(path.skip(0) =~= path);
}

proof fn lemma_segments(path: Seq<char>, from: int)
    requires
        0 <= from <= path.len(),
    ensures
        maildir::segments(path, from).len() > 0,
        with_slashes(maildir::segments(path, from)) == path.skip(from),
        forall|i: int|
            0 <= i < maildir::segments(path, from).len() ==> !(#[trigger] maildir::segments(
                path,
                from,
            )[i]).contains('/'),
    decreases path.len() - from,
{
    let end = text::find_from(path, '/', from);
    text::lemma_first_place(path, '/', from);
    let all = maildir::segments(path, from);
    let piece = path.subrange(from, end);
    assert(!piece.contains('/')) by {
        if piece.contains('/') {
            let k = choose|k: int| 0 <= k < piece.len() && piece[k] == '/';
            assert(path[from + k] == '/');
        }
    }
    if end < path.len() {
        lemma_segments(path, end + 1);
        let rest = maildir::segments(path, end + 1);
        assert(all.skip(1) =~= rest);
        assert(all[0] == piece);
        assert(path.skip(from) =~= piece + seq!['/'] + path.skip(end + 1));
        assert forall|i: int| 0 <= i < all.len() implies !(#[trigger] all[i]).contains('/') by {
            if i > 0 {
                assert(all[i] == rest[i - 1]);
            }
        }
    } else {
        assert(path.skip(from) =~= piece);
    }
}

/// The way to a mail directory starts at the root or here, as the path does,
/// and takes the pieces that name something, in their order. A path with `..`
/// has none.
pub proof fn ways_follow_their_path(path: Seq<char>)
    ensures
        ({
            let way = maildir::directories_to(path);
            let pieces = maildir::segments(path, 0);
            &&& (exists|i: int| 0 <= i < pieces.len() && #[trigger] pieces[i] == ".."@) ==> way
                is Err
            &&& path.len() == 0 ==> way is Err
            &&& way matches Ok(steps) ==> steps.len() > 0 && steps[0] == (if path[0] == '/' {
                "/"@
            } else {
                "."@
            }) && steps.skip(1) == pieces.filter(
                |piece: Seq<char>| piece.len() > 0 && piece != "."@ && piece != ".."@,
            )
        }),
{
    let pieces = maildir::segments(path, 0);
    lemma_entries(pieces, pieces.len());
    assert(pieces.take(pieces.len() as int) =~= pieces);
    if let Ok(steps) = maildir::directories_to(path) {
        assert(steps.skip(1) =~= maildir::entries(pieces, pieces.len()));
    }
}

proof fn lemma_entries(pieces: Seq<Seq<char>>, n: nat)
    requires
        n <= pieces.len(),
    ensures
        maildir::entries(pieces, n) == pieces.take(n as int).filter(
            |piece: Seq<char>| piece.len() > 0 && piece != "."@ && piece != ".."@,
        ),
    decreases n,
{
    reveal(Seq::filter);
    if n > 0 {
        lemma_entries(pieces, (n - 1) as nat);
        let taken = pieces.take(n as int);
        assert(taken.drop_last() =~= pieces.take(n - 1));
        assert(taken.last() == pieces[n - 1]);
    } else {
        assert(pieces.take(0).len() == 0);
    }
}

/// A message becomes visible after its contents are synced, unless nothing is
/// to be durable, and where all is to be, both directories are synced behind
/// it. A failure ends the delivery at once.
pub proof fn publishing_goes_step_by_step(
    durability: Durability,
    name: String,
    failed: IoError,
    commit: CommitModel,
)
    ensures
        ({
            let at = |phase: CommitPhase, name: Option<Seq<char>>|
                CommitModel { durability, phase, name, error: None };
            let publishing = at(CommitPhase::Publishing, None);
            let visible = publishing.after(CommitEvent::Published(name));
            &&& at(CommitPhase::SyncingFile, None).after(CommitEvent::Done) == publishing
            &&& visible.name == Some(name@)
            &&& visible.error is None
            &&& durability is Full ==> visible.phase is SyncingTmp && visible.after(
                CommitEvent::Done,
            ).phase is SyncingNew && visible.after(CommitEvent::Done).after(
                CommitEvent::Done,
            ).phase is Ended
            &&& !(durability is Full) ==> visible.phase is Ended
            &&& commit.after(CommitEvent::Failed(failed)).phase is Ended
            &&& commit.after(CommitEvent::Failed(failed)).error == Some(failed@)
            &&& commit.after(CommitEvent::Failed(failed)).name == commit.name
            &&& commit.after(CommitEvent::FailedPublished(failed, name)).phase is Ended
            &&& commit.after(CommitEvent::FailedPublished(failed, name)).error == Some(failed@)
            &&& commit.after(CommitEvent::FailedPublished(failed, name)).name == Some(name@)
        }),
{
}

/// A shell is named by its absolute path of at most 4096 bytes: names with a
/// slash before each, none of them `.` or `..`, and no NUL.
pub proof fn shells_have_absolute_paths(path: Seq<char>)
    requires
        path.len() > 0,
        path[0] == '/',
    ensures
        environment::shell_path_fault(path) is None <==> {
            let pieces = maildir::segments(path.skip(1), 0);
            &&& text::byte_len(path) <= 4096
            &&& !path.contains('\0')
            &&& path.last() != '/'
            &&& forall|i: int|
                0 <= i < pieces.len() ==> (#[trigger] pieces[i]).len() > 0 && pieces[i] != "."@
                    && pieces[i] != ".."@
        },
{
    assert(text::rest_of(path) =~= path.skip(1));
    let pieces = maildir::segments(path.skip(1), 0);
    if environment::plain_pieces(pieces) {
        assert forall|i: int| 0 <= i < pieces.len() implies (#[trigger] pieces[i]).len() > 0
            && pieces[i] != "."@ && pieces[i] != ".."@ by {
            assert(maildir::names_entry(pieces[i]));
        }
    }
}

/// A path that does not begin with a slash is no shell.
pub proof fn relative_paths_are_no_shells(path: Seq<char>)
    requires
        path.len() == 0 || path[0] != '/',
    ensures
        environment::shell_path_fault(path) is Some,
{
}

/// What a command's environment is made of: the variables of the message in
/// their order, without the arguments.
pub proof fn environments_pass_variables_on(
    entries: Seq<(Seq<char>, Seq<u8>)>,
    name: Seq<char>,
    value: Seq<u8>,
)
    requires
        environment::passed_on(entries, entries.len()) is Ok,
    ensures
        ({
            let more = entries.push((name, value));
            let before = environment::passed_on(entries, entries.len())->Ok_0;
            let after = environment::passed_on(more, more.len());
            &&& arguments::positional_name(name) ==> after == Ok::<
                Seq<(Seq<char>, Seq<u8>)>,
                Seq<char>,
            >(before)
            &&& !arguments::positional_name(name) && environment::entry_fault(
                name,
                value,
            ) is None ==> after == Ok::<Seq<(Seq<char>, Seq<u8>)>, Seq<char>>(
                before.push((name, value)),
            )
            &&& !arguments::positional_name(name) && environment::entry_fault(
                name,
                value,
            ) is Some ==> after is Err
        }),
{
    let more = entries.push((name, value));
    lemma_passed(entries, more, entries.len());
    assert(more.last() == (name, value));
}

proof fn lemma_passed(
    entries: Seq<(Seq<char>, Seq<u8>)>,
    more: Seq<(Seq<char>, Seq<u8>)>,
    n: nat,
)
    requires
        n <= entries.len() <= more.len(),
        forall|i: int| 0 <= i < entries.len() ==> entries[i] == more[i],
    ensures
        environment::passed_on(entries, n) == environment::passed_on(more, n),
    decreases n,
{
    if n > 0 {
        lemma_passed(entries, more, (n - 1) as nat);
    }
}

/// The size of an environment: two bytes beside each name and value, for the
/// `=` and the end. It is admitted up to 262144 bytes.
pub proof fn environments_are_measured(
    entries: Seq<(Seq<char>, Seq<u8>)>,
    name: Seq<char>,
    value: Seq<u8>,
)
    requires
        environment::size_of(entries, entries.len()) is Ok,
    ensures
        ({
            let more = entries.push((name, value));
            let before = environment::size_of(entries, entries.len())->Ok_0;
            let size = before + text::byte_len(name) + value.len() + 2;
            if size <= 262144 {
                environment::size_of(more, more.len()) == Ok::<nat, Seq<char>>(size)
            } else {
                environment::size_of(more, more.len()) is Err
            }
        }),
        environment::size_of(Seq::empty(), 0) == Ok::<nat, Seq<char>>(0),
{
    let more = entries.push((name, value));
    lemma_sizes(entries, more, entries.len());
    assert(more.last() == (name, value));
}

proof fn lemma_sizes(
    entries: Seq<(Seq<char>, Seq<u8>)>,
    more: Seq<(Seq<char>, Seq<u8>)>,
    n: nat,
)
    requires
        n <= entries.len() <= more.len(),
        forall|i: int| 0 <= i < entries.len() ==> entries[i] == more[i],
    ensures
        environment::size_of(entries, n) == environment::size_of(more, n),
    decreases n,
{
    if n > 0 {
        lemma_sizes(entries, more, (n - 1) as nat);
    }
}

/// The lock of a recipe: none where none is asked for, the one that is named,
/// or else the destination's path and the extension, `.lock` unless it is set.
pub proof fn recipes_have_their_locks(
    path: Seq<char>,
    destination: DestinationModel,
    values: Map<Seq<char>, Seq<char>>,
)
    ensures
        publication::recipe_lockfile(None, Some(destination), values) == Ok::<
            Option<Seq<char>>,
            OperationalFault,
        >(None),
        path.len() > 0 ==> publication::recipe_lockfile(Some(path), Some(destination), values)
            == Ok::<Option<Seq<char>>, OperationalFault>(Some(path)),
        publication::recipe_lockfile(Some(Seq::empty()), None, values) is Err,
        destination.resolved(values) matches Ok(resolved) ==> ({
            let found = publication::recipe_lockfile(
                Some(Seq::empty()),
                Some(destination),
                values,
            );
            let extension = if values.contains_key("LOCKEXT"@) {
                values["LOCKEXT"@]
            } else {
                ".lock"@
            };
            match found {
                Ok(lock) => lock == Some(resolved.path.source + extension),
                Err(_) => publication::implicit_lockfile(resolved.path.source, extension) is Err,
            }
        }),
        destination.resolved(values) is Err ==> publication::recipe_lockfile(
            Some(Seq::empty()),
            Some(destination),
            values,
        ) is Err,
{
}

/// Of several settings of the time that commands have, the last one counts;
/// without one it is 960 seconds.
pub proof fn the_last_process_timeout_counts(
    values: Seq<(nat, Seq<char>)>,
    seconds: nat,
    line: nat,
)
    requires
        configuration::process_timeout_after(values, values.len()) is Ok,
    ensures
        values.len() == 0 ==> configuration::process_timeout_after(values, values.len()) == Ok::<
            nat,
            Seq<char>,
        >(960),
        ({
            let more = values.push((line, text::decimal(seconds)));
            let result = configuration::process_timeout_after(more, more.len());
            if 1 <= seconds <= 86400 {
                result == Ok::<nat, Seq<char>>(seconds)
            } else {
                result is Err
            }
        }),
{
    let more = values.push((line, text::decimal(seconds)));
    text::numbers_are_read_from_their_digits(seconds, u64::MAX as nat);
    lemma_process_timeouts(values, more, values.len());
    assert(more.last() == (line, text::decimal(seconds)));
}

proof fn lemma_process_timeouts(
    values: Seq<(nat, Seq<char>)>,
    more: Seq<(nat, Seq<char>)>,
    n: nat,
)
    requires
        n <= values.len() <= more.len(),
        forall|i: int| 0 <= i < values.len() ==> values[i] == more[i],
    ensures
        configuration::process_timeout_after(values, n) == configuration::process_timeout_after(
            more,
            n,
        ),
    decreases n,
{
    if n > 0 {
        lemma_process_timeouts(values, more, (n - 1) as nat);
    }
}

proof fn lemma_decimals_apart(a: nat, b: nat, rest: Seq<char>, other: Seq<char>)
    requires
        text::decimal(a) + seq!['.'] + rest == text::decimal(b) + seq!['.'] + other,
    ensures
        a == b,
        rest == other,
{
    let first = text::decimal(a) + seq!['.'] + rest;
    let n = text::decimal(a).len() as int;
    let m = text::decimal(b).len() as int;
    text::lemma_decimal_digits(a);
    text::lemma_decimal_digits(b);
    assert(first[n] == '.');
    assert((text::decimal(b) + seq!['.'] + other)[m] == '.');
    if n < m {
        assert(first[n] == text::decimal(b)[n]);
        assert(text::ascii_digit(text::decimal(b)[n]));
    } else if m < n {
        assert(first[m] == text::decimal(a)[m]);
        assert(text::ascii_digit(text::decimal(a)[m]));
    }
    assert(text::decimal(a) =~= first.subrange(0, n));
    assert(text::decimal(b) =~= first.subrange(0, n));
    text::decimals_are_read_back(a);
    text::decimals_are_read_back(b);
    assert(rest =~= first.subrange(n + 1, first.len() as int));
    assert(other =~= first.subrange(n + 1, first.len() as int));
}

/// The name of a staged message tells its process, its time, its number and the
/// attempt: two names are the same only where all of these are.
pub proof fn staging_names_differ(
    process: nat,
    time: nat,
    sequence: nat,
    attempt: nat,
    other: (nat, nat, nat, nat),
)
    requires
        staging::staging_name(process, time, sequence, attempt) == staging::staging_name(
            other.0,
            other.1,
            other.2,
            other.3,
        ),
    ensures
        other == (process, time, sequence, attempt),
        text::begins(staging::staging_name(process, time, sequence, attempt), "message."@),
{
    let first = lemma_staging_name(process, time, sequence, attempt);
    let second = lemma_staging_name(other.0, other.1, other.2, other.3);
    lemma_decimals_apart(process, other.0, first.0, second.0);
    lemma_decimals_apart(time, other.1, first.1, second.1);
    lemma_decimals_apart(sequence, other.2, text::decimal(attempt), text::decimal(other.3));
    text::decimals_are_read_back(attempt);
    text::decimals_are_read_back(other.3);
}

/// What stands behind the first and behind the second number of a name.
proof fn lemma_staging_name(process: nat, time: nat, sequence: nat, attempt: nat) -> (tails: (
    Seq<char>,
    Seq<char>,
))
    ensures
        tails.1 == text::decimal(sequence) + seq!['.'] + text::decimal(attempt),
        tails.0 == text::decimal(time) + seq!['.'] + tails.1,
        text::begins(staging::staging_name(process, time, sequence, attempt), "message."@),
        text::after_prefix(
            staging::staging_name(process, time, sequence, attempt),
            "message."@,
        ) == text::decimal(process) + seq!['.'] + tails.0,
{
    reveal_strlit(".");
    assert("."@ =~= seq!['.']);
    lemma_put_together(
        "message."@,
        text::decimal(process),
        text::decimal(time),
        text::decimal(sequence),
        text::decimal(attempt),
        seq!['.'],
    );
    let last = text::decimal(sequence) + seq!['.'] + text::decimal(attempt);
    (text::decimal(time) + seq!['.'] + last, last)
}

proof fn lemma_put_together(
    start: Seq<char>,
    a: Seq<char>,
    b: Seq<char>,
    c: Seq<char>,
    d: Seq<char>,
    dot: Seq<char>,
)
    ensures
        ({
            let whole = start + a + dot + b + dot + c + dot + d;
            &&& text::begins(whole, start)
            &&& text::after_prefix(whole, start) == a + dot + (b + dot + (c + dot + d))
        }),
{
    let whole = start + a + dot + b + dot + c + dot + d;
    assert(whole.subrange(0, start.len() as int) =~= start);
    assert(text::after_prefix(whole, start) =~= a + dot + (b + dot + (c + dot + d)));
}

/// Expansions lead no deeper than 32 levels. A value that was itself expanded
/// counts the levels behind it and one more.
pub proof fn expansions_are_shallow(
    context: ContextModel,
    depth: nat,
    nesting: nat,
    used_word: bool,
    empty: bool,
)
    requires
        depth < usize::MAX,
    ensures
        ({
            let found = shell_eval::selected_depth(context, depth, nesting, used_word, empty);
            &&& found matches Ok(levels) ==> levels <= 32
            &&& context.purpose is Configuration ==> (found is Ok <==> depth < 32)
            &&& context.purpose is Configuration && found is Ok ==> found->Ok_0 == depth + 1
            &&& context.purpose is RuntimeText && used_word ==> (found is Ok <==> depth <= 32)
            &&& context.purpose is RuntimeText && !used_word && !empty ==> (found is Ok <==> nesting
                < 32)
            &&& context.purpose is RuntimeBytes || context.purpose is ShellCondition ==> found
                == Ok::<nat, Fault>(0)
        }),
{
}

/// What is found out of an expression of one part. A text needs nothing. A
/// command waits for the message. A reference to a variable that nobody sets
/// misses it, unless the operation gives another answer; one to a variable that
/// the message sets waits for the message; one that a recipe may change is not
/// fixed.
pub proof fn references_are_analyzed(scope: Scope, name: Seq<char>, written: Seq<char>)
    ensures
        ({
            let alone = |part: PartModel|
                analysis::analyzed(scope, ExpressionModel { parts: seq![part] });
            let value = alone(PartModel::Variable { name, operation: OperationModel::Value });
            let length = alone(PartModel::Variable { name, operation: OperationModel::Length });
            let quoted = alone(PartModel::RegexQuotedVariable(name));
            let literal = alone(PartModel::Literal(written));
            let command = alone(PartModel::Command(written));
            let runtime = variables::policy_of(name) is RuntimeOnly;
            let known = scope.known.contains_key(name);
            let dynamic = scope.dynamic.contains(name);
            &&& literal == analysis::nothing_referred()
            &&& command.has_command && command.needs_runtime && !command.shell_condition_static
            &&& command.missing_runtime is None
            &&& value.missing_runtime == (if known || dynamic || runtime {
                None
            } else {
                Some(name)
            })
            &&& value.missing_shell_condition == value.missing_runtime
            &&& value.missing_path == (if known || runtime {
                None
            } else {
                Some(name)
            })
            &&& value.needs_runtime <==> runtime
            &&& value.has_runtime_variable <==> runtime
            &&& value.references_dynamic <==> dynamic
            &&& value.shell_condition_static <==> known && !dynamic && !runtime
            &&& !value.has_command && !value.has_assignment
            &&& length.missing_runtime == value.missing_runtime
            &&& quoted.has_regex_quoted_variable && quoted.needs_runtime
            &&& quoted.missing_shell_condition == (if known || dynamic || runtime {
                None
            } else {
                Some(name)
            })
            &&& quoted.shell_condition_static <==> known && !dynamic && !runtime
        }),
        analysis::nothing_referred().missing_runtime is None,
        analysis::nothing_referred().shell_condition_static,
        !analysis::nothing_referred().needs_runtime,
{
    lemma_analyzed(
        scope,
        PartModel::Variable { name, operation: OperationModel::Value },
    );
    lemma_analyzed(
        scope,
        PartModel::Variable { name, operation: OperationModel::Length },
    );
    lemma_analyzed(scope, PartModel::RegexQuotedVariable(name));
    lemma_analyzed(scope, PartModel::Literal(written));
    lemma_analyzed(scope, PartModel::Command(written));
}

proof fn lemma_analyzed(scope: Scope, part: PartModel)
    ensures
        analysis::analyzed(scope, ExpressionModel { parts: seq![part] }) == analysis::with_part(
            scope,
            analysis::nothing_referred(),
            part,
        ),
{
    let parts = seq![part];
    assert(parts[0] == part);
    reveal_with_fuel(analysis::analyzed_parts, 3);
}

/// A word that is not called for is not looked at. `${NAME:-$OTHER}` misses
/// `OTHER` exactly where `NAME` has no known value, or an empty one, and nobody
/// sets `OTHER`; `${NAME+$OTHER}` where `NAME` has a value.
pub proof fn only_words_that_are_called_for_are_analyzed(
    scope: Scope,
    name: Seq<char>,
    other: Seq<char>,
)
    requires
        !scope.dynamic.contains(name),
        !(variables::policy_of(name) is RuntimeOnly),
    ensures
        ({
            let word = ExpressionModel {
                parts: seq![
                    PartModel::Variable { name: other, operation: OperationModel::Value },
                ],
            };
            let alone = |operation: OperationModel|
                analysis::analyzed(
                    scope,
                    ExpressionModel { parts: seq![PartModel::Variable { name, operation }] },
                ).missing_runtime;
            let missed = if scope.known.contains_key(other) || scope.dynamic.contains(other)
                || variables::policy_of(other) is RuntimeOnly {
                None
            } else {
                Some(other)
            };
            let set = scope.known.contains_key(name);
            let empty = set && scope.known[name].text.len() == 0;
            &&& alone(OperationModel::DefaultIfUnset(word)) == if set {
                None
            } else {
                missed
            }
            &&& alone(OperationModel::DefaultIfUnsetOrEmpty(word)) == if set && !empty {
                None
            } else {
                missed
            }
            &&& alone(OperationModel::AlternateIfSet(word)) == if set {
                missed
            } else {
                None
            }
            &&& alone(OperationModel::AlternateIfSetAndNotEmpty(word)) == if set && !empty {
                missed
            } else {
                None
            }
            &&& alone(OperationModel::AssignIfUnsetOrEmpty(word)) == if set && !empty {
                None
            } else {
                missed
            }
        }),
{
    let inner = PartModel::Variable { name: other, operation: OperationModel::Value };
    let word = ExpressionModel { parts: seq![inner] };
    lemma_analyzed(scope, inner);
    lemma_analyzed(
        scope,
        PartModel::Variable { name, operation: OperationModel::DefaultIfUnset(word) },
    );
    lemma_analyzed(
        scope,
        PartModel::Variable { name, operation: OperationModel::DefaultIfUnsetOrEmpty(word) },
    );
    lemma_analyzed(
        scope,
        PartModel::Variable { name, operation: OperationModel::AlternateIfSet(word) },
    );
    lemma_analyzed(
        scope,
        PartModel::Variable { name, operation: OperationModel::AlternateIfSetAndNotEmpty(word) },
    );
    lemma_analyzed(
        scope,
        PartModel::Variable { name, operation: OperationModel::AssignIfUnsetOrEmpty(word) },
    );
}

/// What an attempt on one sink comes to. A commit publishes one message and
/// tells where; a failed one has published it where it says so, and fails with
/// the class of its failure.
pub proof fn commits_publish_one_message(outcome: Result<PublishedDelivery, SinkCommitError>)
    ensures
        ({
            let attempt = delivery_runtime::sink_attempt(outcome);
            match outcome {
                Ok(published) => attempt.published == 1 && attempt.last_folder == Some(published@)
                    && attempt.failure is None,
                Err(error) => {
                    &&& attempt.published == 1 <==> error@.published is Some
                    &&& attempt.published == 0 <==> error@.published is None
                    &&& attempt.last_folder == error@.published
                    &&& attempt.failure matches Some((class, fault)) && class == failure::class_of(
                        error@.source,
                    ) && fault.status() == match class {
                        DeliveryFailureClass::Retryable => Some(75u8),
                        DeliveryFailureClass::Permanent => Some(73u8),
                        DeliveryFailureClass::Internal => Some(70u8),
                    }
                },
            }
        }),
{
}

/// The same of an append to a mailbox. A mailbox that could not be restored is
/// a failure of the program.
pub proof fn appends_publish_one_message(
    outcome: Result<PublishedDelivery, MboxAppendError>,
    path: Seq<char>,
)
    ensures
        ({
            let attempt = delivery_runtime::mbox_attempt(outcome, path);
            match outcome {
                Ok(published) => attempt.published == 1 && attempt.last_folder == Some(published@)
                    && attempt.failure is None,
                Err(error) => {
                    &&& error@.published ==> attempt.published == 1 && attempt.last_folder == Some(
                        path,
                    )
                    &&& !error@.published ==> attempt.published == 0 && attempt.last_folder is None
                    &&& attempt.failure matches Some((class, fault)) && class == (
                    if error@.rollback is Some {
                        DeliveryFailureClass::Internal
                    } else {
                        failure::class_of(error@.source)
                    }) && fault.status() == match class {
                        DeliveryFailureClass::Retryable => Some(75u8),
                        DeliveryFailureClass::Permanent => Some(73u8),
                        DeliveryFailureClass::Internal => Some(70u8),
                    }
                },
            }
        }),
{
}

/// Where a message is streamed to: a mail directory, or nowhere. Mailboxes are
/// never streamed to.
pub proof fn messages_are_streamed_to_directories(
    destination: DestinationModel,
    values: Map<Seq<char>, Seq<char>>,
)
    ensures
        ({
            let found = delivery_runtime::sink_of(destination, values);
            match destination.resolved(values) {
                Err(_) => found matches Err(fault) && fault.status() == Some(73u8),
                Ok(resolved) => match resolved.kind {
                    DestinationKind::Maildir => found == Ok::<SinkModel, OperationalFault>(
                        SinkModel::Maildir { path: resolved.path.source },
                    ),
                    DestinationKind::Discard => found == Ok::<SinkModel, OperationalFault>(
                        SinkModel::Discard,
                    ),
                    _ => found matches Err(fault) && fault.status() == Some(70u8),
                },
            }
        }),
{
}

/// A name still stands for a file where it is a regular file on the same device
/// with the same number.
pub proof fn files_are_told_by_device_and_number(opened: FileIdentity, named: FileIdentity)
    ensures
        maildir::still_names(opened, named) <==> named.is_regular && (opened.device, opened.inode)
            == (named.device, named.inode),
{
}

/// A body is admitted piece by piece, and is all of its pieces in their order.
pub proof fn bodies_are_all_of_their_pieces(
    head: MessageHead,
    pieces: Seq<Vec<u8>>,
    i: nat,
    body: Seq<u8>,
)
    requires
        i <= pieces.len(),
    ensures
        fanout::admitted(head, pieces, i, body) matches Ok(whole) ==> fanout::pieces_text(
            pieces,
            i,
        ) + whole.skip(body.len() as int) == fanout::pieces_text(pieces, pieces.len())
            && whole.len() >= body.len() && whole.take(body.len() as int) == body,
    decreases pieces.len() - i,
{
    if i < pieces.len() {
        let piece = pieces[i as int]@;
        bodies_are_all_of_their_pieces(head, pieces, i + 1, body + piece);
        if let Ok(whole) = fanout::admitted(head, pieces, i, body) {
            let n = body.len() as int;
            let m = n + piece.len();
            assert(whole.take(m) == body + piece);
            assert(whole.take(n) =~= whole.take(m).take(n));
            assert(whole.take(m).take(n) =~= body);
            assert(whole.skip(n) =~= whole.take(m).skip(n) + whole.skip(m));
            assert(whole.take(m).skip(n) =~= piece);
            let before = fanout::pieces_text(pieces, i);
            assert(before + (piece + whole.skip(m)) =~= before + piece + whole.skip(m));
        }
    } else {
        assert(body.skip(body.len() as int) =~= Seq::<u8>::empty());
        assert(body.take(body.len() as int) =~= body);
        let all = fanout::pieces_text(pieces, i);
        assert(all + Seq::<u8>::empty() =~= all);
    }
}

/// A configuration's settings are sound exactly where each of them is.
pub proof fn settings_are_checked_one_by_one(config: Config)
    ensures
        configuration::settings_fault(config) is None <==> {
            let durability = configuration::values_in(config, AssignmentTarget::Durability);
            let method = configuration::values_in(config, AssignmentTarget::LockMethod);
            let lock = configuration::values_in(config, AssignmentTarget::LockTimeout);
            let process = configuration::values_in(config, AssignmentTarget::ProcessTimeout);
            &&& maildir::durability_after(durability, durability.len()) is Ok
            &&& local_lock::method_after(method, method.len()) is Ok
            &&& local_lock::timeout_after(lock, lock.len()) is Ok
            &&& configuration::process_timeout_after(process, process.len()) is Ok
            &&& expansion::umask_in(config@.statements, config@.statements.len()) is Ok
        },
{
}

} // verus!
