//! Fan-out: one message that goes to several sinks at once.

use vstd::prelude::*;
use vstd::string::*;

use crate::delivery::discard::DiscardSink;
use crate::delivery::failure::{
    self, DeliveryFailureClass, IoError, IoErrorKind, IoFailure,
};
use crate::delivery::sink::{
    self, write_all, ByteSink, PendingSink, PublishedDelivery, SinkCommitError,
};
use crate::message::{self, Message, MessageHead, MessageReadError, ReadFault, StreamedMessage};
use crate::text::{self, numbered, text2};

verus! {

pub const MAX_PENDING_SINKS: usize = 256;

/// Why sinks cannot be one fan-out.
#[derive(Debug, Clone, Copy, PartialEq, Eq, Structural)]
pub enum FanoutLimitError {
    TooManySinks { count: usize, limit: usize },
}

impl FanoutLimitError {
    pub fn count(self) -> (r: usize)
        ensures
            r == self->count,
    {
        match self {
            FanoutLimitError::TooManySinks { count, .. } => count,
        }
    }

    pub fn limit(self) -> (r: usize)
        ensures
            r == self->limit,
    {
        match self {
            FanoutLimitError::TooManySinks { limit, .. } => limit,
        }
    }

    pub open spec fn spelled(self) -> Seq<char> {
        "delivery fan-out has "@ + text::decimal(self->count as nat) + " sinks, limit is "@
            + text::decimal(self->limit as nat)
    }

    /// The error as it is shown.
    pub fn to_text(self) -> (r: String)
        ensures
            r@ == self.spelled(),
    {
        let start = numbered("delivery fan-out has ", self.count(), " sinks, limit is ");
        text::counted(start.as_str(), self.limit())
    }
}

/// How many of the outcomes are failures.
pub open spec fn failed(outcomes: Seq<Result<(), IoError>>, n: nat) -> nat
    decreases n,
{
    if n == 0 || n > outcomes.len() {
        0
    } else {
        failed(outcomes, (n - 1) as nat) + if outcomes[n - 1] is Err {
            1nat
        } else {
            0nat
        }
    }
}

/// Whether each sink, given up, can have come to its outcome.
pub open spec fn given_up<S: PendingSink>(
    sinks: Seq<S>,
    outcomes: Seq<Result<(), IoError>>,
) -> bool {
    outcomes.len() == sinks.len() && forall|i: int|
        0 <= i < sinks.len() ==> (#[trigger] sinks[i]).may_abort(outcomes[i])
}

/// Whether all sinks can have been given up with so many failures.
pub open spec fn aborted_with<S: PendingSink>(sinks: Seq<S>, failures: nat) -> bool {
    exists|outcomes: Seq<Result<(), IoError>>| #[trigger]
        given_up(sinks, outcomes) && failures == failed(outcomes, outcomes.len())
}

/// Gives up all sinks, the last one first, and counts the failures.
fn abort_sinks<S: PendingSink>(sinks: Vec<S>) -> (r: usize)
    requires
        sinks@.len() <= MAX_PENDING_SINKS,
    ensures
        aborted_with(sinks@, r as nat),
        r <= sinks@.len(),
{
    let ghost all = sinks@;
    let ghost mut outcomes: Seq<Result<(), IoError>> = Seq::empty();
    let mut sinks = sinks;
    let mut failures: usize = 0;
    while sinks.len() > 0
        invariant
            all.len() <= MAX_PENDING_SINKS,
            sinks@.len() <= all.len(),
            sinks@ == all.take(sinks@.len() as int),
            outcomes.len() == all.len() - sinks@.len(),
            failures <= outcomes.len(),
            forall|i: int|
                sinks@.len() <= i < all.len() ==> (#[trigger] all[i]).may_abort(
                    outcomes[i - sinks@.len()],
                ),
            failures == failed(outcomes, outcomes.len()),
        decreases sinks@.len(),
    {
        let ghost before = sinks@;
        if let Some(sink) = sinks.pop() {
            assert(sinks@ =~= all.take(sinks@.len() as int));
            assert(sink == all[before.len() - 1]);
            let outcome = sink.abort();
            let ghost later = outcomes;
            proof {
                outcomes = seq![outcome] + later;
                lemma_failed_first(outcome, later, later.len());
                assert(outcomes.len() == later.len() + 1);
                assert forall|i: int| sinks@.len() <= i < all.len() implies (
                #[trigger] all[i]).may_abort(outcomes[i - sinks@.len()]) by {
                    if i > sinks@.len() {
                        assert(outcomes[i - sinks@.len()] == later[i - before.len()]);
                    }
                }
            }
            if outcome.is_err() {
                failures = failures + 1;
            }
        }
    }
    assert(given_up(all, outcomes));
    failures
}

/// Gives up all sinks, the first one first, and counts the failures.
fn abort_in_order<S: PendingSink>(sinks: Vec<S>) -> (r: usize)
    requires
        sinks@.len() <= MAX_PENDING_SINKS,
    ensures
        aborted_with(sinks@, r as nat),
        r <= sinks@.len(),
{
    let ghost all = sinks@;
    let ghost mut outcomes: Seq<Result<(), IoError>> = Seq::empty();
    let mut sinks = sinks;
    let mut failures: usize = 0;
    assert(sinks@ =~= all.skip(0));
    while sinks.len() > 0
        invariant
            all.len() <= MAX_PENDING_SINKS,
            outcomes.len() + sinks@.len() == all.len(),
            sinks@ == all.skip(outcomes.len() as int),
            failures <= outcomes.len(),
            failures == failed(outcomes, outcomes.len()),
            forall|i: int|
                0 <= i < outcomes.len() ==> (#[trigger] all[i]).may_abort(outcomes[i]),
        decreases sinks@.len(),
    {
        let ghost before = outcomes;
        let sink = sinks.remove(0);
        assert(sink == all[before.len() as int]);
        assert(sinks@ =~= all.skip((before.len() + 1) as int));
        let outcome = sink.abort();
        proof {
            outcomes = before.push(outcome);
            lemma_failed_same(before, outcome, before.len());
        }
        if outcome.is_err() {
            failures = failures + 1;
        }
    }
    assert(given_up(all, outcomes));
    failures
}

proof fn lemma_failed_same(
    outcomes: Seq<Result<(), IoError>>,
    outcome: Result<(), IoError>,
    n: nat,
)
    requires
        n <= outcomes.len(),
    ensures
        failed(outcomes.push(outcome), n) == failed(outcomes, n),
    decreases n,
{
    if n > 0 {
        lemma_failed_same(outcomes, outcome, (n - 1) as nat);
    }
}

proof fn lemma_failed_first(
    first: Result<(), IoError>,
    rest: Seq<Result<(), IoError>>,
    n: nat,
)
    requires
        n <= rest.len(),
    ensures
        failed(seq![first] + rest, n + 1) == failed(rest, n) + if first is Err {
            1nat
        } else {
            0nat
        },
    decreases n,
{
    let both = seq![first] + rest;
    if n > 0 {
        lemma_failed_first(first, rest, (n - 1) as nat);
        assert(both[n as int] == rest[n - 1]);
    } else {
        assert(failed(both, 0) == 0);
    }
}

/// Sinks that are being written to.
pub struct PendingFanout<S> {
    sinks: Vec<S>,
}

/// Sinks that hold a complete message.
pub struct ValidatedFanout<S> {
    sinks: Vec<S>,
}

/// Whether these are the same sinks.
pub open spec fn same_sinks<S: ByteSink>(before: Seq<S>, after: Seq<S>) -> bool {
    after.len() == before.len() && forall|i: int|
        0 <= i < before.len() ==> (#[trigger] after[i]).identity() == before[i].identity()
}

/// Whether these are the same sinks, and each took these bytes after what it
/// had.
pub open spec fn all_written<S: ByteSink>(before: Seq<S>, after: Seq<S>, bytes: Seq<u8>) -> bool {
    same_sinks(before, after) && forall|i: int|
        0 <= i < before.len() ==> (#[trigger] after[i]).written() == before[i].written() + bytes
}

/// Whether writing these bytes to each of the sinks can have turned them into
/// these.
pub open spec fn all_took<S: ByteSink>(before: Seq<S>, after: Seq<S>, bytes: Seq<u8>) -> bool {
    after.len() == before.len() && forall|i: int|
        0 <= i < before.len() ==> sink::wrote(#[trigger] before[i], bytes, after[i], Ok(()))
}

/// Whether nothing but a part of the whole, from its start on, came behind what
/// was there before.
pub open spec fn begun(before: Seq<u8>, whole: Seq<u8>, after: Seq<u8>) -> bool {
    exists|n: int| 0 <= n <= whole.len() && after == before + #[trigger] whole.take(n)
}

/// Whether these are the same sinks, each with no more than a part of the whole.
pub open spec fn all_begun<S: ByteSink>(before: Seq<S>, after: Seq<S>, whole: Seq<u8>) -> bool {
    same_sinks(before, after) && forall|i: int|
        0 <= i < before.len() ==> begun(
            before[i].written(),
            whole,
            (#[trigger] after[i]).written(),
        )
}

/// Whether each sink takes whatever it is offered.
pub open spec fn all_take<S: ByteSink>(sinks: Seq<S>) -> bool {
    forall|i: int| 0 <= i < sinks.len() ==> (#[trigger] sinks[i]).always_takes()
}

/// Whether the sinks before the one at `k` took these bytes, that one failed
/// like this and took only some of them, and none of the others was offered
/// any.
pub open spec fn written_up_to<S: ByteSink>(
    before: Seq<S>,
    after: Seq<S>,
    bytes: Seq<u8>,
    fault: IoFailure,
    k: int,
) -> bool {
    &&& same_sinks(before, after)
    &&& 0 <= k < before.len()
    &&& forall|i: int|
        0 <= i < k ==> sink::wrote(#[trigger] before[i], bytes, after[i], Ok(()))
    &&& sink::wrote(before[k], bytes, after[k], Err(fault))
    &&& forall|i: int|
        0 <= i < k ==> (#[trigger] after[i]).written() == before[i].written() + bytes
    &&& sink::partly_written(before[k].written(), bytes, after[k].written())
    &&& forall|i: int| k < i < before.len() ==> #[trigger] after[i] == before[i]
}

/// Whether each sink passed on what it held back.
pub open spec fn all_flushed<S: ByteSink>(before: Seq<S>, after: Seq<S>) -> bool {
    after.len() == before.len() && forall|i: int|
        0 <= i < before.len() ==> (#[trigger] before[i]).may_flush(&after[i], Ok(()))
}

/// Whether the sinks before the one at `k` passed on what they held back, that
/// one failed like this, and none of the others was asked.
pub open spec fn flushed_up_to<S: ByteSink>(
    before: Seq<S>,
    after: Seq<S>,
    error: IoError,
    k: int,
) -> bool {
    &&& same_sinks(before, after)
    &&& 0 <= k < before.len()
    &&& forall|i: int| 0 <= i < k ==> (#[trigger] before[i]).may_flush(&after[i], Ok(()))
    &&& before[k].may_flush(&after[k], Err(error))
    &&& forall|i: int| k < i < before.len() ==> #[trigger] after[i] == before[i]
}

/// Why a message did not get into the sinks.
#[derive(Debug)]
pub struct StreamDeliveryError {
    source: MessageReadError,
    abort_failures: usize,
}

impl StreamDeliveryError {
    pub closed spec fn source(&self) -> ReadFault {
        self.source@
    }

    pub closed spec fn failures(&self) -> nat {
        self.abort_failures as nat
    }

    /// What went wrong.
    pub fn cause(&self) -> (r: &MessageReadError)
        ensures
            r@ == self.source(),
    {
        &self.source
    }

    /// How many sinks could not be given up.
    pub fn abort_failures(&self) -> (r: usize)
        ensures
            r == self.failures(),
    {
        self.abort_failures
    }
}

impl StreamDeliveryError {
    /// What is told of it.
    pub open spec fn spelled(&self) -> Seq<char> {
        "cannot validate message: "@ + self.source().spelled() + abort_note(
            self.failures(),
            " pending sink(s)"@,
        )
    }

    /// What is told of it.
    pub fn to_text(&self) -> (r: String)
        ensures
            r@ == self.spelled(),
    {
        let source = self.source.to_text();
        with_abort_note(
            text2("cannot validate message: ", source.as_str()),
            self.abort_failures,
            " pending sink(s)",
        )
    }
}

/// Why a message that was validated did not get into further sinks.
#[derive(Debug)]
pub struct AppendError {
    source: IoError,
    abort_failures: usize,
}

/// The tail of a message about sinks that could not be given up.
pub open spec fn abort_note(failures: nat, rest: Seq<char>) -> Seq<char> {
    if failures == 0 {
        Seq::empty()
    } else {
        "; failed to abort "@ + text::decimal(failures) + rest
    }
}

fn with_abort_note(message: String, failures: usize, rest: &str) -> (r: String)
    ensures
        r@ == message@ + abort_note(failures as nat, rest@),
{
    if failures == 0 {
        assert(message@ + Seq::<char>::empty() =~= message@);
        message
    } else {
        let note = numbered("; failed to abort ", failures, rest);
        text2(message.as_str(), note.as_str())
    }
}

impl AppendError {
    pub closed spec fn source(&self) -> IoFailure {
        self.source@
    }

    pub closed spec fn failures(&self) -> nat {
        self.abort_failures as nat
    }

    /// How many sinks could not be given up.
    pub fn abort_failures(&self) -> (r: usize)
        ensures
            r == self.failures(),
    {
        self.abort_failures
    }

    pub fn class(&self) -> (r: DeliveryFailureClass)
        ensures
            r == failure::class_of(self.source()),
    {
        DeliveryFailureClass::from_io_error(&self.source)
    }

    /// What is told of it.
    pub open spec fn spelled(&self) -> Seq<char> {
        "cannot append buffered delivery: "@ + self.source().message + abort_note(
            self.failures(),
            " pending sink(s)"@,
        )
    }

    /// The error as it is shown.
    pub fn to_text(&self) -> (r: String)
        ensures
            r@ == self.spelled(),
    {
        let message = text2("cannot append buffered delivery: ", self.source.message.as_str());
        with_abort_note(message, self.abort_failures, " pending sink(s)")
    }
}

/// What a fan-out has published.
#[derive(Debug, PartialEq, Eq)]
pub struct CommitReport {
    published: Vec<PublishedDelivery>,
}

/// Why a fan-out was not published completely, and what was.
#[derive(Debug)]
pub struct CommitError {
    source: SinkCommitError,
    published: Vec<PublishedDelivery>,
    abort_failures: usize,
}

/// The folder that was published last.
pub open spec fn last_published(published: Seq<PublishedDelivery>) -> Option<Seq<char>> {
    if published.len() == 0 {
        None
    } else {
        Some(published.last()@)
    }
}

fn last_folder_of(published: &Vec<PublishedDelivery>) -> (r: Option<&str>)
    ensures
        match last_published(published@) {
            Some(folder) => r matches Some(found) && found@ == folder,
            None => r is None,
        },
{
    if published.len() == 0 {
        None
    } else {
        Some(published[published.len() - 1].last_folder())
    }
}

impl View for CommitReport {
    type V = Seq<PublishedDelivery>;

    closed spec fn view(&self) -> Seq<PublishedDelivery> {
        self.published@
    }
}

impl CommitReport {
    pub fn published(&self) -> (r: &[PublishedDelivery])
        ensures
            r@ == self@,
    {
        self.published.as_slice()
    }

    pub fn last_folder(&self) -> (r: Option<&str>)
        ensures
            match last_published(self@) {
                Some(folder) => r matches Some(found) && found@ == folder,
                None => r is None,
            },
    {
        last_folder_of(&self.published)
    }
}

impl View for CommitError {
    type V = Seq<PublishedDelivery>;

    closed spec fn view(&self) -> Seq<PublishedDelivery> {
        self.published@
    }
}

impl CommitError {
    /// The failure of the sink that was not published.
    pub closed spec fn source(&self) -> SinkCommitError {
        self.source
    }

    pub closed spec fn failures(&self) -> nat {
        self.abort_failures as nat
    }

    /// How many sinks have been published.
    pub fn committed(&self) -> (r: usize)
        ensures
            r == self@.len(),
    {
        self.published.len()
    }

    pub fn published(&self) -> (r: &[PublishedDelivery])
        ensures
            r@ == self@,
    {
        self.published.as_slice()
    }

    pub fn last_folder(&self) -> (r: Option<&str>)
        ensures
            match last_published(self@) {
                Some(folder) => r matches Some(found) && found@ == folder,
                None => r is None,
            },
    {
        last_folder_of(&self.published)
    }

    /// How many sinks could not be given up.
    pub fn abort_failures(&self) -> (r: usize)
        ensures
            r == self.failures(),
    {
        self.abort_failures
    }

    pub fn class(&self) -> (r: DeliveryFailureClass)
        ensures
            r == failure::class_of(self.source()@.source),
    {
        self.source.class()
    }

    /// What is told of it.
    pub open spec fn spelled(&self) -> Seq<char> {
        "cannot commit delivery after publishing "@ + text::decimal(self@.len())
            + " sink(s): "@ + self.source()@.source.message + abort_note(
            self.failures(),
            " remaining sink(s)"@,
        )
    }

    /// The error as it is shown.
    pub fn to_text(&self) -> (r: String)
        ensures
            r@ == self.spelled(),
    {
        let start = numbered(
            "cannot commit delivery after publishing ",
            self.published.len(),
            " sink(s): ",
        );
        let shown = self.source.to_text();
        let message = text2(start.as_str(), shown.as_str());
        with_abort_note(message, self.abort_failures, " remaining sink(s)")
    }
}

/// The bytes of a message that is passed on in pieces, after `body` bytes of
/// its body, or why it is not taken.
pub open spec fn admitted(head: MessageHead, pieces: Seq<Vec<u8>>, i: nat, body: Seq<u8>) -> Result<
    Seq<u8>,
    ReadFault,
>
    decreases pieces.len() - i,
{
    if i >= pieces.len() {
        Ok(body)
    } else {
        let piece = pieces[i as int]@;
        match message::piece_fault(head@.len(), body.len(), piece.len(), head.limits()) {
            Some(fault) => Err(fault),
            None => admitted(head, pieces, i + 1, body + piece),
        }
    }
}

impl<S: PendingSink> PendingFanout<S> {
    pub closed spec fn sinks(&self) -> Seq<S> {
        self.sinks@
    }

    pub open spec fn wf(&self) -> bool {
        self.sinks().len() <= MAX_PENDING_SINKS
    }

    /// Makes a fan-out of sinks, unless there are too many.
    pub fn new(sinks: Vec<S>) -> (r: Result<Self, FanoutLimitError>)
        ensures
            if sinks@.len() > MAX_PENDING_SINKS {
                r == Err::<Self, FanoutLimitError>(
                    FanoutLimitError::TooManySinks {
                        count: sinks@.len() as usize,
                        limit: MAX_PENDING_SINKS,
                    },
                )
            } else {
                r matches Ok(fanout) && fanout.sinks() == sinks@ && fanout.wf()
            },
    {
        if sinks.len() > MAX_PENDING_SINKS {
            return Err(
                FanoutLimitError::TooManySinks { count: sinks.len(), limit: MAX_PENDING_SINKS },
            );
        }
        Ok(PendingFanout { sinks })
    }

    pub fn len(&self) -> (r: usize)
        ensures
            r == self.sinks().len(),
    {
        self.sinks.len()
    }

    pub fn is_empty(&self) -> (r: bool)
        ensures
            r == (self.sinks().len() == 0),
    {
        self.sinks.len() == 0
    }

    /// Writes bytes to every sink.
    pub fn write(&mut self, bytes: &[u8]) -> (r: Result<usize, IoError>)
        ensures
            final(self).sinks().len() == old(self).sinks().len(),
            match r {
                Ok(taken) => taken == bytes@.len() && all_written(
                    old(self).sinks(),
                    final(self).sinks(),
                    bytes@,
                ) && all_took(old(self).sinks(), final(self).sinks(), bytes@),
                Err(error) => exists|k: int| #[trigger]
                    written_up_to(old(self).sinks(), final(self).sinks(), bytes@, error@, k),
            },
            all_take(old(self).sinks()) ==> r is Ok && all_take(final(self).sinks()),
    {
        let ghost before = self.sinks@;
        let mut i: usize = 0;
        while i < self.sinks.len()
            invariant
                i <= self.sinks@.len(),
                self.sinks@.len() == before.len(),
                before == old(self).sinks(),
                forall|j: int|
                    0 <= j < i ==> (#[trigger] self.sinks@[j]).written() == before[j].written()
                        + bytes@,
                forall|j: int|
                    0 <= j < i ==> sink::wrote(
                        #[trigger] before[j],
                        bytes@,
                        self.sinks@[j],
                        Ok(()),
                    ),
                same_sinks(before, self.sinks@),
                forall|j: int| i <= j < before.len() ==> #[trigger] self.sinks@[j] == before[j],
                all_take(before) ==> all_take(self.sinks@),
            decreases self.sinks.len() - i,
        {
            assert(all_take(before) ==> self.sinks@[i as int].always_takes());
            let ghost so_far = self.sinks@;
            assert(so_far[i as int] == before[i as int]);
            let outcome = write_all(&mut self.sinks[i], bytes);
            let ghost result = sink::result_model(outcome);
            assert(sink::wrote(before[i as int], bytes@, self.sinks@[i as int], result));
            assert forall|j: int| 0 <= j < i implies sink::wrote(
                #[trigger] before[j],
                bytes@,
                self.sinks@[j],
                Ok(()),
            ) by {
                assert(self.sinks@[j] == so_far[j]);
            }
            assert forall|j: int| 0 <= j < before.len() implies (
            #[trigger] self.sinks@[j]).identity() == before[j].identity() by {
                assert(j != i ==> self.sinks@[j] == so_far[j]);
            }
            match outcome {
                Ok(()) => {
                    assert(result == Ok::<(), IoFailure>(()));
                },
                Err(error) => {
                    assert(written_up_to(
                        old(self).sinks(),
                        self.sinks(),
                        bytes@,
                        error@,
                        i as int,
                    ));
                    return Err(error);
                },
            }
            i = i + 1;
        }
        Ok(bytes.len())
    }

    /// Lets every sink pass on what it holds back, one after another, up to the
    /// first that fails.
    pub fn flush(&mut self) -> (r: Result<(), IoError>)
        ensures
            final(self).sinks().len() == old(self).sinks().len(),
            match r {
                Ok(()) => all_flushed(old(self).sinks(), final(self).sinks()) && all_written(
                    old(self).sinks(),
                    final(self).sinks(),
                    Seq::empty(),
                ),
                Err(error) => exists|k: int| #[trigger]
                    flushed_up_to(old(self).sinks(), final(self).sinks(), error, k),
            },
            all_take(old(self).sinks()) ==> r is Ok && all_take(final(self).sinks()),
    {
        let ghost before = self.sinks@;
        let mut i: usize = 0;
        while i < self.sinks.len()
            invariant
                i <= self.sinks@.len(),
                self.sinks@.len() == before.len(),
                before == old(self).sinks(),
                forall|j: int|
                    0 <= j < i ==> (#[trigger] self.sinks@[j]).written() == before[j].written(),
                forall|j: int|
                    0 <= j < i ==> (#[trigger] before[j]).may_flush(&self.sinks@[j], Ok(())),
                same_sinks(before, self.sinks@),
                forall|j: int| i <= j < before.len() ==> #[trigger] self.sinks@[j] == before[j],
                all_take(before) ==> all_take(self.sinks@),
            decreases self.sinks.len() - i,
        {
            let ghost so_far = self.sinks@;
            assert(so_far[i as int] == before[i as int]);
            let outcome = self.sinks[i].flush();
            assert(before[i as int].may_flush(&self.sinks@[i as int], outcome));
            assert forall|j: int| 0 <= j < before.len() implies (
            #[trigger] self.sinks@[j]).identity() == before[j].identity() by {
                assert(j != i ==> self.sinks@[j] == so_far[j]);
            }
            match outcome {
                Ok(()) => {
                    assert(outcome->Ok_0 == ());
                    assert forall|j: int| 0 <= j <= i implies (#[trigger] before[j]).may_flush(
                        &self.sinks@[j],
                        Ok(()),
                    ) by {
                        assert(j < i ==> self.sinks@[j] == so_far[j]);
                    }
                },
                Err(error) => {
                    assert(flushed_up_to(old(self).sinks(), self.sinks(), error, i as int));
                    return Err(error);
                },
            }
            i = i + 1;
        }
        assert forall|j: int| 0 <= j < before.len() implies (
        #[trigger] self.sinks@[j]).written() == before[j].written() + Seq::<u8>::empty() by {
            assert(before[j].written() + Seq::<u8>::empty() =~= before[j].written());
        }
        Ok(())
    }

    /// Gives up every sink, and counts the failures.
    pub fn abort_all(self) -> (r: usize)
        requires
            self.wf(),
        ensures
            aborted_with(self.sinks(), r as nat),
            r <= self.sinks().len(),
    {
        abort_sinks(self.sinks)
    }
}

/// The first `n` pieces, one behind the other.
pub open spec fn pieces_text(pieces: Seq<Vec<u8>>, n: nat) -> Seq<u8>
    decreases n,
{
    if n == 0 || n > pieces.len() {
        Seq::empty()
    } else {
        pieces_text(pieces, (n - 1) as nat) + pieces[n - 1]@
    }
}

/// All bytes of a message that is passed on in pieces, whether it is taken or
/// not.
pub open spec fn whole_message(head: MessageHead, pieces: Seq<Vec<u8>>) -> Seq<u8> {
    head@ + pieces_text(pieces, pieces.len())
}

proof fn lemma_pieces_text(pieces: Seq<Vec<u8>>, n: nat, m: nat)
    requires
        n <= m <= pieces.len(),
    ensures
        pieces_text(pieces, n).len() <= pieces_text(pieces, m).len(),
        pieces_text(pieces, m).take(pieces_text(pieces, n).len() as int) == pieces_text(pieces, n),
    decreases m,
{
    let short = pieces_text(pieces, n);
    let long = pieces_text(pieces, m);
    if n < m {
        lemma_pieces_text(pieces, n, (m - 1) as nat);
        let before = pieces_text(pieces, (m - 1) as nat);
        assert(long.take(short.len() as int) =~= before.take(short.len() as int));
    } else {
        assert(long.take(short.len() as int) =~= short);
    }
}

proof fn lemma_message_start(head: MessageHead, pieces: Seq<Vec<u8>>, n: nat)
    requires
        n <= pieces.len(),
    ensures
        ({
            let whole = whole_message(head, pieces);
            let start = head@ + pieces_text(pieces, n);
            &&& start.len() <= whole.len()
            &&& whole.take(start.len() as int) == start
            &&& n < pieces.len() ==> {
                &&& start.len() + pieces[n as int]@.len() <= whole.len()
                &&& whole.subrange(
                    start.len() as int,
                    (start.len() + pieces[n as int]@.len()) as int,
                ) == pieces[n as int]@
            }
        }),
{
    let whole = whole_message(head, pieces);
    let text = pieces_text(pieces, pieces.len());
    let taken = pieces_text(pieces, n);
    let start = head@ + taken;
    lemma_pieces_text(pieces, n, pieces.len());
    assert(whole.take(start.len() as int) =~= head@ + text.take(taken.len() as int));
    if n < pieces.len() {
        let piece = pieces[n as int]@;
        let longer = pieces_text(pieces, n + 1);
        lemma_pieces_text(pieces, n + 1, pieces.len());
        assert(longer == taken + piece);
        assert(whole.subrange(start.len() as int, (start.len() + piece.len()) as int) =~= text.take(
            longer.len() as int,
        ).subrange(taken.len() as int, longer.len() as int));
        assert(longer.subrange(taken.len() as int, longer.len() as int) =~= piece);
    }
}

/// Whether the sinks that were there can all have been given up, with so many
/// failures, when no more than a part of the whole had been written to them.
pub open spec fn all_given_up<S: PendingSink>(sinks: Seq<S>, whole: Seq<u8>, failures: nat) -> bool {
    exists|left: Seq<S>| #[trigger] all_begun(sinks, left, whole) && aborted_with(left, failures)
}

/// Whether writing the whole to a sink, in pieces, can have failed like this.
pub open spec fn write_failed<W: ByteSink>(sink: W, whole: Seq<u8>, fault: IoFailure) -> bool {
    exists|after: W| #[trigger] sink::failed_within(sink, whole, after, fault)
}

/// Whether this can have been the failure of one of the sinks.
pub open spec fn any_failed<S: ByteSink>(sinks: Seq<S>, whole: Seq<u8>, fault: IoFailure) -> bool {
    exists|k: int| 0 <= k < sinks.len() && write_failed(#[trigger] sinks[k], whole, fault)
}

/// Whether a message that is passed on in pieces can have failed like this,
/// and every sink been given up: because it is too large, or because of a sink.
pub open spec fn not_delivered<S: PendingSink>(
    sinks: Seq<S>,
    head: MessageHead,
    pieces: Seq<Vec<u8>>,
    error: StreamDeliveryError,
) -> bool {
    &&& all_given_up(sinks, whole_message(head, pieces), error.failures())
    &&& match error.source() {
        ReadFault::Io(fault) => any_failed(sinks, whole_message(head, pieces), fault)
            && !all_take(sinks),
        fault => admitted(head, pieces, 0, Seq::empty()) == Err::<Seq<u8>, ReadFault>(fault),
    }
}

/// The same of a message that is passed on to a staging file too, which may
/// have failed as well.
pub open spec fn not_staged<S: PendingSink, W: ByteSink>(
    sinks: Seq<S>,
    head: MessageHead,
    pieces: Seq<Vec<u8>>,
    staging: W,
    error: StreamDeliveryError,
) -> bool {
    &&& all_given_up(sinks, whole_message(head, pieces), error.failures())
    &&& match error.source() {
        ReadFault::Io(fault) => {
            &&& any_failed(sinks, whole_message(head, pieces), fault) || write_failed(
                staging,
                whole_message(head, pieces),
                fault,
            )
            &&& !all_take(sinks) || !staging.always_takes()
        },
        fault => admitted(head, pieces, 0, Seq::empty()) == Err::<Seq<u8>, ReadFault>(fault),
    }
}

/// Whether passing a message on to sinks can have come to this.
pub open spec fn streamed_as<S: PendingSink>(
    sinks: Seq<S>,
    head: MessageHead,
    pieces: Seq<Vec<u8>>,
    outcome: Result<(ValidatedFanout<S>, StreamedMessage), StreamDeliveryError>,
) -> bool {
    match outcome {
        Ok((validated, passed)) => validated.wf() && match admitted(
            head,
            pieces,
            0,
            Seq::empty(),
        ) {
            Ok(body) => {
                &&& all_written(sinks, validated.sinks(), head@ + body)
                &&& passed.header_len == head@.len()
                &&& passed.length == head@.len() + body.len()
            },
            Err(_) => false,
        },
        Err(error) => not_delivered(sinks, head, pieces, error),
    }
}

/// Whether passing a message on to sinks and a staging file can have come to
/// this, and turned the file from one into the other.
pub open spec fn staged_as<S: PendingSink, W: ByteSink>(
    sinks: Seq<S>,
    head: MessageHead,
    pieces: Seq<Vec<u8>>,
    before: W,
    after: W,
    outcome: Result<(ValidatedFanout<S>, StreamedMessage), StreamDeliveryError>,
) -> bool {
    &&& after.identity() == before.identity()
    &&& match outcome {
        Ok((validated, passed)) => validated.wf() && match admitted(
            head,
            pieces,
            0,
            Seq::empty(),
        ) {
            Ok(body) => {
                &&& all_written(sinks, validated.sinks(), head@ + body)
                &&& after.written() == before.written() + (head@ + body)
                &&& passed.header_len == head@.len()
                &&& passed.length == head@.len() + body.len()
            },
            Err(_) => false,
        },
        Err(error) => not_staged(sinks, head, pieces, before, error) && begun(
            before.written(),
            whole_message(head, pieces),
            after.written(),
        ),
    }
}

proof fn lemma_given_up<S: PendingSink>(sinks: Seq<S>, whole: Seq<u8>, failures: nat, i: int)
    requires
        all_given_up(sinks, whole, failures),
        0 <= i < sinks.len(),
    ensures
        failures <= sinks.len(),
        was_given_up(sinks[i], whole),
{
    let left = choose|left: Seq<S>| #[trigger]
        all_begun(sinks, left, whole) && aborted_with(left, failures);
    let outcomes = choose|outcomes: Seq<Result<(), IoError>>| #[trigger]
        given_up(left, outcomes) && failures == failed(outcomes, outcomes.len());
    lemma_failed_at_most(outcomes, outcomes.len());
    assert(left[i].may_abort(outcomes[i]));
}

/// Whether a sink can have been given up, holding no more than a part of the
/// whole.
pub open spec fn was_given_up<S: PendingSink>(sink: S, whole: Seq<u8>) -> bool {
    exists|left: S, outcome: Result<(), IoError>|
        {
            &&& #[trigger] left.may_abort(outcome)
            &&& left.identity() == sink.identity()
            &&& begun(sink.written(), whole, left.written())
        }
}

/// A message that is refused, or that cannot be written to one of its sinks, is
/// published nowhere: nothing comes back that could be published, and each of
/// the sinks, holding no more than a part of the message, is given up.
pub proof fn a_failed_message_is_published_nowhere<S: PendingSink>(
    sinks: Seq<S>,
    head: MessageHead,
    pieces: Seq<Vec<u8>>,
    outcome: Result<(ValidatedFanout<S>, StreamedMessage), StreamDeliveryError>,
    i: int,
)
    requires
        streamed_as(sinks, head, pieces, outcome),
        outcome is Err || admitted(head, pieces, 0, Seq::empty()) is Err,
        0 <= i < sinks.len(),
    ensures
        outcome is Err,
        outcome->Err_0.failures() <= sinks.len(),
        was_given_up(sinks[i], whole_message(head, pieces)),
{
    lemma_given_up(sinks, whole_message(head, pieces), outcome->Err_0.failures(), i);
}

/// The same of a message that is staged: where it is too large, or a write
/// fails, no early copy of it is published.
pub proof fn a_failed_staging_publishes_no_early_copy<S: PendingSink, W: ByteSink>(
    sinks: Seq<S>,
    head: MessageHead,
    pieces: Seq<Vec<u8>>,
    before: W,
    after: W,
    outcome: Result<(ValidatedFanout<S>, StreamedMessage), StreamDeliveryError>,
    i: int,
)
    requires
        staged_as(sinks, head, pieces, before, after, outcome),
        outcome is Err || admitted(head, pieces, 0, Seq::empty()) is Err,
        0 <= i < sinks.len(),
    ensures
        outcome is Err,
        outcome->Err_0.failures() <= sinks.len(),
        was_given_up(sinks[i], whole_message(head, pieces)),
{
    lemma_given_up(sinks, whole_message(head, pieces), outcome->Err_0.failures(), i);
}

proof fn lemma_nothing_left<S: PendingSink>(
    sinks: Seq<S>,
    left: Seq<S>,
    whole: Seq<u8>,
    n: int,
)
    requires
        0 <= n <= whole.len(),
        all_written(sinks, left, whole.take(n)),
    ensures
        all_begun(sinks, left, whole),
{
    assert forall|i: int| 0 <= i < sinks.len() implies begun(
        sinks[i].written(),
        whole,
        (#[trigger] left[i]).written(),
    ) by {
        assert(left[i].written() == sinks[i].written() + whole.take(n));
    }
}

proof fn lemma_partly_begun(before: Seq<u8>, whole: Seq<u8>, n: int, m: int, after: Seq<u8>)
    requires
        0 <= n <= m <= whole.len(),
        sink::partly_written(before + whole.take(n), whole.subrange(n, m), after),
    ensures
        begun(before, whole, after),
{
    let piece = whole.subrange(n, m);
    let taken = choose|taken: int|
        0 <= taken < piece.len() && after == before + whole.take(n) + #[trigger] piece.take(taken);
    assert(whole.take(n) + piece.take(taken) =~= whole.take(n + taken));
    assert(after =~= before + whole.take(n + taken));
}

proof fn lemma_failed_piece<S: PendingSink>(
    sinks: Seq<S>,
    mid: Seq<S>,
    left: Seq<S>,
    whole: Seq<u8>,
    n: int,
    m: int,
    fault: IoFailure,
    k: int,
)
    requires
        0 <= n <= m <= whole.len(),
        all_written(sinks, mid, whole.take(n)),
        written_up_to(mid, left, whole.subrange(n, m), fault, k),
    ensures
        all_begun(sinks, left, whole),
        any_failed(sinks, whole, fault),
{
    let piece = whole.subrange(n, m);
    assert forall|i: int| 0 <= i < sinks.len() implies begun(
        sinks[i].written(),
        whole,
        (#[trigger] left[i]).written(),
    ) by {
        assert(mid[i].written() == sinks[i].written() + whole.take(n));
        if i < k {
            assert(whole.take(n) + piece =~= whole.take(m));
            assert(left[i].written() =~= sinks[i].written() + whole.take(m));
        } else if i == k {
            lemma_partly_begun(sinks[i].written(), whole, n, m, left[i].written());
        } else {
            assert(left[i] == mid[i]);
        }
    }
    assert forall|i: int| 0 <= i < sinks.len() implies (#[trigger] left[i]).identity()
        == sinks[i].identity() by {
        assert(mid[i].identity() == sinks[i].identity());
    }
    assert(mid[k].identity() == sinks[k].identity());
    assert(mid[k].written() == sinks[k].written() + whole.take(n));
    assert(sink::failed_within(sinks[k], whole, left[k], fault));
    assert(write_failed(sinks[k], whole, fault));
}

impl<S: PendingSink> PendingFanout<S> {
    fn fail(self, source: MessageReadError) -> (r: StreamDeliveryError)
        requires
            self.wf(),
        ensures
            r.source() == source@,
            aborted_with(self.sinks(), r.failures()),
    {
        let abort_failures = self.abort_all();
        StreamDeliveryError { source, abort_failures }
    }

    /// Passes a message on to every sink, and a copy of it to `staging`.
    pub fn stage<W: ByteSink>(
        self,
        head: MessageHead,
        pieces: &[Vec<u8>],
        staging: &mut W,
    ) -> (r: Result<(ValidatedFanout<S>, StreamedMessage), StreamDeliveryError>)
        requires
            self.wf(),
        ensures
            staged_as(self.sinks(), head, pieces@, *old(staging), *final(staging), r),
    {
        let ghost initial = self.sinks();
        let ghost start = staging.written();
        let ghost admission = admitted(head, pieces@, 0, Seq::empty());
        let ghost whole = whole_message(head, pieces@);
        let ghost head_end = head@.len() as int;
        let mut fanout = self;
        proof {
            lemma_message_start(head, pieces@, 0);
            assert(head@ + pieces_text(pieces@, 0) =~= head@);
            assert(whole.subrange(0, head_end) =~= whole.take(head_end));
            assert(whole.take(0) =~= Seq::<u8>::empty());
            assert(start + whole.take(0) =~= start);
            assert forall|i: int| 0 <= i < initial.len() implies (
            #[trigger] initial[i]).written() == initial[i].written() + whole.take(0) by {
                assert(initial[i].written() + whole.take(0) =~= initial[i].written());
            }
        }
        match fanout.write(head.as_bytes()) {
            Ok(_) => {},
            Err(error) => {
                proof {
                    let k = choose|k: int| #[trigger]
                        written_up_to(initial, fanout.sinks(), head@, error@, k);
                    lemma_failed_piece(
                        initial,
                        initial,
                        fanout.sinks(),
                        whole,
                        0,
                        head_end,
                        error@,
                        k,
                    );
                }
                return Err(fanout.fail(MessageReadError::Io(error)));
            },
        }
        match write_all(staging, head.as_bytes()) {
            Ok(()) => {},
            Err(error) => {
                proof {
                    lemma_nothing_left(initial, fanout.sinks(), whole, head_end);
                    lemma_partly_begun(start, whole, 0, head_end, staging.written());
                    assert(sink::failed_within(*old(staging), whole, *staging, error@)) by {
                        assert(sink::wrote(
                            *old(staging),
                            whole.subrange(0, head_end),
                            *staging,
                            Err(error@),
                        ));
                    }
                }
                return Err(fanout.fail(MessageReadError::Io(error)));
            },
        }
        let mut body: usize = 0;
        let ghost mut taken: Seq<u8> = Seq::empty();
        assert(head@ + taken =~= head@);
        let mut i: usize = 0;
        while i < pieces.len()
            invariant
                i <= pieces@.len(),
                body == taken.len(),
                body <= head.limits().body_size,
                i > 0 ==> head@.len() + body <= usize::MAX,
                i == 0 ==> body == 0,
                initial == self.sinks(),
                start == old(staging).written(),
                whole == whole_message(head, pieces@),
                taken == pieces_text(pieces@, i as nat),
                fanout.sinks().len() == initial.len(),
                initial.len() <= MAX_PENDING_SINKS,
                all_written(initial, fanout.sinks(), head@ + taken),
                all_take(initial) ==> all_take(fanout.sinks()),
                old(staging).always_takes() ==> staging.always_takes(),
                staging.identity() == old(staging).identity(),
                staging.written() == start + (head@ + taken),
                admission == admitted(head, pieces@, 0, Seq::empty()),
                admission == admitted(head, pieces@, i as nat, taken),
            decreases pieces.len() - i,
        {
            let piece = pieces[i].as_slice();
            let ghost here = (head@ + taken).len() as int;
            let ghost there = here + piece@.len();
            proof {
                lemma_message_start(head, pieces@, i as nat);
                assert(whole.take(here) == head@ + taken);
                assert(whole.subrange(here, there) == piece@);
            }
            match head.count_piece(body, piece.len()) {
                Ok(longer) => {
                    body = longer;
                },
                Err(error) => {
                    proof {
                        lemma_nothing_left(initial, fanout.sinks(), whole, here);
                        assert(begun(start, whole, staging.written()));
                    }
                    return Err(fanout.fail(error));
                },
            }
            let ghost before = fanout.sinks();
            match fanout.write(piece) {
                Ok(_) => {},
                Err(error) => {
                    proof {
                        let k = choose|k: int| #[trigger]
                            written_up_to(before, fanout.sinks(), piece@, error@, k);
                        lemma_failed_piece(
                            initial,
                            before,
                            fanout.sinks(),
                            whole,
                            here,
                            there,
                            error@,
                            k,
                        );
                        assert(begun(start, whole, staging.written()));
                    }
                    return Err(fanout.fail(MessageReadError::Io(error)));
                },
            }
            let ghost longer = taken + piece@;
            proof {
                assert(head@ + longer =~= (head@ + taken) + piece@);
                assert(start + (head@ + longer) =~= (start + (head@ + taken)) + piece@);
                assert forall|j: int| 0 <= j < initial.len() implies (
                #[trigger] fanout.sinks()[j]).written() == initial[j].written() + (head@
                    + longer) by {
                    assert(fanout.sinks()[j].written() == before[j].written() + piece@);
                    assert(before[j].written() == initial[j].written() + (head@ + taken));
                    assert((initial[j].written() + (head@ + taken)) + piece@
                        =~= initial[j].written() + (head@ + longer));
                }
                assert forall|j: int| 0 <= j < initial.len() implies (
                #[trigger] fanout.sinks()[j]).identity() == initial[j].identity() by {
                    assert(before[j].identity() == initial[j].identity());
                }
            }
            let ghost staged = *staging;
            match write_all(staging, piece) {
                Ok(()) => {},
                Err(error) => {
                    proof {
                        assert(whole.take(there) =~= head@ + longer);
                        lemma_nothing_left(initial, fanout.sinks(), whole, there);
                        lemma_partly_begun(start, whole, here, there, staging.written());
                        assert(sink::failed_within(*old(staging), whole, *staging, error@)) by {
                            assert(sink::wrote(
                                staged,
                                whole.subrange(here, there),
                                *staging,
                                Err(error@),
                            ));
                        }
                    }
                    return Err(fanout.fail(MessageReadError::Io(error)));
                },
            }
            proof {
                taken = longer;
            }
            i = i + 1;
        }
        let header_len = head.as_bytes().len();
        let passed = StreamedMessage { header_len, length: header_len + body };
        Ok((ValidatedFanout { sinks: fanout.sinks }, passed))
    }

    /// Passes a message on to every sink.
    pub fn stream(self, head: MessageHead, pieces: &[Vec<u8>]) -> (r: Result<
        (ValidatedFanout<S>, StreamedMessage),
        StreamDeliveryError,
    >)
        requires
            self.wf(),
        ensures
            streamed_as(self.sinks(), head, pieces@, r),
    {
        let mut nowhere = DiscardSink::null();
        let ghost staging = nowhere;
        match self.stage(head, pieces, &mut nowhere) {
            Ok(passed) => Ok(passed),
            Err(error) => {
                proof {
                    lemma_only_sinks_fail(self.sinks(), head, pieces@, staging, error);
                }
                Err(error)
            },
        }
    }

    /// Passes a message on to every sink, and keeps it.
    pub fn buffer(self, head: MessageHead, pieces: &[Vec<u8>]) -> (r: Result<
        (ValidatedFanout<S>, Message),
        StreamDeliveryError,
    >)
        requires
            self.wf(),
        ensures
            match r {
                Ok((validated, kept)) => validated.wf() && match admitted(
                    head,
                    pieces@,
                    0,
                    Seq::empty(),
                ) {
                    Ok(body) => {
                        &&& all_written(self.sinks(), validated.sinks(), head@ + body)
                        &&& kept@ == head@ + body
                        &&& kept.headers() == head@.len()
                    },
                    Err(_) => false,
                },
                Err(error) => not_delivered(self.sinks(), head, pieces@, error),
            },
    {
        let mut bytes: Vec<u8> = Vec::new();
        let ghost staging = bytes;
        match self.stage(head, pieces, &mut bytes) {
            Ok((validated, passed)) => {
                proof {
                    let body = admitted(head, pieces@, 0, Seq::empty())->Ok_0;
                    assert(bytes@ =~= head@ + body);
                }
                Ok((validated, Message::from_parts(bytes, passed.header_len)))
            },
            Err(error) => {
                proof {
                    lemma_only_sinks_fail(self.sinks(), head, pieces@, staging, error);
                }
                Err(error)
            },
        }
    }
}

/// Where the staging file takes whatever it is offered, only the sinks can fail.
proof fn lemma_only_sinks_fail<S: PendingSink, W: ByteSink>(
    sinks: Seq<S>,
    head: MessageHead,
    pieces: Seq<Vec<u8>>,
    staging: W,
    error: StreamDeliveryError,
)
    requires
        not_staged(sinks, head, pieces, staging, error),
        staging.always_takes(),
        forall|a: W, b: W, rest: Seq<u8>, outcome: Result<usize, IoError>| #[trigger]
            a.may_write(rest, &b, outcome) ==> outcome is Ok && outcome->Ok_0 == rest.len(),
    ensures
        not_delivered(sinks, head, pieces, error),
{
    let whole = whole_message(head, pieces);
    if let ReadFault::Io(fault) = error.source() {
        if write_failed(staging, whole, fault) {
            let after = choose|after: W| #[trigger]
                sink::failed_within(staging, whole, after, fault);
            let (mid, n, m) = choose|mid: W, n: int, m: int|
                {
                    &&& 0 <= n <= m <= whole.len()
                    &&& mid.identity() == staging.identity()
                    &&& mid.written() == staging.written() + whole.take(n)
                    &&& #[trigger] sink::wrote(
                        mid,
                        whole.subrange(n, m),
                        after,
                        Err(fault),
                    )
                };
            sink::lemma_never_fails(mid, whole.subrange(n, m), after, fault);
        }
    }
}

/// Whether publishing the sinks one after another can have come to this: all
/// of them are published, or those before the first failure are, that one
/// where the failure came later, and the rest is given up.
pub open spec fn published_as<S: PendingSink>(
    sinks: Seq<S>,
    outcome: Result<CommitReport, CommitError>,
) -> bool {
    match outcome {
        Ok(report) => {
            &&& report@.len() == sinks.len()
            &&& forall|i: int|
                0 <= i < sinks.len() ==> (#[trigger] sinks[i]).may_commit(Ok(report@[i]))
        },
        Err(error) => exists|k: int| #[trigger] stopped_at(sinks, error, k),
    }
}

/// Whether publishing can have stopped at sink `k`.
pub open spec fn stopped_at<S: PendingSink>(sinks: Seq<S>, error: CommitError, k: int) -> bool {
    &&& 0 <= k < sinks.len()
    &&& k <= error@.len()
    &&& forall|i: int| 0 <= i < k ==> (#[trigger] sinks[i]).may_commit(Ok(error@[i]))
    &&& sinks[k].may_commit(Err(error.source()))
    &&& match error.source()@.published {
        Some(folder) => error@.len() == k + 1 && error@[k]@ == folder,
        None => error@.len() == k,
    }
    &&& aborted_with(sinks.skip(k + 1), error.failures())
}

impl<S: PendingSink> ValidatedFanout<S> {
    pub closed spec fn sinks(&self) -> Seq<S> {
        self.sinks@
    }

    pub open spec fn wf(&self) -> bool {
        self.sinks().len() <= MAX_PENDING_SINKS
    }

    /// Gives up every sink, and counts the failures.
    pub fn abort_all(self) -> (r: usize)
        requires
            self.wf(),
        ensures
            aborted_with(self.sinks(), r as nat),
            r <= self.sinks().len(),
    {
        abort_sinks(self.sinks)
    }

    fn fail(self, pending: PendingFanout<S>, source: IoError) -> (r: AppendError)
        requires
            self.wf(),
            pending.wf(),
        ensures
            r.source() == source@,
            both_given_up(pending.sinks(), self.sinks(), r.failures()),
    {
        let more = pending.abort_all();
        let own = self.abort_all();
        assert(aborted_with(pending.sinks(), more as nat));
        assert(aborted_with(self.sinks(), own as nat));
        AppendError { source, abort_failures: more + own }
    }

    /// Adds sinks that take a message that is held in memory.
    pub fn append_buffered(self, pending: PendingFanout<S>, message: &Message) -> (r: Result<
        Self,
        AppendError,
    >)
        requires
            self.wf(),
            pending.wf(),
        ensures
            appended_as(self, pending, message@, r),
    {
        self.append_bytes(pending, message.as_bytes())
    }

    /// Adds sinks that take these bytes.
    pub fn append_bytes(self, pending: PendingFanout<S>, message: &[u8]) -> (r: Result<
        Self,
        AppendError,
    >)
        requires
            self.wf(),
            pending.wf(),
        ensures
            appended_as(self, pending, message@, r),
    {
        let count = self.sinks.len() + pending.sinks.len();
        if count > MAX_PENDING_SINKS {
            let error = FanoutLimitError::TooManySinks { count, limit: MAX_PENDING_SINKS };
            let shown = error.to_text();
            let source = IoError::new(IoErrorKind::InvalidInput, shown.as_str());
            return Err(self.fail(pending, source));
        }
        let ghost before = pending.sinks();
        let mut pending = pending;
        match pending.write(message) {
            Ok(_) => {},
            Err(source) => {
                let ghost left = pending.sinks();
                let ghost k = choose|k: int| #[trigger]
                    written_up_to(before, left, message@, source@, k);
                assert(written_up_to(before, left, message@, source@, k));
                return Err(self.fail(pending, source));
            },
        }
        let mut sinks = self.sinks;
        let mut more = pending.sinks;
        let ghost own = sinks@;
        let ghost added = more@;
        sinks.append(&mut more);
        proof {
            assert(sinks@.take(own.len() as int) =~= own);
            assert(sinks@.skip(own.len() as int) =~= added);
        }
        Ok(ValidatedFanout { sinks })
    }

    /// Publishes the message in every sink, one after another. What has become
    /// visible stays so; once a sink fails, the ones after it are given up, in
    /// order.
    pub fn commit(self) -> (r: Result<CommitReport, CommitError>)
        requires
            self.wf(),
        ensures
            published_as(self.sinks(), r),
    {
        let ghost all = self.sinks();
        let mut sinks = self.sinks;
        let mut published: Vec<PublishedDelivery> = Vec::new();
        while sinks.len() > 0
            invariant
                all == self.sinks(),
                all.len() <= MAX_PENDING_SINKS,
                published@.len() + sinks@.len() == all.len(),
                sinks@ == all.skip(published@.len() as int),
                forall|i: int|
                    0 <= i < published@.len() ==> (#[trigger] all[i]).may_commit(
                        Ok(published@[i]),
                    ),
            decreases sinks@.len(),
        {
            let ghost k = published@.len() as int;
            let sink = sinks.remove(0);
            assert(sink == all[k]);
            assert(sinks@ =~= all.skip(k + 1));
            match sink.commit() {
                Ok(delivery) => {
                    published.push(delivery);
                },
                Err(source) => {
                    if let Some(delivery) = source.published() {
                        published.push(delivery.duplicate());
                    }
                    let abort_failures = abort_in_order(sinks);
                    let error = CommitError { source, published, abort_failures };
                    let outcome = Err(error);
                    assert(stopped_at(all, outcome->Err_0, k));
                    assert(published_as(all, outcome));
                    return outcome;
                },
            }
        }
        Ok(CommitReport { published })
    }
}

/// Whether adding sinks can have come to this: the new sinks hold the message
/// beside the ones that were there, or all of them are given up.
pub open spec fn appended_as<S: PendingSink>(
    validated: ValidatedFanout<S>,
    pending: PendingFanout<S>,
    message: Seq<u8>,
    outcome: Result<ValidatedFanout<S>, AppendError>,
) -> bool {
    let count = validated.sinks().len();
    let total = count + pending.sinks().len();
    match outcome {
        Ok(both) => {
            &&& total <= MAX_PENDING_SINKS
            &&& both.wf()
            &&& both.sinks().len() == total
            &&& both.sinks().take(count as int) == validated.sinks()
            &&& all_written(pending.sinks(), both.sinks().skip(count as int), message)
            &&& all_took(pending.sinks(), both.sinks().skip(count as int), message)
        },
        Err(error) => if total > MAX_PENDING_SINKS {
            &&& error.source() == failure::failure(
                IoErrorKind::InvalidInput,
                (FanoutLimitError::TooManySinks {
                    count: total as usize,
                    limit: MAX_PENDING_SINKS,
                }).spelled(),
            )
            &&& both_given_up(pending.sinks(), validated.sinks(), error.failures())
        } else {
            &&& !all_take(pending.sinks())
            &&& exists|left: Seq<S>, k: int|
                #[trigger] written_up_to(pending.sinks(), left, message, error.source(), k)
                    && both_given_up(left, validated.sinks(), error.failures())
        },
    }
}

/// Whether the added sinks and the ones that were there can all have been given
/// up, with so many failures.
pub open spec fn both_given_up<S: PendingSink>(added: Seq<S>, own: Seq<S>, failures: nat) -> bool {
    exists|a: nat, b: nat|
        a + b == failures && #[trigger] aborted_with(added, a) && #[trigger] aborted_with(own, b)
}

/// Adding too many sinks fails for good, whatever sinks they are.
pub proof fn too_many_sinks_fail_for_good<S: PendingSink>(
    validated: ValidatedFanout<S>,
    pending: PendingFanout<S>,
    message: Seq<u8>,
    outcome: Result<ValidatedFanout<S>, AppendError>,
)
    requires
        appended_as(validated, pending, message, outcome),
        validated.sinks().len() + pending.sinks().len() > MAX_PENDING_SINKS,
    ensures
        outcome is Err,
        failure::class_of(outcome->Err_0.source()) is Permanent,
{
}

/// A sink that was published is never given up too: when publishing stops, the
/// published ones and the ones that are given up are apart, and only the sink
/// that failed may be among neither.
pub proof fn published_and_given_up_sinks_are_apart<S: PendingSink>(
    sinks: Seq<S>,
    error: CommitError,
    k: int,
)
    requires
        stopped_at(sinks, error, k),
    ensures
        error@.len() + sinks.skip(k + 1).len() <= sinks.len(),
        error.source()@.published is Some ==> error@.len() + sinks.skip(k + 1).len()
            == sinks.len(),
        error.failures() <= sinks.len() - k - 1,
{
    let rest = sinks.skip(k + 1);
    let outcomes = choose|outcomes: Seq<Result<(), IoError>>| #[trigger]
        given_up(rest, outcomes) && error.failures() == failed(outcomes, outcomes.len());
    lemma_failed_at_most(outcomes, outcomes.len());
}

proof fn lemma_failed_at_most(outcomes: Seq<Result<(), IoError>>, n: nat)
    ensures
        failed(outcomes, n) <= n,
    decreases n,
{
    if n > 0 && n <= outcomes.len() {
        lemma_failed_at_most(outcomes, (n - 1) as nat);
    }
}

proof fn lemma_admitted(head: MessageHead, pieces: Seq<Vec<u8>>, i: nat, body: Seq<u8>)
    requires
        admitted(head, pieces, i, body) is Ok,
        body.len() <= head.limits().body_size,
        i > 0 ==> head@.len() + body.len() <= head.limits().message_size,
    ensures
        ({
            let whole = admitted(head, pieces, i, body)->Ok_0;
            &&& whole.len() <= head.limits().body_size
            &&& i > 0 || pieces.len() > 0 ==> head@.len() + whole.len()
                <= head.limits().message_size
        }),
    decreases pieces.len() - i,
{
    if i < pieces.len() {
        lemma_admitted(head, pieces, i + 1, body + pieces[i as int]@);
    }
}

/// No message is taken whose body, or which as a whole, is larger than its
/// limits allow.
pub proof fn an_admitted_message_is_within_its_limits(head: MessageHead, pieces: Seq<Vec<u8>>)
    requires
        admitted(head, pieces, 0, Seq::empty()) is Ok,
    ensures
        ({
            let body = admitted(head, pieces, 0, Seq::empty())->Ok_0;
            &&& body.len() <= head.limits().body_size
            &&& pieces.len() > 0 ==> head@.len() + body.len() <= head.limits().message_size
        }),
{
    lemma_admitted(head, pieces, 0, Seq::empty());
}

} // verus!
