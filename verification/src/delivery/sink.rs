//! Sinks: where the bytes of a message go.

use vstd::prelude::*;
use vstd::slice::slice_subrange;
use vstd::string::*;

use crate::delivery::failure::{
    self, DeliveryFailureClass, IoError, IoErrorKind,
};

verus! {

/// Something that takes bytes, maybe not all that it is offered at once.
pub trait ByteSink: Sized {
    /// Which sink it is: the same whatever it takes.
    open spec fn identity(&self) -> int {
        arbitrary()
    }

    /// What it has taken so far.
    open spec fn written(&self) -> Seq<u8> {
        arbitrary()
    }

    /// Whether it takes whatever it is offered, and never fails.
    open spec fn always_takes(&self) -> bool {
        false
    }

    /// Whether offering these bytes can come out like this, and leave it as
    /// `after`.
    open spec fn may_write(
        &self,
        bytes: Seq<u8>,
        after: &Self,
        outcome: Result<usize, IoError>,
    ) -> bool {
        arbitrary()
    }

    /// Offers bytes, and learns how many of them were taken: none, where that
    /// failed.
    fn write(&mut self, bytes: &[u8]) -> (r: Result<usize, IoError>)
        ensures
            old(self).may_write(bytes@, final(self), r),
            final(self).identity() == old(self).identity(),
            match r {
                Ok(taken) => taken <= bytes@.len() && final(self).written() == old(
                    self,
                ).written() + bytes@.take(taken as int),
                Err(_) => final(self).written() == old(self).written(),
            },
            old(self).always_takes() ==> r == Ok::<usize, IoError>(bytes@.len() as usize)
                && final(self).always_takes(),
    ;

    /// Whether passing on what is held back can come out like this, and leave
    /// it as `after`.
    open spec fn may_flush(&self, after: &Self, outcome: Result<(), IoError>) -> bool {
        arbitrary()
    }

    /// Passes on what is held back, without taking anything more.
    fn flush(&mut self) -> (r: Result<(), IoError>)
        ensures
            old(self).may_flush(final(self), r),
            final(self).identity() == old(self).identity(),
            r is Ok ==> final(self).written() == old(self).written(),
            old(self).always_takes() ==> r is Ok && final(self).always_takes(),
    ;
}

/// A destination that keeps what it is given private until it is published.
///
/// Dropping or aborting it leaves no visible delivery behind. Publication can
/// be followed by a failure, which then names what has become visible.
pub trait PendingSink: ByteSink {
    /// Whether publishing can come out like this.
    open spec fn may_commit(&self, outcome: Result<PublishedDelivery, SinkCommitError>) -> bool {
        arbitrary()
    }

    /// Whether giving up can come out like this.
    open spec fn may_abort(&self, outcome: Result<(), IoError>) -> bool {
        arbitrary()
    }

    /// Publishes what was written, and tells where.
    fn commit(self) -> (r: Result<PublishedDelivery, SinkCommitError>)
        ensures
            self.may_commit(r),
    ;

    /// Gives up what was written.
    fn abort(self) -> (r: Result<(), IoError>)
        ensures
            self.may_abort(r),
    ;
}

/// Where a message has become visible.
#[derive(Debug, PartialEq, Eq)]
pub struct PublishedDelivery {
    last_folder: String,
}

impl View for PublishedDelivery {
    type V = Seq<char>;

    closed spec fn view(&self) -> Seq<char> {
        self.last_folder@
    }
}

impl PublishedDelivery {
    pub fn new(last_folder: String) -> (r: Self)
        ensures
            r@ == last_folder@,
    {
        PublishedDelivery { last_folder }
    }

    pub fn last_folder(&self) -> (r: &str)
        ensures
            r@ == self@,
    {
        self.last_folder.as_str()
    }

    /// A copy.
    pub fn duplicate(&self) -> (r: Self)
        ensures
            r@ == self@,
    {
        PublishedDelivery { last_folder: self.last_folder.clone() }
    }
}

/// Why publishing failed, and what has become visible all the same.
#[derive(Debug, PartialEq, Eq)]
pub struct SinkCommitError {
    source: IoError,
    published: Option<PublishedDelivery>,
}

pub struct CommitFault {
    pub source: failure::IoFailure,
    pub published: Option<Seq<char>>,
}

impl View for SinkCommitError {
    type V = CommitFault;

    closed spec fn view(&self) -> CommitFault {
        CommitFault {
            source: self.source@,
            published: match self.published {
                Some(delivery) => Some(delivery@),
                None => None,
            },
        }
    }
}

impl SinkCommitError {
    /// A failure before anything has become visible.
    pub fn before_publication(source: IoError) -> (r: Self)
        ensures
            r@ == (CommitFault { source: source@, published: None }),
    {
        SinkCommitError { source, published: None }
    }

    /// A failure after the message has become visible.
    pub fn after_publication(source: IoError, published: PublishedDelivery) -> (r: Self)
        ensures
            r@ == (CommitFault { source: source@, published: Some(published@) }),
    {
        SinkCommitError { source, published: Some(published) }
    }

    /// What has become visible.
    pub fn published(&self) -> (r: Option<&PublishedDelivery>)
        ensures
            match self@.published {
                Some(folder) => r matches Some(found) && found@ == folder,
                None => r is None,
            },
    {
        match &self.published {
            Some(delivery) => Some(delivery),
            None => None,
        }
    }

    pub fn kind(&self) -> (r: IoErrorKind)
        ensures
            r == self@.source.kind,
    {
        self.source.kind
    }

    pub fn class(&self) -> (r: DeliveryFailureClass)
        ensures
            r == failure::class_of(self@.source),
    {
        DeliveryFailureClass::from_io_error(&self.source)
    }

    /// The error as it is shown.
    pub fn to_text(&self) -> (r: String)
        ensures
            r@ == self@.source.message,
    {
        self.source.message.clone()
    }
}

/// Whether some of the bytes, but not all, came behind what was there before.
pub open spec fn partly_written(before: Seq<u8>, bytes: Seq<u8>, after: Seq<u8>) -> bool {
    exists|taken: int| 0 <= taken < bytes.len() && after == before + #[trigger] bytes.take(taken)
}

/// What was partly written behind `a` is so much of the whole that starts with
/// `a`.
pub proof fn lemma_partly_written(
    before: Seq<u8>,
    a: Seq<u8>,
    b: Seq<u8>,
    whole: Seq<u8>,
    after: Seq<u8>,
)
    requires
        partly_written(before + a, b, after),
        a.len() + b.len() <= whole.len(),
        whole.take((a.len() + b.len()) as int) == a + b,
    ensures
        partly_written(before, whole, after),
{
    let taken = choose|taken: int|
        0 <= taken < b.len() && after == before + a + #[trigger] b.take(taken);
    let total = a.len() + taken;
    assert(whole.take(total) =~= whole.take((a.len() + b.len()) as int).take(total));
    assert((a + b).take(total) =~= a + b.take(taken));
    assert(after =~= before + whole.take(total));
}

/// What follows from one offer of bytes.
#[derive(Debug)]
pub enum WriteDecision {
    /// Everything was taken.
    Done,
    /// The rest, from here on, is offered next.
    Continue { offset: usize },
    /// The same is offered again: the sink was interrupted.
    Retry(IoError),
    /// Writing has failed.
    Fail(IoError),
}

/// The same, with failures as their models.
pub enum WriteVerdict {
    Done,
    Continue { offset: int },
    Retry(failure::IoFailure),
    Fail(failure::IoFailure),
}

impl View for WriteDecision {
    type V = WriteVerdict;

    open spec fn view(&self) -> WriteVerdict {
        match self {
            WriteDecision::Done => WriteVerdict::Done,
            WriteDecision::Continue { offset } => WriteVerdict::Continue { offset: *offset as int },
            WriteDecision::Retry(error) => WriteVerdict::Retry(error@),
            WriteDecision::Fail(error) => WriteVerdict::Fail(error@),
        }
    }
}

/// The failure of a sink that takes nothing more.
pub open spec fn nothing_taken() -> failure::IoFailure {
    failure::failure(IoErrorKind::WriteZero, "failed to write whole buffer"@)
}

/// What follows once the bytes from `offset` to `len` have been offered: a sink
/// that takes nothing has failed, one that was interrupted is asked again, and
/// every other failure is final.
pub open spec fn write_verdict(
    offset: int,
    len: int,
    outcome: Result<usize, IoError>,
) -> WriteVerdict {
    match outcome {
        Ok(taken) => if taken == 0 {
            WriteVerdict::Fail(nothing_taken())
        } else if offset + taken >= len {
            WriteVerdict::Done
        } else {
            WriteVerdict::Continue { offset: offset + taken }
        },
        Err(error) => if error.kind is Interrupted {
            WriteVerdict::Retry(error@)
        } else {
            WriteVerdict::Fail(error@)
        },
    }
}

/// Decides what follows once the bytes from `offset` to `len` have been offered.
/// No sink takes more than it was offered.
pub fn after_write(offset: usize, len: usize, outcome: Result<usize, IoError>) -> (r: WriteDecision)
    requires
        offset < len,
        outcome matches Ok(taken) ==> taken <= len - offset,
    ensures
        r@ == write_verdict(offset as int, len as int, outcome),
{
    match outcome {
        Ok(taken) => {
            if taken == 0 {
                WriteDecision::Fail(
                    IoError::new(IoErrorKind::WriteZero, "failed to write whole buffer"),
                )
            } else if taken == len - offset {
                WriteDecision::Done
            } else {
                WriteDecision::Continue { offset: offset + taken }
            }
        },
        Err(error) => {
            if error.kind == IoErrorKind::Interrupted {
                WriteDecision::Retry(error)
            } else {
                WriteDecision::Fail(error)
            }
        },
    }
}

/// How many bytes the first `n` offers have placed.
pub open spec fn placed(outcomes: Seq<Result<usize, IoError>>, n: nat) -> int
    decreases n,
{
    if n == 0 || n > outcomes.len() {
        0
    } else {
        placed(outcomes, (n - 1) as nat) + match outcomes[n - 1] {
            Ok(taken) => taken as int,
            Err(_) => 0,
        }
    }
}

/// Whether offer `i` was made with all that was left, and can have turned the
/// sink from one step into the next.
pub open spec fn offered_at<W: ByteSink>(
    steps: Seq<W>,
    outcomes: Seq<Result<usize, IoError>>,
    bytes: Seq<u8>,
    i: int,
) -> bool {
    let offset = placed(outcomes, i as nat);
    &&& 0 <= offset < bytes.len()
    &&& steps[i].may_write(bytes.skip(offset), &steps[i + 1], outcomes[i])
}

/// Whether another offer follows offer `i`.
pub open spec fn goes_on(outcomes: Seq<Result<usize, IoError>>, len: int, i: int) -> bool {
    let verdict = write_verdict(placed(outcomes, i as nat), len, outcomes[i]);
    verdict is Continue || verdict is Retry
}

/// Whether these offers were made one after another, each because of the one
/// before it.
pub open spec fn offers<W: ByteSink>(
    steps: Seq<W>,
    outcomes: Seq<Result<usize, IoError>>,
    bytes: Seq<u8>,
) -> bool {
    &&& steps.len() == outcomes.len() + 1
    &&& forall|i: int|
        0 <= i < outcomes.len() ==> #[trigger] offered_at(steps, outcomes, bytes, i)
    &&& forall|i: int|
        0 <= i < outcomes.len() - 1 ==> #[trigger] goes_on(outcomes, bytes.len() as int, i)
}

/// What these offers come to. Only a sink that is interrupted more often than
/// can be counted fails for that.
pub open spec fn concluded(
    outcomes: Seq<Result<usize, IoError>>,
    len: int,
    result: Result<(), failure::IoFailure>,
) -> bool {
    if outcomes.len() == 0 {
        len == 0 && result is Ok
    } else {
        let last = outcomes.len() - 1;
        match write_verdict(placed(outcomes, last as nat), len, outcomes[last]) {
            WriteVerdict::Done => result is Ok,
            WriteVerdict::Continue { .. } => false,
            WriteVerdict::Retry(fault) => outcomes.len() > usize::MAX && result == Err::<
                (),
                failure::IoFailure,
            >(fault),
            WriteVerdict::Fail(fault) => result == Err::<(), failure::IoFailure>(fault),
        }
    }
}

/// Whether writing all of the bytes can have turned a sink into `after`, with
/// this result.
pub open spec fn wrote<W: ByteSink>(
    before: W,
    bytes: Seq<u8>,
    after: W,
    result: Result<(), failure::IoFailure>,
) -> bool {
    exists|steps: Seq<W>, outcomes: Seq<Result<usize, IoError>>|
        {
            &&& #[trigger] offers(steps, outcomes, bytes)
            &&& steps[0] == before
            &&& steps.last() == after
            &&& concluded(outcomes, bytes.len() as int, result)
        }
}

/// A result with its failure as a model.
pub open spec fn result_model(result: Result<(), IoError>) -> Result<(), failure::IoFailure> {
    match result {
        Ok(()) => Ok(()),
        Err(error) => Err(error@),
    }
}

/// Whether writing a whole that goes out in pieces can have failed like this
/// and turned the sink into `after`: one of the pieces failed, and those before
/// it had been taken.
pub open spec fn failed_within<W: ByteSink>(
    before: W,
    whole: Seq<u8>,
    after: W,
    fault: failure::IoFailure,
) -> bool {
    exists|mid: W, n: int, m: int|
        {
            &&& 0 <= n <= m <= whole.len()
            &&& mid.identity() == before.identity()
            &&& mid.written() == before.written() + whole.take(n)
            &&& #[trigger] wrote(mid, whole.subrange(n, m), after, Err(fault))
        }
}

proof fn lemma_placed(
    outcomes: Seq<Result<usize, IoError>>,
    outcome: Result<usize, IoError>,
    n: nat,
)
    requires
        n <= outcomes.len(),
    ensures
        placed(outcomes.push(outcome), n) == placed(outcomes, n),
    decreases n,
{
    if n > 0 {
        lemma_placed(outcomes, outcome, (n - 1) as nat);
    }
}

proof fn lemma_offer<W: ByteSink>(
    steps: Seq<W>,
    outcomes: Seq<Result<usize, IoError>>,
    bytes: Seq<u8>,
    after: W,
    outcome: Result<usize, IoError>,
)
    requires
        steps.len() == outcomes.len() + 1,
        forall|i: int|
            0 <= i < outcomes.len() ==> #[trigger] offered_at(steps, outcomes, bytes, i),
        forall|i: int|
            0 <= i < outcomes.len() ==> #[trigger] goes_on(outcomes, bytes.len() as int, i),
        0 <= placed(outcomes, outcomes.len()) < bytes.len(),
        steps.last().may_write(bytes.skip(placed(outcomes, outcomes.len())), &after, outcome),
    ensures
        offers(steps.push(after), outcomes.push(outcome), bytes),
        placed(outcomes.push(outcome), outcomes.len()) == placed(outcomes, outcomes.len()),
{
    let more_steps = steps.push(after);
    let more = outcomes.push(outcome);
    lemma_placed(outcomes, outcome, outcomes.len());
    assert forall|i: int| 0 <= i < more.len() implies #[trigger] offered_at(
        more_steps,
        more,
        bytes,
        i,
    ) by {
        lemma_placed(outcomes, outcome, i as nat);
        if i < outcomes.len() {
            assert(offered_at(steps, outcomes, bytes, i));
            assert(more_steps[i] == steps[i] && more_steps[i + 1] == steps[i + 1]);
        } else {
            assert(more_steps[i] == steps.last());
        }
    }
    assert forall|i: int| 0 <= i < more.len() - 1 implies #[trigger] goes_on(
        more,
        bytes.len() as int,
        i,
    ) by {
        lemma_placed(outcomes, outcome, i as nat);
        assert(goes_on(outcomes, bytes.len() as int, i));
    }
}

/// Writes all bytes, however many of them the sink takes at once. A sink that
/// takes nothing more has failed; one that was interrupted is asked again.
pub fn write_all<W: ByteSink>(sink: &mut W, bytes: &[u8]) -> (r: Result<(), IoError>)
    ensures
        wrote(*old(sink), bytes@, *final(sink), result_model(r)),
        final(sink).identity() == old(sink).identity(),
        match r {
            Ok(()) => final(sink).written() == old(sink).written() + bytes@,
            Err(_) => partly_written(old(sink).written(), bytes@, final(sink).written()),
        },
        old(sink).always_takes() ==> r is Ok && final(sink).always_takes(),
{
    let ghost before = sink.written();
    let ghost mut steps: Seq<W> = seq![*sink];
    let ghost mut outcomes: Seq<Result<usize, IoError>> = Seq::empty();
    let len = bytes.len();
    let mut offset: usize = 0;
    let mut patience: usize = usize::MAX;
    assert(before + bytes@.take(0) =~= before);
    while offset < len
        invariant
            len == bytes@.len(),
            offset < len || (len == 0 && outcomes.len() == 0),
            before == old(sink).written(),
            sink.written() == before + bytes@.take(offset as int),
            sink.identity() == old(sink).identity(),
            old(sink).always_takes() ==> sink.always_takes(),
            offset == placed(outcomes, outcomes.len()),
            outcomes.len() + patience >= usize::MAX,
            steps.len() == outcomes.len() + 1,
            steps[0] == *old(sink),
            steps.last() == *sink,
            forall|i: int|
                0 <= i < outcomes.len() ==> #[trigger] offered_at(steps, outcomes, bytes@, i),
            forall|i: int|
                0 <= i < outcomes.len() ==> #[trigger] goes_on(outcomes, len as int, i),
        decreases len - offset, patience,
    {
        let rest = slice_subrange(bytes, offset, len);
        let ghost so_far = sink.written();
        assert(rest@ =~= bytes@.skip(offset as int));
        let outcome = sink.write(rest);
        let ghost answer = outcome;
        proof {
            lemma_offer(steps, outcomes, bytes@, *sink, answer);
            steps = steps.push(*sink);
            outcomes = outcomes.push(answer);
            if let Ok(taken) = answer {
                assert(bytes@.take(offset as int) + rest@.take(taken as int) =~= bytes@.take(
                    offset + taken,
                ));
                assert(so_far + rest@.take(taken as int) =~= before + (bytes@.take(offset as int)
                    + rest@.take(taken as int)));
            }
        }
        match after_write(offset, len, outcome) {
            WriteDecision::Done => {
                assert(bytes@.take(len as int) =~= bytes@);
                return Ok(());
            },
            WriteDecision::Continue { offset: next } => {
                assert(goes_on(outcomes, len as int, outcomes.len() - 1));
                offset = next;
            },
            WriteDecision::Retry(error) => {
                if patience == 0 {
                    return Err(error);
                }
                assert(goes_on(outcomes, len as int, outcomes.len() - 1));
                patience = patience - 1;
            },
            WriteDecision::Fail(error) => {
                return Err(error);
            },
        }
    }
    assert(offers(steps, outcomes, bytes@));
    assert(bytes@.take(bytes@.len() as int) =~= bytes@);
    Ok(())
}

/// What failed behind `a` is a piece of the whole that starts with `a`.
pub proof fn lemma_piece_failed<W: ByteSink>(
    before: W,
    mid: W,
    whole: Seq<u8>,
    a: Seq<u8>,
    b: Seq<u8>,
    after: W,
    fault: failure::IoFailure,
)
    requires
        a.len() + b.len() <= whole.len(),
        whole.take((a.len() + b.len()) as int) == a + b,
        mid.identity() == before.identity(),
        mid.written() == before.written() + a,
        wrote(mid, b, after, Err(fault)),
    ensures
        failed_within(before, whole, after, fault),
{
    let n = a.len() as int;
    let m = (a.len() + b.len()) as int;
    assert(whole.take(n) =~= whole.take(m).take(n));
    assert((a + b).take(n) =~= a);
    assert(whole.subrange(n, m) =~= whole.take(m).subrange(n, m));
    assert((a + b).subrange(n, m) =~= b);
    assert(wrote(mid, whole.subrange(n, m), after, Err(fault)));
}

/// A sink that takes whatever it is offered never fails.
pub proof fn lemma_never_fails<W: ByteSink>(
    before: W,
    bytes: Seq<u8>,
    after: W,
    fault: failure::IoFailure,
)
    requires
        forall|a: W, b: W, rest: Seq<u8>, outcome: Result<usize, IoError>| #[trigger]
            a.may_write(rest, &b, outcome) ==> outcome is Ok && outcome->Ok_0 == rest.len(),
    ensures
        !wrote(before, bytes, after, Err(fault)),
{
    if wrote(before, bytes, after, Err(fault)) {
        let (steps, outcomes) = choose|steps: Seq<W>, outcomes: Seq<Result<usize, IoError>>|
            {
                &&& #[trigger] offers(steps, outcomes, bytes)
                &&& steps[0] == before
                &&& steps.last() == after
                &&& concluded(
                    outcomes,
                    bytes.len() as int,
                    Err::<(), failure::IoFailure>(fault),
                )
            };
        assert(offered_at(steps, outcomes, bytes, outcomes.len() - 1));
    }
}

/// Adds bytes at the end of a list.
pub fn append_bytes(output: &mut Vec<u8>, bytes: &[u8])
    ensures
        final(output)@ == old(output)@ + bytes@,
{
    let ghost before = output@;
    let mut i: usize = 0;
    assert(before + bytes@.take(0) =~= before);
    while i < bytes.len()
        invariant
            i <= bytes@.len(),
            output@ == before + bytes@.take(i as int),
        decreases bytes.len() - i,
    {
        output.push(bytes[i]);
        i = i + 1;
        assert(before + bytes@.take(i as int) =~= (before + bytes@.take(i - 1)).push(
            bytes@[i - 1],
        ));
    }
    assert(bytes@.take(bytes@.len() as int) =~= bytes@);
}

impl ByteSink for Vec<u8> {
    open spec fn identity(&self) -> int {
        0
    }

    open spec fn written(&self) -> Seq<u8> {
        self@
    }

    open spec fn always_takes(&self) -> bool {
        true
    }

    open spec fn may_write(
        &self,
        bytes: Seq<u8>,
        after: &Self,
        outcome: Result<usize, IoError>,
    ) -> bool {
        outcome matches Ok(taken) && taken == bytes.len() && after@ == self@ + bytes
    }

    open spec fn may_flush(&self, after: &Self, outcome: Result<(), IoError>) -> bool {
        outcome is Ok && after@ == self@
    }

    fn write(&mut self, bytes: &[u8]) -> (r: Result<usize, IoError>)
        ensures
            r == Ok::<usize, IoError>(bytes@.len() as usize),
    {
        append_bytes(self, bytes);
        assert(bytes@.take(bytes@.len() as int) =~= bytes@);
        Ok(bytes.len())
    }

    fn flush(&mut self) -> (r: Result<(), IoError>)
        ensures
            r is Ok,
    {
        Ok(())
    }
}

} // verus!
