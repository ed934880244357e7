//! A sink that keeps nothing.

use vstd::prelude::*;
use vstd::string::*;

use crate::delivery::failure::IoError;
use crate::delivery::sink::{ByteSink, PendingSink, PublishedDelivery, SinkCommitError};

verus! {

/// A sink whose messages go nowhere.
pub struct DiscardSink {
    path: String,
    taken: Ghost<Seq<u8>>,
}

impl DiscardSink {
    pub closed spec fn path(&self) -> Seq<char> {
        self.path@
    }

    /// The sink that is published as `/dev/null`.
    pub fn null() -> (r: Self)
        ensures
            r.path() == "/dev/null"@,
            r.written() == Seq::<u8>::empty(),
    {
        DiscardSink { path: "/dev/null".to_owned(), taken: Ghost(Seq::empty()) }
    }
}

impl ByteSink for DiscardSink {
    open spec fn identity(&self) -> int {
        0
    }

    closed spec fn written(&self) -> Seq<u8> {
        self.taken@
    }

    open spec fn always_takes(&self) -> bool {
        true
    }

    open spec fn may_write(
        &self,
        bytes: Seq<u8>,
        after: &Self,
        outcome: Result<usize, IoError>,
    ) -> bool {
        outcome matches Ok(taken) && taken == bytes.len() && after.path() == self.path()
    }

    open spec fn may_flush(&self, after: &Self, outcome: Result<(), IoError>) -> bool {
        outcome is Ok && *after == *self
    }

    fn write(&mut self, bytes: &[u8]) -> (r: Result<usize, IoError>)
        ensures
            r == Ok::<usize, IoError>(bytes@.len() as usize),
            final(self).path() == old(self).path(),
    {
        proof {
            self.taken@ = self.taken@ + bytes@;
            assert(bytes@.take(bytes@.len() as int) =~= bytes@);
        }
        Ok(bytes.len())
    }

    fn flush(&mut self) -> (r: Result<(), IoError>)
        ensures
            r is Ok,
            *final(self) == *old(self),
    {
        Ok(())
    }
}

impl PendingSink for DiscardSink {
    open spec fn may_commit(&self, outcome: Result<PublishedDelivery, SinkCommitError>) -> bool {
        outcome matches Ok(published) && published@ == self.path()
    }

    open spec fn may_abort(&self, outcome: Result<(), IoError>) -> bool {
        outcome is Ok
    }

    fn commit(self) -> (r: Result<PublishedDelivery, SinkCommitError>) {
        Ok(PublishedDelivery::new(self.path))
    }

    fn abort(self) -> (r: Result<(), IoError>) {
        Ok(())
    }
}

} // verus!
