//! A byte buffer that never grows past its limit.

use vstd::prelude::*;

verus! {

/// Why a [`BoundedBytes`] refused to grow.
#[derive(Debug, Clone, Copy, PartialEq, Eq, Structural)]
pub enum BoundedBytesError {
    LengthOverflow,
    LimitExceeded { attempted: usize },
}

/// Bytes together with the length they may not exceed.
pub struct BoundedBytes {
    bytes: Vec<u8>,
    limit: usize,
}

impl View for BoundedBytes {
    type V = Seq<u8>;

    closed spec fn view(&self) -> Seq<u8> {
        self.bytes@
    }
}

/// What appending `value` to `output` under `limit` answers.
pub open spec fn extension(output: Seq<u8>, limit: usize, value: Seq<u8>) -> Result<
    Seq<u8>,
    BoundedBytesError,
> {
    if output.len() + value.len() > usize::MAX {
        Err(BoundedBytesError::LengthOverflow)
    } else if output.len() + value.len() > limit {
        Err(BoundedBytesError::LimitExceeded { attempted: (output.len() + value.len()) as usize })
    } else {
        Ok(output + value)
    }
}

impl BoundedBytes {
    /// The length that the contents may not exceed.
    pub closed spec fn bound(&self) -> usize {
        self.limit
    }

    /// The contents stay within the bound.
    pub open spec fn wf(&self) -> bool {
        self@.len() <= self.bound()
    }

    /// An empty buffer that holds at most `limit` bytes.
    pub fn with_capacity(limit: usize, capacity: usize) -> (r: Self)
        ensures
            r.wf(),
            r@ == Seq::<u8>::empty(),
            r.bound() == limit,
    {
        let room: usize = if capacity < limit { capacity } else { limit };
        BoundedBytes { bytes: Vec::with_capacity(room), limit }
    }

    pub fn len(&self) -> (r: usize)
        ensures
            r == self@.len(),
    {
        self.bytes.len()
    }

    /// How many more bytes fit.
    pub fn remaining(&self) -> (r: Result<usize, BoundedBytesError>)
        ensures
            r == (if self@.len() <= self.bound() {
                Ok((self.bound() - self@.len()) as usize)
            } else {
                Err(BoundedBytesError::LengthOverflow)
            }),
    {
        if self.bytes.len() <= self.limit {
            Ok(self.limit - self.bytes.len())
        } else {
            Err(BoundedBytesError::LengthOverflow)
        }
    }

    /// Appends `value` whole, or leaves the contents as they were.
    pub fn try_extend(&mut self, value: &[u8]) -> (r: Result<(), BoundedBytesError>)
        ensures
            final(self).bound() == old(self).bound(),
            old(self).wf() ==> final(self).wf(),
            match extension(old(self)@, old(self).bound(), value@) {
                Ok(bytes) => r is Ok && final(self)@ == bytes,
                Err(error) => r == Err::<(), BoundedBytesError>(error) && final(self)@
                    == old(self)@,
            },
    {
        Self::try_extend_vec(&mut self.bytes, self.limit, value)
    }

    /// Appends `value` to `output` whole, or leaves `output` as it was.
    pub fn try_extend_vec(output: &mut Vec<u8>, limit: usize, value: &[u8]) -> (r: Result<
        (),
        BoundedBytesError,
    >)
        ensures
            match extension(old(output)@, limit, value@) {
                Ok(bytes) => r is Ok && final(output)@ == bytes,
                Err(error) => r == Err::<(), BoundedBytesError>(error) && final(output)@
                    == old(output)@,
            },
    {
        let new_len = match output.len().checked_add(value.len()) {
            Some(length) => length,
            None => {
                return Err(BoundedBytesError::LengthOverflow);
            },
        };
        if new_len > limit {
            return Err(BoundedBytesError::LimitExceeded { attempted: new_len });
        }
        let ghost before = output@;
        output.extend_from_slice(value);
        assert(output@ =~= before + value@);
        Ok(())
    }

    pub fn into_vec(self) -> (r: Vec<u8>)
        ensures
            r@ == self@,
    {
        self.bytes
    }
}

} // verus!
