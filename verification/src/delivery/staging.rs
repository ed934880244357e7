//! Private files that hold a message while it is filtered.

use vstd::prelude::*;
use vstd::string::*;

use crate::delivery::failure::{self, IoError, IoErrorKind, IoFailure};
use crate::delivery::mode::{self, is_open_to_others};
use crate::text::{self, push_decimal, text2};

verus! {

/// The directory that the files are in.
pub const DIRECTORY_NAME: &'static str = ".procmail-rs-staging";

/// The permissions that the directory asks for.
pub const DIRECTORY_MODE: u32 = 0o700;

/// The permissions that a file asks for.
pub const STAGING_FILE_MODE: u32 = 0o600;

/// Why a directory cannot hold private files.
pub open spec fn directory_fault(mode: u32) -> Option<IoFailure> {
    if mode::grants_others(mode) {
        Some(
            failure::failure(
                IoErrorKind::PermissionDenied,
                DIRECTORY_NAME@ + " must not grant access to group or other users"@,
            ),
        )
    } else {
        None
    }
}

/// Refuses a directory that others can look into.
pub fn check_directory(mode: u32) -> (r: Result<(), IoError>)
    ensures
        match directory_fault(mode) {
            Some(fault) => r matches Err(error) && error@ == fault,
            None => r is Ok,
        },
{
    if is_open_to_others(mode) {
        let message = text2(DIRECTORY_NAME, " must not grant access to group or other users");
        return Err(IoError::new(IoErrorKind::PermissionDenied, message.as_str()));
    }
    Ok(())
}

/// The name of a file.
pub open spec fn staging_name(process: nat, time: nat, sequence: nat, attempt: nat) -> Seq<char> {
    "message."@ + text::decimal(process) + "."@ + text::decimal(time) + "."@ + text::decimal(
        sequence,
    ) + "."@ + text::decimal(attempt)
}

/// Makes the name of a file of what tells it from others: the process, the
/// time, the file's number in the process, and the try.
pub fn unique_name(process: u64, time: u64, sequence: u64, attempt: u64) -> (r: String)
    ensures
        r@ == staging_name(process as nat, time as nat, sequence as nat, attempt as nat),
{
    let mut name = "message.".to_owned();
    push_decimal(&mut name, process);
    name = text2(name.as_str(), ".");
    push_decimal(&mut name, time);
    name = text2(name.as_str(), ".");
    push_decimal(&mut name, sequence);
    name = text2(name.as_str(), ".");
    push_decimal(&mut name, attempt);
    name
}

/// Refuses headers that are longer than the message that they are of.
pub fn check_staged_length(header_len: usize, length: usize) -> (r: Result<(), IoError>)
    ensures
        if header_len > length {
            r matches Err(error) && error@ == failure::failure(
                IoErrorKind::InvalidData,
                "staging header length exceeds the message size"@,
            )
        } else {
            r is Ok
        },
{
    if header_len > length {
        return Err(
            IoError::new(
                IoErrorKind::InvalidData,
                "staging header length exceeds the message size",
            ),
        );
    }
    Ok(())
}

/// A message that is held outside of its file, with its headers in front.
#[derive(Debug, PartialEq, Eq)]
pub struct StagedMessage {
    bytes: Vec<u8>,
    header_len: usize,
}

impl View for StagedMessage {
    type V = Seq<u8>;

    closed spec fn view(&self) -> Seq<u8> {
        self.bytes@
    }
}

impl StagedMessage {
    /// The header section is a part of the message.
    #[verifier::type_invariant]
    spec fn wf(&self) -> bool {
        self.header_len <= self.bytes@.len()
    }

    pub closed spec fn headers(&self) -> nat {
        self.header_len as nat
    }

    /// Makes a message of what its file held.
    pub fn new(bytes: Vec<u8>, header_len: usize) -> (r: Result<Self, IoError>)
        ensures
            if header_len > bytes@.len() {
                r matches Err(error) && error@ == failure::failure(
                    IoErrorKind::InvalidData,
                    "staging header length exceeds the message size"@,
                )
            } else {
                r matches Ok(staged) && staged@ == bytes@ && staged.headers() == header_len
            },
    {
        match check_staged_length(header_len, bytes.len()) {
            Ok(()) => Ok(StagedMessage { bytes, header_len }),
            Err(error) => Err(error),
        }
    }

    pub fn as_bytes(&self) -> (r: &[u8])
        ensures
            r@ == self@,
    {
        self.bytes.as_slice()
    }

    pub fn header_len(&self) -> (r: usize)
        ensures
            r == self.headers(),
            r <= self@.len(),
    {
        proof {
            use_type_invariant(self);
        }
        self.header_len
    }
}

} // verus!
