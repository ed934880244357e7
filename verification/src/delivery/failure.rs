//! Failures of the operating system, and what they mean for a delivery.

use vstd::prelude::*;
use vstd::string::*;

verus! {

/// What kind of failure the operating system reported.
#[derive(Debug, Clone, Copy, PartialEq, Eq, Structural)]
pub enum IoErrorKind {
    AlreadyExists,
    BrokenPipe,
    Interrupted,
    InvalidData,
    InvalidInput,
    IsADirectory,
    NotADirectory,
    NotFound,
    OutOfMemory,
    PermissionDenied,
    ReadOnlyFilesystem,
    ResourceBusy,
    StorageFull,
    TimedOut,
    UnexpectedEof,
    Unsupported,
    WouldBlock,
    WriteZero,
    Other,
}

/// A failure that the operating system reported, or one that is reported in
/// the same way.
#[derive(Debug, PartialEq, Eq)]
pub struct IoError {
    pub kind: IoErrorKind,
    pub code: Option<i32>,
    pub message: String,
}

/// A failure, with its message as a sequence of characters.
pub struct IoFailure {
    pub kind: IoErrorKind,
    pub code: Option<i32>,
    pub message: Seq<char>,
}

impl View for IoError {
    type V = IoFailure;

    open spec fn view(&self) -> IoFailure {
        IoFailure { kind: self.kind, code: self.code, message: self.message@ }
    }
}

/// A failure that no system call reported.
pub open spec fn failure(kind: IoErrorKind, message: Seq<char>) -> IoFailure {
    IoFailure { kind, code: None, message }
}

impl IoError {
    /// A failure that no system call reported.
    pub fn new(kind: IoErrorKind, message: &str) -> (r: Self)
        ensures
            r@ == failure(kind, message@),
    {
        IoError { kind, code: None, message: message.to_owned() }
    }

    /// A failure of no particular kind.
    pub fn other(message: &str) -> (r: Self)
        ensures
            r@ == failure(IoErrorKind::Other, message@),
    {
        IoError::new(IoErrorKind::Other, message)
    }
}

/// What kind of failure a number of the system's stands for, on Linux.
pub open spec fn system_kind(code: i32) -> IoErrorKind {
    if code == 1 || code == 13 {
        IoErrorKind::PermissionDenied
    } else if code == 2 {
        IoErrorKind::NotFound
    } else if code == 4 {
        IoErrorKind::Interrupted
    } else if code == 11 {
        IoErrorKind::WouldBlock
    } else if code == 12 {
        IoErrorKind::OutOfMemory
    } else if code == 16 {
        IoErrorKind::ResourceBusy
    } else if code == 17 {
        IoErrorKind::AlreadyExists
    } else if code == 20 {
        IoErrorKind::NotADirectory
    } else if code == 21 {
        IoErrorKind::IsADirectory
    } else if code == 22 {
        IoErrorKind::InvalidInput
    } else if code == 28 {
        IoErrorKind::StorageFull
    } else if code == 30 {
        IoErrorKind::ReadOnlyFilesystem
    } else if code == 32 {
        IoErrorKind::BrokenPipe
    } else if code == 38 || code == 95 {
        IoErrorKind::Unsupported
    } else if code == 110 {
        IoErrorKind::TimedOut
    } else {
        IoErrorKind::Other
    }
}

/// Whether a failure is the one that the system reported by this number. What
/// it says is the system's own text.
pub open spec fn reported_as(failure: IoFailure, code: i32) -> bool {
    failure.kind == system_kind(code) && failure.code == Some(code)
}

fn kind_of_code(code: i32) -> (r: IoErrorKind)
    ensures
        r == system_kind(code),
{
    match code {
        1 | 13 => IoErrorKind::PermissionDenied,
        2 => IoErrorKind::NotFound,
        4 => IoErrorKind::Interrupted,
        11 => IoErrorKind::WouldBlock,
        12 => IoErrorKind::OutOfMemory,
        16 => IoErrorKind::ResourceBusy,
        17 => IoErrorKind::AlreadyExists,
        20 => IoErrorKind::NotADirectory,
        21 => IoErrorKind::IsADirectory,
        22 => IoErrorKind::InvalidInput,
        28 => IoErrorKind::StorageFull,
        30 => IoErrorKind::ReadOnlyFilesystem,
        32 => IoErrorKind::BrokenPipe,
        38 | 95 => IoErrorKind::Unsupported,
        110 => IoErrorKind::TimedOut,
        _ => IoErrorKind::Other,
    }
}

/// `std::io::Error::from_raw_os_error` shows the number of an error as the
/// system's text for it. That text is the system's, so nothing is said of it.
#[verifier::external_body]
fn system_text(code: i32) -> (r: String) {
    std::io::Error::from_raw_os_error(code).to_string()
}

impl IoError {
    /// A failure that the system reported by its number.
    pub fn from_system(code: i32) -> (r: Self)
        ensures
            reported_as(r@, code),
    {
        IoError { kind: kind_of_code(code), code: Some(code), message: system_text(code) }
    }
}

/// What a failed delivery means for the message.
#[derive(Debug, Clone, Copy, PartialEq, Eq, Structural)]
pub enum DeliveryFailureClass {
    Retryable,
    Permanent,
    Internal,
}

/// Whether a failure of this kind may go away by itself.
pub open spec fn may_pass(kind: IoErrorKind) -> bool {
    kind is AlreadyExists || kind is BrokenPipe || kind is Interrupted || kind is OutOfMemory
        || kind is ResourceBusy || kind is StorageFull || kind is TimedOut || kind is WouldBlock
        || kind is WriteZero
}

/// Whether a failure of this kind stays until somebody changes something.
pub open spec fn stays(kind: IoErrorKind) -> bool {
    kind is InvalidData || kind is InvalidInput || kind is IsADirectory || kind is NotADirectory
        || kind is NotFound || kind is PermissionDenied || kind is ReadOnlyFilesystem
        || kind is Unsupported
}

/// What a failure of this kind means.
pub open spec fn class_of_kind(kind: IoErrorKind) -> DeliveryFailureClass {
    if may_pass(kind) {
        DeliveryFailureClass::Retryable
    } else if stays(kind) {
        DeliveryFailureClass::Permanent
    } else {
        DeliveryFailureClass::Internal
    }
}

/// The number of the error that the process has no descriptor left.
pub const LINUX_EMFILE: i32 = 24;

/// What a failure means.
pub open spec fn class_of(failure: IoFailure) -> DeliveryFailureClass {
    if failure.code == Some(LINUX_EMFILE) {
        DeliveryFailureClass::Retryable
    } else {
        class_of_kind(failure.kind)
    }
}

impl DeliveryFailureClass {
    /// What a failure means. Descriptors that are used up come back.
    pub fn from_io_error(error: &IoError) -> (r: Self)
        ensures
            r == class_of(error@),
    {
        if let Some(code) = error.code {
            if code == LINUX_EMFILE {
                return DeliveryFailureClass::Retryable;
            }
        }
        DeliveryFailureClass::from_io_kind(error.kind)
    }

    /// What a failure of this kind means.
    pub fn from_io_kind(kind: IoErrorKind) -> (r: Self)
        ensures
            r == class_of_kind(kind),
    {
        match kind {
            IoErrorKind::AlreadyExists
            | IoErrorKind::BrokenPipe
            | IoErrorKind::Interrupted
            | IoErrorKind::OutOfMemory
            | IoErrorKind::ResourceBusy
            | IoErrorKind::StorageFull
            | IoErrorKind::TimedOut
            | IoErrorKind::WouldBlock
            | IoErrorKind::WriteZero => DeliveryFailureClass::Retryable,
            IoErrorKind::InvalidData
            | IoErrorKind::InvalidInput
            | IoErrorKind::IsADirectory
            | IoErrorKind::NotADirectory
            | IoErrorKind::NotFound
            | IoErrorKind::PermissionDenied
            | IoErrorKind::ReadOnlyFilesystem
            | IoErrorKind::Unsupported => DeliveryFailureClass::Permanent,
            _ => DeliveryFailureClass::Internal,
        }
    }
}

/// No kind of failure both passes by itself and stays.
pub proof fn failure_classes_exclude_each_other(kind: IoErrorKind)
    ensures
        !(may_pass(kind) && stays(kind)),
{
}

} // verus!
