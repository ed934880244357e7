//! Appending a record to a locked mailbox: what to do next, and what a failure
//! leaves behind.

use vstd::prelude::*;
use vstd::string::*;

use crate::delivery::failure::{self, DeliveryFailureClass, IoError, IoFailure};
use crate::delivery::maildir::Durability;
use crate::delivery::sink::PublishedDelivery;
use crate::text::text2;

verus! {

/// The permissions that a new mailbox asks for.
pub const MBOX_FILE_MODE: u32 = 0o600;

/// How long the lock of a mailbox is waited for, in seconds.
pub const LOCK_TIMEOUT_SECONDS: u64 = 10;

/// How long it takes until the lock is tried again, in nanoseconds.
pub const LOCK_RETRY_NANOSECONDS: u64 = 10_000_000;

/// What is wrong with the file that a mailbox is.
pub open spec fn mailbox_fault(is_regular: bool, links: u64) -> Option<Seq<char>> {
    if !is_regular {
        Some("mbox destination is not a regular file"@)
    } else if links != 1 {
        Some("mbox destination must have exactly one hard link"@)
    } else {
        None
    }
}

/// Refuses a file that is no mailbox of its own.
pub fn check_mailbox_file(is_regular: bool, links: u64) -> (r: Result<(), IoError>)
    ensures
        match mailbox_fault(is_regular, links) {
            Some(message) => r matches Err(error) && error@ == failure::failure(
                failure::IoErrorKind::InvalidInput,
                message,
            ),
            None => r is Ok,
        },
{
    if !is_regular {
        return Err(
            IoError::new(
                failure::IoErrorKind::InvalidInput,
                "mbox destination is not a regular file",
            ),
        );
    }
    if links != 1 {
        return Err(
            IoError::new(
                failure::IoErrorKind::InvalidInput,
                "mbox destination must have exactly one hard link",
            ),
        );
    }
    Ok(())
}

/// How far an append has come.
#[derive(Debug, Clone, Copy, PartialEq, Eq, Structural)]
pub enum AppendPhase {
    Writing,
    SyncingFile,
    SyncingParent,
    Unlocking,
    Truncating,
    Seeking,
    SyncingRestored,
    Releasing,
    Ended,
}

/// What an append needs done next.
#[derive(Debug, Clone, Copy, PartialEq, Eq, Structural)]
pub enum AppendStep {
    Write,
    SyncFile,
    SyncParent,
    Truncate { length: u64 },
    SeekEnd,
    Unlock,
    Finish,
}

/// An append to a mailbox that had `original_len` bytes.
#[derive(Debug)]
pub struct MboxAppend {
    durability: Durability,
    original_len: u64,
    phase: AppendPhase,
    published: bool,
    source: Option<IoError>,
    rollback: Option<IoError>,
}

pub struct AppendModel {
    pub durability: Durability,
    pub original_len: u64,
    pub phase: AppendPhase,
    pub published: bool,
    pub source: Option<IoFailure>,
    pub rollback: Option<IoFailure>,
}

/// An optional failure as a model.
pub open spec fn failure_model(error: Option<IoError>) -> Option<IoFailure> {
    match error {
        Some(found) => Some(found@),
        None => None,
    }
}

impl View for MboxAppend {
    type V = AppendModel;

    closed spec fn view(&self) -> AppendModel {
        AppendModel {
            durability: self.durability,
            original_len: self.original_len,
            phase: self.phase,
            published: self.published,
            source: failure_model(self.source),
            rollback: failure_model(self.rollback),
        }
    }
}

impl AppendModel {
    /// What is needed next.
    pub open spec fn next_step(self) -> AppendStep {
        match self.phase {
            AppendPhase::Writing => AppendStep::Write,
            AppendPhase::SyncingFile => AppendStep::SyncFile,
            AppendPhase::SyncingParent => AppendStep::SyncParent,
            AppendPhase::Truncating => AppendStep::Truncate { length: self.original_len },
            AppendPhase::Seeking => AppendStep::SeekEnd,
            AppendPhase::SyncingRestored => AppendStep::SyncFile,
            AppendPhase::Unlocking => AppendStep::Unlock,
            AppendPhase::Releasing => AppendStep::Unlock,
            AppendPhase::Ended => AppendStep::Finish,
        }
    }

    /// In another phase.
    pub open spec fn at(self, phase: AppendPhase) -> AppendModel {
        AppendModel { phase, ..self }
    }

    /// Once that has been done, or has failed.
    pub open spec fn after(self, failed: Option<IoFailure>) -> AppendModel {
        match self.phase {
            AppendPhase::Writing => match failed {
                Some(_) => AppendModel { source: failed, ..self.at(AppendPhase::Truncating) },
                None => if self.durability is Nothing {
                    self.at(AppendPhase::Unlocking)
                } else {
                    self.at(AppendPhase::SyncingFile)
                },
            },
            AppendPhase::SyncingFile => match failed {
                Some(_) => AppendModel { source: failed, ..self.at(AppendPhase::Truncating) },
                None => if self.durability is Full {
                    self.at(AppendPhase::SyncingParent)
                } else {
                    self.at(AppendPhase::Unlocking)
                },
            },
            AppendPhase::SyncingParent => match failed {
                Some(_) => AppendModel { source: failed, ..self.at(AppendPhase::Truncating) },
                None => self.at(AppendPhase::Unlocking),
            },
            AppendPhase::Unlocking => AppendModel {
                published: true,
                source: failed,
                ..self.at(AppendPhase::Ended)
            },
            AppendPhase::Truncating => match failed {
                Some(_) => AppendModel { rollback: failed, ..self.at(AppendPhase::Releasing) },
                None => self.at(AppendPhase::Seeking),
            },
            AppendPhase::Seeking => match failed {
                Some(_) => AppendModel { rollback: failed, ..self.at(AppendPhase::Releasing) },
                None => if self.durability is Nothing {
                    self.at(AppendPhase::Releasing)
                } else {
                    self.at(AppendPhase::SyncingRestored)
                },
            },
            AppendPhase::SyncingRestored => match failed {
                Some(_) => AppendModel { rollback: failed, ..self.at(AppendPhase::Releasing) },
                None => self.at(AppendPhase::Releasing),
            },
            AppendPhase::Releasing => self.at(AppendPhase::Ended),
            AppendPhase::Ended => self,
        }
    }

    /// How many steps are left at most.
    pub open spec fn steps_left(self) -> nat {
        match self.phase {
            AppendPhase::Writing => 8,
            AppendPhase::SyncingFile => 7,
            AppendPhase::SyncingParent => 6,
            AppendPhase::Truncating => 5,
            AppendPhase::Seeking => 4,
            AppendPhase::SyncingRestored => 3,
            AppendPhase::Releasing => 2,
            AppendPhase::Unlocking => 1,
            AppendPhase::Ended => 0,
        }
    }

    /// What holds of an append in every phase.
    pub open spec fn wf(self) -> bool {
        &&& self.phase is SyncingFile || self.phase is SyncingRestored ==> !(
        self.durability is Nothing)
        &&& self.phase is SyncingParent ==> self.durability is Full
        &&& self.published ==> self.phase is Ended && self.rollback is None
        &&& self.phase is Ended && !self.published ==> self.source is Some
        &&& self.phase is Truncating || self.phase is Seeking || self.phase is SyncingRestored
            || self.phase is Releasing ==> self.source is Some
        &&& self.phase is Writing || self.phase is SyncingFile || self.phase is SyncingParent
            || self.phase is Unlocking ==> self.source is None && self.rollback is None
    }
}

/// An append starts with nothing written and nothing failed.
pub open spec fn new_append(durability: Durability, original_len: u64) -> AppendModel {
    AppendModel {
        durability,
        original_len,
        phase: AppendPhase::Writing,
        published: false,
        source: None,
        rollback: None,
    }
}

/// Every step keeps what holds of an append, and brings it nearer to its end.
pub proof fn an_append_comes_to_its_end(append: AppendModel, failed: Option<IoFailure>)
    requires
        append.wf(),
        !(append.phase is Ended),
    ensures
        append.after(failed).wf(),
        append.after(failed).steps_left() < append.steps_left(),
        append.after(failed).original_len == append.original_len,
{
}

/// A failure before the record counts is always followed by an attempt to give
/// the mailbox back the length that it had.
pub proof fn a_failed_append_restores_the_mailbox(append: AppendModel, error: IoFailure)
    requires
        append.wf(),
        append.phase is Writing || append.phase is SyncingFile || append.phase is SyncingParent,
    ensures
        append.after(Some(error)).next_step() == (AppendStep::Truncate {
            length: append.original_len,
        }),
        append.after(Some(error)).source == Some(error),
        !append.after(Some(error)).published,
{
}

/// A record counts only once it is as safe as was asked for.
pub proof fn a_record_counts_once_it_is_durable(append: AppendModel, failed: Option<IoFailure>)
    requires
        append.wf(),
        !(append.phase is Unlocking),
        append.after(failed).phase is Unlocking,
    ensures
        failed is None,
        append.durability is Nothing ==> append.phase is Writing,
        append.durability is File ==> append.phase is SyncingFile,
        append.durability is Full ==> append.phase is SyncingParent,
{
}

impl MboxAppend {
    /// An append to a mailbox that has `original_len` bytes.
    pub fn new(durability: Durability, original_len: u64) -> (r: Self)
        ensures
            r@ == new_append(durability, original_len),
            r@.wf(),
    {
        MboxAppend {
            durability,
            original_len,
            phase: AppendPhase::Writing,
            published: false,
            source: None,
            rollback: None,
        }
    }

    /// What is needed next.
    pub fn step(&self) -> (r: AppendStep)
        ensures
            r == self@.next_step(),
    {
        match self.phase {
            AppendPhase::Writing => AppendStep::Write,
            AppendPhase::SyncingFile => AppendStep::SyncFile,
            AppendPhase::SyncingParent => AppendStep::SyncParent,
            AppendPhase::Truncating => AppendStep::Truncate { length: self.original_len },
            AppendPhase::Seeking => AppendStep::SeekEnd,
            AppendPhase::SyncingRestored => AppendStep::SyncFile,
            AppendPhase::Unlocking => AppendStep::Unlock,
            AppendPhase::Releasing => AppendStep::Unlock,
            AppendPhase::Ended => AppendStep::Finish,
        }
    }

    /// Once that has been done, or has failed.
    pub fn advance(self, outcome: Result<(), IoError>) -> (r: Self)
        requires
            self@.wf(),
        ensures
            r@ == self@.after(
                match outcome {
                    Ok(()) => None,
                    Err(error) => Some(error@),
                },
            ),
            r@.wf(),
    {
        let mut next = self;
        let nothing = next.durability == Durability::Nothing;
        let full = next.durability == Durability::Full;
        match next.phase {
            AppendPhase::Writing => match outcome {
                Err(error) => {
                    next.source = Some(error);
                    next.phase = AppendPhase::Truncating;
                },
                Ok(()) => {
                    next.phase = if nothing {
                        AppendPhase::Unlocking
                    } else {
                        AppendPhase::SyncingFile
                    };
                },
            },
            AppendPhase::SyncingFile => match outcome {
                Err(error) => {
                    next.source = Some(error);
                    next.phase = AppendPhase::Truncating;
                },
                Ok(()) => {
                    next.phase = if full {
                        AppendPhase::SyncingParent
                    } else {
                        AppendPhase::Unlocking
                    };
                },
            },
            AppendPhase::SyncingParent => match outcome {
                Err(error) => {
                    next.source = Some(error);
                    next.phase = AppendPhase::Truncating;
                },
                Ok(()) => {
                    next.phase = AppendPhase::Unlocking;
                },
            },
            AppendPhase::Unlocking => {
                next.published = true;
                next.phase = AppendPhase::Ended;
                next.source = match outcome {
                    Err(error) => Some(error),
                    Ok(()) => None,
                };
            },
            AppendPhase::Truncating => match outcome {
                Err(error) => {
                    next.rollback = Some(error);
                    next.phase = AppendPhase::Releasing;
                },
                Ok(()) => {
                    next.phase = AppendPhase::Seeking;
                },
            },
            AppendPhase::Seeking => match outcome {
                Err(error) => {
                    next.rollback = Some(error);
                    next.phase = AppendPhase::Releasing;
                },
                Ok(()) => {
                    next.phase = if nothing {
                        AppendPhase::Releasing
                    } else {
                        AppendPhase::SyncingRestored
                    };
                },
            },
            AppendPhase::SyncingRestored => {
                if let Err(error) = outcome {
                    next.rollback = Some(error);
                }
                next.phase = AppendPhase::Releasing;
            },
            AppendPhase::Releasing => {
                next.phase = AppendPhase::Ended;
            },
            AppendPhase::Ended => {},
        }
        next
    }

    /// What came of the append to the mailbox at `path`.
    pub fn finish(self, path: String) -> (r: Result<PublishedDelivery, MboxAppendError>)
        requires
            self@.wf(),
            self@.phase is Ended,
        ensures
            match self@.source {
                None => r matches Ok(published) && published@ == path@,
                Some(source) => r matches Err(error) && error@ == (AppendFault {
                    source,
                    rollback: self@.rollback,
                    published: self@.published,
                }),
            },
    {
        match self.source {
            None => Ok(PublishedDelivery::new(path)),
            Some(source) => Err(
                MboxAppendError { source, rollback: self.rollback, published: self.published },
            ),
        }
    }
}

/// Why a record was not appended as it should be.
#[derive(Debug)]
pub struct MboxAppendError {
    source: IoError,
    rollback: Option<IoError>,
    published: bool,
}

pub struct AppendFault {
    pub source: IoFailure,
    pub rollback: Option<IoFailure>,
    pub published: bool,
}

impl View for MboxAppendError {
    type V = AppendFault;

    closed spec fn view(&self) -> AppendFault {
        AppendFault {
            source: self.source@,
            rollback: failure_model(self.rollback),
            published: self.published,
        }
    }
}

impl AppendFault {
    /// What the failure means. A mailbox that could not be restored needs
    /// somebody to look at it.
    pub open spec fn means(self) -> DeliveryFailureClass {
        if self.rollback is Some {
            DeliveryFailureClass::Internal
        } else {
            failure::class_of(self.source)
        }
    }

    /// The error as it is shown.
    pub open spec fn spelled(self) -> Seq<char> {
        "cannot append mbox record: "@ + self.source.message + (match self.rollback {
            Some(error) => "; cannot complete mailbox rollback: "@ + error.message,
            None => Seq::empty(),
        })
    }
}

impl MboxAppendError {
    /// The failure before an append could start.
    pub fn before_publication(source: IoError) -> (r: Self)
        ensures
            r@ == (AppendFault { source: source@, rollback: None, published: false }),
    {
        MboxAppendError { source, rollback: None, published: false }
    }

    /// What the failure means.
    pub fn class(&self) -> (r: DeliveryFailureClass)
        ensures
            r == self@.means(),
    {
        if self.rollback.is_some() {
            DeliveryFailureClass::Internal
        } else {
            DeliveryFailureClass::from_io_error(&self.source)
        }
    }

    /// Whether the record counts all the same.
    pub fn published(&self) -> (r: bool)
        ensures
            r == self@.published,
    {
        self.published
    }

    /// Whether the mailbox could not be restored.
    pub fn rollback_failed(&self) -> (r: bool)
        ensures
            r == (self@.rollback is Some),
    {
        self.rollback.is_some()
    }

    /// The error as it is shown.
    pub fn to_text(&self) -> (r: String)
        ensures
            r@ == self@.spelled(),
    {
        let message = text2("cannot append mbox record: ", self.source.message.as_str());
        match &self.rollback {
            Some(error) => {
                let rest = text2("; cannot complete mailbox rollback: ", error.message.as_str());
                text2(message.as_str(), rest.as_str())
            },
            None => {
                assert(message@ + Seq::<char>::empty() =~= message@);
                message
            },
        }
    }
}

} // verus!
