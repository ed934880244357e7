//! Deliveries of one message: what has been published, what failed, and the
//! status that the program ends with.

use vstd::prelude::*;
use vstd::string::*;

use crate::config::errors;
use crate::config::recipe::{Destination, DestinationModel};
use crate::config::shell_eval::TextValues;
use crate::config::variables::{validate_lock_ext, DEFAULT_LOCK_EXT};
use crate::config::MAX_PATH_EXPRESSION_LEN;
use crate::delivery::failure::DeliveryFailureClass;
use crate::text::{self, numbered, text2, text_len};

verus! {

/// The statuses that the program ends with.
pub const SUCCESS: u8 = 0;

pub const INPUT_REJECTED: u8 = 65;

pub const INTERNAL_FAILURE: u8 = 70;

pub const PERMANENT_DESTINATION: u8 = 73;

pub const TEMPORARY_DELIVERY: u8 = 75;

pub const INVALID_CONFIGURATION: u8 = 78;

pub const UNDELIVERED: u8 = 79;

/// Why a message was not filtered as it should be.
#[derive(Debug, PartialEq, Eq)]
pub enum OperationalError {
    Input(String),
    Internal(String),
    PermanentDestination(String),
    TemporaryDelivery(String),
    Configuration(String),
    Undelivered(String),
    Signaled(i32),
}

/// The same, with the message as a sequence of characters.
pub enum OperationalFault {
    Input(Seq<char>),
    Internal(Seq<char>),
    PermanentDestination(Seq<char>),
    TemporaryDelivery(Seq<char>),
    Configuration(Seq<char>),
    Undelivered(Seq<char>),
    Signaled(i32),
}

impl View for OperationalError {
    type V = OperationalFault;

    open spec fn view(&self) -> OperationalFault {
        match self {
            OperationalError::Input(message) => OperationalFault::Input(message@),
            OperationalError::Internal(message) => OperationalFault::Internal(message@),
            OperationalError::PermanentDestination(message)
                => OperationalFault::PermanentDestination(message@),
            OperationalError::TemporaryDelivery(message) => OperationalFault::TemporaryDelivery(
                message@,
            ),
            OperationalError::Configuration(message) => OperationalFault::Configuration(message@),
            OperationalError::Undelivered(message) => OperationalFault::Undelivered(message@),
            OperationalError::Signaled(signal) => OperationalFault::Signaled(*signal),
        }
    }
}

impl OperationalFault {
    /// The status that the program ends with. One that a signal ends has none.
    pub open spec fn status(self) -> Option<u8> {
        match self {
            OperationalFault::Input(_) => Some(INPUT_REJECTED),
            OperationalFault::Internal(_) => Some(INTERNAL_FAILURE),
            OperationalFault::PermanentDestination(_) => Some(PERMANENT_DESTINATION),
            OperationalFault::TemporaryDelivery(_) => Some(TEMPORARY_DELIVERY),
            OperationalFault::Configuration(_) => Some(INVALID_CONFIGURATION),
            OperationalFault::Undelivered(_) => Some(UNDELIVERED),
            OperationalFault::Signaled(_) => None,
        }
    }
}

/// What a failed delivery of this class is.
pub open spec fn delivery_fault(class: DeliveryFailureClass, message: Seq<char>) -> OperationalFault {
    match class {
        DeliveryFailureClass::Retryable => OperationalFault::TemporaryDelivery(message),
        DeliveryFailureClass::Permanent => OperationalFault::PermanentDestination(message),
        DeliveryFailureClass::Internal => OperationalFault::Internal(message),
    }
}

impl OperationalError {
    /// A failed delivery of this class.
    pub fn delivery(class: DeliveryFailureClass, message: String) -> (r: Self)
        ensures
            r@ == delivery_fault(class, message@),
    {
        match class {
            DeliveryFailureClass::Retryable => OperationalError::TemporaryDelivery(message),
            DeliveryFailureClass::Permanent => OperationalError::PermanentDestination(message),
            DeliveryFailureClass::Internal => OperationalError::Internal(message),
        }
    }

    /// The status that the program ends with, where no signal ends it.
    pub fn exit_code(&self) -> (r: Option<u8>)
        ensures
            r == self@.status(),
    {
        match self {
            OperationalError::Input(_) => Some(INPUT_REJECTED),
            OperationalError::Internal(_) => Some(INTERNAL_FAILURE),
            OperationalError::PermanentDestination(_) => Some(PERMANENT_DESTINATION),
            OperationalError::TemporaryDelivery(_) => Some(TEMPORARY_DELIVERY),
            OperationalError::Configuration(_) => Some(INVALID_CONFIGURATION),
            OperationalError::Undelivered(_) => Some(UNDELIVERED),
            OperationalError::Signaled(_) => None,
        }
    }

    /// The message, empty where a signal was the reason.
    pub fn message(&self) -> (r: &str)
        ensures
            match self@ {
                OperationalFault::Input(message) => r@ == message,
                OperationalFault::Internal(message) => r@ == message,
                OperationalFault::PermanentDestination(message) => r@ == message,
                OperationalFault::TemporaryDelivery(message) => r@ == message,
                OperationalFault::Configuration(message) => r@ == message,
                OperationalFault::Undelivered(message) => r@ == message,
                OperationalFault::Signaled(_) => r@ == ""@,
            },
    {
        match self {
            OperationalError::Input(message) => message.as_str(),
            OperationalError::Internal(message) => message.as_str(),
            OperationalError::PermanentDestination(message) => message.as_str(),
            OperationalError::TemporaryDelivery(message) => message.as_str(),
            OperationalError::Configuration(message) => message.as_str(),
            OperationalError::Undelivered(message) => message.as_str(),
            OperationalError::Signaled(_) => "",
        }
    }
}

/// No failure ends with the status of success.
pub proof fn failures_never_look_like_success(error: OperationalFault)
    ensures
        error.status() != Some(SUCCESS),
{
}

/// How many destinations a message has been published to, and whether one of
/// them took the original.
#[derive(Debug, Clone, Copy, PartialEq, Eq, Structural)]
pub struct PublicationTracker {
    pub published: usize,
    pub original_delivered: bool,
}

impl Default for PublicationTracker {
    fn default() -> (r: Self)
        ensures
            r == (PublicationTracker { published: 0, original_delivered: false }),
    {
        PublicationTracker { published: 0, original_delivered: false }
    }
}

impl PublicationTracker {
    /// Counts publications.
    pub fn record(&mut self, published: usize, original_delivered: bool) -> (r: Result<
        (),
        OperationalError,
    >)
        ensures
            if old(self).published + published > usize::MAX {
                r matches Err(error) && error@ == OperationalFault::Internal(
                    "published destination count overflows"@,
                ) && *final(self) == *old(self)
            } else {
                r is Ok && *final(self) == (PublicationTracker {
                    published: (old(self).published + published) as usize,
                    original_delivered: old(self).original_delivered || original_delivered,
                })
            },
    {
        match self.published.checked_add(published) {
            None => Err(
                OperationalError::Internal("published destination count overflows".to_owned()),
            ),
            Some(total) => {
                self.published = total;
                self.original_delivered = self.original_delivered || original_delivered;
                Ok(())
            },
        }
    }

    /// Ends the count for a message, and starts anew for the next one.
    pub fn finish(&mut self) -> (r: Result<(), OperationalError>)
        ensures
            *final(self) == (PublicationTracker { published: 0, original_delivered: false }),
            if old(self).original_delivered {
                r is Ok
            } else {
                r matches Err(error) && error@ == OperationalFault::Undelivered(
                    "original message was not delivered (published "@ + text::decimal(
                        old(self).published as nat,
                    ) + " copy destination(s))"@,
                )
            },
    {
        let published = self.published;
        let original_delivered = self.original_delivered;
        self.published = 0;
        self.original_delivered = false;
        if original_delivered {
            Ok(())
        } else {
            Err(
                OperationalError::Undelivered(
                    numbered(
                        "original message was not delivered (published ",
                        published,
                        " copy destination(s))",
                    ),
                ),
            )
        }
    }
}

/// Whether a failed action can be handled by another recipe.
#[derive(Debug, PartialEq, Eq)]
pub enum DeliveryAttemptError {
    Recoverable(OperationalError),
    Fatal(OperationalError),
}

/// Tells a failure that another recipe can handle from one that ends the
/// filtering: a signal always does.
pub fn classify_execution_error(error: OperationalError) -> (r: DeliveryAttemptError)
    ensures
        r == (if error is Signaled {
            DeliveryAttemptError::Fatal(error)
        } else {
            DeliveryAttemptError::Recoverable(error)
        }),
{
    match error {
        OperationalError::Signaled(signal) => DeliveryAttemptError::Fatal(
            OperationalError::Signaled(signal),
        ),
        other => DeliveryAttemptError::Recoverable(other),
    }
}

/// How the filtering of a message ended.
#[derive(Debug)]
pub enum Completion {
    Completed { original_delivered: bool },
    EvaluationFailed,
    DeliveryFailed(OperationalError),
}

/// The status that a message's filtering ends with, before `TRAP` runs.
pub fn completion_exit_status(completion: &Completion) -> (r: Option<u8>)
    ensures
        match completion {
            Completion::Completed { original_delivered } => r == Some(
                if *original_delivered {
                    SUCCESS
                } else {
                    UNDELIVERED
                },
            ),
            Completion::EvaluationFailed => r == Some(PERMANENT_DESTINATION),
            Completion::DeliveryFailed(error) => r == error@.status(),
        },
{
    match completion {
        Completion::Completed { original_delivered } => {
            if *original_delivered {
                Some(SUCCESS)
            } else {
                Some(UNDELIVERED)
            }
        },
        Completion::EvaluationFailed => Some(PERMANENT_DESTINATION),
        Completion::DeliveryFailed(error) => error.exit_code(),
    }
}

/// The path of the lockfile that goes with a destination.
pub open spec fn implicit_lockfile(destination: Seq<char>, extension: Seq<char>) -> Result<
    Seq<char>,
    OperationalFault,
> {
    let length = text::byte_len(destination) + text::byte_len(extension);
    if extension.contains('\0') {
        Err(OperationalFault::PermanentDestination("LOCKEXT must not contain NUL"@))
    } else if extension.contains('/') {
        Err(OperationalFault::PermanentDestination("LOCKEXT must not contain '/'"@))
    } else if length > usize::MAX {
        Err(OperationalFault::PermanentDestination("implicit lockfile path length overflows"@))
    } else if length > MAX_PATH_EXPRESSION_LEN {
        Err(
            OperationalFault::PermanentDestination(
                "implicit lockfile path exceeds the hard limit of "@ + text::decimal(
                    MAX_PATH_EXPRESSION_LEN as nat,
                ) + " bytes"@,
            ),
        )
    } else {
        Ok(destination + extension)
    }
}

/// Makes the path of the lockfile that goes with a destination.
pub fn derive_implicit_lockfile_path(destination: &str, extension: &str) -> (r: Result<
    String,
    OperationalError,
>)
    ensures
        match implicit_lockfile(destination@, extension@) {
            Ok(path) => r matches Ok(found) && found@ == path,
            Err(fault) => r matches Err(error) && error@ == fault,
        },
{
    match validate_lock_ext(extension) {
        Ok(()) => {},
        Err(message) => {
            return Err(OperationalError::PermanentDestination(message));
        },
    }
    match text_len(destination).checked_add(text_len(extension)) {
        None => Err(
            OperationalError::PermanentDestination(
                "implicit lockfile path length overflows".to_owned(),
            ),
        ),
        Some(length) => {
            if length > MAX_PATH_EXPRESSION_LEN {
                return Err(
                    OperationalError::PermanentDestination(
                        numbered(
                            "implicit lockfile path exceeds the hard limit of ",
                            MAX_PATH_EXPRESSION_LEN,
                            " bytes",
                        ),
                    ),
                );
            }
            Ok(text2(destination, extension))
        },
    }
}

/// A lockfile stays in the directory of the destination that it goes with.
pub proof fn an_implicit_lockfile_stays_beside_its_destination(
    destination: Seq<char>,
    extension: Seq<char>,
    i: int,
)
    requires
        implicit_lockfile(destination, extension) is Ok,
        destination.len() <= i < implicit_lockfile(destination, extension)->Ok_0.len(),
    ensures
        implicit_lockfile(destination, extension)->Ok_0[i] != '/',
{
    let path = implicit_lockfile(destination, extension)->Ok_0;
    assert(path[i] == extension[i - destination.len()]);
    if path[i] == '/' {
        assert(extension.contains('/'));
    }
}

/// An expansion error as it is shown.
pub open spec fn shown_fault(fault: errors::Fault) -> Seq<char> {
    if fault.line == 0 {
        "command line: "@ + fault.message
    } else {
        "line "@ + text::decimal(fault.line) + (": "@ + fault.message)
    }
}

/// The lockfile that a recipe holds while its action runs: none, the one that
/// it names, or the one that goes with its destination.
pub open spec fn recipe_lockfile(
    lock: Option<Seq<char>>,
    destination: Option<DestinationModel>,
    values: Map<Seq<char>, Seq<char>>,
) -> Result<Option<Seq<char>>, OperationalFault> {
    match lock {
        None => Ok(None),
        Some(path) => if path.len() > 0 {
            Ok(Some(path))
        } else {
            match destination {
                None => Err(
                    OperationalFault::PermanentDestination(
                        "an implicit local lockfile requires a filesystem destination"@,
                    ),
                ),
                Some(model) => match model.resolved(values) {
                    Err(fault) => Err(
                        OperationalFault::PermanentDestination(shown_fault(fault)),
                    ),
                    Ok(resolved) => {
                        let extension = if values.contains_key("LOCKEXT"@) {
                            values["LOCKEXT"@]
                        } else {
                            DEFAULT_LOCK_EXT@
                        };
                        match implicit_lockfile(resolved.path.source, extension) {
                            Ok(found) => Ok(Some(found)),
                            Err(fault) => Err(fault),
                        }
                    },
                },
            }
        },
    }
}

/// Decides on the lockfile that a recipe holds while its action runs.
pub fn recipe_lock_path(
    lock: Option<&str>,
    destination: Option<&Destination>,
    values: TextValues<'_>,
) -> (r: Result<Option<String>, OperationalError>)
    ensures
        match recipe_lockfile(
            match lock {
                Some(path) => Some(path@),
                None => None,
            },
            match destination {
                Some(found) => Some(found@),
                None => None,
            },
            values@,
        ) {
            Ok(Some(path)) => r matches Ok(Some(found)) && found@ == path,
            Ok(None) => r matches Ok(None),
            Err(fault) => r matches Err(error) && error@ == fault,
        },
{
    let path = match lock {
        None => {
            return Ok(None);
        },
        Some(path) => path,
    };
    if !path.is_empty() {
        return Ok(Some(path.to_owned()));
    }
    let destination = match destination {
        Some(destination) => destination,
        None => {
            return Err(
                OperationalError::PermanentDestination(
                    "an implicit local lockfile requires a filesystem destination".to_owned(),
                ),
            );
        },
    };
    let resolved = match destination.resolve_with(values) {
        Ok(resolved) => resolved,
        Err(error) => {
            return Err(OperationalError::PermanentDestination(error.to_text()));
        },
    };
    let extension = match values.get("LOCKEXT") {
        Some(extension) => extension,
        None => DEFAULT_LOCK_EXT.to_owned(),
    };
    match derive_implicit_lockfile_path(resolved.path(), extension.as_str()) {
        Ok(found) => Ok(Some(found)),
        Err(error) => Err(error),
    }
}

} // verus!
