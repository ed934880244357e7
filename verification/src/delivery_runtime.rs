//! The delivery of a message: what becomes visible to others, and in which
//! order it is recorded.

use vstd::prelude::*;
use vstd::slice::slice_subrange;
use vstd::string::*;
use vstd::utf8::*;

use crate::config::recipe::{Destination, DestinationKind, DestinationModel};
use crate::config::shell_eval::TextValues;
use crate::config::variables::{self, parse_umask, DEFAULT_UMASK, MAX_LOCK_TIMEOUT_SECONDS};
use crate::delivery::failure::{self, DeliveryFailureClass, IoError, IoFailure};
use crate::delivery::fanout::{
    self, AppendError, CommitError, CommitReport, FanoutLimitError, PendingFanout, StreamDeliveryError,
    ValidatedFanout, MAX_PENDING_SINKS,
};
use crate::delivery::local_lock::{
    self, parse_lock_timeout, LockMethod, DEFAULT_LOCK_TIMEOUT,
};
use crate::delivery::mbox_append::MboxAppendError;
use crate::delivery::sink::{
    self, write_all, ByteSink, PendingSink, PublishedDelivery, SinkCommitError,
};
use crate::delivery::staging::StagedMessage;
use crate::message::MessageHead;
use crate::publication::{
    self, DeliveryAttemptError, OperationalError, OperationalFault, PublicationTracker,
};
use crate::runtime::{self, RuntimeVariables};
use crate::text::{self, text2, text3};

verus! {

/// How a failed delivery is traced.
#[derive(Debug, Clone, Copy, PartialEq, Eq, Structural)]
pub enum FailureClass {
    Transient,
    Permanent,
    Internal,
}

/// How far a delivery has come.
#[derive(Debug, Clone, Copy, PartialEq, Eq, Structural)]
pub enum DeliveryStage {
    Preparing,
    Published,
    Failed(FailureClass),
}

/// What is traced of a delivery.
#[derive(Debug, Clone, Copy, PartialEq, Eq, Structural)]
pub struct DeliveryEvent {
    pub recipe_line: usize,
    pub destination: DestinationKind,
    pub stage: DeliveryStage,
}

/// The same, with the line as a natural number.
pub struct EventModel {
    pub recipe_line: nat,
    pub destination: DestinationKind,
    pub stage: DeliveryStage,
}

impl View for DeliveryEvent {
    type V = EventModel;

    open spec fn view(&self) -> EventModel {
        EventModel {
            recipe_line: self.recipe_line as nat,
            destination: self.destination,
            stage: self.stage,
        }
    }
}

pub open spec fn event_models(events: Seq<DeliveryEvent>) -> Seq<EventModel> {
    Seq::new(events.len(), |i: int| events[i]@)
}

/// What is traced of a destination at a stage.
pub open spec fn traced(destination: DestinationModel, stage: DeliveryStage) -> EventModel {
    EventModel { recipe_line: destination.path.line, destination: destination.kind, stage }
}

/// Traces a destination at a stage.
pub fn record_delivery(
    destination: &Destination,
    stage: DeliveryStage,
    trace: &mut Vec<DeliveryEvent>,
)
    ensures
        event_models(final(trace)@) == event_models(old(trace)@).push(traced(destination@, stage)),
{
    let event = DeliveryEvent {
        recipe_line: destination.line(),
        destination: destination.kind(),
        stage,
    };
    trace.push(event);
    assert(event_models(trace@) =~= event_models(old(trace)@).push(traced(destination@, stage)));
}

/// The class under which a failure is traced.
pub open spec fn traced_class(class: DeliveryFailureClass) -> FailureClass {
    match class {
        DeliveryFailureClass::Retryable => FailureClass::Transient,
        DeliveryFailureClass::Permanent => FailureClass::Permanent,
        DeliveryFailureClass::Internal => FailureClass::Internal,
    }
}

pub fn trace_failure_class(class: DeliveryFailureClass) -> (r: FailureClass)
    ensures
        r == traced_class(class),
{
    match class {
        DeliveryFailureClass::Retryable => FailureClass::Transient,
        DeliveryFailureClass::Permanent => FailureClass::Permanent,
        DeliveryFailureClass::Internal => FailureClass::Internal,
    }
}

/// A delivery step that failed, and whether another recipe can handle that.
#[derive(Debug, PartialEq, Eq)]
pub struct OrderedStepError {
    pub error: OperationalError,
    pub can_handle: bool,
}

/// The same, with the error as its model.
pub struct StepFault {
    pub error: OperationalFault,
    pub can_handle: bool,
}

impl View for OrderedStepError {
    type V = StepFault;

    open spec fn view(&self) -> StepFault {
        StepFault { error: self.error@, can_handle: self.can_handle }
    }
}

impl OrderedStepError {
    /// A step that failed before anything became visible.
    pub fn before_publication(error: OperationalError) -> (r: Self)
        ensures
            r@ == (StepFault { error: error@, can_handle: true }),
    {
        OrderedStepError { error, can_handle: true }
    }

    /// A step that failed after something became visible.
    pub fn after_publication(error: OperationalError) -> (r: Self)
        ensures
            r@ == (StepFault { error: error@, can_handle: false }),
    {
        OrderedStepError { error, can_handle: false }
    }

    /// What the step is for the recipes that follow.
    pub fn into_attempt_error(self) -> (r: DeliveryAttemptError)
        ensures
            r == (if self.can_handle {
                DeliveryAttemptError::Recoverable(self.error)
            } else {
                DeliveryAttemptError::Fatal(self.error)
            }),
    {
        if self.can_handle {
            DeliveryAttemptError::Recoverable(self.error)
        } else {
            DeliveryAttemptError::Fatal(self.error)
        }
    }
}

/// A destination that a plan delivers to, and the permissions that its files
/// do not get.
#[derive(Debug)]
pub struct PlannedDelivery {
    pub destination: Destination,
    pub umask: u32,
}

/// The destinations of a plan.
pub open spec fn planned(deliveries: Seq<PlannedDelivery>) -> Seq<DestinationModel> {
    Seq::new(deliveries.len(), |i: int| deliveries[i].destination@)
}

/// The destinations that an attempt delivers to.
pub enum PublicationDestinations<'a> {
    One(&'a Destination),
    Plan(&'a [PlannedDelivery]),
}

impl<'a> View for PublicationDestinations<'a> {
    type V = Seq<DestinationModel>;

    open spec fn view(&self) -> Seq<DestinationModel> {
        match self {
            PublicationDestinations::One(destination) => seq![destination@],
            PublicationDestinations::Plan(deliveries) => planned(deliveries@),
        }
    }
}

impl<'a> PublicationDestinations<'a> {
    /// The destination at `index`.
    pub fn get(&self, index: usize) -> (r: Option<&Destination>)
        ensures
            if index < self@.len() {
                r matches Some(found) && found@ == self@[index as int]
            } else {
                r is None
            },
    {
        match self {
            PublicationDestinations::One(destination) => if index == 0 {
                Some(*destination)
            } else {
                None
            },
            PublicationDestinations::Plan(deliveries) => if index < deliveries.len() {
                Some(&deliveries[index].destination)
            } else {
                None
            },
        }
    }
}

/// Why an attempt did not publish to all of its destinations.
#[derive(Debug)]
pub struct PublicationFailure {
    pub class: DeliveryFailureClass,
    pub error: OperationalError,
}

/// What an attempt came to: how many destinations hold the message, the last
/// of them, and what went wrong.
#[derive(Debug)]
pub struct PublicationAttempt {
    pub published: usize,
    pub last_folder: Option<String>,
    pub failure: Option<PublicationFailure>,
}

pub struct AttemptModel {
    pub published: nat,
    pub last_folder: Option<Seq<char>>,
    pub failure: Option<(DeliveryFailureClass, OperationalFault)>,
}

impl View for PublicationAttempt {
    type V = AttemptModel;

    open spec fn view(&self) -> AttemptModel {
        AttemptModel {
            published: self.published as nat,
            last_folder: match self.last_folder {
                Some(folder) => Some(folder@),
                None => None,
            },
            failure: match self.failure {
                Some(failure) => Some((failure.class, failure.error@)),
                None => None,
            },
        }
    }
}

/// What follows from an attempt: the result, the variables after it, and what
/// is traced.
pub struct Consequences {
    pub result: Result<nat, StepFault>,
    pub variables: Seq<(Seq<char>, Seq<u8>)>,
    pub events: Seq<EventModel>,
}

/// The first `n` destinations as published.
pub open spec fn published_events(destinations: Seq<DestinationModel>, n: nat) -> Seq<EventModel> {
    Seq::new(n, |i: int| traced(destinations[i], DeliveryStage::Published))
}

/// The variables after a publication: `LASTFOLDER` is the last folder.
pub open spec fn with_last_folder(
    variables: Seq<(Seq<char>, Seq<u8>)>,
    last_folder: Option<Seq<char>>,
) -> Seq<(Seq<char>, Seq<u8>)> {
    match last_folder {
        Some(folder) => runtime::with_value(variables, "LASTFOLDER"@, encode_utf8(folder)),
        None => variables,
    }
}

/// What follows from an attempt to deliver to these destinations. All of it
/// follows from what became visible, so that the trace, `LASTFOLDER` and the
/// count agree.
pub open spec fn consequences(
    attempt: AttemptModel,
    destinations: Seq<DestinationModel>,
    variables: Seq<(Seq<char>, Seq<u8>)>,
) -> Consequences {
    if attempt.published > destinations.len() {
        Consequences {
            result: Err(
                StepFault {
                    error: OperationalFault::Internal(
                        "published destination has no matching delivery plan entry"@,
                    ),
                    can_handle: false,
                },
            ),
            variables,
            events: published_events(destinations, destinations.len()),
        }
    } else {
        let events = published_events(destinations, attempt.published);
        let after = with_last_folder(variables, attempt.last_folder);
        match attempt.failure {
            None => Consequences { result: Ok(attempt.published), variables: after, events },
            Some((class, error)) => Consequences {
                result: Err(StepFault { error, can_handle: attempt.published == 0 }),
                variables: after,
                events: if attempt.published < destinations.len() {
                    events.push(
                        traced(
                            destinations[attempt.published as int],
                            DeliveryStage::Failed(traced_class(class)),
                        ),
                    )
                } else {
                    events
                },
            },
        }
    }
}

/// Whether a result, the variables and the trace after an attempt are what
/// follows from it.
pub open spec fn followed(
    result: Result<usize, OrderedStepError>,
    variables: Seq<(Seq<char>, Seq<u8>)>,
    trace_before: Seq<DeliveryEvent>,
    trace: Seq<DeliveryEvent>,
    model: Consequences,
) -> bool {
    &&& match model.result {
        Ok(published) => result matches Ok(found) && found == published,
        Err(fault) => result matches Err(error) && error@ == fault,
    }
    &&& variables == model.variables
    &&& event_models(trace) == event_models(trace_before) + model.events
}

/// Draws the consequences of an attempt.
pub fn apply_publication(
    attempt: PublicationAttempt,
    destinations: PublicationDestinations<'_>,
    runtime: &mut RuntimeVariables,
    trace: &mut Vec<DeliveryEvent>,
) -> (r: Result<usize, OrderedStepError>)
    ensures
        followed(
            r,
            final(runtime)@,
            old(trace)@,
            final(trace)@,
            consequences(attempt@, destinations@, old(runtime)@),
        ),
{
    let ghost before = event_models(trace@);
    let ghost models = destinations@;
    let published = attempt.published;
    let mut index: usize = 0;
    assert(before + published_events(models, 0) =~= before);
    while index < published
        invariant
            index <= published,
            index <= models.len(),
            models == destinations@,
            runtime@ == old(runtime)@,
            published == attempt@.published,
            before == event_models(old(trace)@),
            event_models(trace@) == before + published_events(models, index as nat),
        decreases published - index,
    {
        match destinations.get(index) {
            Some(destination) => {
                record_delivery(destination, DeliveryStage::Published, trace);
                assert(event_models(trace@) =~= before + published_events(
                    models,
                    (index + 1) as nat,
                ));
            },
            None => {
                return Err(
                    OrderedStepError::after_publication(
                        OperationalError::Internal(
                            "published destination has no matching delivery plan entry".to_owned(),
                        ),
                    ),
                );
            },
        }
        index = index + 1;
    }
    if let Some(folder) = &attempt.last_folder {
        runtime.set("LASTFOLDER", folder.as_str());
    }
    match attempt.failure {
        None => Ok(published),
        Some(failure) => {
            if let Some(destination) = destinations.get(published) {
                record_delivery(
                    destination,
                    DeliveryStage::Failed(trace_failure_class(failure.class)),
                    trace,
                );
                assert(event_models(trace@) =~= before + published_events(
                    models,
                    published as nat,
                ).push(
                    traced(
                        models[published as int],
                        DeliveryStage::Failed(traced_class(failure.class)),
                    ),
                ));
            }
            Err(OrderedStepError { error: failure.error, can_handle: published == 0 })
        },
    }
}

/// Another recipe can handle a failure exactly if nothing has become visible,
/// and only then does `LASTFOLDER` keep its value.
pub proof fn only_publications_have_consequences(
    attempt: AttemptModel,
    destinations: Seq<DestinationModel>,
    variables: Seq<(Seq<char>, Seq<u8>)>,
)
    requires
        attempt.published <= destinations.len(),
        attempt.last_folder is Some == (attempt.published > 0),
        runtime::names_differ(variables),
    ensures
        ({
            let after = consequences(attempt, destinations, variables);
            &&& attempt.published == 0 ==> after.variables == variables
            &&& attempt.published > 0 ==> runtime::value_of(after.variables, "LASTFOLDER"@) == Some(
                encode_utf8(attempt.last_folder->0),
            )
            &&& after.result matches Err(fault) ==> fault.can_handle == (attempt.published == 0)
            &&& after.result matches Ok(count) ==> after.events.len() == count
        }),
{
    if attempt.published > 0 {
        runtime::setting_a_variable_changes_it_alone(
            variables,
            "LASTFOLDER"@,
            encode_utf8(attempt.last_folder->0),
            "LASTFOLDER"@,
        );
    }
}

/// Why a sink was not published to, as it is told.
pub open spec fn publish_fault(source: IoFailure, message: Seq<char>) -> (
    DeliveryFailureClass,
    OperationalFault,
) {
    let class = failure::class_of(source);
    (class, publication::delivery_fault(class, "cannot publish Maildir delivery: "@ + message))
}

/// What a sink's outcome is as an attempt.
pub open spec fn sink_attempt(outcome: Result<PublishedDelivery, SinkCommitError>) -> AttemptModel {
    match outcome {
        Ok(published) => AttemptModel {
            published: 1,
            last_folder: Some(published@),
            failure: None,
        },
        Err(error) => AttemptModel {
            published: if error@.published is Some {
                1
            } else {
                0
            },
            last_folder: error@.published,
            failure: Some(publish_fault(error@.source, error@.source.message)),
        },
    }
}

/// Draws the consequences of a sink's outcome.
pub fn settle_sink(
    outcome: Result<PublishedDelivery, SinkCommitError>,
    destination: &Destination,
    runtime: &mut RuntimeVariables,
    trace: &mut Vec<DeliveryEvent>,
) -> (r: Result<usize, OrderedStepError>)
    ensures
        followed(
            r,
            final(runtime)@,
            old(trace)@,
            final(trace)@,
            consequences(sink_attempt(outcome), seq![destination@], old(runtime)@),
        ),
{
    let attempt = match &outcome {
        Ok(published) => PublicationAttempt {
            published: 1,
            last_folder: Some(published.last_folder().to_owned()),
            failure: None,
        },
        Err(error) => {
            let told = error.to_text();
            let failure = PublicationFailure {
                class: error.class(),
                error: OperationalError::delivery(
                    error.class(),
                    text2("cannot publish Maildir delivery: ", told.as_str()),
                ),
            };
            match error.published() {
                Some(published) => PublicationAttempt {
                    published: 1,
                    last_folder: Some(published.last_folder().to_owned()),
                    failure: Some(failure),
                },
                None => PublicationAttempt {
                    published: 0,
                    last_folder: None,
                    failure: Some(failure),
                },
            }
        },
    };
    apply_publication(attempt, PublicationDestinations::One(destination), runtime, trace)
}

/// Whether this came of writing a message to a sink and publishing it.
pub open spec fn delivered_to<S: PendingSink>(
    sink: S,
    message: Seq<u8>,
    destination: DestinationModel,
    result: Result<usize, OrderedStepError>,
    variables_before: Seq<(Seq<char>, Seq<u8>)>,
    variables: Seq<(Seq<char>, Seq<u8>)>,
    trace_before: Seq<DeliveryEvent>,
    trace: Seq<DeliveryEvent>,
) -> bool {
    exists|full: S, outcome: Result<PublishedDelivery, SinkCommitError>|
        sink::wrote(sink, message, full, Ok(())) && full.identity() == sink.identity()
            && full.written() == sink.written() + message && #[trigger] full.may_commit(outcome)
            && followed(
            result,
            variables,
            trace_before,
            trace,
            consequences(sink_attempt(outcome), seq![destination], variables_before),
        )
}

/// Whether this came of giving up a sink that did not take a message, with no
/// more than a part of the message in it.
pub open spec fn refused_by<S: PendingSink>(
    sink: S,
    message: Seq<u8>,
    result: Result<usize, OrderedStepError>,
    variables_before: Seq<(Seq<char>, Seq<u8>)>,
    variables: Seq<(Seq<char>, Seq<u8>)>,
    trace_before: Seq<DeliveryEvent>,
    trace: Seq<DeliveryEvent>,
) -> bool {
    &&& variables == variables_before
    &&& trace == trace_before
    &&& exists|left: S, source: IoFailure, outcome: Result<(), IoError>|
        {
            &&& #[trigger] sink::wrote(sink, message, left, Err(source))
            &&& left.identity() == sink.identity()
            &&& sink::partly_written(sink.written(), message, left.written())
            &&& #[trigger] left.may_abort(outcome)
            &&& result matches Err(error) && error@ == write_fault(source)
        }
}

/// A message that could not be written to a sink.
pub open spec fn write_fault(source: IoFailure) -> StepFault {
    StepFault {
        error: publication::delivery_fault(
            failure::class_of(source),
            "cannot write staged delivery: "@ + source.message,
        ),
        can_handle: true,
    }
}

/// Writes a message to a sink and publishes it. The sink is given up where it
/// does not take the message.
pub fn deliver_one_sink<S: PendingSink>(
    sink: S,
    message: &[u8],
    destination: &Destination,
    runtime: &mut RuntimeVariables,
    trace: &mut Vec<DeliveryEvent>,
) -> (r: Result<usize, OrderedStepError>)
    ensures
        delivered_to(
            sink,
            message@,
            destination@,
            r,
            old(runtime)@,
            final(runtime)@,
            old(trace)@,
            final(trace)@,
        ) || (!sink.always_takes() && refused_by(
            sink,
            message@,
            r,
            old(runtime)@,
            final(runtime)@,
            old(trace)@,
            final(trace)@,
        )),
{
    let ghost given = sink;
    let mut sink = sink;
    match write_all(&mut sink, message) {
        Ok(()) => {},
        Err(error) => {
            let ghost left = sink;
            let outcome = sink.abort();
            assert(sink::wrote(given, message@, left, Err(error@)));
            assert(left.may_abort(outcome));
            let failed = OrderedStepError::before_publication(
                OperationalError::delivery(
                    DeliveryFailureClass::from_io_error(&error),
                    text2("cannot write staged delivery: ", error.message.as_str()),
                ),
            );
            assert(failed@ == write_fault(error@));
            return Err(failed);
        },
    }
    let ghost full = sink;
    assert(sink::wrote(given, message@, full, Ok(())));
    let outcome = sink.commit();
    assert(full.may_commit(outcome));
    settle_sink(outcome, destination, runtime, trace)
}

/// What an mbox file's outcome is as an attempt.
pub open spec fn mbox_attempt(
    outcome: Result<PublishedDelivery, MboxAppendError>,
    path: Seq<char>,
) -> AttemptModel {
    match outcome {
        Ok(published) => AttemptModel {
            published: 1,
            last_folder: Some(published@),
            failure: None,
        },
        Err(error) => {
            let class = error@.means();
            AttemptModel {
                published: if error@.published {
                    1
                } else {
                    0
                },
                last_folder: if error@.published {
                    Some(path)
                } else {
                    None
                },
                failure: Some(
                    (
                        class,
                        publication::delivery_fault(
                            class,
                            "cannot deliver to mbox "@ + path + ": "@ + error@.spelled(),
                        ),
                    ),
                ),
            }
        },
    }
}

/// Draws the consequences of an mbox file's outcome.
pub fn settle_mbox(
    outcome: Result<PublishedDelivery, MboxAppendError>,
    destination: &Destination,
    runtime: &mut RuntimeVariables,
    trace: &mut Vec<DeliveryEvent>,
) -> (r: Result<usize, OrderedStepError>)
    ensures
        followed(
            r,
            final(runtime)@,
            old(trace)@,
            final(trace)@,
            consequences(
                mbox_attempt(outcome, destination@.path.source),
                seq![destination@],
                old(runtime)@,
            ),
        ),
{
    let attempt = match &outcome {
        Ok(published) => PublicationAttempt {
            published: 1,
            last_folder: Some(published.last_folder().to_owned()),
            failure: None,
        },
        Err(error) => {
            let start = text3("cannot deliver to mbox ", destination.path(), ": ");
            let told = error.to_text();
            let failure = PublicationFailure {
                class: error.class(),
                error: OperationalError::delivery(
                    error.class(),
                    text2(start.as_str(), told.as_str()),
                ),
            };
            if error.published() {
                PublicationAttempt {
                    published: 1,
                    last_folder: Some(destination.path().to_owned()),
                    failure: Some(failure),
                }
            } else {
                PublicationAttempt { published: 0, last_folder: None, failure: Some(failure) }
            }
        },
    };
    apply_publication(attempt, PublicationDestinations::One(destination), runtime, trace)
}

/// How long a lock is waited for, in seconds, or why that cannot be told.
pub open spec fn lock_timeout_of(variables: Seq<(Seq<char>, Seq<u8>)>) -> Result<
    nat,
    OperationalFault,
> {
    match runtime::text_of(variables, "LOCKTIMEOUT"@) {
        None => Ok(DEFAULT_LOCK_TIMEOUT as nat),
        Some(value) => match variables::seconds_of(value, MAX_LOCK_TIMEOUT_SECONDS) {
            Some(seconds) => Ok(seconds),
            None => Err(
                OperationalFault::PermanentDestination(
                    "LOCKTIMEOUT must be an integer from 1 to 86400"@,
                ),
            ),
        },
    }
}

/// How long a lock is waited for, in seconds.
pub fn lock_timeout(variables: &RuntimeVariables) -> (r: Result<u64, OperationalError>)
    ensures
        match lock_timeout_of(variables@) {
            Ok(seconds) => r matches Ok(found) && found == seconds,
            Err(fault) => r matches Err(error) && error@ == fault,
        },
{
    match variables.get("LOCKTIMEOUT") {
        None => Ok(DEFAULT_LOCK_TIMEOUT),
        Some(value) => match parse_lock_timeout(value.as_str()) {
            Ok(seconds) => Ok(seconds),
            Err(message) => Err(OperationalError::PermanentDestination(message)),
        },
    }
}

pub open spec fn umask_of(variables: Seq<(Seq<char>, Seq<u8>)>) -> Result<nat, OperationalFault> {
    match runtime::text_of(variables, "UMASK"@) {
        None => Ok(DEFAULT_UMASK as nat),
        Some(value) => match variables::umask_of(value) {
            Some(mask) => Ok(mask),
            None => Err(OperationalFault::PermanentDestination(variables::umask_message())),
        },
    }
}

/// The permissions that new files do not get.
pub fn umask(variables: &RuntimeVariables) -> (r: Result<u32, OperationalError>)
    ensures
        match umask_of(variables@) {
            Ok(mask) => r matches Ok(found) && found == mask,
            Err(fault) => r matches Err(error) && error@ == fault,
        },
{
    match variables.get("UMASK") {
        None => Ok(DEFAULT_UMASK),
        Some(value) => match parse_umask(value.as_str()) {
            Ok(mask) => Ok(mask),
            Err(message) => Err(OperationalError::PermanentDestination(message)),
        },
    }
}

/// How a lockfile is taken.
#[derive(Debug, Clone, Copy, PartialEq, Eq, Structural)]
pub struct LockSettings {
    pub method: LockMethod,
    pub timeout: u64,
    pub retry: u64,
    pub umask: u32,
}

pub open spec fn lock_method_of(variables: Seq<(Seq<char>, Seq<u8>)>) -> Result<
    LockMethod,
    OperationalFault,
> {
    match runtime::text_of(variables, "LOCKMETHOD"@) {
        None => Ok(LockMethod::Flock),
        Some(value) => match local_lock::method_named(value) {
            Ok(method) => Ok(method),
            Err(message) => Err(OperationalFault::PermanentDestination(message)),
        },
    }
}

/// Reads how a lockfile is taken: the first setting that cannot be read is
/// reported.
pub fn lock_settings(variables: &RuntimeVariables) -> (r: Result<LockSettings, OperationalError>)
    ensures
        match (lock_method_of(variables@), lock_timeout_of(variables@), umask_of(variables@)) {
            (Err(fault), _, _) => r matches Err(error) && error@ == fault,
            (Ok(_), Err(fault), _) => r matches Err(error) && error@ == fault,
            (Ok(_), Ok(_), Err(fault)) => r matches Err(error) && error@ == fault,
            (Ok(method), Ok(timeout), Ok(mask)) => r matches Ok(found) && found.method == method
                && found.timeout == timeout && found.umask == mask && found.retry
                == local_lock::retry_of(method),
        },
{
    let method = match variables.get("LOCKMETHOD") {
        None => LockMethod::Flock,
        Some(value) => match LockMethod::parse(value.as_str()) {
            Ok(method) => method,
            Err(message) => {
                return Err(OperationalError::PermanentDestination(message));
            },
        },
    };
    let timeout = match lock_timeout(variables) {
        Ok(timeout) => timeout,
        Err(error) => {
            return Err(error);
        },
    };
    match umask(variables) {
        Ok(umask) => Ok(LockSettings { method, timeout, retry: method.retry_interval(), umask }),
        Err(error) => Err(error),
    }
}

/// Why a lockfile could not be taken: a signal that came meanwhile counts
/// more than the failure.
pub fn lock_failure(error: &IoError, signal: Option<i32>) -> (r: OperationalError)
    ensures
        r@ == (match signal {
            Some(number) => OperationalFault::Signaled(number),
            None => publication::delivery_fault(
                failure::class_of(error@),
                "cannot acquire local lockfile: "@ + error@.message,
            ),
        }),
{
    match signal {
        Some(number) => OperationalError::Signaled(number),
        None => OperationalError::delivery(
            DeliveryFailureClass::from_io_error(error),
            text2("cannot acquire local lockfile: ", error.message.as_str()),
        ),
    }
}

/// What is left to do for a file destination.
pub enum FileDelivery {
    /// Nothing: the message was discarded.
    Done,
    /// The message is appended to an mbox file.
    Append { destination: Destination, lock_timeout: u64, umask: u32 },
}

/// Whether this came of starting a delivery to a file.
pub open spec fn file_started(
    unresolved: DestinationModel,
    result: Result<FileDelivery, OrderedStepError>,
    before: Seq<(Seq<char>, Seq<u8>)>,
    after: Seq<(Seq<char>, Seq<u8>)>,
    events: Seq<EventModel>,
) -> bool {
    match unresolved.resolved(runtime::texts(before)) {
        Err(fault) => {
            &&& result matches Err(step) && step@ == (StepFault {
                error: OperationalFault::PermanentDestination(publication::shown_fault(fault)),
                can_handle: true,
            })
            &&& after == before
            &&& events == seq![traced(unresolved, DeliveryStage::Failed(FailureClass::Permanent))]
        },
        Ok(destination) => {
            let preparing = seq![traced(destination, DeliveryStage::Preparing)];
            match destination.kind {
                DestinationKind::Discard => {
                    &&& result matches Ok(FileDelivery::Done)
                    &&& after == with_last_folder(before, Some(destination.path.source))
                    &&& events == preparing.push(traced(destination, DeliveryStage::Published))
                },
                DestinationKind::Mbox => {
                    &&& after == before
                    &&& events == preparing
                    &&& match (lock_timeout_of(before), umask_of(before)) {
                        (Err(fault), _) => result matches Err(step) && step@ == (StepFault {
                            error: fault,
                            can_handle: true,
                        }),
                        (Ok(_), Err(fault)) => result matches Err(step) && step@ == (StepFault {
                            error: fault,
                            can_handle: true,
                        }),
                        (Ok(timeout), Ok(mask)) => result matches Ok(
                            FileDelivery::Append { destination: found, lock_timeout, umask },
                        ) && found@ == destination && lock_timeout == timeout && umask == mask,
                    }
                },
                _ => {
                    &&& result matches Err(step) && step@ == (StepFault {
                        error: OperationalFault::Internal(
                            "internal error: file delivery resolved to another destination type"@,
                        ),
                        can_handle: true,
                    })
                    &&& after == before
                    &&& events == preparing
                },
            }
        },
    }
}

/// Starts a delivery to a file. The null device is not opened: the message
/// then counts as published there.
pub fn start_file_delivery(
    unresolved: &Destination,
    runtime: &mut RuntimeVariables,
    trace: &mut Vec<DeliveryEvent>,
) -> (r: Result<FileDelivery, OrderedStepError>)
    ensures
        exists|events: Seq<EventModel>|
            event_models(final(trace)@) == event_models(old(trace)@) + events
                && #[trigger] file_started(
                unresolved@,
                r,
                old(runtime)@,
                final(runtime)@,
                events,
            ),
{
    let ghost before = event_models(trace@);
    let destination = match unresolved.resolve_with(TextValues::Runtime(runtime)) {
        Ok(destination) => destination,
        Err(error) => {
            let stage = DeliveryStage::Failed(FailureClass::Permanent);
            record_delivery(unresolved, stage, trace);
            assert(event_models(trace@) =~= before + seq![traced(unresolved@, stage)]);
            let failed = OrderedStepError::before_publication(
                OperationalError::PermanentDestination(error.to_text()),
            );
            let r = Err(failed);
            assert(file_started(
                unresolved@,
                r,
                runtime@,
                runtime@,
                seq![traced(unresolved@, stage)],
            ));
            return r;
        },
    };
    record_delivery(&destination, DeliveryStage::Preparing, trace);
    let ghost preparing = seq![traced(destination@, DeliveryStage::Preparing)];
    assert(event_models(trace@) =~= before + preparing);
    match destination.kind() {
        DestinationKind::Discard => {
            let ghost variables = runtime@;
            let attempt = PublicationAttempt {
                published: 1,
                last_folder: Some(destination.path().to_owned()),
                failure: None,
            };
            let _ = apply_publication(
                attempt,
                PublicationDestinations::One(&destination),
                runtime,
                trace,
            );
            let ghost events = preparing.push(traced(destination@, DeliveryStage::Published));
            assert(event_models(trace@) =~= before + events);
            let r = Ok(FileDelivery::Done);
            assert(file_started(unresolved@, r, variables, runtime@, events));
            r
        },
        DestinationKind::Mbox => {
            let r = match lock_timeout(runtime) {
                Err(error) => Err(OrderedStepError::before_publication(error)),
                Ok(lock_timeout) => match umask(runtime) {
                    Err(error) => Err(OrderedStepError::before_publication(error)),
                    Ok(umask) => Ok(FileDelivery::Append { destination, lock_timeout, umask }),
                },
            };
            assert(file_started(unresolved@, r, runtime@, runtime@, preparing));
            r
        },
        _ => {
            let r = Err(
                OrderedStepError::before_publication(
                    OperationalError::Internal(
                        "internal error: file delivery resolved to another destination type"
                            .to_owned(),
                    ),
                ),
            );
            assert(file_started(unresolved@, r, runtime@, runtime@, preparing));
            r
        },
    }
}

/// Reports an mbox file that could not be opened or locked.
pub fn mbox_unavailable(
    destination: &Destination,
    error: &IoError,
    trace: &mut Vec<DeliveryEvent>,
) -> (r: OrderedStepError)
    ensures
        r@ == (StepFault {
            error: publication::delivery_fault(
                failure::class_of(error@),
                "cannot open or lock mbox "@ + destination@.path.source + ": "@ + error@.message,
            ),
            can_handle: true,
        }),
        event_models(final(trace)@) == event_models(old(trace)@).push(
            traced(
                destination@,
                DeliveryStage::Failed(traced_class(failure::class_of(error@))),
            ),
        ),
{
    let class = DeliveryFailureClass::from_io_error(error);
    record_delivery(destination, DeliveryStage::Failed(trace_failure_class(class)), trace);
    let start = text3("cannot open or lock mbox ", destination.path(), ": ");
    OrderedStepError::before_publication(
        OperationalError::delivery(class, text2(start.as_str(), error.message.as_str())),
    )
}

/// What the outcome of a fan-out is as an attempt.
pub open spec fn fanout_attempt(outcome: Result<CommitReport, CommitError>) -> AttemptModel {
    match outcome {
        Ok(report) => AttemptModel {
            published: report@.len(),
            last_folder: fanout::last_published(report@),
            failure: None,
        },
        Err(error) => AttemptModel {
            published: error@.len(),
            last_folder: fanout::last_published(error@),
            failure: Some(publish_fault(error.source()@.source, error.spelled())),
        },
    }
}

fn owned_text(text: Option<&str>) -> (r: Option<String>)
    ensures
        match text {
            Some(found) => r matches Some(kept) && kept@ == found@,
            None => r is None,
        },
{
    match text {
        Some(found) => Some(found.to_owned()),
        None => None,
    }
}

/// Draws the consequences of the outcome of a fan-out.
pub fn settle_fanout(
    outcome: Result<CommitReport, CommitError>,
    deliveries: &[PlannedDelivery],
    runtime: &mut RuntimeVariables,
    trace: &mut Vec<DeliveryEvent>,
) -> (r: Result<usize, OrderedStepError>)
    ensures
        followed(
            r,
            final(runtime)@,
            old(trace)@,
            final(trace)@,
            consequences(fanout_attempt(outcome), planned(deliveries@), old(runtime)@),
        ),
{
    let attempt = match &outcome {
        Ok(report) => PublicationAttempt {
            published: report.published().len(),
            last_folder: owned_text(report.last_folder()),
            failure: None,
        },
        Err(error) => {
            let told = error.to_text();
            PublicationAttempt {
                published: error.published().len(),
                last_folder: owned_text(error.last_folder()),
                failure: Some(
                    PublicationFailure {
                        class: error.class(),
                        error: OperationalError::delivery(
                            error.class(),
                            text2("cannot publish Maildir delivery: ", told.as_str()),
                        ),
                    },
                ),
            }
        },
    };
    apply_publication(attempt, PublicationDestinations::Plan(deliveries), runtime, trace)
}

/// Whether this came of publishing these sinks, or of a signal before that.
pub open spec fn committed_as<S: PendingSink>(
    sinks: Seq<S>,
    signal: Option<i32>,
    deliveries: Seq<PlannedDelivery>,
    result: Result<usize, OperationalError>,
    variables_before: Seq<(Seq<char>, Seq<u8>)>,
    variables: Seq<(Seq<char>, Seq<u8>)>,
    trace_before: Seq<DeliveryEvent>,
    trace: Seq<DeliveryEvent>,
) -> bool {
    match signal {
        Some(number) => {
            &&& result matches Err(error) && error@ == OperationalFault::Signaled(number)
            &&& variables == variables_before
            &&& trace == trace_before
            &&& exists|failures: nat| #[trigger] fanout::aborted_with(sinks, failures)
        },
        None => exists|outcome: Result<CommitReport, CommitError>|
            {
                let model = consequences(
                    fanout_attempt(outcome),
                    planned(deliveries),
                    variables_before,
                );
                &&& #[trigger] fanout::published_as(sinks, outcome)
                &&& match model.result {
                    Ok(published) => result matches Ok(found) && found == published,
                    Err(fault) => result matches Err(error) && error@ == fault.error,
                }
                &&& variables == model.variables
                &&& event_models(trace) == event_models(trace_before) + model.events
            },
    }
}

/// Publishes sinks that hold a complete message. A signal that came before
/// has them given up.
pub fn commit_delivery<S: PendingSink>(
    validated: ValidatedFanout<S>,
    signal: Option<i32>,
    deliveries: &[PlannedDelivery],
    runtime: &mut RuntimeVariables,
    trace: &mut Vec<DeliveryEvent>,
) -> (r: Result<usize, OperationalError>)
    requires
        validated.wf(),
    ensures
        committed_as(
            validated.sinks(),
            signal,
            deliveries@,
            r,
            old(runtime)@,
            final(runtime)@,
            old(trace)@,
            final(trace)@,
        ),
{
    if let Some(number) = signal {
        let failures = validated.abort_all();
        assert(fanout::aborted_with(validated.sinks(), failures as nat));
        return Err(OperationalError::Signaled(number));
    }
    let outcome = validated.commit();
    assert(fanout::published_as(validated.sinks(), outcome));
    match settle_fanout(outcome, deliveries, runtime, trace) {
        Ok(published) => Ok(published),
        Err(step) => Err(step.error),
    }
}

/// Too many sinks for one message, as it is told.
pub open spec fn fanout_fault(count: nat) -> OperationalFault {
    OperationalFault::Internal(
        (FanoutLimitError::TooManySinks {
            count: count as usize,
            limit: MAX_PENDING_SINKS,
        }).spelled(),
    )
}

/// Whether an error tells why a message did not get into these sinks, all of
/// which were given up.
pub open spec fn stream_fault<S: PendingSink>(
    sinks: Seq<S>,
    head: MessageHead,
    pieces: Seq<Vec<u8>>,
    error: OperationalFault,
) -> bool {
    exists|source: StreamDeliveryError|
        error == OperationalFault::Input("cannot stream message from stdin: "@ + source.spelled())
            && #[trigger] fanout::not_delivered(sinks, head, pieces, source)
}

/// Whether an error tells why a message did not get into these sinks and a
/// staging file. All of the sinks were given up.
pub open spec fn stage_fault<S: PendingSink, W: ByteSink>(
    sinks: Seq<S>,
    head: MessageHead,
    pieces: Seq<Vec<u8>>,
    staging: W,
    error: OperationalFault,
) -> bool {
    exists|source: StreamDeliveryError|
        error == OperationalFault::Input("cannot stage message from stdin: "@ + source.spelled())
            && #[trigger] fanout::not_staged(sinks, head, pieces, staging, source)
}

/// Passes a message on to sinks while it is read.
pub fn stream_to_sinks<S: PendingSink>(sinks: Vec<S>, head: MessageHead, pieces: &[Vec<u8>]) -> (r:
    Result<ValidatedFanout<S>, OperationalError>)
    ensures
        match r {
            Ok(validated) => {
                &&& sinks@.len() <= MAX_PENDING_SINKS
                &&& validated.wf()
                &&& fanout::admitted(head, pieces@, 0, Seq::empty()) matches Ok(body)
                    && fanout::all_written(sinks@, validated.sinks(), head@ + body)
            },
            Err(error) => if sinks@.len() > MAX_PENDING_SINKS {
                error@ == fanout_fault(sinks@.len())
            } else {
                stream_fault(sinks@, head, pieces@, error@)
            },
        },
{
    let pending = match PendingFanout::new(sinks) {
        Ok(pending) => pending,
        Err(error) => {
            return Err(OperationalError::Internal(error.to_text()));
        },
    };
    match pending.stream(head, pieces) {
        Ok((validated, _)) => Ok(validated),
        Err(error) => {
            let told = error.to_text();
            assert(fanout::not_delivered(sinks@, head, pieces@, error));
            Err(
                OperationalError::Input(
                    text2("cannot stream message from stdin: ", told.as_str()),
                ),
            )
        },
    }
}

/// Passes a message on to sinks and to a staging file while it is read.
pub fn stage_to_sinks<S: PendingSink, W: ByteSink>(
    sinks: Vec<S>,
    head: MessageHead,
    pieces: &[Vec<u8>],
    staging: &mut W,
) -> (r: Result<ValidatedFanout<S>, OperationalError>)
    ensures
        final(staging).identity() == old(staging).identity(),
        match r {
            Ok(validated) => {
                &&& sinks@.len() <= MAX_PENDING_SINKS
                &&& validated.wf()
                &&& fanout::admitted(head, pieces@, 0, Seq::empty()) matches Ok(body)
                    && fanout::all_written(sinks@, validated.sinks(), head@ + body)
                    && final(staging).written() == old(staging).written() + (head@ + body)
            },
            Err(error) => if sinks@.len() > MAX_PENDING_SINKS {
                error@ == fanout_fault(sinks@.len()) && *final(staging) == *old(staging)
            } else {
                stage_fault(sinks@, head, pieces@, *old(staging), error@) && fanout::begun(
                    old(staging).written(),
                    fanout::whole_message(head, pieces@),
                    final(staging).written(),
                )
            },
        },
{
    let pending = match PendingFanout::new(sinks) {
        Ok(pending) => pending,
        Err(error) => {
            return Err(OperationalError::Internal(error.to_text()));
        },
    };
    match pending.stage(head, pieces, staging) {
        Ok((validated, _)) => Ok(validated),
        Err(error) => {
            let told = error.to_text();
            assert(fanout::not_staged(sinks@, head, pieces@, *old(staging), error));
            Err(
                OperationalError::Input(text2("cannot stage message from stdin: ", told.as_str())),
            )
        },
    }
}

/// The destinations of a plan that no sink was opened for while the message
/// was read.
pub fn late_deliveries(deliveries: &[PlannedDelivery], early: usize) -> (r: Result<
    &[PlannedDelivery],
    OperationalError,
>)
    ensures
        if early > deliveries@.len() {
            r matches Err(error) && error@ == OperationalFault::Internal(
                "internal error: deferred delivery discarded an early copy destination"@,
            )
        } else {
            r matches Ok(late) && late@ == deliveries@.skip(early as int)
        },
{
    if early > deliveries.len() {
        return Err(
            OperationalError::Internal(
                "internal error: deferred delivery discarded an early copy destination".to_owned(),
            ),
        );
    }
    let late = slice_subrange(deliveries, early, deliveries.len());
    assert(late@ =~= deliveries@.skip(early as int));
    Ok(late)
}

/// Adds sinks to those that hold a message already.
pub fn append_late<S: PendingSink>(
    validated: ValidatedFanout<S>,
    sinks: Vec<S>,
    message: &[u8],
) -> (r: Result<ValidatedFanout<S>, OperationalError>)
    requires
        validated.wf(),
    ensures
        if sinks@.len() > MAX_PENDING_SINKS {
            &&& r matches Err(error) && error@ == fanout_fault(sinks@.len())
            &&& exists|failures: nat| #[trigger]
                fanout::aborted_with(validated.sinks(), failures)
        } else {
            exists|pending: PendingFanout<S>, outcome: Result<ValidatedFanout<S>, AppendError>|
                {
                    &&& pending.sinks() == sinks@
                    &&& #[trigger] fanout::appended_as(validated, pending, message@, outcome)
                    &&& match outcome {
                        Ok(all) => r == Ok::<ValidatedFanout<S>, OperationalError>(all) && all.wf(),
                        Err(error) => r matches Err(found) && found@
                            == publication::delivery_fault(
                            failure::class_of(error.source()),
                            error.spelled(),
                        ),
                    }
                }
        },
{
    let pending = match PendingFanout::new(sinks) {
        Ok(pending) => pending,
        Err(error) => {
            let failures = validated.abort_all();
            assert(fanout::aborted_with(validated.sinks(), failures as nat));
            return Err(OperationalError::Internal(error.to_text()));
        },
    };
    let outcome = validated.append_bytes(pending, message);
    assert(fanout::appended_as(validated, pending, message@, outcome));
    match outcome {
        Ok(all) => Ok(all),
        Err(error) => Err(OperationalError::delivery(error.class(), error.to_text())),
    }
}

/// Where a message is staged: under the `MAILDIR` that its recipes set, or
/// under the configured one.
pub fn staging_directory<'a>(set: Option<&'a str>, configured: Option<&'a str>) -> (r: Result<
    &'a str,
    OperationalError,
>)
    ensures
        match (set, configured) {
            (Some(directory), _) => r == Ok::<&str, OperationalError>(directory),
            (None, Some(directory)) => r == Ok::<&str, OperationalError>(directory),
            (None, None) => r matches Err(error) && error@ == OperationalFault::Internal(
                "internal error: deferred evaluation has no staging directory"@,
            ),
        },
{
    match (set, configured) {
        (Some(directory), _) => Ok(directory),
        (None, Some(directory)) => Ok(directory),
        (None, None) => Err(
            OperationalError::Internal(
                "internal error: deferred evaluation has no staging directory".to_owned(),
            ),
        ),
    }
}

/// Writes the message that patterns are matched with: these headers, and the
/// body of a staged message.
pub fn stage_matching_message<W: ByteSink>(
    staging: &mut W,
    matching_header: &[u8],
    staged: &StagedMessage,
) -> (r: Result<(), OperationalError>)
    ensures
        final(staging).identity() == old(staging).identity(),
        match r {
            Ok(()) => final(staging).written() == old(staging).written() + (matching_header@
                + staged@.skip(staged.headers() as int)),
            Err(error) => !old(staging).always_takes() && matching_fault(
                *old(staging),
                matching_header@,
                staged@.skip(staged.headers() as int),
                *final(staging),
                error@,
            ),
        },
{
    let ghost given = *staging;
    match write_all(staging, matching_header) {
        Ok(()) => {},
        Err(error) => {
            assert(sink::wrote(given, matching_header@, *staging, Err(error@)));
            return Err(
                OperationalError::TemporaryDelivery(
                    text2(
                        "cannot write normalized headers to regex staging file: ",
                        error.message.as_str(),
                    ),
                ),
            );
        },
    }
    let ghost with_headers = *staging;
    let bytes = staged.as_bytes();
    let body = slice_subrange(bytes, staged.header_len(), bytes.len());
    assert(body@ =~= staged@.skip(staged.headers() as int));
    match write_all(staging, body) {
        Ok(()) => {
            assert(staging.written() =~= old(staging).written() + (matching_header@ + body@));
            Ok(())
        },
        Err(error) => {
            assert(body_failed(given, matching_header@, body@, with_headers, *staging, error@));
            Err(
                OperationalError::TemporaryDelivery(
                    text2(
                        "cannot write message body to regex staging file: ",
                        error.message.as_str(),
                    ),
                ),
            )
        },
    }
}

/// Whether the headers were written, which left the file as `mid`, and writing
/// the body then failed like this.
pub open spec fn body_failed<W: ByteSink>(
    before: W,
    header: Seq<u8>,
    body: Seq<u8>,
    mid: W,
    after: W,
    source: IoFailure,
) -> bool {
    &&& mid.identity() == before.identity()
    &&& mid.written() == before.written() + header
    &&& sink::wrote(mid, body, after, Err(source))
    &&& sink::partly_written(mid.written(), body, after.written())
}

/// Whether an error tells of headers of which only a part was written, or of a
/// body of which only a part was written behind them.
pub open spec fn matching_fault<W: ByteSink>(
    before: W,
    header: Seq<u8>,
    body: Seq<u8>,
    after: W,
    error: OperationalFault,
) -> bool {
    ||| exists|source: IoFailure|
        {
            &&& #[trigger] sink::wrote(before, header, after, Err(source))
            &&& sink::partly_written(before.written(), header, after.written())
            &&& error == OperationalFault::TemporaryDelivery(
                "cannot write normalized headers to regex staging file: "@ + source.message,
            )
        }
    ||| exists|mid: W, source: IoFailure|
        {
            &&& #[trigger] body_failed(before, header, body, mid, after, source)
            &&& error == OperationalFault::TemporaryDelivery(
                "cannot write message body to regex staging file: "@ + source.message,
            )
        }
}

/// What is done around the staging of a message.
#[derive(Debug, Clone, Copy, PartialEq, Eq, Structural)]
pub struct StagingSteps {
    /// The sinks that are decided on already take the message while it is read.
    pub opens_early_sinks: bool,
    /// A copy of the message is made that patterns are matched with.
    pub makes_matching_copy: bool,
}

/// Decides what is done around the staging of a message: nothing is opened
/// early where deliveries have to be in order, and a copy for patterns is made
/// only where the plan looks into the message and there are headers for it.
pub fn staging_steps(
    requires_ordered_delivery: bool,
    needs_message_contents: bool,
    has_matching_headers: bool,
) -> (r: StagingSteps)
    ensures
        r.opens_early_sinks == !requires_ordered_delivery,
        r.makes_matching_copy == (needs_message_contents && has_matching_headers),
{
    StagingSteps {
        opens_early_sinks: !requires_ordered_delivery,
        makes_matching_copy: needs_message_contents && has_matching_headers,
    }
}

impl PublicationTracker {
    /// Counts the last publications of a message, and ends the count.
    pub fn conclude(&mut self, published: usize, original_delivered: bool) -> (r: Result<
        (),
        OperationalError,
    >)
        ensures
            if old(self).published + published > usize::MAX {
                r matches Err(error) && error@ == OperationalFault::Internal(
                    "published destination count overflows"@,
                ) && *final(self) == *old(self)
            } else {
                *final(self) == (PublicationTracker { published: 0, original_delivered: false })
                    && if old(self).original_delivered || original_delivered {
                    r is Ok
                } else {
                    r matches Err(error) && error@ == OperationalFault::Undelivered(
                        "original message was not delivered (published "@ + text::decimal(
                            (old(self).published + published) as nat,
                        ) + " copy destination(s))"@,
                    )
                }
            },
    {
        match self.record(published, original_delivered) {
            Ok(()) => self.finish(),
            Err(error) => Err(error),
        }
    }
}

/// Where a destination takes a message while it is read.
#[derive(Debug, PartialEq, Eq)]
pub enum StreamingSink {
    Maildir { path: String },
    Discard,
}

/// What sink goes with a destination, or why none does.
pub enum SinkModel {
    Maildir { path: Seq<char> },
    Discard,
}

impl View for StreamingSink {
    type V = SinkModel;

    open spec fn view(&self) -> SinkModel {
        match self {
            StreamingSink::Maildir { path } => SinkModel::Maildir { path: path@ },
            StreamingSink::Discard => SinkModel::Discard,
        }
    }
}

/// The sink of a destination, where it takes a message while it is read.
pub open spec fn sink_of(
    unresolved: DestinationModel,
    values: Map<Seq<char>, Seq<char>>,
) -> Result<SinkModel, OperationalFault> {
    match unresolved.resolved(values) {
        Err(fault) => Err(
            OperationalFault::PermanentDestination(publication::shown_fault(fault)),
        ),
        Ok(destination) => match destination.kind {
            DestinationKind::Maildir => Ok(SinkModel::Maildir { path: destination.path.source }),
            DestinationKind::Discard => Ok(SinkModel::Discard),
            DestinationKind::Mbox => Err(
                OperationalFault::Internal(
                    "internal error: mbox destination reached streaming delivery: "@
                        + destination.path.source,
                ),
            ),
            DestinationKind::File => Err(
                OperationalFault::Internal(
                    "internal error: ordered destination reached streaming delivery: "@
                        + destination.path.source,
                ),
            ),
        },
    }
}

/// Decides on the sink of a destination, and traces the decision.
pub fn prepare_sink(
    unresolved: &Destination,
    runtime: &RuntimeVariables,
    trace: &mut Vec<DeliveryEvent>,
) -> (r: Result<StreamingSink, OperationalError>)
    ensures
        match sink_of(unresolved@, runtime::texts(runtime@)) {
            Ok(sink) => {
                &&& r matches Ok(found) && found@ == sink
                &&& event_models(final(trace)@) == event_models(old(trace)@).push(
                    traced(unresolved@, DeliveryStage::Preparing),
                )
            },
            Err(fault) => {
                &&& r matches Err(error) && error@ == fault
                &&& event_models(final(trace)@) == event_models(old(trace)@).push(
                    traced(unresolved@, DeliveryStage::Preparing),
                ).push(traced(unresolved@, DeliveryStage::Failed(FailureClass::Permanent)))
            },
        },
{
    record_delivery(unresolved, DeliveryStage::Preparing, trace);
    let error = match unresolved.resolve_with(TextValues::Runtime(runtime)) {
        Ok(destination) => match destination.kind() {
            DestinationKind::Maildir => {
                return Ok(StreamingSink::Maildir { path: destination.path().to_owned() });
            },
            DestinationKind::Discard => {
                return Ok(StreamingSink::Discard);
            },
            DestinationKind::Mbox => OperationalError::Internal(
                text2(
                    "internal error: mbox destination reached streaming delivery: ",
                    destination.path(),
                ),
            ),
            DestinationKind::File => OperationalError::Internal(
                text2(
                    "internal error: ordered destination reached streaming delivery: ",
                    destination.path(),
                ),
            ),
        },
        Err(error) => OperationalError::PermanentDestination(error.to_text()),
    };
    record_delivery(unresolved, DeliveryStage::Failed(FailureClass::Permanent), trace);
    Err(error)
}

/// Reports a Maildir that could not be opened.
pub fn maildir_unavailable(
    unresolved: &Destination,
    path: &str,
    error: &IoError,
    trace: &mut Vec<DeliveryEvent>,
) -> (r: OperationalError)
    ensures
        r@ == publication::delivery_fault(
            failure::class_of(error@),
            "cannot open Maildir "@ + path@ + ": "@ + error@.message,
        ),
        event_models(final(trace)@) == event_models(old(trace)@).push(
            traced(unresolved@, DeliveryStage::Failed(FailureClass::Transient)),
        ),
{
    record_delivery(unresolved, DeliveryStage::Failed(FailureClass::Transient), trace);
    let start = text3("cannot open Maildir ", path, ": ");
    OperationalError::delivery(
        DeliveryFailureClass::from_io_error(error),
        text2(start.as_str(), error.message.as_str()),
    )
}

/// The global lock, and those that copy branches have set aside.
pub struct GlobalLocks<L> {
    held: Option<L>,
    suspended: Vec<Option<L>>,
}

pub struct LocksModel<L> {
    pub held: Option<L>,
    pub suspended: Seq<Option<L>>,
}

impl<L> View for GlobalLocks<L> {
    type V = LocksModel<L>;

    closed spec fn view(&self) -> LocksModel<L> {
        LocksModel { held: self.held, suspended: self.suspended@ }
    }
}

impl<L> LocksModel<L> {
    /// A copy branch does not own the lock of the filtering that it leaves.
    pub open spec fn branched(self) -> Self {
        LocksModel { held: None, suspended: self.suspended.push(self.held) }
    }

    /// After a copy branch the lock is the one that was set aside.
    pub open spec fn joined(self) -> Self {
        if self.suspended.len() > 0 {
            LocksModel { held: self.suspended.last(), suspended: self.suspended.drop_last() }
        } else {
            LocksModel { held: None, suspended: self.suspended }
        }
    }
}

/// A copy branch leaves the lock of the filtering around it as it was,
/// whatever lock the branch took itself.
pub proof fn a_copy_branch_keeps_the_lock_around_it<L>(locks: LocksModel<L>, taken: Option<L>)
    ensures
        (LocksModel { held: taken, suspended: locks.branched().suspended }).joined() == locks,
{
    assert(locks.branched().suspended.drop_last() =~= locks.suspended);
}

impl<L> GlobalLocks<L> {
    pub fn new() -> (r: Self)
        ensures
            r@ == (LocksModel::<L> { held: None, suspended: Seq::empty() }),
    {
        let locks = GlobalLocks { held: None, suspended: Vec::new() };
        assert(locks.suspended@ =~= Seq::empty());
        locks
    }

    /// Whether a lock is held.
    pub fn is_held(&self) -> (r: bool)
        ensures
            r == (self@.held is Some),
    {
        self.held.is_some()
    }

    /// Releases the lock.
    pub fn release(&mut self)
        ensures
            final(self)@ == (LocksModel::<L> { held: None, suspended: old(self)@.suspended }),
    {
        self.held = None;
    }

    /// Holds the lock that was taken for `LOCKFILE`. Where none could be
    /// taken, `LOCKFILE` is cleared, so that it names no lock that is not
    /// held.
    pub fn replace(
        &mut self,
        acquired: Result<L, OperationalError>,
        runtime: &mut RuntimeVariables,
    ) -> (r: Result<(), OperationalError>)
        ensures
            match acquired {
                Ok(lock) => {
                    &&& r is Ok
                    &&& final(self)@ == (LocksModel {
                        held: Some(lock),
                        suspended: old(self)@.suspended,
                    })
                    &&& final(runtime)@ == old(runtime)@
                },
                Err(error) => {
                    &&& r == Err::<(), OperationalError>(error)
                    &&& final(self)@ == (LocksModel::<L> {
                        held: None,
                        suspended: old(self)@.suspended,
                    })
                    &&& final(runtime)@ == runtime::with_value(
                        old(runtime)@,
                        "LOCKFILE"@,
                        Seq::empty(),
                    )
                },
            },
    {
        match acquired {
            Ok(lock) => {
                self.held = Some(lock);
                Ok(())
            },
            Err(error) => {
                self.held = None;
                runtime.set_bytes("LOCKFILE", Vec::new());
                Err(error)
            },
        }
    }

    /// Sets the lock aside for a copy branch.
    pub fn enter_copy_branch(&mut self)
        ensures
            final(self)@ == old(self)@.branched(),
    {
        let held = self.held.take();
        self.suspended.push(held);
    }

    /// Gives up the lock of a copy branch for the one that was set aside.
    pub fn leave_copy_branch(&mut self)
        ensures
            final(self)@ == old(self)@.joined(),
    {
        self.held = match self.suspended.pop() {
            Some(held) => held,
            None => None,
        };
    }
}

/// Ends what is being done once a signal has come.
pub fn check_signal(signal: Option<i32>) -> (r: Result<(), OperationalError>)
    ensures
        match signal {
            Some(number) => r == Err::<(), OperationalError>(OperationalError::Signaled(number)),
            None => r is Ok,
        },
{
    match signal {
        Some(number) => Err(OperationalError::Signaled(number)),
        None => Ok(()),
    }
}

} // verus!
