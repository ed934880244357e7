use procmail::config::{parse, Destination, DestinationKind, RecipeAction, Statement};
use procmail::delivery::failure::{DeliveryFailureClass, IoError, IoErrorKind};
use procmail::delivery::fanout::PendingFanout;
use procmail::delivery::local_lock::LockMethod;
use procmail::delivery::mbox_append::MboxAppendError;
use procmail::delivery::sink::{ByteSink, PendingSink, PublishedDelivery, SinkCommitError};
use procmail::delivery::staging::StagedMessage;
use procmail::delivery_runtime::{
    append_late, apply_publication, check_signal, commit_delivery, deliver_one_sink,
    late_deliveries, lock_failure, lock_settings, lock_timeout, maildir_unavailable,
    mbox_unavailable, prepare_sink, record_delivery, settle_fanout, settle_mbox, settle_sink,
    stage_matching_message, stage_to_sinks, staging_directory, staging_steps, start_file_delivery,
    stream_to_sinks, trace_failure_class, umask, DeliveryEvent, DeliveryStage, FailureClass,
    FileDelivery, GlobalLocks, OrderedStepError, PlannedDelivery, PublicationAttempt,
    PublicationDestinations, PublicationFailure, StreamingSink,
};
use procmail::message::{Message, MessageHead, MessageLimits};
use procmail::publication::{
    classify_execution_error, completion_exit_status, Completion, DeliveryAttemptError,
    OperationalError, PublicationTracker,
};
use procmail::runtime::RuntimeVariables;

fn destination(action: &str) -> Destination {
    let text = format!("MAILDIR=/mail\n:0\n{action}\n");
    let config = parse(&text).unwrap().expand(&[]).unwrap();
    for statement in config.statements {
        if let Statement::Recipe(recipe) = statement {
            if let RecipeAction::Deliver(destination) = recipe.action {
                return destination;
            }
        }
    }
    panic!("no destination in {action}");
}

fn event(kind: DestinationKind, stage: DeliveryStage) -> DeliveryEvent {
    DeliveryEvent { recipe_line: 3, destination: kind, stage }
}

#[derive(Default)]
struct Sink {
    bytes: Vec<u8>,
    refuse: bool,
    outcome: u8,
}

impl ByteSink for Sink {
    fn write(&mut self, bytes: &[u8]) -> Result<usize, IoError> {
        if self.refuse {
            return Err(IoError::new(IoErrorKind::StorageFull, "disk full"));
        }
        self.bytes.extend_from_slice(bytes);
        Ok(bytes.len())
    }

    fn flush(&mut self) -> Result<(), IoError> {
        Ok(())
    }
}

impl PendingSink for Sink {
    fn commit(self) -> Result<PublishedDelivery, SinkCommitError> {
        let published = PublishedDelivery::new(String::from_utf8(self.bytes.clone()).unwrap());
        match self.outcome {
            0 => Ok(published),
            1 => Err(SinkCommitError::before_publication(IoError::new(
                IoErrorKind::PermissionDenied,
                "denied",
            ))),
            _ => Err(SinkCommitError::after_publication(
                IoError::new(IoErrorKind::StorageFull, "no sync"),
                published,
            )),
        }
    }

    fn abort(self) -> Result<(), IoError> {
        Ok(())
    }
}

fn sink(outcome: u8) -> Sink {
    Sink { outcome, ..Sink::default() }
}

#[test]
fn everything_follows_from_what_became_visible() {
    let plan = [
        PlannedDelivery { destination: destination("maildir:one"), umask: 0o077 },
        PlannedDelivery { destination: destination("maildir:two"), umask: 0o077 },
    ];
    let mut runtime = RuntimeVariables::default();
    let mut trace = Vec::new();
    let attempt = PublicationAttempt {
        published: 1,
        last_folder: Some("/mail/one/new/x".to_owned()),
        failure: Some(PublicationFailure {
            class: DeliveryFailureClass::Retryable,
            error: OperationalError::TemporaryDelivery("later".to_owned()),
        }),
    };
    let error = apply_publication(
        attempt,
        PublicationDestinations::Plan(&plan),
        &mut runtime,
        &mut trace,
    )
    .unwrap_err();
    assert_eq!(
        error,
        OrderedStepError::after_publication(OperationalError::TemporaryDelivery("later".to_owned()))
    );
    assert_eq!(runtime.get("LASTFOLDER").unwrap(), "/mail/one/new/x");
    assert_eq!(
        trace,
        vec![
            event(DestinationKind::Maildir, DeliveryStage::Published),
            event(DestinationKind::Maildir, DeliveryStage::Failed(FailureClass::Transient)),
        ]
    );
}

#[test]
fn more_publications_than_destinations_are_an_internal_error() {
    let one = destination("maildir:one");
    let mut runtime = RuntimeVariables::default();
    let mut trace = Vec::new();
    let attempt = PublicationAttempt {
        published: 2,
        last_folder: Some("x".to_owned()),
        failure: None,
    };
    let error =
        apply_publication(attempt, PublicationDestinations::One(&one), &mut runtime, &mut trace)
            .unwrap_err();
    assert!(!error.can_handle);
    assert_eq!(
        error.error,
        OperationalError::Internal(
            "published destination has no matching delivery plan entry".to_owned()
        )
    );
    assert_eq!(trace.len(), 1);
    assert_eq!(runtime.get("LASTFOLDER"), None);
}

#[test]
fn sinks_are_settled_by_their_outcome() {
    let folder = destination("maildir:one");
    let mut runtime = RuntimeVariables::default();
    let mut trace = Vec::new();
    assert_eq!(
        deliver_one_sink(sink(0), b"/mail/one/new/a", &folder, &mut runtime, &mut trace),
        Ok(1)
    );
    assert_eq!(runtime.get("LASTFOLDER").unwrap(), "/mail/one/new/a");
    assert_eq!(trace, vec![event(DestinationKind::Maildir, DeliveryStage::Published)]);

    let mut trace = Vec::new();
    let error = deliver_one_sink(sink(1), b"b", &folder, &mut runtime, &mut trace).unwrap_err();
    assert_eq!(
        error.into_attempt_error(),
        DeliveryAttemptError::Recoverable(OperationalError::PermanentDestination(
            "cannot publish Maildir delivery: denied".to_owned()
        ))
    );
    assert_eq!(runtime.get("LASTFOLDER").unwrap(), "/mail/one/new/a");
    assert_eq!(
        trace,
        vec![event(DestinationKind::Maildir, DeliveryStage::Failed(FailureClass::Permanent))]
    );

    let mut trace = Vec::new();
    let error = deliver_one_sink(sink(2), b"c", &folder, &mut runtime, &mut trace).unwrap_err();
    assert_eq!(
        error.into_attempt_error(),
        DeliveryAttemptError::Fatal(OperationalError::TemporaryDelivery(
            "cannot publish Maildir delivery: no sync".to_owned()
        ))
    );
    assert_eq!(runtime.get("LASTFOLDER").unwrap(), "c");
    assert_eq!(trace, vec![event(DestinationKind::Maildir, DeliveryStage::Published)]);

    let mut trace = Vec::new();
    let refusing = Sink { refuse: true, ..Sink::default() };
    let error = deliver_one_sink(refusing, b"d", &folder, &mut runtime, &mut trace).unwrap_err();
    assert!(error.can_handle);
    assert_eq!(
        error.error,
        OperationalError::TemporaryDelivery("cannot write staged delivery: disk full".to_owned())
    );
    assert!(trace.is_empty());

    let mut trace = Vec::new();
    let settled = settle_sink(
        Ok(PublishedDelivery::new("e".to_owned())),
        &folder,
        &mut runtime,
        &mut trace,
    );
    assert_eq!(settled, Ok(1));
}

#[test]
fn mbox_failures_count_as_published_only_once_the_record_is_there() {
    let mbox = destination("mbox:box").resolve_with(no_values()).unwrap();
    let mut runtime = RuntimeVariables::default();
    let mut trace = Vec::new();
    let error = settle_mbox(
        Err(MboxAppendError::before_publication(IoError::new(
            IoErrorKind::StorageFull,
            "disk full",
        ))),
        &mbox,
        &mut runtime,
        &mut trace,
    )
    .unwrap_err();
    assert!(error.can_handle);
    assert_eq!(
        error.error,
        OperationalError::TemporaryDelivery(
            "cannot deliver to mbox /mail/box: cannot append mbox record: disk full".to_owned()
        )
    );
    assert_eq!(runtime.get("LASTFOLDER"), None);
    assert_eq!(
        settle_mbox(
            Ok(PublishedDelivery::new("/mail/box".to_owned())),
            &mbox,
            &mut runtime,
            &mut trace
        ),
        Ok(1)
    );
    assert_eq!(runtime.get("LASTFOLDER").unwrap(), "/mail/box");
}

fn no_values<'a>() -> procmail::config::shell_eval::TextValues<'a> {
    procmail::config::shell_eval::TextValues::Runtime(Box::leak(Box::new(
        RuntimeVariables::default(),
    )))
}

#[test]
fn file_deliveries_start_with_a_resolved_destination() {
    let mut runtime = RuntimeVariables::default();
    runtime.set("LOCKTIMEOUT", "7");
    runtime.set("UMASK", "027");
    let mut trace = Vec::new();
    match start_file_delivery(&destination("mbox:box"), &mut runtime, &mut trace) {
        Ok(FileDelivery::Append { destination, lock_timeout, umask }) => {
            assert_eq!(destination.path(), "/mail/box");
            assert_eq!(lock_timeout, 7);
            assert_eq!(umask, 0o027);
        }
        _ => panic!("the message is not appended"),
    }
    assert_eq!(trace, vec![event(DestinationKind::Mbox, DeliveryStage::Preparing)]);

    let mut trace = Vec::new();
    match start_file_delivery(&destination("/dev/null"), &mut runtime, &mut trace) {
        Ok(FileDelivery::Done) => {}
        _ => panic!("the message is not discarded"),
    }
    assert_eq!(runtime.get("LASTFOLDER").unwrap(), "/dev/null");
    assert_eq!(trace.len(), 2);
    assert_eq!(trace[1].stage, DeliveryStage::Published);

    runtime.set("UMASK", "9");
    let mut trace = Vec::new();
    match start_file_delivery(&destination("mbox:box"), &mut runtime, &mut trace) {
        Err(step) => assert_eq!(
            step,
            OrderedStepError::before_publication(OperationalError::PermanentDestination(
                "UMASK must be an octal integer from 0000 to 0777".to_owned()
            ))
        ),
        Ok(_) => panic!("a wrong UMASK is used"),
    }

    let mut trace = Vec::new();
    match start_file_delivery(&destination("maildir:box"), &mut runtime, &mut trace) {
        Err(step) => assert_eq!(
            step.error,
            OperationalError::Internal(
                "internal error: file delivery resolved to another destination type".to_owned()
            )
        ),
        Ok(_) => panic!("a Maildir is no file"),
    }

    let mut trace = Vec::new();
    match start_file_delivery(&destination("mbox:${LASTFOLDER}/x/../y"), &mut runtime, &mut trace) {
        Err(step) => {
            assert!(step.can_handle);
            assert!(step.error.message().starts_with("line 3: "));
        }
        Ok(_) => panic!("the path leads upwards"),
    }
    assert_eq!(
        trace,
        vec![event(DestinationKind::Mbox, DeliveryStage::Failed(FailureClass::Permanent))]
    );
}

#[test]
fn unavailable_destinations_are_traced() {
    let mut trace = Vec::new();
    let mbox = destination("mbox:box").resolve_with(no_values()).unwrap();
    let busy = IoError::new(IoErrorKind::TimedOut, "timed out");
    assert_eq!(
        mbox_unavailable(&mbox, &busy, &mut trace).error,
        OperationalError::TemporaryDelivery(
            "cannot open or lock mbox /mail/box: timed out".to_owned()
        )
    );
    let denied = IoError::new(IoErrorKind::PermissionDenied, "denied");
    assert_eq!(
        maildir_unavailable(&destination("maildir:in"), "/mail/in", &denied, &mut trace),
        OperationalError::PermanentDestination("cannot open Maildir /mail/in: denied".to_owned())
    );
    assert_eq!(
        trace,
        vec![
            event(DestinationKind::Mbox, DeliveryStage::Failed(FailureClass::Transient)),
            event(DestinationKind::Maildir, DeliveryStage::Failed(FailureClass::Transient)),
        ]
    );
    assert_eq!(trace_failure_class(DeliveryFailureClass::Internal), FailureClass::Internal);
}

#[test]
fn only_maildirs_and_discards_take_a_stream() {
    let runtime = RuntimeVariables::default();
    let mut trace = Vec::new();
    assert_eq!(
        prepare_sink(&destination("maildir:in"), &runtime, &mut trace),
        Ok(StreamingSink::Maildir { path: "/mail/in".to_owned() })
    );
    assert_eq!(
        prepare_sink(&destination("/dev/null"), &runtime, &mut trace),
        Ok(StreamingSink::Discard)
    );
    assert_eq!(
        prepare_sink(&destination("mbox:box"), &runtime, &mut trace),
        Err(OperationalError::Internal(
            "internal error: mbox destination reached streaming delivery: /mail/box".to_owned()
        ))
    );
    assert_eq!(trace.len(), 4);
    assert_eq!(trace[3].stage, DeliveryStage::Failed(FailureClass::Permanent));
}

fn head(text: &[u8]) -> MessageHead {
    Message::read_headers(text, MessageLimits::default()).unwrap().0
}

#[test]
fn streamed_messages_reach_every_sink() {
    let validated =
        stream_to_sinks(vec![sink(0), sink(0)], head(b"a:1\n\n"), &[b"body".to_vec()]).unwrap();
    let plan = [
        PlannedDelivery { destination: destination("maildir:one"), umask: 0o077 },
        PlannedDelivery { destination: destination("maildir:two"), umask: 0o077 },
    ];
    let mut runtime = RuntimeVariables::default();
    let mut trace = Vec::new();
    assert_eq!(commit_delivery(validated, None, &plan, &mut runtime, &mut trace), Ok(2));
    assert_eq!(runtime.get("LASTFOLDER").unwrap(), "a:1\n\nbody");
    assert_eq!(trace.len(), 2);

    let refusing = vec![Sink { refuse: true, ..Sink::default() }];
    assert_eq!(
        stream_to_sinks(refusing, head(b"a:1\n\n"), &[]).map(|_| ()).unwrap_err(),
        OperationalError::Input(
            "cannot stream message from stdin: cannot validate message: disk full".to_owned()
        )
    );
    let many: Vec<Sink> = (0..257).map(|_| sink(0)).collect();
    assert_eq!(
        stream_to_sinks(many, head(b"a:1\n\n"), &[]).map(|_| ()).unwrap_err(),
        OperationalError::Internal("delivery fan-out has 257 sinks, limit is 256".to_owned())
    );
}

#[test]
fn a_signal_gives_up_what_was_not_published() {
    let validated = stream_to_sinks(vec![sink(0)], head(b"a:1\n\n"), &[]).unwrap();
    let mut runtime = RuntimeVariables::default();
    let mut trace = Vec::new();
    assert_eq!(
        commit_delivery(validated, Some(15), &[], &mut runtime, &mut trace),
        Err(OperationalError::Signaled(15))
    );
    assert_eq!(runtime, RuntimeVariables::default());
    assert_eq!(check_signal(Some(2)), Err(OperationalError::Signaled(2)));
    assert_eq!(check_signal(None), Ok(()));
}

#[test]
fn late_sinks_get_the_staged_message() {
    let mut staging: Vec<u8> = Vec::new();
    let validated =
        stage_to_sinks(vec![sink(0)], head(b"a:1\n\n"), &[b"x".to_vec()], &mut staging).unwrap();
    assert_eq!(staging, b"a:1\n\nx");
    let validated = append_late(validated, vec![sink(2)], b"late").unwrap();
    let plan = [
        PlannedDelivery { destination: destination("maildir:one"), umask: 0o077 },
        PlannedDelivery { destination: destination("maildir:two"), umask: 0o077 },
    ];
    assert_eq!(late_deliveries(&plan, 1).unwrap().len(), 1);
    assert_eq!(
        late_deliveries(&plan, 3).map(|_| ()).unwrap_err(),
        OperationalError::Internal(
            "internal error: deferred delivery discarded an early copy destination".to_owned()
        )
    );
    let mut runtime = RuntimeVariables::default();
    let mut trace = Vec::new();
    assert_eq!(
        commit_delivery(validated, None, &plan, &mut runtime, &mut trace),
        Err(OperationalError::TemporaryDelivery(
            "cannot publish Maildir delivery: cannot commit delivery after publishing 2 sink(s): \
             no sync"
                .to_owned()
        ))
    );
    assert_eq!(runtime.get("LASTFOLDER").unwrap(), "late");
    assert_eq!(trace.len(), 2);

    let empty: PendingFanout<Sink> = PendingFanout::new(Vec::new()).unwrap();
    let (validated, _) = empty.stream(head(b"a:1\n\n"), &[]).unwrap();
    let settled = settle_fanout(validated.commit(), &plan, &mut runtime, &mut trace);
    assert_eq!(settled, Ok(0));

    let empty: PendingFanout<Sink> = PendingFanout::new(Vec::new()).unwrap();
    let (validated, _) = empty.stream(head(b"a:1\n\n"), &[]).unwrap();
    let refusing = vec![Sink { refuse: true, ..Sink::default() }];
    assert_eq!(
        append_late(validated, refusing, b"late").map(|_| ()).unwrap_err(),
        OperationalError::TemporaryDelivery(
            "cannot append buffered delivery: disk full".to_owned()
        )
    );
}

#[test]
fn patterns_are_matched_with_other_headers_and_the_same_body() {
    let staged = StagedMessage::new(b"A: 1\n 2\n\nbody".to_vec(), 9).unwrap();
    let mut matching: Vec<u8> = Vec::new();
    stage_matching_message(&mut matching, b"A: 1 2\n\n", &staged).unwrap();
    assert_eq!(matching, b"A: 1 2\n\nbody");
    let mut refusing = Sink { refuse: true, ..Sink::default() };
    assert_eq!(
        stage_matching_message(&mut refusing, b"A", &staged).unwrap_err(),
        OperationalError::TemporaryDelivery(
            "cannot write normalized headers to regex staging file: disk full".to_owned()
        )
    );
    assert_eq!(
        stage_matching_message(&mut refusing, b"", &staged).unwrap_err(),
        OperationalError::TemporaryDelivery(
            "cannot write message body to regex staging file: disk full".to_owned()
        )
    );
}

#[test]
fn messages_are_staged_where_the_recipes_say() {
    assert_eq!(staging_directory(Some("/a"), Some("/b")), Ok("/a"));
    assert_eq!(staging_directory(None, Some("/b")), Ok("/b"));
    assert_eq!(
        staging_directory(None, None),
        Err(OperationalError::Internal(
            "internal error: deferred evaluation has no staging directory".to_owned()
        ))
    );
}

#[test]
fn staging_follows_what_the_plan_needs() {
    assert!(staging_steps(false, true, true).opens_early_sinks);
    assert!(!staging_steps(true, true, true).opens_early_sinks);
    assert!(staging_steps(true, true, true).makes_matching_copy);
    assert!(!staging_steps(true, false, true).makes_matching_copy);
    assert!(!staging_steps(true, true, false).makes_matching_copy);
}

#[test]
fn locks_are_taken_as_the_variables_say() {
    let mut runtime = RuntimeVariables::default();
    let settings = lock_settings(&runtime).unwrap();
    assert_eq!(settings.method, LockMethod::Flock);
    assert_eq!(settings.timeout, 1024);
    assert_eq!(settings.umask, 0o077);
    runtime.set("LOCKMETHOD", "dotlock");
    runtime.set("LOCKTIMEOUT", "5");
    let settings = lock_settings(&runtime).unwrap();
    assert_eq!(settings.method, LockMethod::Dotlock);
    assert_eq!(settings.retry, 8_000_000_000);
    assert_eq!(lock_timeout(&runtime), Ok(5));
    assert_eq!(umask(&runtime), Ok(0o077));
    runtime.set("LOCKTIMEOUT", "0");
    assert_eq!(
        lock_settings(&runtime).unwrap_err(),
        OperationalError::PermanentDestination(
            "LOCKTIMEOUT must be an integer from 1 to 86400".to_owned()
        )
    );
    runtime.set("LOCKMETHOD", "other");
    assert!(lock_settings(&runtime).unwrap_err().message().contains("LOCKMETHOD"));

    let error = IoError::new(IoErrorKind::TimedOut, "timed out");
    assert_eq!(
        lock_failure(&error, None),
        OperationalError::TemporaryDelivery("cannot acquire local lockfile: timed out".to_owned())
    );
    assert_eq!(lock_failure(&error, Some(9)), OperationalError::Signaled(9));
}

#[test]
fn copy_branches_keep_the_lock_around_them() {
    let mut runtime = RuntimeVariables::default();
    runtime.set("LOCKFILE", "/tmp/lock");
    let mut locks = GlobalLocks::new();
    assert!(!locks.is_held());
    assert_eq!(locks.replace(Ok(1), &mut runtime), Ok(()));
    locks.enter_copy_branch();
    assert!(!locks.is_held());
    locks.enter_copy_branch();
    assert_eq!(locks.replace(Ok(2), &mut runtime), Ok(()));
    locks.leave_copy_branch();
    assert!(!locks.is_held());
    locks.leave_copy_branch();
    assert!(locks.is_held());
    assert_eq!(runtime.get("LOCKFILE").unwrap(), "/tmp/lock");
    assert_eq!(
        locks.replace(Err(OperationalError::Signaled(1)), &mut runtime),
        Err(OperationalError::Signaled(1))
    );
    assert!(!locks.is_held());
    assert_eq!(runtime.get("LOCKFILE").unwrap(), "");
    assert_eq!(locks.replace(Ok(3), &mut runtime), Ok(()));
    locks.release();
    assert!(!locks.is_held());
    locks.leave_copy_branch();
    assert!(!locks.is_held());
}

#[test]
fn a_message_without_its_original_is_undelivered() {
    let mut tracker = PublicationTracker::default();
    assert_eq!(tracker.conclude(1, true), Ok(()));
    assert_eq!(
        tracker.conclude(3, false),
        Err(OperationalError::Undelivered(
            "original message was not delivered (published 3 copy destination(s))".to_owned()
        ))
    );
    assert_eq!(tracker, PublicationTracker::default());
}

#[test]
fn exit_statuses_follow_the_failure() {
    for (error, status) in [
        (OperationalError::Input("x".to_owned()), Some(65)),
        (OperationalError::Internal("x".to_owned()), Some(70)),
        (OperationalError::PermanentDestination("x".to_owned()), Some(73)),
        (OperationalError::TemporaryDelivery("x".to_owned()), Some(75)),
        (OperationalError::Configuration("x".to_owned()), Some(78)),
        (OperationalError::Undelivered("x".to_owned()), Some(79)),
        (OperationalError::Signaled(2), None),
    ] {
        assert_eq!(error.exit_code(), status);
        assert_eq!(completion_exit_status(&Completion::DeliveryFailed(error)), status);
    }
    assert_eq!(completion_exit_status(&Completion::EvaluationFailed), Some(73));
    assert_eq!(
        completion_exit_status(&Completion::Completed { original_delivered: true }),
        Some(0)
    );
    assert_eq!(
        completion_exit_status(&Completion::Completed { original_delivered: false }),
        Some(79)
    );
    assert_eq!(
        classify_execution_error(OperationalError::Signaled(2)),
        DeliveryAttemptError::Fatal(OperationalError::Signaled(2))
    );
    assert_eq!(
        classify_execution_error(OperationalError::Input("x".to_owned())),
        DeliveryAttemptError::Recoverable(OperationalError::Input("x".to_owned()))
    );
}

#[test]
fn recorded_events_name_the_recipe_line() {
    let mut trace = Vec::new();
    record_delivery(&destination("maildir:in"), DeliveryStage::Preparing, &mut trace);
    assert_eq!(trace, vec![event(DestinationKind::Maildir, DeliveryStage::Preparing)]);
}
