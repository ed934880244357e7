use std::cell::RefCell;
use std::rc::Rc;

use procmail::delivery::failure::{DeliveryFailureClass, IoError, IoErrorKind};
use procmail::delivery::fanout::{PendingFanout, MAX_PENDING_SINKS};
use procmail::delivery::sink::{ByteSink, PendingSink, PublishedDelivery, SinkCommitError};
use procmail::message::{Message, MessageHead, MessageLimit, MessageLimits, MessageReadError};

#[derive(Default)]
struct SinkState {
    visible: Option<Vec<u8>>,
    aborted: bool,
    dropped: bool,
}

struct TestSink {
    state: Rc<RefCell<SinkState>>,
    pending: Vec<u8>,
    max_write_size: Option<usize>,
    fail_write_at: Option<usize>,
    fail_commit: bool,
    fail_after_publish: bool,
    fail_abort: bool,
    last_folder: String,
    settled: bool,
}

impl TestSink {
    fn boxed(state: Rc<RefCell<SinkState>>) -> Self {
        Self {
            state,
            pending: Vec::new(),
            max_write_size: None,
            fail_write_at: None,
            fail_commit: false,
            fail_after_publish: false,
            fail_abort: false,
            last_folder: "test-folder".to_owned(),
            settled: false,
        }
    }

    fn failing_write(state: Rc<RefCell<SinkState>>, at: usize) -> Self {
        Self {
            state,
            pending: Vec::new(),
            max_write_size: None,
            fail_write_at: Some(at),
            fail_commit: false,
            fail_after_publish: false,
            fail_abort: false,
            last_folder: "test-folder".to_owned(),
            settled: false,
        }
    }

    fn short_writing(state: Rc<RefCell<SinkState>>, size: usize) -> Self {
        Self {
            state,
            pending: Vec::new(),
            max_write_size: Some(size),
            fail_write_at: None,
            fail_commit: false,
            fail_after_publish: false,
            fail_abort: false,
            last_folder: "test-folder".to_owned(),
            settled: false,
        }
    }

    fn failing_commit(state: Rc<RefCell<SinkState>>) -> Self {
        Self {
            state,
            pending: Vec::new(),
            max_write_size: None,
            fail_write_at: None,
            fail_commit: true,
            fail_after_publish: false,
            fail_abort: false,
            last_folder: "test-folder".to_owned(),
            settled: false,
        }
    }

    fn failing_after_publish(state: Rc<RefCell<SinkState>>) -> Self {
        Self {
            state,
            pending: Vec::new(),
            max_write_size: None,
            fail_write_at: None,
            fail_commit: false,
            fail_after_publish: true,
            fail_abort: false,
            last_folder: "test-folder".to_owned(),
            settled: false,
        }
    }
}

impl ByteSink for TestSink {
    fn write(&mut self, bytes: &[u8]) -> Result<usize, IoError> {
        if let Some(limit) = self.fail_write_at {
            let remaining = limit.saturating_sub(self.pending.len());
            if remaining == 0 {
                return Err(IoError::other("injected write failure"));
            }
            let length = bytes.len().min(remaining);
            self.pending.extend_from_slice(&bytes[..length]);
            return Ok(length);
        }
        let length = self
            .max_write_size
            .map_or(bytes.len(), |maximum| bytes.len().min(maximum));
        self.pending.extend_from_slice(&bytes[..length]);
        Ok(length)
    }

    fn flush(&mut self) -> Result<(), IoError> {
        Ok(())
    }
}

impl PendingSink for TestSink {
    fn commit(mut self) -> Result<PublishedDelivery, SinkCommitError> {
        self.settled = true;
        if self.fail_commit {
            return Err(SinkCommitError::before_publication(IoError::other(
                "injected commit failure",
            )));
        }
        self.state.borrow_mut().visible = Some(self.pending.clone());
        let published = PublishedDelivery::new(self.last_folder.clone());
        if self.fail_after_publish {
            return Err(SinkCommitError::after_publication(
                IoError::new(IoErrorKind::StorageFull, "injected durability failure"),
                published,
            ));
        }
        Ok(published)
    }

    fn abort(mut self) -> Result<(), IoError> {
        self.settled = true;
        self.state.borrow_mut().aborted = true;
        if self.fail_abort {
            Err(IoError::other("injected abort failure"))
        } else {
            Ok(())
        }
    }
}

impl Drop for TestSink {
    fn drop(&mut self) {
        if !self.settled {
            self.state.borrow_mut().dropped = true;
        }
    }
}

fn read_head(input: &[u8], limits: MessageLimits) -> (MessageHead, Vec<Vec<u8>>) {
    let (head, taken) = Message::read_headers(input, limits).unwrap();
    (head, vec![input[taken..].to_vec()])
}

#[test]
fn publishes_only_after_validation_and_commit() {
    let input = b"Subject: test\n\nbody";
    let first = Rc::new(RefCell::new(SinkState::default()));
    let second = Rc::new(RefCell::new(SinkState::default()));
    let (head, pieces) = read_head(input, MessageLimits::default());
    let pending = PendingFanout::new(vec![
        TestSink::boxed(first.clone()),
        TestSink::boxed(second.clone()),
    ])
    .unwrap();

    let (validated, message) = pending.stream(head, &pieces).unwrap();
    assert_eq!(message.len(), input.len());
    assert!(first.borrow().visible.is_none());
    assert!(second.borrow().visible.is_none());

    let report = validated.commit().unwrap();
    assert_eq!(report.last_folder(), Some("test-folder"));
    assert_eq!(first.borrow().visible.as_deref(), Some(input.as_slice()));
    assert_eq!(second.borrow().visible.as_deref(), Some(input.as_slice()));
}

#[test]
fn limit_failure_aborts_every_sink_without_publishing() {
    let input = b"Subject: test\n\ntoo long";
    let state = Rc::new(RefCell::new(SinkState::default()));
    let limits = MessageLimits {
        body_size: 3,
        ..MessageLimits::default()
    };
    let (head, pieces) = read_head(input, limits);
    let pending = PendingFanout::new(vec![TestSink::boxed(state.clone())]).unwrap();

    let error = match pending.stream(head, &pieces) {
        Ok(_) => panic!("message exceeding the body limit was accepted"),
        Err(error) => error,
    };
    assert!(matches!(
        *error.cause(),
        MessageReadError::LimitExceeded {
            kind: MessageLimit::Body,
            limit: 3
        }
    ));
    assert!(state.borrow().visible.is_none());
    assert!(state.borrow().aborted);
}

#[test]
fn sink_write_failure_aborts_all_sinks() {
    let input = b"Subject: test\n\nbody";
    let first = Rc::new(RefCell::new(SinkState::default()));
    let second = Rc::new(RefCell::new(SinkState::default()));
    let (head, pieces) = read_head(input, MessageLimits::default());
    let pending = PendingFanout::new(vec![
        TestSink::boxed(first.clone()),
        TestSink::failing_write(second.clone(), 0),
    ])
    .unwrap();

    if pending.stream(head, &pieces).is_ok() {
        panic!("injected sink write failure was ignored");
    }
    assert!(first.borrow().aborted);
    assert!(second.borrow().aborted);
    assert!(first.borrow().visible.is_none());
    assert!(second.borrow().visible.is_none());
}

#[test]
fn short_writes_preserve_the_complete_original_message() {
    let input = b"Subject: test\n\nbinary:\xff\x00body";
    let state = Rc::new(RefCell::new(SinkState::default()));
    let (head, pieces) = read_head(input, MessageLimits::default());
    let pending = PendingFanout::new(vec![TestSink::short_writing(state.clone(), 3)]).unwrap();

    let (validated, message) = pending.stream(head, &pieces).unwrap();
    assert_eq!(message.len(), input.len());
    validated.commit().unwrap();

    assert_eq!(state.borrow().visible.as_deref(), Some(input.as_slice()));
}

#[test]
fn failure_after_a_partial_write_never_publishes_a_message() {
    let input = b"Subject: test\n\nbody";
    let state = Rc::new(RefCell::new(SinkState::default()));
    let (head, pieces) = read_head(input, MessageLimits::default());
    let pending = PendingFanout::new(vec![TestSink::failing_write(state.clone(), 5)]).unwrap();

    assert!(pending.stream(head, &pieces).is_err());
    assert!(state.borrow().aborted);
    assert!(state.borrow().visible.is_none());
}

#[test]
fn dropping_validated_fanout_aborts_without_publishing() {
    let input = b"\nbody";
    let state = Rc::new(RefCell::new(SinkState::default()));
    let (head, pieces) = read_head(input, MessageLimits::default());
    let pending = PendingFanout::new(vec![TestSink::boxed(state.clone())]).unwrap();

    drop(pending.stream(head, &pieces).unwrap());
    assert!(state.borrow().dropped);
    assert!(state.borrow().visible.is_none());
}

#[test]
fn a_validated_fanout_can_be_given_up() {
    let state = Rc::new(RefCell::new(SinkState::default()));
    let (head, pieces) = read_head(b"\nbody", MessageLimits::default());
    let mut failing = TestSink::boxed(Rc::new(RefCell::new(SinkState::default())));
    failing.fail_abort = true;
    let pending = PendingFanout::new(vec![TestSink::boxed(state.clone()), failing]).unwrap();

    let (validated, _) = pending.stream(head, &pieces).unwrap();
    assert_eq!(validated.abort_all(), 1);
    assert!(state.borrow().aborted);
    assert!(!state.borrow().dropped);
    assert!(state.borrow().visible.is_none());
}

#[test]
fn a_failed_append_gives_up_the_old_and_the_new_sinks() {
    let states: Vec<_> = (0..4).map(|_| Rc::new(RefCell::new(SinkState::default()))).collect();
    let (head, pieces) = read_head(b"\nbody", MessageLimits::default());
    let early = PendingFanout::new(vec![TestSink::boxed(states[0].clone())]).unwrap();
    let (validated, _) = early.stream(head, &pieces).unwrap();
    let late = PendingFanout::new(vec![
        TestSink::boxed(states[1].clone()),
        TestSink::failing_write(states[2].clone(), 2),
        TestSink::boxed(states[3].clone()),
    ])
    .unwrap();

    let error = match validated.append_bytes(late, b"\nbody") {
        Ok(_) => panic!("a sink that fails took the message"),
        Err(error) => error,
    };
    assert_eq!(error.to_text(), "cannot append buffered delivery: injected write failure");
    assert_eq!(error.abort_failures(), 0);
    for state in &states {
        assert!(state.borrow().aborted);
        assert!(!state.borrow().dropped);
        assert!(state.borrow().visible.is_none());
    }
}

#[test]
fn too_many_added_sinks_are_given_up_unwritten() {
    let sinks = |count: usize| -> (Vec<TestSink>, Vec<Rc<RefCell<SinkState>>>) {
        let states: Vec<_> =
            (0..count).map(|_| Rc::new(RefCell::new(SinkState::default()))).collect();
        (states.iter().map(|state| TestSink::boxed(state.clone())).collect(), states)
    };
    let (early, early_states) = sinks(MAX_PENDING_SINKS);
    let (late, late_states) = sinks(1);
    let (head, pieces) = read_head(b"\nbody", MessageLimits::default());
    let (validated, _) =
        PendingFanout::new(early).unwrap().stream(head, &pieces).unwrap();

    let error = match validated.append_bytes(PendingFanout::new(late).unwrap(), b"\nbody") {
        Ok(_) => panic!("one sink too many was added"),
        Err(error) => error,
    };
    assert_eq!(error.class(), DeliveryFailureClass::Permanent);
    for state in early_states.iter().chain(&late_states) {
        assert!(state.borrow().aborted);
        assert!(state.borrow().visible.is_none());
    }
}

#[test]
fn buffered_messages_know_their_headers() {
    let state = Rc::new(RefCell::new(SinkState::default()));
    let (head, pieces) = read_head(b"A: b\n\nbody", MessageLimits::default());
    let pending = PendingFanout::new(vec![TestSink::boxed(state.clone())]).unwrap();
    let (validated, message) = pending.buffer(head, &pieces).unwrap();
    assert_eq!(message.as_bytes(), b"A: b\n\nbody");
    assert_eq!(message.header_len(), 6);
    validated.commit().unwrap();
    assert_eq!(state.borrow().visible.as_deref(), Some(&b"A: b\n\nbody"[..]));
}

#[test]
fn commit_error_reports_partial_publication_and_aborts_rest() {
    let input = b"\nbody";
    let first = Rc::new(RefCell::new(SinkState::default()));
    let second = Rc::new(RefCell::new(SinkState::default()));
    let third = Rc::new(RefCell::new(SinkState::default()));
    let (head, pieces) = read_head(input, MessageLimits::default());
    let pending = PendingFanout::new(vec![
        TestSink::boxed(first.clone()),
        TestSink::failing_commit(second.clone()),
        TestSink::boxed(third.clone()),
    ])
    .unwrap();
    let (validated, _) = pending.stream(head, &pieces).unwrap();

    let error = validated.commit().unwrap_err();
    assert_eq!(error.committed(), 1);
    assert_eq!(first.borrow().visible.as_deref(), Some(input.as_slice()));
    assert!(second.borrow().visible.is_none());
    assert!(third.borrow().aborted);
    assert!(third.borrow().visible.is_none());
}

#[test]
fn durability_failure_after_publication_is_not_reported_as_success() {
    let input = b"\nbody";
    let state = Rc::new(RefCell::new(SinkState::default()));
    let (head, pieces) = read_head(input, MessageLimits::default());
    let pending = PendingFanout::new(vec![TestSink::failing_after_publish(state.clone())]).unwrap();
    let (validated, _) = pending.stream(head, &pieces).unwrap();

    let error = validated.commit().unwrap_err();
    assert_eq!(error.committed(), 1);
    assert_eq!(error.last_folder(), Some("test-folder"));
    assert_eq!(error.class(), DeliveryFailureClass::Retryable);
    assert_eq!(state.borrow().visible.as_deref(), Some(input.as_slice()));
}

#[test]
fn delivery_errors_preserve_retry_categories_through_fanout() {
    for (kind, expected) in [
        (IoErrorKind::StorageFull, DeliveryFailureClass::Retryable),
        (
            IoErrorKind::PermissionDenied,
            DeliveryFailureClass::Permanent,
        ),
        (IoErrorKind::Other, DeliveryFailureClass::Internal),
    ] {
        let error = SinkCommitError::before_publication(IoError::new(kind, "injected"));
        assert_eq!(error.class(), expected);
    }
    assert_eq!(
        DeliveryFailureClass::from_io_error(&IoError {
            kind: IoErrorKind::Other,
            code: Some(24),
            message: "too many open files".to_owned(),
        }),
        DeliveryFailureClass::Retryable
    );

    let input = b"\nbody";
    let first = Rc::new(RefCell::new(SinkState::default()));
    let second = Rc::new(RefCell::new(SinkState::default()));
    let (head, pieces) = read_head(input, MessageLimits::default());
    let pending = PendingFanout::new(vec![
        TestSink::boxed(first),
        TestSink::failing_commit(second),
    ])
    .unwrap();
    let (validated, _) = pending.stream(head, &pieces).unwrap();

    assert_eq!(
        validated.commit().unwrap_err().class(),
        DeliveryFailureClass::Internal
    );
}

#[test]
fn fanout_limit_accepts_boundary_and_rejects_one_more() {
    for count in [MAX_PENDING_SINKS - 1, MAX_PENDING_SINKS] {
        let sinks: Vec<TestSink> = (0..count)
            .map(|_| TestSink::boxed(Rc::new(RefCell::new(SinkState::default()))))
            .collect();
        let pending = PendingFanout::new(sinks).unwrap();
        assert_eq!(pending.len(), count);
    }

    let sinks: Vec<TestSink> = (0..MAX_PENDING_SINKS + 1)
        .map(|_| TestSink::boxed(Rc::new(RefCell::new(SinkState::default()))))
        .collect();
    let error = PendingFanout::new(sinks).err().unwrap();
    assert_eq!(error.count(), MAX_PENDING_SINKS + 1);
    assert_eq!(error.limit(), MAX_PENDING_SINKS);
}

struct FlushedSink {
    flushed: Rc<RefCell<Vec<usize>>>,
    number: usize,
    fails: bool,
}

impl ByteSink for FlushedSink {
    fn write(&mut self, bytes: &[u8]) -> Result<usize, IoError> {
        Ok(bytes.len())
    }

    fn flush(&mut self) -> Result<(), IoError> {
        self.flushed.borrow_mut().push(self.number);
        if self.fails {
            Err(IoError::other("injected flush failure"))
        } else {
            Ok(())
        }
    }
}

impl PendingSink for FlushedSink {
    fn commit(self) -> Result<PublishedDelivery, SinkCommitError> {
        Ok(PublishedDelivery::new("flushed".to_owned()))
    }

    fn abort(self) -> Result<(), IoError> {
        Ok(())
    }
}

#[test]
fn flushing_stops_at_the_first_sink_that_fails() {
    for (failing, expected) in [(None, vec![0, 1, 2]), (Some(1), vec![0, 1])] {
        let flushed = Rc::new(RefCell::new(Vec::new()));
        let sinks = (0..3)
            .map(|number| FlushedSink {
                flushed: Rc::clone(&flushed),
                number,
                fails: failing == Some(number),
            })
            .collect();
        let mut fanout = PendingFanout::new(sinks).unwrap();
        match fanout.flush() {
            Ok(()) => assert_eq!(failing, None),
            Err(error) => {
                assert_eq!(failing, Some(1));
                assert_eq!(error.message, "injected flush failure");
            }
        }
        assert_eq!(*flushed.borrow(), expected);
    }
}

struct OrderedSink {
    given_up: Rc<RefCell<Vec<usize>>>,
    number: usize,
}

impl ByteSink for OrderedSink {
    fn write(&mut self, bytes: &[u8]) -> Result<usize, IoError> {
        Ok(bytes.len())
    }

    fn flush(&mut self) -> Result<(), IoError> {
        Ok(())
    }
}

impl PendingSink for OrderedSink {
    fn commit(self) -> Result<PublishedDelivery, SinkCommitError> {
        Err(SinkCommitError::before_publication(IoError::other("injected commit failure")))
    }

    fn abort(self) -> Result<(), IoError> {
        self.given_up.borrow_mut().push(self.number);
        Ok(())
    }
}

#[test]
fn sinks_after_a_failed_commit_are_given_up_in_order() {
    let given_up = Rc::new(RefCell::new(Vec::new()));
    let sinks = (0..4)
        .map(|number| OrderedSink { given_up: Rc::clone(&given_up), number })
        .collect();
    let (head, pieces) = read_head(b"\nbody", MessageLimits::default());
    let (validated, _) = PendingFanout::new(sinks).unwrap().stream(head, &pieces).unwrap();
    assert!(validated.commit().is_err());
    assert_eq!(*given_up.borrow(), vec![1, 2, 3]);
}
