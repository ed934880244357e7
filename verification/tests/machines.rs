use procmail::config::OutputEnding;
use procmail::delivery::calendar::civil_from_days;
use procmail::delivery::failure::{DeliveryFailureClass, IoError, IoErrorKind};
use procmail::delivery::local_lock::{
    after_lock_attempt, check_lockfile, is_stale_dotlock, wait_for_retry, FileStatus, LockDecision,
    LockMethod, LockOutcome,
};
use procmail::delivery::maildir::{
    after_attempt, fill_random, maildir_name, take_random, unique_name, validate_directory,
    validate_maildir_path, verify_named_file, AttemptDecision, AttemptOutcome, CommitEvent,
    CommitPhase, Durability, FileIdentity, MaildirCommit, MAILDIR_NAME_LEN, MAX_NAME_ATTEMPTS,
};
use procmail::delivery::mbox::{write_record_with_ending, Postmark};
use procmail::delivery::mbox_append::{check_mailbox_file, AppendStep, MboxAppend};
use procmail::delivery::mode::{creation_mode, is_open_to_others, is_writable_by_others};
use procmail::delivery::sink::{after_write, append_bytes, write_all, ByteSink, WriteDecision};
use procmail::delivery::staging::{check_directory, check_staged_length, StagedMessage};

fn failure(message: &str) -> IoError {
    IoError::new(IoErrorKind::StorageFull, message)
}

fn steps(durability: Durability, failing: Option<AppendStep>) -> (Vec<AppendStep>, MboxAppend) {
    let mut append = MboxAppend::new(durability, 42);
    let mut seen = Vec::new();
    while append.step() != AppendStep::Finish {
        let step = append.step();
        seen.push(step);
        append = if failing == Some(step) {
            append.advance(Err(failure("full")))
        } else {
            append.advance(Ok(()))
        };
    }
    (seen, append)
}

#[test]
fn an_append_syncs_as_much_as_was_asked_for() {
    let (seen, append) = steps(Durability::Nothing, None);
    assert_eq!(seen, vec![AppendStep::Write, AppendStep::Unlock]);
    assert_eq!(append.finish("/mail/box".to_owned()).unwrap().last_folder(), "/mail/box");
    let (seen, _) = steps(Durability::File, None);
    assert_eq!(seen, vec![AppendStep::Write, AppendStep::SyncFile, AppendStep::Unlock]);
    let (seen, _) = steps(Durability::Full, None);
    assert_eq!(
        seen,
        vec![AppendStep::Write, AppendStep::SyncFile, AppendStep::SyncParent, AppendStep::Unlock]
    );
}

#[test]
fn a_failed_append_is_taken_back() {
    let (seen, append) = steps(Durability::Full, Some(AppendStep::SyncParent));
    assert_eq!(
        &seen[..4],
        &[
            AppendStep::Write,
            AppendStep::SyncFile,
            AppendStep::SyncParent,
            AppendStep::Truncate { length: 42 }
        ]
    );
    let error = append.finish("/mail/box".to_owned()).unwrap_err();
    assert!(!error.published());
    assert!(!error.rollback_failed());
    assert_eq!(error.class(), DeliveryFailureClass::Retryable);
    assert_eq!(error.to_text(), "cannot append mbox record: full");
}

#[test]
fn a_rollback_that_fails_is_an_internal_failure() {
    let append = MboxAppend::new(Durability::Nothing, 42);
    let append = append.advance(Err(failure("full")));
    assert_eq!(append.step(), AppendStep::Truncate { length: 42 });
    let mut append = append.advance(Err(failure("stuck")));
    while append.step() != AppendStep::Finish {
        append = append.advance(Ok(()));
    }
    let error = append.finish("/mail/box".to_owned()).unwrap_err();
    assert!(error.rollback_failed());
    assert_eq!(error.class(), DeliveryFailureClass::Internal);
    assert_eq!(
        error.to_text(),
        "cannot append mbox record: full; cannot complete mailbox rollback: stuck"
    );
}

#[test]
fn a_record_stays_published_when_only_unlocking_fails() {
    let (_, append) = steps(Durability::File, Some(AppendStep::Unlock));
    let error = append.finish("/mail/box".to_owned()).unwrap_err();
    assert!(error.published());
}

#[test]
fn mailboxes_are_regular_files_with_one_name() {
    assert!(check_mailbox_file(true, 1).is_ok());
    assert_eq!(check_mailbox_file(false, 1).unwrap_err().kind, IoErrorKind::InvalidInput);
    assert_eq!(check_mailbox_file(true, 2).unwrap_err().kind, IoErrorKind::InvalidInput);
}

#[test]
fn a_maildir_message_is_synced_before_it_is_published() {
    let commit = MaildirCommit::new(Durability::Full);
    assert_eq!(commit.phase(), CommitPhase::SyncingFile);
    let commit = commit.advance(CommitEvent::Done);
    assert_eq!(commit.phase(), CommitPhase::Publishing);
    let commit = commit.advance(CommitEvent::Published("name".to_owned()));
    assert_eq!(commit.phase(), CommitPhase::SyncingTmp);
    let commit = commit.advance(CommitEvent::Done);
    assert_eq!(commit.phase(), CommitPhase::SyncingNew);
    let commit = commit.advance(CommitEvent::Done);
    assert_eq!(commit.phase(), CommitPhase::Ended);
    assert_eq!(commit.finish("/mail/in").unwrap().last_folder(), "/mail/in/new/name");

    let commit = MaildirCommit::new(Durability::Nothing);
    let commit = commit.advance(CommitEvent::Published("name".to_owned()));
    assert_eq!(commit.phase(), CommitPhase::Ended);
}

#[test]
fn a_failure_after_publication_keeps_the_name() {
    let commit = MaildirCommit::new(Durability::Full)
        .advance(CommitEvent::Done)
        .advance(CommitEvent::Published("name".to_owned()))
        .advance(CommitEvent::Failed(failure("no sync")));
    let error = commit.finish("/mail/in").unwrap_err();
    assert_eq!(error.published().unwrap().last_folder(), "/mail/in/new/name");
    assert_eq!(error.to_text(), "no sync");

    let commit = MaildirCommit::new(Durability::File).advance(CommitEvent::Failed(failure("no")));
    assert!(commit.finish("/mail/in").unwrap_err().published().is_none());

    let commit = MaildirCommit::new(Durability::Nothing)
        .advance(CommitEvent::FailedPublished(failure("left"), "name".to_owned()));
    assert!(commit.finish("/mail/in").unwrap_err().published().is_some());
}

#[test]
fn names_are_tried_a_limited_number_of_times() {
    assert!(matches!(after_attempt(0, AttemptOutcome::Taken, "Maildir"), AttemptDecision::Done));
    assert!(matches!(
        after_attempt(MAX_NAME_ATTEMPTS - 2, AttemptOutcome::Collision, "Maildir"),
        AttemptDecision::Retry
    ));
    match after_attempt(MAX_NAME_ATTEMPTS - 1, AttemptOutcome::Collision, "Maildir") {
        AttemptDecision::Fail(error) => assert_eq!(error.kind, IoErrorKind::AlreadyExists),
        _ => panic!("a name is tried for ever"),
    }
    match after_attempt(0, AttemptOutcome::Failed(failure("full")), "Maildir") {
        AttemptDecision::Fail(error) => assert_eq!(error.message, "full"),
        _ => panic!("a failure is passed over"),
    }
}

#[test]
fn message_names_spell_their_bytes() {
    assert_eq!(
        maildir_name(&[0, 1, 15, 16, 255, 171]),
        "procmail-rs.00010f10ffab"
    );
    let name = unique_name().unwrap();
    assert_eq!(name.len(), MAILDIR_NAME_LEN);
    assert_ne!(name, unique_name().unwrap());
    let bytes = fill_random(300).unwrap();
    assert_eq!(bytes.len(), 300);
    assert!(bytes.iter().any(|byte| *byte != bytes[0]));
    assert!(fill_random(0).unwrap().is_empty());
}

#[test]
fn random_bytes_are_collected_piece_by_piece() {
    let mut bytes = vec![1];
    assert!(take_random(&mut bytes, Ok(vec![2, 3])).is_ok());
    assert_eq!(bytes, vec![1, 2, 3]);
    let error = take_random(&mut bytes, Ok(Vec::new())).unwrap_err();
    assert_eq!(error.kind, IoErrorKind::UnexpectedEof);
    assert_eq!(error.message, "Linux random source returned no data");
    let error = take_random(&mut bytes, Err(4)).unwrap_err();
    assert_eq!(error.kind, IoErrorKind::Interrupted);
    assert_eq!(error.code, Some(4));
    assert_eq!(error.message, std::io::Error::from_raw_os_error(4).to_string());
    for (code, class) in [
        (12, DeliveryFailureClass::Retryable),
        (13, DeliveryFailureClass::Permanent),
        (14, DeliveryFailureClass::Internal),
        (24, DeliveryFailureClass::Retryable),
        (38, DeliveryFailureClass::Permanent),
    ] {
        let error = take_random(&mut bytes, Err(code)).unwrap_err();
        assert_eq!(DeliveryFailureClass::from_io_error(&error), class);
    }
    assert_eq!(bytes, vec![1, 2, 3]);
}

#[test]
fn maildir_paths_lead_only_downwards() {
    assert!(validate_maildir_path("/mail/in").is_ok());
    assert!(validate_maildir_path("/mail/..in").is_ok());
    assert_eq!(validate_maildir_path("").unwrap_err(), "path is empty");
    assert_eq!(
        validate_maildir_path("/mail/../in").unwrap_err(),
        "path must not contain '..'"
    );
}

fn lockfile() -> FileStatus {
    FileStatus {
        is_regular: true,
        is_directory: false,
        owner: 1000,
        links: 1,
        mode: 0o600,
        size: 0,
        modified: 1_000,
    }
}

#[test]
fn lockfiles_are_private_files_of_the_user() {
    assert!(check_lockfile(lockfile(), 1000).is_ok());
    for status in [
        FileStatus { is_regular: false, ..lockfile() },
        FileStatus { owner: 1, ..lockfile() },
        FileStatus { links: 2, ..lockfile() },
        FileStatus { mode: 0o640, ..lockfile() },
        FileStatus { mode: 0o604, ..lockfile() },
    ] {
        assert!(check_lockfile(status, 1000).is_err());
    }
}

#[test]
fn dotlocks_become_stale() {
    assert!(!is_stale_dotlock(lockfile(), 1_010, 20));
    assert!(is_stale_dotlock(lockfile(), 5_000, 20));
    assert!(!is_stale_dotlock(FileStatus { is_directory: true, ..lockfile() }, 5_000, 20));
    assert!(!is_stale_dotlock(FileStatus { size: 1_000_000, ..lockfile() }, 5_000, 20));
}

#[test]
fn waiting_for_a_lock_ends_with_its_timeout() {
    assert_eq!(wait_for_retry(0, 100, 10, "late").unwrap(), 10);
    assert_eq!(wait_for_retry(95, 100, 10, "late").unwrap(), 5);
    let error = wait_for_retry(100, 100, 10, "late").unwrap_err();
    assert_eq!(error.kind, IoErrorKind::TimedOut);
    assert_eq!(error.message, "late");
    assert_eq!(LockMethod::Flock.retry_interval(), 10_000_000);

    let decide = |outcome| after_lock_attempt(outcome, 99, 100, 10, "late");
    assert!(matches!(decide(LockOutcome::Taken), LockDecision::Done));
    assert!(matches!(decide(LockOutcome::Interrupted), LockDecision::TryAgain));
    assert!(matches!(decide(LockOutcome::Held), LockDecision::Sleep(1)));
    assert!(matches!(
        decide(LockOutcome::HeldAndLeftBehind),
        LockDecision::RemoveAndTryAgain
    ));
    assert!(matches!(decide(LockOutcome::Failed(failure("x"))), LockDecision::Fail(_)));
    assert!(matches!(
        after_lock_attempt(LockOutcome::Held, 100, 100, 10, "late"),
        LockDecision::Fail(_)
    ));
}

#[test]
fn masks_only_remove_permissions() {
    assert_eq!(creation_mode(0o600, 0o077), 0o600);
    assert_eq!(creation_mode(0o600, 0o200), 0o400);
    assert_eq!(creation_mode(0o600, 0o777), 0);
    assert!(is_open_to_others(0o610));
    assert!(!is_open_to_others(0o700));
    assert!(is_writable_by_others(0o720));
    assert!(!is_writable_by_others(0o755));
}

#[test]
fn staging_is_private() {
    assert!(check_directory(0o700).is_ok());
    assert_eq!(
        check_directory(0o750).unwrap_err().message,
        ".procmail-rs-staging must not grant access to group or other users"
    );
    assert!(check_staged_length(3, 3).is_ok());
    assert_eq!(check_staged_length(4, 3).unwrap_err().kind, IoErrorKind::InvalidData);
    let staged = StagedMessage::new(b"abc".to_vec(), 2).unwrap();
    assert_eq!(staged.header_len(), 2);
    assert_eq!(staged.as_bytes(), b"abc");
    assert!(StagedMessage::new(b"abc".to_vec(), 4).is_err());
    assert_eq!(procmail::delivery::staging::unique_name(7, 8, 9, 0), "message.7.8.9.0");
}

#[test]
fn days_become_dates() {
    for (days, year, month, day) in [
        (0, 1970, 1, 1),
        (31, 1970, 2, 1),
        (365, 1971, 1, 1),
        (789, 1972, 2, 29),
        (11_016, 2000, 2, 29),
        (11_017, 2000, 3, 1),
        (47_540, 2100, 2, 28),
        (47_541, 2100, 3, 1),
    ] {
        let date = civil_from_days(days);
        assert_eq!((date.year, date.month, date.day), (year, month, day));
    }
}

#[test]
fn generated_postmarks_show_the_time() {
    assert_eq!(
        Postmark::generated(0).unwrap().as_bytes(),
        b"From MAILER-DAEMON Thu Jan  1 00:00:00 1970\n"
    );
    assert_eq!(
        Postmark::generated(951_827_696).unwrap().as_bytes(),
        b"From MAILER-DAEMON Tue Feb 29 12:34:56 2000\n"
    );
    assert!(Postmark::generated(-1).is_err());
}

#[test]
fn quoted_records_can_be_read_back() {
    let message = b"From a\n>From b\n>>From c\nx From d\n";
    let postmark = Postmark::generated(0).unwrap();
    let mut record: Vec<u8> = Vec::new();
    write_record_with_ending(&mut record, &postmark, message, OutputEnding::Preserve).unwrap();
    let body = &record[postmark.as_bytes().len()..];
    let mut read = Vec::new();
    for line in body.split_inclusive(|byte| *byte == b'\n') {
        let quoted = line.iter().take_while(|byte| **byte == b'>').count();
        if quoted > 0 && line[quoted..].starts_with(b"From ") {
            read.extend_from_slice(&line[1..]);
        } else {
            assert!(!line.starts_with(b"From "));
            read.extend_from_slice(line);
        }
    }
    assert!(read.starts_with(message));
}

struct Slow {
    taken: Vec<u8>,
    room: usize,
}

impl ByteSink for Slow {
    fn write(&mut self, bytes: &[u8]) -> Result<usize, IoError> {
        if self.taken.len() >= self.room {
            return Ok(0);
        }
        self.taken.push(bytes[0]);
        Ok(1)
    }

    fn flush(&mut self) -> Result<(), IoError> {
        Ok(())
    }
}

#[test]
fn everything_is_written_or_a_failure_told() {
    let mut slow = Slow { taken: Vec::new(), room: 5 };
    assert!(write_all(&mut slow, b"abc").is_ok());
    assert_eq!(slow.taken, b"abc");
    let error = write_all(&mut slow, b"defg").unwrap_err();
    assert_eq!(error.kind, IoErrorKind::WriteZero);
    assert_eq!(slow.taken, b"abcde");
    let mut bytes = b"a".to_vec();
    append_bytes(&mut bytes, b"bc");
    assert_eq!(bytes, b"abc");
}

#[test]
fn each_offer_decides_what_follows() {
    assert!(matches!(after_write(2, 5, Ok(3)), WriteDecision::Done));
    assert!(matches!(after_write(2, 5, Ok(1)), WriteDecision::Continue { offset: 3 }));
    match after_write(2, 5, Ok(0)) {
        WriteDecision::Fail(error) => {
            assert_eq!(error.kind, IoErrorKind::WriteZero);
            assert_eq!(error.message, "failed to write whole buffer");
        }
        other => panic!("unexpected decision: {other:?}"),
    }
    let interrupted = IoError::new(IoErrorKind::Interrupted, "signal");
    assert!(matches!(after_write(2, 5, Err(interrupted)), WriteDecision::Retry(_)));
    match after_write(2, 5, Err(failure("full"))) {
        WriteDecision::Fail(error) => assert_eq!(error, failure("full")),
        other => panic!("unexpected decision: {other:?}"),
    }
}

struct Answering {
    answers: Vec<Result<usize, IoError>>,
    taken: Vec<u8>,
}

impl ByteSink for Answering {
    fn write(&mut self, bytes: &[u8]) -> Result<usize, IoError> {
        let answer = self.answers.remove(0);
        if let Ok(count) = &answer {
            self.taken.extend_from_slice(&bytes[..*count]);
        }
        answer
    }

    fn flush(&mut self) -> Result<(), IoError> {
        Ok(())
    }
}

#[test]
fn interrupted_writes_go_on_and_the_first_failure_is_returned() {
    let interrupted = || Err(IoError::new(IoErrorKind::Interrupted, "signal"));
    let mut sink = Answering {
        answers: vec![interrupted(), Ok(2), interrupted(), interrupted(), Ok(1)],
        taken: Vec::new(),
    };
    assert!(write_all(&mut sink, b"abc").is_ok());
    assert_eq!(sink.taken, b"abc");

    let mut sink = Answering {
        answers: vec![Ok(1), Err(failure("full")), Ok(2)],
        taken: Vec::new(),
    };
    assert_eq!(write_all(&mut sink, b"abc").unwrap_err(), failure("full"));
    assert_eq!(sink.taken, b"a");
    assert_eq!(sink.answers.len(), 1);

    let postmark = Postmark::generated(0).unwrap();
    let length = postmark.as_bytes().len();
    let mut sink = Answering {
        answers: vec![Ok(length), Ok(1), Err(failure("full"))],
        taken: Vec::new(),
    };
    let error =
        write_record_with_ending(&mut sink, &postmark, b"From x", OutputEnding::Preserve)
            .unwrap_err();
    assert_eq!(error, failure("full"));
    assert_eq!(&sink.taken[length..], b">");
}

#[test]
fn failures_are_classed_by_what_may_pass() {
    for (kind, class) in [
        (IoErrorKind::StorageFull, DeliveryFailureClass::Retryable),
        (IoErrorKind::TimedOut, DeliveryFailureClass::Retryable),
        (IoErrorKind::PermissionDenied, DeliveryFailureClass::Permanent),
        (IoErrorKind::NotFound, DeliveryFailureClass::Permanent),
    ] {
        assert_eq!(DeliveryFailureClass::from_io_kind(kind), class);
        assert_eq!(DeliveryFailureClass::from_io_error(&IoError::new(kind, "x")), class);
    }
}

#[test]
fn maildirs_belong_to_the_user() {
    let directory =
        FileStatus { is_regular: false, is_directory: true, mode: 0o755, ..lockfile() };
    assert!(validate_directory(directory, 1000, "Maildir/tmp").is_ok());
    assert_eq!(
        validate_directory(lockfile(), 1000, "Maildir/tmp").unwrap_err().message,
        "Maildir/tmp is not a directory"
    );
    for status in [
        FileStatus { owner: 0, ..directory },
        FileStatus { mode: 0o775, ..directory },
        FileStatus { mode: 0o757, ..directory },
    ] {
        assert_eq!(
            validate_directory(status, 1000, "Maildir").unwrap_err().message,
            "Maildir must be owned by the current uid and not writable by other users"
        );
    }
}

#[test]
fn replaced_files_are_noticed() {
    let opened = FileIdentity { is_regular: true, device: 1, inode: 2 };
    assert!(verify_named_file(opened, opened).is_ok());
    for named in [
        FileIdentity { is_regular: false, ..opened },
        FileIdentity { device: 2, ..opened },
        FileIdentity { inode: 3, ..opened },
    ] {
        assert_eq!(
            verify_named_file(opened, named).unwrap_err().message,
            "Maildir temporary file was replaced concurrently"
        );
    }
}

#[test]
fn system_errors_have_the_kind_that_std_gives_them() {
    for code in -2..300 {
        let system = std::io::Error::from_raw_os_error(code);
        let kind = match system.kind() {
            std::io::ErrorKind::AlreadyExists => IoErrorKind::AlreadyExists,
            std::io::ErrorKind::BrokenPipe => IoErrorKind::BrokenPipe,
            std::io::ErrorKind::Interrupted => IoErrorKind::Interrupted,
            std::io::ErrorKind::InvalidData => IoErrorKind::InvalidData,
            std::io::ErrorKind::InvalidInput => IoErrorKind::InvalidInput,
            std::io::ErrorKind::IsADirectory => IoErrorKind::IsADirectory,
            std::io::ErrorKind::NotADirectory => IoErrorKind::NotADirectory,
            std::io::ErrorKind::NotFound => IoErrorKind::NotFound,
            std::io::ErrorKind::OutOfMemory => IoErrorKind::OutOfMemory,
            std::io::ErrorKind::PermissionDenied => IoErrorKind::PermissionDenied,
            std::io::ErrorKind::ReadOnlyFilesystem => IoErrorKind::ReadOnlyFilesystem,
            std::io::ErrorKind::ResourceBusy => IoErrorKind::ResourceBusy,
            std::io::ErrorKind::StorageFull => IoErrorKind::StorageFull,
            std::io::ErrorKind::TimedOut => IoErrorKind::TimedOut,
            std::io::ErrorKind::UnexpectedEof => IoErrorKind::UnexpectedEof,
            std::io::ErrorKind::Unsupported => IoErrorKind::Unsupported,
            std::io::ErrorKind::WouldBlock => IoErrorKind::WouldBlock,
            std::io::ErrorKind::WriteZero => IoErrorKind::WriteZero,
            _ => IoErrorKind::Other,
        };
        let error = IoError::from_system(code);
        assert_eq!(error.kind, kind, "{code}");
        assert_eq!(error.code, Some(code));
        assert_eq!(error.message, system.to_string());
    }
}
