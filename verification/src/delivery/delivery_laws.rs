//! What failures mean for a delivery, what makes a file fit to be a lock or a
//! mailbox, and the names that messages get.

use vstd::prelude::*;

use crate::delivery::failure::{self, DeliveryFailureClass, IoErrorKind, IoFailure};
use crate::delivery::local_lock::{self, FileStatus, LockMethod, LockOutcome, LockVerdict};
use crate::delivery::maildir::{self, AttemptOutcome, AttemptVerdict, Durability};
use crate::delivery::mbox_append::{self, AppendStep};
use crate::delivery::mode;
use crate::delivery::staging;
use crate::text;

verus! {

/// A failure that the system reports may pass where it tells of a lack of room,
/// memory or descriptors, of a file that is in use or exists already, of a
/// reader that is gone, or of a call that was interrupted or took too long. It
/// stays where it tells that the destination is missing, forbidden, of another
/// kind or unfit. Every other one is a failure of the program.
pub proof fn system_failures_have_their_class(failed: IoFailure, code: i32)
    requires
        failure::reported_as(failed, code),
    ensures
        failure::class_of(failed) is Retryable <==> code == 4 || code == 11 || code == 12 || code
            == 16 || code == 17 || code == 24 || code == 28 || code == 32 || code == 110,
        failure::class_of(failed) is Permanent <==> code == 1 || code == 2 || code == 13 || code
            == 20 || code == 21 || code == 22 || code == 30 || code == 38 || code == 95,
{
}

/// The same, of failures that are told by their kind alone.
pub proof fn kinds_of_failures_have_their_class(failed: IoFailure)
    requires
        failed.code != Some(24i32),
    ensures
        match failed.kind {
            IoErrorKind::AlreadyExists
            | IoErrorKind::BrokenPipe
            | IoErrorKind::Interrupted
            | IoErrorKind::OutOfMemory
            | IoErrorKind::ResourceBusy
            | IoErrorKind::StorageFull
            | IoErrorKind::TimedOut
            | IoErrorKind::WouldBlock
            | IoErrorKind::WriteZero => failure::class_of(failed)
                == DeliveryFailureClass::Retryable,
            IoErrorKind::InvalidData
            | IoErrorKind::InvalidInput
            | IoErrorKind::IsADirectory
            | IoErrorKind::NotADirectory
            | IoErrorKind::NotFound
            | IoErrorKind::PermissionDenied
            | IoErrorKind::ReadOnlyFilesystem
            | IoErrorKind::Unsupported => failure::class_of(failed)
                == DeliveryFailureClass::Permanent,
            IoErrorKind::UnexpectedEof | IoErrorKind::Other => failure::class_of(failed)
                == DeliveryFailureClass::Internal,
        },
{
}

/// Of the permissions, the lowest six bits are those of the group and of
/// others, and of these the second and the fifth let them write.
pub proof fn permissions_have_their_bits(mode: u32)
    ensures
        mode::grants_others(mode) <==> mode % 64 != 0,
        mode::lets_others_write(mode) <==> (mode / 2) % 2 == 1 || (mode / 16) % 2 == 1,
{
    assert(mode & 0o077u32 == mode % 64) by (bit_vector);
    assert((mode & 0o022u32 != 0) == ((mode / 2) % 2 == 1 || (mode / 16) % 2 == 1))
        by (bit_vector);
}

/// A mask withholds each bit that it holds and no other: what is asked for
/// comes whole where the mask is empty, and nothing comes where it is full.
pub proof fn masks_withhold_their_bits(requested: u32, mask: u32)
    ensures
        mode::masked(requested, 0) == requested,
        mode::masked(requested, 0xffff_ffff) == 0,
        mode::masked(requested, mask) | (requested & mask) == requested,
        mode::masked(requested, mask) & mask == 0,
{
    assert(requested & !0u32 == requested) by (bit_vector);
    assert(requested & !0xffff_ffffu32 == 0) by (bit_vector);
    assert((requested & !mask) | (requested & mask) == requested) by (bit_vector);
    assert((requested & !mask) & mask == 0) by (bit_vector);
}

/// A lock is of the kernel or a file of its own, and each kind waits its time
/// between two tries: ten milliseconds or eight seconds.
pub proof fn lock_methods_have_their_names(value: Seq<char>)
    ensures
        local_lock::method_named(value) == Ok::<LockMethod, Seq<char>>(LockMethod::Flock) <==> value
            == "flock"@,
        local_lock::method_named(value) == Ok::<LockMethod, Seq<char>>(LockMethod::Dotlock)
            <==> value == "dotlock"@,
        local_lock::retry_of(LockMethod::Flock) == 10_000_000,
        local_lock::retry_of(LockMethod::Dotlock) == 8_000_000_000,
        local_lock::DEFAULT_LOCK_TIMEOUT == 1024,
        local_lock::LOCK_FILE_MODE == 0o600,
        local_lock::DOTLOCK_FILE_MODE == 0o444,
{
    reveal_strlit("flock");
    reveal_strlit("dotlock");
    assert("flock"@.len() == 5 && "dotlock"@.len() == 7);
}

/// Of several settings the last one counts; without one, locks are of the
/// kernel. A setting that is none is refused, wherever it stands.
pub proof fn the_last_lock_method_counts(values: Seq<(nat, Seq<char>)>)
    ensures
        values.len() == 0 ==> local_lock::method_after(values, 0) == Ok::<LockMethod, Seq<char>>(
            LockMethod::Flock,
        ),
        local_lock::method_after(values, values.len()) is Ok <==> forall|i: int|
            0 <= i < values.len() ==> (#[trigger] values[i]).1 == "flock"@ || values[i].1
                == "dotlock"@,
        values.len() > 0 && local_lock::method_after(values, values.len()) is Ok
            ==> local_lock::method_after(values, values.len())->Ok_0 == if values.last().1
            == "flock"@ {
            LockMethod::Flock
        } else {
            LockMethod::Dotlock
        },
{
    lemma_methods(values, values.len());
}

proof fn lemma_methods(values: Seq<(nat, Seq<char>)>, n: nat)
    requires
        n <= values.len(),
    ensures
        local_lock::method_after(values, n) is Ok <==> forall|i: int|
            0 <= i < n ==> (#[trigger] values[i]).1 == "flock"@ || values[i].1 == "dotlock"@,
    decreases n,
{
    if n > 0 {
        lemma_methods(values, (n - 1) as nat);
    }
}

/// Of several settings of the time to wait for a lock the last one counts; it
/// is a number of seconds from one to a day. Without one it is 1024 seconds.
pub proof fn the_last_lock_timeout_counts(values: Seq<(nat, Seq<char>)>, seconds: nat, line: nat)
    requires
        local_lock::timeout_after(values, values.len()) is Ok,
    ensures
        values.len() == 0 ==> local_lock::timeout_after(values, values.len()) == Ok::<
            nat,
            Seq<char>,
        >(1024),
        ({
            let more = values.push((line, text::decimal(seconds)));
            let result = local_lock::timeout_after(more, more.len());
            if 1 <= seconds <= 86400 {
                result == Ok::<nat, Seq<char>>(seconds)
            } else {
                result is Err
            }
        }),
{
    let more = values.push((line, text::decimal(seconds)));
    text::numbers_are_read_from_their_digits(seconds, u64::MAX as nat);
    lemma_timeouts(values, more, values.len());
    assert(more.last() == (line, text::decimal(seconds)));
}

proof fn lemma_timeouts(values: Seq<(nat, Seq<char>)>, more: Seq<(nat, Seq<char>)>, n: nat)
    requires
        n <= values.len() <= more.len(),
        forall|i: int| 0 <= i < values.len() ==> values[i] == more[i],
    ensures
        local_lock::timeout_after(values, n) == local_lock::timeout_after(more, n),
    decreases n,
{
    if n > 0 {
        lemma_timeouts(values, more, (n - 1) as nat);
    }
}

/// A lock file is a regular file of the owner expected, with one link, and
/// grants nothing to anybody else.
pub proof fn lock_files_are_private(status: FileStatus, owner: u32)
    ensures
        local_lock::lockfile_fault(status, owner) is None <==> status.is_regular && status.owner
            == owner && status.links == 1 && status.mode % 64 == 0,
{
    permissions_have_their_bits(status.mode);
}

/// A lock was left behind where it is no directory, holds at most 1024 bytes
/// and is older than the timeout, and where there is a timeout. One that was
/// written just now, or at a time to come, never is.
pub proof fn old_locks_are_left_behind(status: FileStatus, now: u64, timeout: u64)
    ensures
        local_lock::left_behind(status, now, timeout) ==> timeout > 0 && !status.is_directory && 0
            <= status.size <= 1024 && status.modified + timeout < now,
        timeout > 0 && !status.is_directory && 0 <= status.size <= 1024 && 0 <= status.modified
            && status.modified + timeout < now ==> local_lock::left_behind(status, now, timeout),
        timeout == 0 || status.is_directory || status.size > 1024 || status.modified >= now
            ==> !local_lock::left_behind(status, now, timeout),
{
}

/// What follows a try for a lock. One that is held is tried again after a
/// sleep, until the timeout has passed; the sleep ends with the timeout.
pub proof fn held_locks_are_tried_again(
    outcome: LockOutcome,
    elapsed: u64,
    timeout: u64,
    retry: u64,
    message: Seq<char>,
)
    ensures
        ({
            let verdict = local_lock::lock_verdict(outcome, elapsed, timeout, retry, message);
            &&& verdict is Done <==> outcome is Taken
            &&& verdict is TryAgain <==> outcome is Interrupted
            &&& verdict is RemoveAndTryAgain <==> outcome is HeldAndLeftBehind
            &&& verdict is Sleep <==> outcome is Held && elapsed < timeout
            &&& verdict matches LockVerdict::Sleep(time) ==> time <= retry && elapsed + time
                <= timeout && (time == retry || elapsed + time == timeout)
            &&& outcome is Held && elapsed >= timeout ==> verdict == LockVerdict::Fail(
                IoFailure { kind: IoErrorKind::TimedOut, code: None, message },
            )
            &&& outcome matches LockOutcome::Failed(error) ==> verdict == LockVerdict::Fail(error@)
        }),
{
}

/// How durable a delivery is has three names. Of several settings the last one
/// counts, and without one nothing is synced.
pub proof fn durabilities_have_their_names(
    value: Seq<char>,
    values: Seq<(nat, Seq<char>)>,
    line: nat,
)
    requires
        maildir::durability_after(values, values.len()) is Ok,
    ensures
        maildir::durability_named(value) == Some(Durability::Nothing) <==> value == "none"@,
        maildir::durability_named(value) == Some(Durability::File) <==> value == "file"@,
        maildir::durability_named(value) == Some(Durability::Full) <==> value == "full"@,
        values.len() == 0 ==> maildir::durability_after(values, values.len()) == Ok::<
            Durability,
            Seq<char>,
        >(Durability::Nothing),
        ({
            let more = values.push((line, value));
            let result = maildir::durability_after(more, more.len());
            match maildir::durability_named(value) {
                Some(named) => result == Ok::<Durability, Seq<char>>(named),
                None => result is Err,
            }
        }),
{
    reveal_strlit("none");
    reveal_strlit("file");
    reveal_strlit("full");
    assert("none"@[0] == 'n' && "file"@[0] == 'f' && "full"@[0] == 'f');
    assert("file"@[1] == 'i' && "full"@[1] == 'u');
    let more = values.push((line, value));
    lemma_durabilities(values, more, values.len());
    assert(more.last() == (line, value));
}

proof fn lemma_durabilities(values: Seq<(nat, Seq<char>)>, more: Seq<(nat, Seq<char>)>, n: nat)
    requires
        n <= values.len() <= more.len(),
        forall|i: int| 0 <= i < values.len() ==> values[i] == more[i],
    ensures
        maildir::durability_after(values, n) == maildir::durability_after(more, n),
    decreases n,
{
    if n > 0 {
        lemma_durabilities(values, more, (n - 1) as nat);
    }
}

/// The name of a message is `procmail-rs.` and two digits for each byte, the
/// upper half of the byte first.
pub proof fn message_names_spell_their_bytes(bytes: Seq<u8>, i: int)
    requires
        0 <= i < bytes.len(),
    ensures
        maildir::name_of(bytes).len() == 12 + 2 * bytes.len(),
        text::begins(maildir::name_of(bytes), "procmail-rs."@),
        maildir::name_of(bytes)[12 + 2 * i] == "0123456789abcdef"@[bytes[i] as int / 16],
        maildir::name_of(bytes)[13 + 2 * i] == "0123456789abcdef"@[bytes[i] as int % 16],
        maildir::MAILDIR_RANDOM_BYTES == 16,
{
    reveal_strlit("procmail-rs.");
    assert("procmail-rs."@.len() == 12);
    let name = maildir::name_of(bytes);
    lemma_hex(bytes, bytes.len(), i);
    assert(name.subrange(0, 12) =~= "procmail-rs."@);
    assert(name[12 + 2 * i] == maildir::hex_text(bytes, bytes.len())[2 * i]);
    assert(name[13 + 2 * i] == maildir::hex_text(bytes, bytes.len())[2 * i + 1]);
}

proof fn lemma_hex(bytes: Seq<u8>, n: nat, i: int)
    requires
        n <= bytes.len(),
    ensures
        maildir::hex_text(bytes, n).len() == 2 * n,
        0 <= i < n ==> maildir::hex_text(bytes, n)[2 * i] == "0123456789abcdef"@[bytes[i] as int / 16],
        0 <= i < n ==> maildir::hex_text(bytes, n)[2 * i + 1] == "0123456789abcdef"@[bytes[i] as int % 16],
    decreases n,
{
    if n > 0 {
        lemma_hex(bytes, (n - 1) as nat, i);
        lemma_hex_digit((bytes[n - 1] / 16) as nat);
        lemma_hex_digit((bytes[n - 1] % 16) as nat);
    }
}

proof fn lemma_hex_digit(n: nat)
    requires
        n < 16,
    ensures
        maildir::hex_digit(n) == "0123456789abcdef"@[n as int],
{
    reveal_strlit("0123456789abcdef");
    let digits = "0123456789abcdef"@;
    assert(digits[0] == '0' && digits[1] == '1' && digits[2] == '2' && digits[3] == '3'
        && digits[4] == '4' && digits[5] == '5' && digits[6] == '6' && digits[7] == '7'
        && digits[8] == '8' && digits[9] == '9' && digits[10] == 'a' && digits[11] == 'b'
        && digits[12] == 'c' && digits[13] == 'd' && digits[14] == 'e' && digits[15] == 'f');
}

/// A name that is taken is replaced by another one, 128 times at most.
pub proof fn taken_names_are_replaced(attempt: u64, outcome: AttemptOutcome, what: Seq<char>)
    ensures
        ({
            let verdict = maildir::attempt_verdict(attempt, outcome, what);
            &&& verdict is Done <==> outcome is Taken
            &&& verdict is Retry <==> outcome is Collision && attempt < 127
            &&& outcome is Collision && attempt >= 127 ==> (verdict matches AttemptVerdict::Fail(
                failed,
            ) && failed.kind is AlreadyExists)
            &&& outcome matches AttemptOutcome::Failed(error) ==> verdict == AttemptVerdict::Fail(
                error@,
            )
        }),
{
}

/// A message is published in the directory `new` of its mail directory.
pub proof fn messages_are_published_in_new(directory: Seq<char>, name: Seq<char>)
    ensures
        maildir::published_path(directory, name) == if directory.len() > 0 && directory.last()
            == '/' {
            directory + "new/"@ + name
        } else {
            directory + "/new/"@ + name
        },
{
    reveal_strlit("new");
    reveal_strlit("new/");
    reveal_strlit("/new/");
    reveal_strlit("/");
    let published = maildir::published_path(directory, name);
    let closed = directory.len() > 0 && directory.last() == '/';
    let inner = if closed {
        directory + "new"@
    } else {
        directory + "/"@ + "new"@
    };
    assert(inner.last() == 'w');
    if closed {
        assert(published =~= directory + "new/"@ + name);
    } else {
        assert(published =~= directory + "/new/"@ + name);
    }
}

/// A mail directory is a directory of the user's own that nobody else writes.
pub proof fn mail_directories_are_the_users_own(status: FileStatus, user: u32, name: Seq<char>)
    ensures
        maildir::maildir_fault(status, user, name) is None <==> status.is_directory && status.owner
            == user && (status.mode / 2) % 2 == 0 && (status.mode / 16) % 2 == 0,
{
    permissions_have_their_bits(status.mode);
}

/// A directory for messages on their way grants nothing to anybody else.
pub proof fn staging_directories_are_private(mode: u32)
    ensures
        staging::directory_fault(mode) is None <==> mode % 64 == 0,
{
    permissions_have_their_bits(mode);
}

/// A mailbox is a regular file with one link.
pub proof fn mailboxes_are_regular_files(is_regular: bool, links: u64)
    ensures
        mbox_append::mailbox_fault(is_regular, links) is None <==> is_regular && links == 1,
{
}

/// An append that meets no failure writes, syncs the file unless nothing is to
/// be durable, syncs the directory where all is to be, and unlocks the mailbox.
pub proof fn an_append_syncs_what_is_to_be_durable(durability: Durability, length: u64)
    ensures
        ({
            let start = mbox_append::new_append(durability, length);
            let second = start.after(None);
            let third = second.after(None);
            let fourth = third.after(None);
            &&& start.next_step() == AppendStep::Write
            &&& match durability {
                Durability::Nothing => second.next_step() == AppendStep::Unlock
                    && third.next_step() == AppendStep::Finish && third.published,
                Durability::File => second.next_step() == AppendStep::SyncFile && third.next_step()
                    == AppendStep::Unlock && fourth.next_step() == AppendStep::Finish
                    && fourth.published,
                Durability::Full => second.next_step() == AppendStep::SyncFile && third.next_step()
                    == AppendStep::SyncParent && fourth.next_step() == AppendStep::Unlock
                    && fourth.after(None).next_step() == AppendStep::Finish && fourth.after(
                    None,
                ).published,
            }
        }),
{
}

/// An append that fails cuts the mailbox back to its length before, goes to its
/// end, syncs it unless nothing is to be durable, and unlocks it.
pub proof fn a_failed_append_cuts_the_mailbox_back(
    durability: Durability,
    length: u64,
    failed: IoFailure,
)
    ensures
        ({
            let first = mbox_append::new_append(durability, length).after(Some(failed));
            let second = first.after(None);
            let third = second.after(None);
            let fourth = third.after(None);
            &&& first.next_step() == AppendStep::Truncate { length }
            &&& second.next_step() == AppendStep::SeekEnd
            &&& durability is Nothing ==> third.next_step() == AppendStep::Unlock
                && fourth.next_step() == AppendStep::Finish && !fourth.published && fourth.source
                == Some(failed) && fourth.rollback is None
            &&& !(durability is Nothing) ==> third.next_step() == AppendStep::SyncFile
                && fourth.next_step() == AppendStep::Unlock && fourth.after(None).next_step()
                == AppendStep::Finish && !fourth.after(None).published && fourth.after(
                None,
            ).source == Some(failed) && fourth.after(None).rollback is None
        }),
{
}

} // verus!
