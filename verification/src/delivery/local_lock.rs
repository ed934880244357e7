//! Lockfiles: which kind is used, how long it is waited for, and what may be
//! taken for one.

use vstd::prelude::*;
use vstd::string::*;

use crate::config::recipe::Config;
use crate::config::settings::{self, line_message, settings_of};
use crate::config::variables::{
    self, parse_lock_timeout_seconds, validate_lock_method, AssignmentTarget,
    MAX_LOCK_TIMEOUT_SECONDS,
};
use crate::delivery::failure::{self, IoError, IoErrorKind, IoFailure};
use crate::delivery::mode::{self, is_open_to_others};
use crate::text::same_text;

verus! {

/// How long a lock is waited for where nothing is set, in seconds.
pub const DEFAULT_LOCK_TIMEOUT: u64 = 1024;

/// How long it takes until a kernel lock is tried again, in nanoseconds.
pub const FLOCK_RETRY: u64 = 10_000_000;

/// How long it takes until a dotlock is tried again, in nanoseconds.
pub const DOTLOCK_RETRY: u64 = 8_000_000_000;

/// The permissions that a new file for a kernel lock asks for.
pub const LOCK_FILE_MODE: u32 = 0o600;

/// The permissions that a new dotlock asks for.
pub const DOTLOCK_FILE_MODE: u32 = 0o444;

/// A larger file is never taken for a dotlock that was left behind.
pub const MAX_STALE_DOTLOCK_SIZE: u64 = 1024;

/// The kind of lock.
#[derive(Debug, Clone, Copy, PartialEq, Eq, Structural)]
pub enum LockMethod {
    Flock,
    Dotlock,
}

impl Default for LockMethod {
    fn default() -> (r: Self)
        ensures
            r is Flock,
    {
        LockMethod::Flock
    }
}

/// The kind of lock that a value names.
pub open spec fn method_named(value: Seq<char>) -> Result<LockMethod, Seq<char>> {
    if value == "flock"@ {
        Ok(LockMethod::Flock)
    } else if value == "dotlock"@ {
        Ok(LockMethod::Dotlock)
    } else {
        Err("LOCKMETHOD must be 'flock' or 'dotlock'"@)
    }
}

/// The kind of lock that the first `n` values leave.
pub open spec fn method_after(values: Seq<(nat, Seq<char>)>, n: nat) -> Result<
    LockMethod,
    Seq<char>,
>
    decreases n,
{
    if n == 0 || n > values.len() {
        Ok(LockMethod::Flock)
    } else {
        match method_after(values, (n - 1) as nat) {
            Err(message) => Err(message),
            Ok(_) => match method_named(values[n - 1].1) {
                Ok(method) => Ok(method),
                Err(message) => Err(settings::on_line(values[n - 1].0, message)),
            },
        }
    }
}

proof fn lemma_first_method_fault(values: Seq<(nat, Seq<char>)>, n: nat, m: nat)
    requires
        n <= m <= values.len(),
        method_after(values, n) is Err,
    ensures
        method_after(values, m) == method_after(values, n),
    decreases m,
{
    if n < m {
        lemma_first_method_fault(values, n, (m - 1) as nat);
    }
}

/// How long it takes until a lock is tried again, in nanoseconds.
pub open spec fn retry_of(method: LockMethod) -> u64 {
    match method {
        LockMethod::Flock => FLOCK_RETRY,
        LockMethod::Dotlock => DOTLOCK_RETRY,
    }
}

impl LockMethod {
    /// The kind of lock that a value names.
    pub fn parse(value: &str) -> (r: Result<Self, String>)
        ensures
            match method_named(value@) {
                Ok(method) => r == Ok::<Self, String>(method),
                Err(message) => r matches Err(found) && found@ == message,
            },
    {
        match validate_lock_method(value) {
            Ok(()) => {},
            Err(message) => {
                return Err(message);
            },
        }
        if same_text(value, "flock") {
            Ok(LockMethod::Flock)
        } else {
            Ok(LockMethod::Dotlock)
        }
    }

    /// The kind of lock that a configuration sets.
    pub fn from_config(config: &Config) -> (r: Result<Self, String>)
        ensures
            ({
                let values = settings::assigned_values(
                    config@.statements,
                    config@.statements.len(),
                    AssignmentTarget::LockMethod,
                );
                match method_after(values, values.len()) {
                    Ok(method) => r == Ok::<Self, String>(method),
                    Err(message) => r matches Err(found) && found@ == message,
                }
            }),
    {
        let values = settings_of(config, AssignmentTarget::LockMethod);
        let ghost models = settings::value_models(values@);
        let mut method = LockMethod::Flock;
        let mut i: usize = 0;
        while i < values.len()
            invariant
                i <= values@.len(),
                models == settings::value_models(values@),
                models == settings::assigned_values(
                    config@.statements,
                    config@.statements.len(),
                    AssignmentTarget::LockMethod,
                ),
                method_after(models, i as nat) == Ok::<LockMethod, Seq<char>>(method),
            decreases values.len() - i,
        {
            assert(models[i as int] == (values@[i as int].0 as nat, values@[i as int].1@));
            match LockMethod::parse(values[i].1.as_str()) {
                Ok(found) => {
                    method = found;
                },
                Err(message) => {
                    proof {
                        lemma_first_method_fault(models, (i + 1) as nat, models.len());
                    }
                    return Err(line_message(values[i].0, message.as_str()));
                },
            }
            i = i + 1;
        }
        Ok(method)
    }

    /// How long it takes until a lock is tried again, in nanoseconds.
    pub fn retry_interval(self) -> (r: u64)
        ensures
            r == retry_of(self),
    {
        match self {
            LockMethod::Flock => FLOCK_RETRY,
            LockMethod::Dotlock => DOTLOCK_RETRY,
        }
    }
}

/// How long a lock is waited for, in seconds.
pub fn parse_lock_timeout(value: &str) -> (r: Result<u64, String>)
    ensures
        match variables::seconds_of(value@, MAX_LOCK_TIMEOUT_SECONDS) {
            Some(seconds) => r matches Ok(found) && found == seconds,
            None => r matches Err(message) && message@
                == "LOCKTIMEOUT must be an integer from 1 to 86400"@,
        },
{
    parse_lock_timeout_seconds(value)
}

/// How long the first `n` values let a lock be waited for.
pub open spec fn timeout_after(values: Seq<(nat, Seq<char>)>, n: nat) -> Result<nat, Seq<char>>
    decreases n,
{
    if n == 0 || n > values.len() {
        Ok(DEFAULT_LOCK_TIMEOUT as nat)
    } else {
        match timeout_after(values, (n - 1) as nat) {
            Err(message) => Err(message),
            Ok(_) => match variables::seconds_of(values[n - 1].1, MAX_LOCK_TIMEOUT_SECONDS) {
                Some(seconds) => Ok(seconds),
                None => Err(
                    settings::on_line(
                        values[n - 1].0,
                        "LOCKTIMEOUT must be an integer from 1 to 86400"@,
                    ),
                ),
            },
        }
    }
}

proof fn lemma_first_timeout_fault(values: Seq<(nat, Seq<char>)>, n: nat, m: nat)
    requires
        n <= m <= values.len(),
        timeout_after(values, n) is Err,
    ensures
        timeout_after(values, m) == timeout_after(values, n),
    decreases m,
{
    if n < m {
        lemma_first_timeout_fault(values, n, (m - 1) as nat);
    }
}

/// How long a configuration lets a lock be waited for, in seconds.
pub fn lock_timeout_from_config(config: &Config) -> (r: Result<u64, String>)
    ensures
        ({
            let values = settings::assigned_values(
                config@.statements,
                config@.statements.len(),
                AssignmentTarget::LockTimeout,
            );
            match timeout_after(values, values.len()) {
                Ok(seconds) => r matches Ok(found) && found == seconds,
                Err(message) => r matches Err(found) && found@ == message,
            }
        }),
{
    let values = settings_of(config, AssignmentTarget::LockTimeout);
    let ghost models = settings::value_models(values@);
    let mut timeout: u64 = DEFAULT_LOCK_TIMEOUT;
    let mut i: usize = 0;
    while i < values.len()
        invariant
            i <= values@.len(),
            models == settings::value_models(values@),
            models == settings::assigned_values(
                config@.statements,
                config@.statements.len(),
                AssignmentTarget::LockTimeout,
            ),
            timeout_after(models, i as nat) == Ok::<nat, Seq<char>>(timeout as nat),
        decreases values.len() - i,
    {
        assert(models[i as int] == (values@[i as int].0 as nat, values@[i as int].1@));
        match parse_lock_timeout(values[i].1.as_str()) {
            Ok(seconds) => {
                timeout = seconds;
            },
            Err(message) => {
                proof {
                    lemma_first_timeout_fault(models, (i + 1) as nat, models.len());
                }
                return Err(line_message(values[i].0, message.as_str()));
            },
        }
        i = i + 1;
    }
    Ok(timeout)
}

/// Whatever a configuration sets, a lock is waited for at least a second and
/// at most a day: no wait is endless.
pub proof fn lock_timeouts_are_finite(values: Seq<(nat, Seq<char>)>, n: nat)
    requires
        timeout_after(values, n) is Ok,
    ensures
        1 <= timeout_after(values, n)->Ok_0 <= MAX_LOCK_TIMEOUT_SECONDS,
    decreases n,
{
    if n > 0 && n <= values.len() {
        lock_timeouts_are_finite(values, (n - 1) as nat);
    }
}

/// What is known of a file that would be a lockfile.
#[derive(Debug, Clone, Copy, PartialEq, Eq, Structural)]
pub struct FileStatus {
    pub is_regular: bool,
    pub is_directory: bool,
    pub owner: u32,
    pub links: u64,
    pub mode: u32,
    pub size: i64,
    pub modified: i64,
}

/// Why a file cannot be a kernel lock's.
pub open spec fn lockfile_fault(status: FileStatus, expected_owner: u32) -> Option<IoFailure> {
    if !status.is_regular {
        Some(
            failure::failure(
                IoErrorKind::InvalidInput,
                "flock lockfile is not a regular file"@,
            ),
        )
    } else if status.owner != expected_owner || status.links != 1 || mode::grants_others(
        status.mode,
    ) {
        Some(
            failure::failure(
                IoErrorKind::PermissionDenied,
                "flock lockfile has unsafe ownership, links, or permissions"@,
            ),
        )
    } else {
        None
    }
}

/// Refuses a file that others could have put there.
pub fn check_lockfile(status: FileStatus, expected_owner: u32) -> (r: Result<(), IoError>)
    ensures
        match lockfile_fault(status, expected_owner) {
            Some(fault) => r matches Err(error) && error@ == fault,
            None => r is Ok,
        },
{
    if !status.is_regular {
        return Err(
            IoError::new(IoErrorKind::InvalidInput, "flock lockfile is not a regular file"),
        );
    }
    if status.owner != expected_owner || status.links != 1 || is_open_to_others(status.mode) {
        return Err(
            IoError::new(
                IoErrorKind::PermissionDenied,
                "flock lockfile has unsafe ownership, links, or permissions",
            ),
        );
    }
    Ok(())
}

/// Whether a dotlock was left behind: it is no directory, small, and older
/// than anybody waits.
pub open spec fn left_behind(status: FileStatus, now: u64, timeout: u64) -> bool {
    let modified = if status.modified < 0 {
        0
    } else {
        status.modified as int
    };
    timeout > 0 && !status.is_directory && 0 <= status.size <= MAX_STALE_DOTLOCK_SIZE && now
        - modified > timeout
}

/// Whether a dotlock was left behind.
pub fn is_stale_dotlock(status: FileStatus, now: u64, timeout: u64) -> (r: bool)
    ensures
        r == left_behind(status, now, timeout),
{
    if timeout == 0 || status.is_directory || status.size < 0 {
        return false;
    }
    if status.size as u64 > MAX_STALE_DOTLOCK_SIZE {
        return false;
    }
    let modified: u64 = if status.modified < 0 {
        0
    } else {
        status.modified as u64
    };
    now > modified && now - modified > timeout
}

/// How long to sleep before a lock is tried again, unless the time is over.
pub open spec fn time_to_sleep(elapsed: u64, timeout: u64, retry: u64) -> Option<u64> {
    if elapsed >= timeout {
        None
    } else if retry < timeout - elapsed {
        Some(retry)
    } else {
        Some((timeout - elapsed) as u64)
    }
}

/// Decides how long to sleep before a lock is tried again. All times are in
/// nanoseconds.
pub fn wait_for_retry(elapsed: u64, timeout: u64, retry: u64, timeout_message: &str) -> (r: Result<
    u64,
    IoError,
>)
    ensures
        match time_to_sleep(elapsed, timeout, retry) {
            Some(time) => r == Ok::<u64, IoError>(time),
            None => r matches Err(error) && error@ == failure::failure(
                IoErrorKind::TimedOut,
                timeout_message@,
            ),
        },
{
    if elapsed >= timeout {
        return Err(IoError::new(IoErrorKind::TimedOut, timeout_message));
    }
    let remaining = timeout - elapsed;
    if retry < remaining {
        Ok(retry)
    } else {
        Ok(remaining)
    }
}

/// Nobody sleeps past the time until which a lock is waited for.
pub proof fn sleep_never_outlasts_the_timeout(elapsed: u64, timeout: u64, retry: u64)
    requires
        time_to_sleep(elapsed, timeout, retry) is Some,
    ensures
        elapsed + time_to_sleep(elapsed, timeout, retry)->0 <= timeout,
{
}

/// How a try to take a lock came out.
#[derive(Debug)]
pub enum LockOutcome {
    Taken,
    Interrupted,
    Held,
    HeldAndLeftBehind,
    Failed(IoError),
}

/// What follows from it.
#[derive(Debug)]
pub enum LockDecision {
    Done,
    TryAgain,
    RemoveAndTryAgain,
    Sleep(u64),
    Fail(IoError),
}

pub enum LockVerdict {
    Done,
    TryAgain,
    RemoveAndTryAgain,
    Sleep(u64),
    Fail(IoFailure),
}

impl View for LockDecision {
    type V = LockVerdict;

    open spec fn view(&self) -> LockVerdict {
        match self {
            LockDecision::Done => LockVerdict::Done,
            LockDecision::TryAgain => LockVerdict::TryAgain,
            LockDecision::RemoveAndTryAgain => LockVerdict::RemoveAndTryAgain,
            LockDecision::Sleep(time) => LockVerdict::Sleep(*time),
            LockDecision::Fail(error) => LockVerdict::Fail(error@),
        }
    }
}

/// What follows from a try to take a lock.
pub open spec fn lock_verdict(
    outcome: LockOutcome,
    elapsed: u64,
    timeout: u64,
    retry: u64,
    timeout_message: Seq<char>,
) -> LockVerdict {
    match outcome {
        LockOutcome::Taken => LockVerdict::Done,
        LockOutcome::Interrupted => LockVerdict::TryAgain,
        LockOutcome::HeldAndLeftBehind => LockVerdict::RemoveAndTryAgain,
        LockOutcome::Failed(error) => LockVerdict::Fail(error@),
        LockOutcome::Held => match time_to_sleep(elapsed, timeout, retry) {
            Some(time) => LockVerdict::Sleep(time),
            None => LockVerdict::Fail(
                failure::failure(IoErrorKind::TimedOut, timeout_message),
            ),
        },
    }
}

/// Decides what follows from a try to take a lock. All times are in
/// nanoseconds.
pub fn after_lock_attempt(
    outcome: LockOutcome,
    elapsed: u64,
    timeout: u64,
    retry: u64,
    timeout_message: &str,
) -> (r: LockDecision)
    ensures
        r@ == lock_verdict(outcome, elapsed, timeout, retry, timeout_message@),
{
    match outcome {
        LockOutcome::Taken => LockDecision::Done,
        LockOutcome::Interrupted => LockDecision::TryAgain,
        LockOutcome::HeldAndLeftBehind => LockDecision::RemoveAndTryAgain,
        LockOutcome::Failed(error) => LockDecision::Fail(error),
        LockOutcome::Held => match wait_for_retry(elapsed, timeout, retry, timeout_message) {
            Ok(time) => LockDecision::Sleep(time),
            Err(error) => LockDecision::Fail(error),
        },
    }
}

} // verus!
