//! Checks of a whole configuration that need neither files nor a message.

use vstd::prelude::*;
use vstd::string::*;

use crate::config::expansion::{self, umask_from_config};
use crate::config::recipe::Config;
use crate::config::settings::{self, line_message, settings_of};
use crate::config::variables::{
    self, parse_process_timeout_seconds, AssignmentTarget, MAX_PROCESS_TIMEOUT_SECONDS,
};
use crate::commands::DEFAULT_PROCESS_TIMEOUT;
use crate::delivery::local_lock::{self, lock_timeout_from_config, LockMethod};
use crate::delivery::maildir::{self, Durability};
use crate::message::MessageLimits;

verus! {

/// What a configuration sets for every message.
#[derive(Debug, Clone, Copy)]
pub struct ConfigurationSettings {
    pub message_limits: MessageLimits,
    pub durability: Durability,
}

/// How long the first `n` values let a command take.
pub open spec fn process_timeout_after(values: Seq<(nat, Seq<char>)>, n: nat) -> Result<
    nat,
    Seq<char>,
>
    decreases n,
{
    if n == 0 || n > values.len() {
        Ok(DEFAULT_PROCESS_TIMEOUT as nat)
    } else {
        match process_timeout_after(values, (n - 1) as nat) {
            Err(message) => Err(message),
            Ok(_) => match variables::seconds_of(values[n - 1].1, MAX_PROCESS_TIMEOUT_SECONDS) {
                Some(seconds) => Ok(seconds),
                None => Err(
                    settings::on_line(
                        values[n - 1].0,
                        "TIMEOUT must be an integer from 1 to 86400"@,
                    ),
                ),
            },
        }
    }
}

proof fn lemma_first_process_timeout_fault(values: Seq<(nat, Seq<char>)>, n: nat, m: nat)
    requires
        n <= m <= values.len(),
        process_timeout_after(values, n) is Err,
    ensures
        process_timeout_after(values, m) == process_timeout_after(values, n),
    decreases m,
{
    if n < m {
        lemma_first_process_timeout_fault(values, n, (m - 1) as nat);
    }
}

/// The values that a configuration assigns to a target.
pub open spec fn values_in(config: Config, target: AssignmentTarget) -> Seq<(nat, Seq<char>)> {
    settings::assigned_values(config@.statements, config@.statements.len(), target)
}

/// How long a configuration lets a command take, in seconds.
pub fn process_timeout_from_config(config: &Config) -> (r: Result<u64, String>)
    ensures
        ({
            let values = values_in(*config, AssignmentTarget::ProcessTimeout);
            match process_timeout_after(values, values.len()) {
                Ok(seconds) => r matches Ok(found) && found == seconds,
                Err(message) => r matches Err(found) && found@ == message,
            }
        }),
{
    let values = settings_of(config, AssignmentTarget::ProcessTimeout);
    let ghost models = settings::value_models(values@);
    let mut timeout: u64 = DEFAULT_PROCESS_TIMEOUT;
    let mut i: usize = 0;
    while i < values.len()
        invariant
            i <= values@.len(),
            models == settings::value_models(values@),
            models == values_in(*config, AssignmentTarget::ProcessTimeout),
            process_timeout_after(models, i as nat) == Ok::<nat, Seq<char>>(timeout as nat),
        decreases values.len() - i,
    {
        assert(models[i as int] == (values@[i as int].0 as nat, values@[i as int].1@));
        match parse_process_timeout_seconds(values[i].1.as_str()) {
            Ok(seconds) => {
                timeout = seconds;
            },
            Err(message) => {
                proof {
                    lemma_first_process_timeout_fault(models, (i + 1) as nat, models.len());
                }
                return Err(line_message(values[i].0, message.as_str()));
            },
        }
        i = i + 1;
    }
    Ok(timeout)
}

/// The first thing that is wrong with the settings of a configuration, after
/// its limits on messages.
pub open spec fn settings_fault(config: Config) -> Option<Seq<char>> {
    let durability = values_in(config, AssignmentTarget::Durability);
    let method = values_in(config, AssignmentTarget::LockMethod);
    let lock = values_in(config, AssignmentTarget::LockTimeout);
    let process = values_in(config, AssignmentTarget::ProcessTimeout);
    if let Err(message) = maildir::durability_after(durability, durability.len()) {
        Some(message)
    } else if let Err(message) = local_lock::method_after(method, method.len()) {
        Some(message)
    } else if let Err(message) = local_lock::timeout_after(lock, lock.len()) {
        Some(message)
    } else if let Err(message) = process_timeout_after(process, process.len()) {
        Some(message)
    } else if let Err(message) = expansion::umask_in(config@.statements, config@.statements.len()) {
        Some(message)
    } else {
        None
    }
}

/// Checks every setting of a configuration, given what its limits on messages
/// and its trace settings came to.
pub fn validate(
    config: &Config,
    message_limits: Result<MessageLimits, String>,
    trace: Result<(), String>,
) -> (r: Result<ConfigurationSettings, String>)
    ensures
        match message_limits {
            Err(message) => r == Err::<ConfigurationSettings, String>(message),
            Ok(limits) => match settings_fault(*config) {
                Some(message) => r matches Err(found) && found@ == message,
                None => match trace {
                    Err(message) => r == Err::<ConfigurationSettings, String>(message),
                    Ok(()) => r matches Ok(settings) && settings.message_limits == limits && {
                        let values = values_in(*config, AssignmentTarget::Durability);
                        maildir::durability_after(values, values.len()) == Ok::<
                            Durability,
                            Seq<char>,
                        >(settings.durability)
                    },
                },
            },
        },
{
    let message_limits = match message_limits {
        Ok(limits) => limits,
        Err(message) => {
            return Err(message);
        },
    };
    let durability = match Durability::from_config(config) {
        Ok(durability) => durability,
        Err(message) => {
            return Err(message);
        },
    };
    match LockMethod::from_config(config) {
        Ok(_) => {},
        Err(message) => {
            return Err(message);
        },
    }
    match lock_timeout_from_config(config) {
        Ok(_) => {},
        Err(message) => {
            return Err(message);
        },
    }
    match process_timeout_from_config(config) {
        Ok(_) => {},
        Err(message) => {
            return Err(message);
        },
    }
    match umask_from_config(config) {
        Ok(_) => {},
        Err(message) => {
            return Err(message);
        },
    }
    match trace {
        Ok(()) => Ok(ConfigurationSettings { message_limits, durability }),
        Err(message) => Err(message),
    }
}

/// Whatever a configuration sets, a command may take at least a second and at
/// most a day: no wait is endless.
pub proof fn process_timeouts_are_finite(values: Seq<(nat, Seq<char>)>, n: nat)
    requires
        process_timeout_after(values, n) is Ok,
    ensures
        1 <= process_timeout_after(values, n)->Ok_0 <= MAX_PROCESS_TIMEOUT_SECONDS,
    decreases n,
{
    if n > 0 && n <= values.len() {
        process_timeouts_are_finite(values, (n - 1) as nat);
    }
}

} // verus!
