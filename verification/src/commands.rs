//! Commands: how one is run, and what its outcome means.

use vstd::prelude::*;
use vstd::string::*;
use vstd::utf8::*;

use crate::config::recipe::{
    self, ActionInput, ActionMode, ChildStatusMode, OutputEnding, RecipeOptions, WriteErrorMode,
};
use crate::config::variables::{
    self, parse_process_timeout_seconds, MAX_PROCESS_TIMEOUT_SECONDS,
};
use crate::delivery::failure::IoError;
use crate::environment::{self, ProcessEnvironment, ShellPolicy};
use crate::eval::CapturedCommand;
use crate::publication::{
    DeliveryAttemptError, OperationalError, OperationalFault, TEMPORARY_DELIVERY,
};
use crate::runtime::{self, RuntimeVariables};
use crate::text::{self, decimal_text, numbered, text2, text3};

verus! {

pub const MAX_BACKGROUND_COMMANDS: usize = 128;

/// How long a command may take where nothing is set, in seconds.
pub const DEFAULT_PROCESS_TIMEOUT: u64 = 960;

/// How many commands a message has started that nobody waits for.
#[derive(Debug)]
pub struct BackgroundCommandBudget {
    started: usize,
}

impl BackgroundCommandBudget {
    pub closed spec fn started(&self) -> nat {
        self.started as nat
    }

    pub fn new() -> (r: Self)
        ensures
            r.started() == 0,
    {
        BackgroundCommandBudget { started: 0 }
    }

    /// Counts one more command, unless there are as many as may be.
    pub fn reserve(&mut self) -> (r: Result<(), String>)
        ensures
            if old(self).started() < MAX_BACKGROUND_COMMANDS {
                r is Ok && final(self).started() == old(self).started() + 1
            } else {
                r matches Err(message) && message@
                    == "background external commands exceed the hard limit of "@ + text::decimal(
                    MAX_BACKGROUND_COMMANDS as nat,
                ) + " per message"@ && final(self).started() == old(self).started()
            },
    {
        if self.started < MAX_BACKGROUND_COMMANDS {
            self.started = self.started + 1;
            Ok(())
        } else {
            Err(
                numbered(
                    "background external commands exceed the hard limit of ",
                    MAX_BACKGROUND_COMMANDS,
                    " per message",
                ),
            )
        }
    }
}

/// What a command is given.
#[derive(Debug, Clone, Copy, PartialEq, Eq, Structural)]
pub enum InputSelection {
    Message,
    Recipe(ActionInput),
}

impl InputSelection {
    pub fn action_input(self) -> (r: ActionInput)
        ensures
            r == (match self {
                InputSelection::Message => ActionInput::Message,
                InputSelection::Recipe(input) => input,
            }),
    {
        match self {
            InputSelection::Message => ActionInput::Message,
            InputSelection::Recipe(input) => input,
        }
    }
}

/// What is done with what a command writes.
#[derive(Debug, Clone, Copy, PartialEq, Eq, Structural)]
pub enum OutputHandling {
    Discard,
    Capture { limit: usize },
    Filter,
}

/// What a command's exit status is taken for.
#[derive(Debug, Clone, Copy, PartialEq, Eq, Structural)]
pub enum ChildStatusPolicy {
    Condition,
    Capture,
    Recipe,
}

/// Whether what is done with the output goes with what the exit status is
/// taken for.
pub open spec fn policies_fit(output: OutputHandling, status: ChildStatusPolicy) -> bool {
    match output {
        OutputHandling::Discard => status is Condition || status is Recipe,
        OutputHandling::Capture { .. } => status is Capture,
        OutputHandling::Filter => status is Recipe,
    }
}

/// Refuses a command whose output and exit status are not handled together.
pub fn check_policies(output: OutputHandling, status: ChildStatusPolicy) -> (r: Result<(), String>)
    ensures
        if policies_fit(output, status) {
            r is Ok
        } else {
            r matches Err(message) && message@
                == "command output and child-status policies do not match"@
        },
{
    let fit = match output {
        OutputHandling::Discard => status == ChildStatusPolicy::Condition || status
            == ChildStatusPolicy::Recipe,
        OutputHandling::Capture { .. } => status == ChildStatusPolicy::Capture,
        OutputHandling::Filter => status == ChildStatusPolicy::Recipe,
    };
    if fit {
        Ok(())
    } else {
        Err("command output and child-status policies do not match".to_owned())
    }
}

/// How the command of a pipe action is run.
#[derive(Debug, Clone, Copy, PartialEq, Eq, Structural)]
pub enum ActionRoute {
    Stdout,
    Background,
    Program,
    Filter,
}

/// How the command of a pipe action is run.
pub open spec fn route_of(command: Seq<char>, options: RecipeOptions) -> ActionRoute {
    if command.len() == 0 {
        ActionRoute::Stdout
    } else if options.action_mode is Filter {
        ActionRoute::Filter
    } else if options.child_status is Ignore {
        ActionRoute::Background
    } else {
        ActionRoute::Program
    }
}

/// Decides how the command of a pipe action is run: nobody waits for one whose
/// exit status does not count.
pub fn route_action(command: &str, options: RecipeOptions) -> (r: ActionRoute)
    ensures
        r == route_of(command@, options),
{
    if command.is_empty() {
        ActionRoute::Stdout
    } else if options.action_mode == ActionMode::Filter {
        ActionRoute::Filter
    } else if options.child_status == ChildStatusMode::Ignore {
        ActionRoute::Background
    } else {
        ActionRoute::Program
    }
}

/// A command that is waited for.
#[derive(Debug, Clone, Copy)]
pub struct CommandRequest<'a> {
    pub command: &'a str,
    pub input_selection: InputSelection,
    pub output_ending: OutputEnding,
    pub output: OutputHandling,
    pub child_status: ChildStatusPolicy,
}

/// The command of a condition: it gets the whole message as it is.
pub fn condition_request(command: &str) -> (r: CommandRequest<'_>)
    ensures
        r.command@ == command@,
        r.input_selection == InputSelection::Message,
        r.output_ending is Preserve,
        r.output is Discard,
        r.child_status is Condition,
        policies_fit(r.output, r.child_status),
{
    CommandRequest {
        command,
        input_selection: InputSelection::Message,
        output_ending: OutputEnding::Preserve,
        output: OutputHandling::Discard,
        child_status: ChildStatusPolicy::Condition,
    }
}

/// A command whose output is kept: it gets what its recipe selects, and the
/// whole message where it stands in no recipe.
pub fn capture_request(
    command: &str,
    output_ending: OutputEnding,
    recipe_options: Option<RecipeOptions>,
    limit: usize,
) -> (r: CommandRequest<'_>)
    ensures
        r.command@ == command@,
        r.input_selection == InputSelection::Recipe(
            match recipe_options {
                Some(options) => options.action_input,
                None => ActionInput::Message,
            },
        ),
        r.output_ending == output_ending,
        r.output == (OutputHandling::Capture { limit }),
        r.child_status is Capture,
        policies_fit(r.output, r.child_status),
{
    CommandRequest {
        command,
        input_selection: InputSelection::Recipe(
            match recipe_options {
                Some(options) => options.action_input,
                None => ActionInput::Message,
            },
        ),
        output_ending,
        output: OutputHandling::Capture { limit },
        child_status: ChildStatusPolicy::Capture,
    }
}

/// The command of a pipe action, where it is waited for.
pub fn action_request(command: &str, options: RecipeOptions) -> (r: Option<CommandRequest<'_>>)
    ensures
        r is Some == (route_of(command@, options) is Program || route_of(
            command@,
            options,
        ) is Filter),
        r matches Some(request) ==> {
            &&& request.command@ == command@
            &&& request.input_selection == InputSelection::Recipe(options.action_input)
            &&& request.output_ending == options.output_ending
            &&& request.output == (if route_of(command@, options) is Filter {
                OutputHandling::Filter
            } else {
                OutputHandling::Discard
            })
            &&& request.child_status is Recipe
            &&& policies_fit(request.output, request.child_status)
        },
{
    let output = match route_action(command, options) {
        ActionRoute::Filter => OutputHandling::Filter,
        ActionRoute::Program => OutputHandling::Discard,
        _ => {
            return None;
        },
    };
    Some(
        CommandRequest {
            command,
            input_selection: InputSelection::Recipe(options.action_input),
            output_ending: options.output_ending,
            output,
            child_status: ChildStatusPolicy::Recipe,
        },
    )
}

/// A failure of a command that another recipe can handle.
pub open spec fn recoverable(error: DeliveryAttemptError, message: Seq<char>) -> bool {
    error matches DeliveryAttemptError::Recoverable(source) && source@
        == OperationalFault::TemporaryDelivery(message)
}

/// A failure of a command that another recipe can handle.
pub fn recoverable_error(message: String) -> (r: DeliveryAttemptError)
    ensures
        recoverable(r, message@),
{
    DeliveryAttemptError::Recoverable(OperationalError::TemporaryDelivery(message))
}

/// A failure of the program itself, which ends the filtering.
pub open spec fn internal_failure(error: DeliveryAttemptError, message: Seq<char>) -> bool {
    error matches DeliveryAttemptError::Fatal(source) && source@ == OperationalFault::Internal(
        message,
    )
}

/// A failure of the program itself, which ends the filtering.
pub fn internal_runner_error(message: String) -> (r: DeliveryAttemptError)
    ensures
        internal_failure(r, message@),
{
    DeliveryAttemptError::Fatal(OperationalError::Internal(message))
}

/// Ends an action that wrote the message to standard output: a failed write
/// counts unless the recipe ignores it.
pub fn finish_stdout(
    written: Result<(), IoError>,
    options: RecipeOptions,
    runtime: &mut RuntimeVariables,
) -> (r: Result<(), DeliveryAttemptError>)
    ensures
        if written is Err && options.write_errors is Fail {
            &&& r matches Err(error) && recoverable(
                error,
                "cannot write message to stdout: "@ + written->Err_0@.message,
            )
            &&& final(runtime)@ == old(runtime)@
        } else {
            &&& r is Ok
            &&& final(runtime)@ == runtime::with_value(
                old(runtime)@,
                "LASTFOLDER"@,
                encode_utf8("|"@),
            )
        },
{
    if let Err(error) = written {
        if options.write_errors == WriteErrorMode::Fail {
            return Err(
                recoverable_error(
                    text2("cannot write message to stdout: ", error.message.as_str()),
                ),
            );
        }
    }
    runtime.set("LASTFOLDER", "|");
    Ok(())
}

/// Decides whether the outcome of a command that a message was piped into is
/// accepted. How it ended counts only where it is waited for, and a message
/// that it did not take whole counts unless the recipe ignores that.
pub fn program_accepted(exit: ChildExit, written: bool, options: RecipeOptions) -> (r: bool)
    ensures
        r == ((exit is Success || options.child_status is Ignore) && (written
            || options.write_errors is Ignore)),
{
    (exit == ChildExit::Success || options.child_status == ChildStatusMode::Ignore) && (written
        || options.write_errors == WriteErrorMode::Ignore)
}

/// Decides whether it is reported how a command failed.
pub fn reports_failure(exit: ChildExit, options: RecipeOptions) -> (r: bool)
    ensures
        r == (!(exit is Success) && options.child_status is Wait),
{
    exit != ChildExit::Success && options.child_status == ChildStatusMode::Wait
}

/// Ends an action that piped the message into a command: `LASTFOLDER` is the
/// command where its outcome was accepted.
pub fn finish_program(accepted: bool, command: &str, waited: bool, runtime: &mut RuntimeVariables) -> (r:
    Result<(), DeliveryAttemptError>)
    ensures
        if accepted {
            &&& r is Ok
            &&& final(runtime)@ == runtime::with_value(
                old(runtime)@,
                "LASTFOLDER"@,
                encode_utf8(command@),
            )
        } else {
            &&& r matches Err(error) && recoverable(
                error,
                if waited {
                    "external program did not complete successfully"@
                } else {
                    "cannot write complete message to external program"@
                },
            )
            &&& final(runtime)@ == old(runtime)@
        },
{
    if !accepted {
        let message = if waited {
            "external program did not complete successfully"
        } else {
            "cannot write complete message to external program"
        };
        return Err(recoverable_error(message.to_owned()));
    }
    runtime.set("LASTFOLDER", command);
    Ok(())
}

/// Ends a command whose output is kept.
pub fn finish_capture(accepted: bool, exit: ChildExit, output: Result<Vec<u8>, String>) -> (r:
    Result<CapturedCommand, DeliveryAttemptError>)
    ensures
        if !accepted {
            r matches Err(error) && recoverable(
                error,
                if exit is TimedOut {
                    "command assignment exceeded TIMEOUT"@
                } else {
                    "command capture did not complete successfully"@
                },
            )
        } else {
            match output {
                Ok(bytes) => r matches Ok(captured) && captured@ == bytes@,
                Err(message) => r matches Err(error) && recoverable(
                    error,
                    "command returned invalid captured output: "@ + message@,
                ),
            }
        },
{
    if !accepted {
        return Err(recoverable_error(capture_failure(exit).to_owned()));
    }
    match output {
        Ok(bytes) => Ok(CapturedCommand::new(bytes)),
        Err(message) => Err(
            recoverable_error(
                text2("command returned invalid captured output: ", message.as_str()),
            ),
        ),
    }
}

/// Ends a filter: what it wrote, where that takes the place of what it was
/// given. `failed` says that its output is no message, `replace` that its
/// outcome lets the output count.
pub fn finish_filter(failed: bool, replace: bool, output: Result<Vec<u8>, String>) -> (r: Result<
    Vec<u8>,
    DeliveryAttemptError,
>)
    ensures
        match (failed, output) {
            (true, Err(message)) => r matches Err(error) && recoverable(
                error,
                "external filter returned an invalid message: "@ + message@,
            ),
            (true, Ok(_)) => r matches Err(error) && internal_failure(
                error,
                "failed filter output did not retain its validation error"@,
            ),
            (false, output) => if !replace {
                r matches Err(error) && recoverable(
                    error,
                    "external filter did not complete successfully"@,
                )
            } else {
                match output {
                    Ok(bytes) => r == Ok::<Vec<u8>, DeliveryAttemptError>(bytes),
                    Err(message) => r matches Err(error) && internal_failure(
                        error,
                        "validated filter output retained an unexpected error: "@ + message@,
                    ),
                }
            },
        },
{
    if failed {
        return match output {
            Err(message) => Err(
                recoverable_error(
                    text2("external filter returned an invalid message: ", message.as_str()),
                ),
            ),
            Ok(_) => Err(
                internal_runner_error(
                    "failed filter output did not retain its validation error".to_owned(),
                ),
            ),
        };
    }
    if !replace {
        return Err(
            recoverable_error("external filter did not complete successfully".to_owned()),
        );
    }
    match output {
        Ok(bytes) => Ok(bytes),
        Err(message) => Err(
            internal_runner_error(
                text2(
                    "validated filter output retained an unexpected error: ",
                    message.as_str(),
                ),
            ),
        ),
    }
}

/// Whether a line feed is written after a message.
pub fn needs_line_feed(input: &[u8], output_ending: OutputEnding) -> (r: bool)
    ensures
        r == (output_ending is Normalize && !(input@.len() > 0 && input@.last() == 10)),
{
    let closed = input.len() > 0 && input[input.len() - 1] == 10;
    output_ending == OutputEnding::Normalize && !closed
}

/// How a command ended.
#[derive(Debug, Clone, Copy, PartialEq, Eq, Structural)]
pub enum ChildExit {
    Success,
    ExitFailure,
    Signaled,
    TimedOut,
}

/// What is reported of a command that failed.
pub open spec fn child_failure(exit: ChildExit) -> Option<Seq<char>> {
    match exit {
        ChildExit::Success => None,
        ChildExit::ExitFailure => Some(
            "procmail-rs: external command exited unsuccessfully\n"@,
        ),
        ChildExit::Signaled => Some("procmail-rs: external command terminated by a signal\n"@),
        ChildExit::TimedOut => Some("procmail-rs: external command exceeded TIMEOUT\n"@),
    }
}

/// What is reported of a command that failed.
pub fn child_failure_record(exit: ChildExit) -> (r: Option<&'static str>)
    ensures
        match child_failure(exit) {
            Some(record) => r matches Some(found) && found@ == record,
            None => r is None,
        },
{
    match exit {
        ChildExit::Success => None,
        ChildExit::ExitFailure => Some("procmail-rs: external command exited unsuccessfully\n"),
        ChildExit::Signaled => Some("procmail-rs: external command terminated by a signal\n"),
        ChildExit::TimedOut => Some("procmail-rs: external command exceeded TIMEOUT\n"),
    }
}

/// Why the output of a command is not the value of a variable.
pub fn capture_failure(exit: ChildExit) -> (r: &'static str)
    ensures
        r@ == (if exit is TimedOut {
            "command assignment exceeded TIMEOUT"@
        } else {
            "command capture did not complete successfully"@
        }),
{
    match exit {
        ChildExit::TimedOut => "command assignment exceeded TIMEOUT",
        _ => "command capture did not complete successfully",
    }
}

/// What became of the command of `TRAP`.
#[derive(Debug, PartialEq, Eq)]
pub enum TrapResult {
    Finished { exit_code: Option<u8>, timed_out: bool, accepted: bool },
    NotRun(String),
}

/// The exit code that the command of `TRAP` leaves, where it changes it: only
/// an empty one can be changed.
pub open spec fn trapped_exit_code(exit_code: Option<Seq<char>>, result: TrapResult) -> Option<
    Seq<char>,
> {
    if exit_code != Some(Seq::<char>::empty()) {
        None
    } else {
        match result {
            TrapResult::NotRun(_) => Some(text::decimal(TEMPORARY_DELIVERY as nat)),
            TrapResult::Finished { exit_code, accepted, .. } => match exit_code {
                Some(code) if code != 0 => Some(text::decimal(code as nat)),
                _ => if accepted {
                    None
                } else {
                    Some(text::decimal(TEMPORARY_DELIVERY as nat))
                },
            },
        }
    }
}

/// The variables that the command of `TRAP` finds: `EXITCODE` is the status of
/// the filtering, unless it was set.
pub open spec fn trap_variables(variables: Seq<(Seq<char>, Seq<u8>)>, status: u8) -> Seq<
    (Seq<char>, Seq<u8>),
> {
    if runtime::text_of(variables, "EXITCODE"@) is None {
        runtime::with_value(variables, "EXITCODE"@, encode_utf8(text::decimal(status as nat)))
    } else {
        variables
    }
}

/// The variables that `TRAP` leaves, when `EXITCODE` was `exit_code` before.
pub open spec fn trapped_variables(
    variables: Seq<(Seq<char>, Seq<u8>)>,
    exit_code: Option<Seq<char>>,
    result: TrapResult,
) -> Seq<(Seq<char>, Seq<u8>)> {
    match trapped_exit_code(exit_code, result) {
        Some(code) => runtime::with_value(variables, "EXITCODE"@, encode_utf8(code)),
        None => variables,
    }
}

/// A command of `TRAP` that is about to run.
#[derive(Debug)]
pub struct Trap {
    pub command: String,
    pub exit_code: Option<String>,
}

/// Sets the variables for the command of `TRAP`, where there is one.
pub fn begin_trap(runtime: &mut RuntimeVariables, status: u8) -> (r: Option<Trap>)
    ensures
        match runtime::text_of(old(runtime)@, "TRAP"@) {
            Some(command) if command.len() > 0 => {
                &&& r matches Some(trap) && trap.command@ == command && recipe::optional_text(
                    trap.exit_code,
                ) == runtime::text_of(old(runtime)@, "EXITCODE"@)
                &&& final(runtime)@ == trap_variables(old(runtime)@, status)
            },
            _ => r is None && final(runtime)@ == old(runtime)@,
        },
{
    let command = match runtime.get("TRAP") {
        Some(command) => command,
        None => {
            return None;
        },
    };
    if command.as_str().is_empty() {
        return None;
    }
    let exit_code = runtime.get("EXITCODE");
    if exit_code.is_none() {
        let code = decimal_text(status as usize);
        runtime.set("EXITCODE", code.as_str());
    }
    Some(Trap { command, exit_code })
}

/// What is reported of the command of `TRAP`, where there is anything.
pub open spec fn trap_diagnostic(result: TrapResult) -> Option<Seq<char>> {
    match result {
        TrapResult::Finished { timed_out: true, .. } => Some("TRAP exceeded TIMEOUT"@),
        TrapResult::Finished { .. } => None,
        TrapResult::NotRun(error) => Some("TRAP failed: "@ + error@),
    }
}

/// Settles `EXITCODE` after the command of `TRAP` has run, and says what is to
/// be reported.
pub fn finish_trap(trap: &Trap, result: &TrapResult, runtime: &mut RuntimeVariables) -> (r: Option<
    String,
>)
    ensures
        final(runtime)@ == trapped_variables(
            old(runtime)@,
            recipe::optional_text(trap.exit_code),
            *result,
        ),
        recipe::optional_text(r) == trap_diagnostic(*result),
{
    let was_empty = match &trap.exit_code {
        Some(code) => {
            let empty = code.as_str().is_empty();
            assert(empty ==> code@ =~= Seq::<char>::empty());
            empty
        },
        None => false,
    };
    if was_empty {
        let code: u8 = match result {
            TrapResult::NotRun(_) => TEMPORARY_DELIVERY,
            TrapResult::Finished { exit_code, accepted, .. } => match exit_code {
                Some(code) if *code != 0 => *code,
                _ => if *accepted {
                    0
                } else {
                    TEMPORARY_DELIVERY
                },
            },
        };
        if code != 0 {
            let spelled = decimal_text(code as usize);
            runtime.set("EXITCODE", spelled.as_str());
        }
    }
    match result {
        TrapResult::Finished { timed_out, .. } => if *timed_out {
            Some("TRAP exceeded TIMEOUT".to_owned())
        } else {
            None
        },
        TrapResult::NotRun(error) => Some(text2("TRAP failed: ", error.as_str())),
    }
}

/// A line of the log.
pub fn diagnostic_record(message: &str) -> (r: String)
    ensures
        r@ == "procmail-rs: "@ + message@ + "\n"@,
{
    text3("procmail-rs: ", message, "\n")
}

/// An exit code that an rc file has set, other than to nothing, is never
/// changed by `TRAP`.
pub proof fn an_explicit_exit_code_is_authoritative(
    variables: Seq<(Seq<char>, Seq<u8>)>,
    exit_code: Seq<char>,
    status: u8,
    result: TrapResult,
)
    requires
        runtime::text_of(variables, "EXITCODE"@) == Some(exit_code),
        exit_code.len() > 0,
    ensures
        trapped_variables(trap_variables(variables, status), Some(exit_code), result)
            == variables,
{
}

/// The exit code that is set for `TRAP` because there was none is the status
/// of the filtering, and the command does not replace it.
pub proof fn a_missing_exit_code_keeps_the_filtering_status(
    variables: Seq<(Seq<char>, Seq<u8>)>,
    status: u8,
    result: TrapResult,
)
    requires
        runtime::names_differ(variables),
        runtime::text_of(variables, "EXITCODE"@) is None,
    ensures
        runtime::text_of(
            trapped_variables(trap_variables(variables, status), None, result),
            "EXITCODE"@,
        ) == Some(text::decimal(status as nat)),
{
    let code = text::decimal(status as nat);
    runtime::setting_a_variable_changes_it_alone(
        variables,
        "EXITCODE"@,
        encode_utf8(code),
        "EXITCODE"@,
    );
    encode_utf8_valid_utf8(code);
    encode_utf8_decode_utf8(code);
}

/// What a command runs with.
#[derive(Debug)]
pub struct PreparedEnvironment {
    pub environment: ProcessEnvironment,
    pub shell_policy: ShellPolicy,
    pub timeout: u64,
}

pub struct PreparedModel {
    pub environment: environment::EnvironmentModel,
    pub shell: Seq<char>,
    pub timeout: nat,
}

/// How long a command may take, or what is wrong with that.
pub open spec fn process_timeout(variables: Seq<(Seq<char>, Seq<u8>)>) -> Result<nat, Seq<char>> {
    match runtime::text_of(variables, "TIMEOUT"@) {
        None => Ok(DEFAULT_PROCESS_TIMEOUT as nat),
        Some(value) => match variables::seconds_of(value, MAX_PROCESS_TIMEOUT_SECONDS) {
            Some(seconds) => Ok(seconds),
            None => Err("TIMEOUT must be an integer from 1 to 86400"@),
        },
    }
}

/// What a command runs with, or why it cannot run.
pub open spec fn prepared_for(variables: Seq<(Seq<char>, Seq<u8>)>, purpose: Seq<char>) -> Result<
    PreparedModel,
    Seq<char>,
> {
    match process_timeout(variables) {
        Err(message) => Err(message),
        Ok(timeout) => match environment::environment_of(variables) {
            Err(message) => Err("cannot build "@ + purpose + " environment: "@ + message),
            Ok(model) => match runtime::text_of(model.values, "SHELL"@) {
                None => Err("bounded "@ + purpose + " environment does not contain SHELL"@),
                Some(shell) => match environment::shell_path_fault(shell) {
                    Some(message) => Err(message),
                    None => Ok(PreparedModel { environment: model, shell, timeout }),
                },
            },
        },
    }
}

/// Makes what a command runs with.
pub fn prepare_environment(variables: &RuntimeVariables, purpose: &str) -> (r: Result<
    PreparedEnvironment,
    String,
>)
    ensures
        match prepared_for(variables@, purpose@) {
            Ok(model) => r matches Ok(found) && found.environment@ == model.environment
                && found.shell_policy@ == Some(model.shell) && found.timeout == model.timeout,
            Err(message) => r matches Err(found) && found@ == message,
        },
{
    let timeout = match variables.get("TIMEOUT") {
        None => DEFAULT_PROCESS_TIMEOUT,
        Some(value) => match parse_process_timeout_seconds(value.as_str()) {
            Ok(seconds) => seconds,
            Err(message) => {
                return Err(message);
            },
        },
    };
    let environment = match ProcessEnvironment::from_runtime(variables) {
        Ok(environment) => environment,
        Err(error) => {
            let start = text3("cannot build ", purpose, " environment: ");
            return Err(text::text2(start.as_str(), error.message()));
        },
    };
    let configured = match environment.get("SHELL") {
        Some(configured) => configured,
        None => {
            return Err(text3("bounded ", purpose, " environment does not contain SHELL"));
        },
    };
    match ShellPolicy::approve(configured.as_str()) {
        Ok(shell_policy) => Ok(PreparedEnvironment { environment, shell_policy, timeout }),
        Err(error) => Err(error.message().to_owned()),
    }
}

} // verus!
