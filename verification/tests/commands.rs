use procmail::commands::{
    action_request, begin_trap, capture_failure, capture_request, check_policies,
    child_failure_record, condition_request, diagnostic_record, finish_capture, finish_filter,
    finish_program, finish_stdout, finish_trap, needs_line_feed, prepare_environment,
    program_accepted, reports_failure, route_action, ActionRoute, BackgroundCommandBudget, ChildExit, ChildStatusPolicy, InputSelection,
    OutputHandling, TrapResult, MAX_BACKGROUND_COMMANDS,
};
use procmail::config::{
    ActionInput, ActionMode, CaseMode, ChildStatusMode, ConditionInput, ContinuationMode,
    ControlFlow, OutputEnding, RecipeOptions, WriteErrorMode,
};
use procmail::delivery::failure::IoError;
use procmail::publication::{DeliveryAttemptError, OperationalError};
use procmail::runtime::RuntimeVariables;

fn options() -> RecipeOptions {
    RecipeOptions {
        condition_input: ConditionInput::Headers,
        case_mode: CaseMode::Insensitive,
        control: ControlFlow::Independent,
        action_input: ActionInput::Body,
        action_mode: ActionMode::Deliver,
        continuation: ContinuationMode::Stop,
        child_status: ChildStatusMode::Wait,
        write_errors: WriteErrorMode::Fail,
        output_ending: OutputEnding::Normalize,
    }
}

fn recoverable(message: &str) -> DeliveryAttemptError {
    DeliveryAttemptError::Recoverable(OperationalError::TemporaryDelivery(message.to_owned()))
}

fn internal(message: &str) -> DeliveryAttemptError {
    DeliveryAttemptError::Fatal(OperationalError::Internal(message.to_owned()))
}

#[test]
fn background_commands_are_limited_per_message() {
    let mut budget = BackgroundCommandBudget::new();
    for _ in 0..MAX_BACKGROUND_COMMANDS {
        assert_eq!(budget.reserve(), Ok(()));
    }
    assert_eq!(
        budget.reserve(),
        Err("background external commands exceed the hard limit of 128 per message".to_owned())
    );
    assert!(budget.reserve().is_err());
}

#[test]
fn output_and_status_policies_go_together() {
    assert!(check_policies(OutputHandling::Discard, ChildStatusPolicy::Condition).is_ok());
    assert!(check_policies(OutputHandling::Discard, ChildStatusPolicy::Recipe).is_ok());
    assert!(
        check_policies(OutputHandling::Capture { limit: 3 }, ChildStatusPolicy::Capture).is_ok()
    );
    assert!(check_policies(OutputHandling::Filter, ChildStatusPolicy::Recipe).is_ok());
    for (output, status) in [
        (OutputHandling::Discard, ChildStatusPolicy::Capture),
        (OutputHandling::Filter, ChildStatusPolicy::Condition),
        (OutputHandling::Filter, ChildStatusPolicy::Capture),
        (OutputHandling::Capture { limit: 3 }, ChildStatusPolicy::Recipe),
        (OutputHandling::Capture { limit: 3 }, ChildStatusPolicy::Condition),
    ] {
        assert_eq!(
            check_policies(output, status).unwrap_err(),
            "command output and child-status policies do not match"
        );
    }
}

#[test]
fn actions_are_routed_by_command_mode_and_status() {
    assert_eq!(route_action("", options()), ActionRoute::Stdout);
    assert_eq!(route_action("cat", options()), ActionRoute::Program);
    let mut ignored = options();
    ignored.child_status = ChildStatusMode::Ignore;
    assert_eq!(route_action("cat", ignored), ActionRoute::Background);
    let mut filter = ignored;
    filter.action_mode = ActionMode::Filter;
    assert_eq!(route_action("cat", filter), ActionRoute::Filter);
    assert_eq!(route_action("", filter), ActionRoute::Stdout);
}

#[test]
fn requests_carry_what_the_recipe_selects() {
    let condition = condition_request("test -f x");
    assert_eq!(condition.command, "test -f x");
    assert_eq!(condition.input_selection, InputSelection::Message);
    assert_eq!(condition.input_selection.action_input(), ActionInput::Message);
    assert_eq!(condition.output_ending, OutputEnding::Preserve);

    let capture = capture_request("date", OutputEnding::Preserve, None, 7);
    assert_eq!(capture.output, OutputHandling::Capture { limit: 7 });
    assert_eq!(capture.input_selection.action_input(), ActionInput::Message);
    let capture = capture_request("date", OutputEnding::Normalize, Some(options()), 7);
    assert_eq!(capture.input_selection.action_input(), ActionInput::Body);
    assert_eq!(capture.child_status, ChildStatusPolicy::Capture);

    let program = action_request("cat", options()).unwrap();
    assert_eq!(program.output, OutputHandling::Discard);
    assert_eq!(program.child_status, ChildStatusPolicy::Recipe);
    assert_eq!(program.output_ending, OutputEnding::Normalize);
    let mut filter = options();
    filter.action_mode = ActionMode::Filter;
    assert_eq!(action_request("cat", filter).unwrap().output, OutputHandling::Filter);
    assert!(action_request("", options()).is_none());
    let mut ignored = options();
    ignored.child_status = ChildStatusMode::Ignore;
    assert!(action_request("cat", ignored).is_none());
}

#[test]
fn stdout_failures_count_unless_they_are_ignored() {
    let mut runtime = RuntimeVariables::default();
    assert_eq!(finish_stdout(Ok(()), options(), &mut runtime), Ok(()));
    assert_eq!(runtime.get("LASTFOLDER").unwrap(), "|");

    let mut runtime = RuntimeVariables::default();
    assert_eq!(
        finish_stdout(Err(IoError::other("closed")), options(), &mut runtime),
        Err(recoverable("cannot write message to stdout: closed"))
    );
    assert_eq!(runtime.get("LASTFOLDER"), None);

    let mut ignored = options();
    ignored.write_errors = WriteErrorMode::Ignore;
    assert_eq!(
        finish_stdout(Err(IoError::other("closed")), ignored, &mut runtime),
        Ok(())
    );
    assert_eq!(runtime.get("LASTFOLDER").unwrap(), "|");
}

#[test]
fn programs_become_the_last_folder_when_they_are_accepted() {
    let mut runtime = RuntimeVariables::default();
    assert_eq!(
        finish_program(false, "vacation", true, &mut runtime),
        Err(recoverable("external program did not complete successfully"))
    );
    assert_eq!(
        finish_program(false, "vacation", false, &mut runtime),
        Err(recoverable("cannot write complete message to external program"))
    );
    assert_eq!(runtime.get("LASTFOLDER"), None);
    assert_eq!(finish_program(true, "vacation", false, &mut runtime), Ok(()));
    assert_eq!(runtime.get("LASTFOLDER").unwrap(), "vacation");
}

#[test]
fn outcomes_count_as_the_flags_say() {
    let waited = options();
    assert!(program_accepted(ChildExit::Success, true, waited));
    assert!(!program_accepted(ChildExit::ExitFailure, true, waited));
    assert!(!program_accepted(ChildExit::TimedOut, true, waited));
    assert!(!program_accepted(ChildExit::Success, false, waited));
    assert!(reports_failure(ChildExit::Signaled, waited));
    assert!(!reports_failure(ChildExit::Success, waited));

    let quiet = RecipeOptions { child_status: ChildStatusMode::WaitQuietly, ..waited };
    assert!(!program_accepted(ChildExit::ExitFailure, true, quiet));
    assert!(!reports_failure(ChildExit::ExitFailure, quiet));

    let ignored = RecipeOptions { child_status: ChildStatusMode::Ignore, ..waited };
    assert!(program_accepted(ChildExit::ExitFailure, true, ignored));
    assert!(!program_accepted(ChildExit::Success, false, ignored));
    let ignored = RecipeOptions { write_errors: WriteErrorMode::Ignore, ..ignored };
    assert!(program_accepted(ChildExit::Success, false, ignored));
}

#[test]
fn captures_and_filters_report_how_they_failed() {
    let kept = finish_capture(true, ChildExit::Success, Ok(b"x\n".to_vec())).unwrap();
    assert_eq!(kept.output(), b"x\n");
    assert_eq!(kept.into_output(), b"x\n");
    assert_eq!(
        finish_capture(false, ChildExit::TimedOut, Ok(Vec::new())).unwrap_err(),
        recoverable("command assignment exceeded TIMEOUT")
    );
    assert_eq!(
        finish_capture(false, ChildExit::ExitFailure, Ok(Vec::new())).unwrap_err(),
        recoverable("command capture did not complete successfully")
    );
    assert_eq!(
        finish_capture(true, ChildExit::Success, Err("too long".to_owned())).unwrap_err(),
        recoverable("command returned invalid captured output: too long")
    );
    assert_eq!(capture_failure(ChildExit::Signaled), "command capture did not complete successfully");

    assert_eq!(finish_filter(false, true, Ok(b"new".to_vec())), Ok(b"new".to_vec()));
    assert_eq!(
        finish_filter(false, false, Ok(b"new".to_vec())),
        Err(recoverable("external filter did not complete successfully"))
    );
    assert_eq!(
        finish_filter(true, true, Err("no header".to_owned())),
        Err(recoverable("external filter returned an invalid message: no header"))
    );
    assert_eq!(
        finish_filter(true, true, Ok(Vec::new())),
        Err(internal("failed filter output did not retain its validation error"))
    );
    assert_eq!(
        finish_filter(false, true, Err("late".to_owned())),
        Err(internal("validated filter output retained an unexpected error: late"))
    );
}

#[test]
fn only_normalized_output_gets_a_line_feed() {
    assert!(needs_line_feed(b"x", OutputEnding::Normalize));
    assert!(needs_line_feed(b"", OutputEnding::Normalize));
    assert!(!needs_line_feed(b"x\n", OutputEnding::Normalize));
    assert!(!needs_line_feed(b"x", OutputEnding::Preserve));
}

#[test]
fn failed_commands_are_reported_by_how_they_ended() {
    assert_eq!(child_failure_record(ChildExit::Success), None);
    assert_eq!(
        child_failure_record(ChildExit::ExitFailure),
        Some("procmail-rs: external command exited unsuccessfully\n")
    );
    assert_eq!(
        child_failure_record(ChildExit::Signaled),
        Some("procmail-rs: external command terminated by a signal\n")
    );
    assert_eq!(
        child_failure_record(ChildExit::TimedOut),
        Some("procmail-rs: external command exceeded TIMEOUT\n")
    );
    assert_eq!(diagnostic_record("TRAP failed: x"), "procmail-rs: TRAP failed: x\n");
}

fn finished(exit_code: Option<u8>, timed_out: bool, accepted: bool) -> TrapResult {
    TrapResult::Finished { exit_code, timed_out, accepted }
}

#[test]
fn a_trap_runs_only_where_one_is_set() {
    let mut runtime = RuntimeVariables::default();
    assert!(begin_trap(&mut runtime, 0).is_none());
    runtime.set("TRAP", "");
    assert!(begin_trap(&mut runtime, 0).is_none());
    assert_eq!(runtime.get("EXITCODE"), None);
}

#[test]
fn a_trap_finds_the_filtering_status_and_cannot_replace_it() {
    let mut runtime = RuntimeVariables::default();
    runtime.set("TRAP", "logger");
    let trap = begin_trap(&mut runtime, 75).unwrap();
    assert_eq!(trap.command, "logger");
    assert_eq!(runtime.get("EXITCODE").unwrap(), "75");
    assert_eq!(finish_trap(&trap, &finished(Some(3), false, false), &mut runtime), None);
    assert_eq!(runtime.get("EXITCODE").unwrap(), "75");
}

#[test]
fn a_trap_leaves_an_explicit_exit_code_alone() {
    let mut runtime = RuntimeVariables::default();
    runtime.set("TRAP", "logger");
    runtime.set("EXITCODE", "12");
    let trap = begin_trap(&mut runtime, 75).unwrap();
    assert_eq!(runtime.get("EXITCODE").unwrap(), "12");
    assert_eq!(
        finish_trap(&trap, &TrapResult::NotRun("no shell".to_owned()), &mut runtime).unwrap(),
        "TRAP failed: no shell"
    );
    assert_eq!(runtime.get("EXITCODE").unwrap(), "12");
}

#[test]
fn a_trap_sets_an_empty_exit_code() {
    for (result, expected) in [
        (finished(Some(3), false, false), "3"),
        (finished(Some(0), false, true), ""),
        (finished(None, true, false), "75"),
        (TrapResult::NotRun("x".to_owned()), "75"),
    ] {
        let mut runtime = RuntimeVariables::default();
        runtime.set("TRAP", "logger");
        runtime.set("EXITCODE", "");
        let trap = begin_trap(&mut runtime, 0).unwrap();
        let diagnostic = finish_trap(&trap, &result, &mut runtime);
        assert_eq!(runtime.get("EXITCODE").unwrap(), expected);
        match result {
            TrapResult::Finished { timed_out: true, .. } => {
                assert_eq!(diagnostic.unwrap(), "TRAP exceeded TIMEOUT")
            }
            TrapResult::Finished { .. } => assert_eq!(diagnostic, None),
            TrapResult::NotRun(_) => assert_eq!(diagnostic.unwrap(), "TRAP failed: x"),
        }
    }
}

#[test]
fn commands_run_with_a_bounded_environment() {
    let runtime = RuntimeVariables::default();
    let prepared = prepare_environment(&runtime, "TRAP").unwrap();
    assert_eq!(prepared.timeout, 960);
    assert_eq!(prepared.environment.get("SHELL").unwrap(), "/bin/sh");
    let shell = prepared.shell_policy.authorize(&prepared.environment).unwrap();
    assert_eq!(shell.path(), "/bin/sh");
    assert_eq!(shell.flags(), "-c");

    let mut runtime = RuntimeVariables::default();
    runtime.set("TIMEOUT", "0");
    assert_eq!(
        prepare_environment(&runtime, "TRAP").unwrap_err(),
        "TIMEOUT must be an integer from 1 to 86400"
    );
}
