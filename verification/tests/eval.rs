use procmail::config::{parse, Assignment, AssignmentTarget, ControlFlow, SuppliedVariable};
use procmail::eval::{
    else_handled, execute_assignment, execute_host_assignment, execute_statements, execution_gate,
    initial_statements, resolve_lock, validate_captured_value, ActionExecution, CapturedCommand,
    CapturedNewlineRule, CompiledStatement, EvalError, ExecutionPlan, InputRequirements,
    PlanProperties, RecipeResult, SequenceControl, SequenceState,
};
use procmail::config::Statement;
use procmail::runtime::RuntimeVariables;

#[test]
fn captured_values_lose_their_line_feeds() {
    for (rule, input, expected) in [
        (CapturedNewlineRule::StripOne, &b"a\n\n"[..], &b"a\n"[..]),
        (CapturedNewlineRule::StripAll, b"a\n\n", b"a"),
        (CapturedNewlineRule::StripAll, b"\n\n", b""),
        (CapturedNewlineRule::StripOne, b"a\n b", b"a\n b"),
        (CapturedNewlineRule::StripOne, b"", b""),
    ] {
        assert_eq!(validate_captured_value(input.to_vec(), 4, "V", rule).unwrap(), expected);
    }
    assert_eq!(
        validate_captured_value(b"1234\n".to_vec(), 4, "V", CapturedNewlineRule::StripAll),
        Err(EvalError::VariableValueTooLarge { name: "V".to_owned(), size: 5 })
    );
    assert_eq!(CapturedCommand::new(b"x".to_vec()).output(), b"x");
}

fn needs(headers: bool, body: bool, end: bool) -> InputRequirements {
    InputRequirements {
        needs_headers: headers,
        needs_body_contents: body,
        needs_end_of_message: end,
    }
}

#[test]
fn plans_need_what_any_of_their_parts_needs() {
    assert_eq!(
        needs(true, false, false).union(needs(false, false, true)),
        needs(true, false, true)
    );
    let part = PlanProperties {
        requirements: needs(true, false, false),
        requires_ordered_delivery: true,
        requires_preemptive_ordered_delivery: false,
        needs_message_contents: false,
        has_external_commands: true,
    };
    let other = PlanProperties {
        requirements: needs(false, false, false),
        requires_ordered_delivery: false,
        requires_preemptive_ordered_delivery: true,
        needs_message_contents: false,
        has_external_commands: false,
    };
    let both = part.union(other);
    assert_eq!(both, other.union(part));
    assert!(both.requires_ordered_delivery && both.requires_preemptive_ordered_delivery);

    let plan = ExecutionPlan::new(both, false, false);
    assert_eq!(plan.requirements(), needs(true, false, true));
    assert!(plan.requires_ordered_delivery());
    assert!(!plan.needs_message_contents());
    assert!(plan.has_external_commands());
    let plan = ExecutionPlan::new(part, true, false);
    assert_eq!(plan.requirements(), needs(true, true, true));
    assert!(plan.needs_message_contents());
}

fn result(matched: bool, action: ActionExecution, else_handled: bool) -> RecipeResult {
    RecipeResult { conditions_matched: matched, action, else_handled }
}

fn state(base: Option<bool>, previous: Option<RecipeResult>) -> SequenceState {
    SequenceState { chain_base_matched: base, previous }
}

#[test]
fn recipes_run_by_what_came_before() {
    let ok = result(true, ActionExecution::Succeeded, true);
    let failed = result(true, ActionExecution::Failed, true);
    let unmatched = result(false, ActionExecution::NotRun, false);
    assert!(execution_gate(ControlFlow::Independent, state(None, None)));
    assert!(execution_gate(ControlFlow::AfterChainMatch, state(Some(true), Some(unmatched))));
    assert!(!execution_gate(ControlFlow::AfterChainMatch, state(None, Some(ok))));
    assert!(execution_gate(ControlFlow::AfterPreviousSuccess, state(Some(true), Some(ok))));
    assert!(!execution_gate(ControlFlow::AfterPreviousSuccess, state(Some(true), Some(failed))));
    assert!(!execution_gate(ControlFlow::AfterPreviousSuccess, state(None, None)));
    assert!(execution_gate(ControlFlow::AfterPreviousError, state(None, Some(failed))));
    assert!(!execution_gate(ControlFlow::AfterPreviousError, state(None, Some(ok))));
    assert!(execution_gate(ControlFlow::Else, state(None, None)));
    assert!(execution_gate(ControlFlow::Else, state(None, Some(unmatched))));
    assert!(!execution_gate(ControlFlow::Else, state(None, Some(ok))));
}

#[test]
fn an_else_chain_runs_once() {
    let ok = result(true, ActionExecution::Succeeded, true);
    let chain = state(None, Some(ok));
    let handled = else_handled(ControlFlow::Else, chain, false);
    assert!(handled);
    let next = state(None, Some(result(false, ActionExecution::NotRun, handled)));
    assert!(!execution_gate(ControlFlow::Else, next));
    assert!(!else_handled(ControlFlow::Independent, chain, false));
    assert!(else_handled(ControlFlow::Independent, state(None, None), true));
}

fn assignment(line: usize, name: &str, value: &str) -> Assignment {
    Assignment {
        line,
        name: name.to_owned(),
        value: value.to_owned(),
        target: AssignmentTarget::User,
        expansion: None,
    }
}

fn parsed(text: &str) -> Assignment {
    match parse(text).unwrap().statements.pop().unwrap() {
        Statement::Assignment(assignment) => assignment,
        other => panic!("not an assignment: {other:?}"),
    }
}

#[test]
fn assignments_see_the_values_before_them() {
    let mut runtime = RuntimeVariables::default();
    assert!(execute_assignment(&parsed("A=one\n"), &mut runtime).is_ok());
    assert!(execute_assignment(&parsed("B=\"${A} two\"\n"), &mut runtime).is_ok());
    assert_eq!(runtime.get("B").unwrap(), "one two");
    assert_eq!(runtime.get("A").unwrap(), "one");
    let before = runtime.entries().len();
    match execute_assignment(&parsed("C=$MISSING\n"), &mut runtime) {
        Ok(()) => assert_eq!(runtime.get("C").unwrap(), ""),
        Err(EvalError::Expansion(error)) => {
            assert_eq!(error.line, 1);
            assert_eq!(runtime.entries().len(), before);
        }
        Err(other) => panic!("unexpected error: {other:?}"),
    }
}

#[test]
fn host_assignments_end_the_file_on_other_hosts() {
    let mut runtime = RuntimeVariables::default();
    let here = assignment(4, "HOST", "here");
    assert_eq!(execute_host_assignment(&here, Some("here"), &mut runtime), Ok(true));
    assert_eq!(execute_host_assignment(&here, Some("there"), &mut runtime), Ok(false));
    assert_eq!(
        execute_host_assignment(&here, None, &mut runtime),
        Err(EvalError::RuntimeSettingUnavailable { line: 4, name: "HOST".to_owned() })
    );
    assert_eq!(runtime.get("HOST").unwrap(), "here");
}

#[test]
fn statements_run_until_one_ends_them() {
    let mut runtime = RuntimeVariables::default();
    let statements = vec![
        CompiledStatement::Assignment(assignment(1, "A", "1")),
        CompiledStatement::Host(assignment(2, "HOST", "here")),
        CompiledStatement::Assignment(assignment(3, "A", "2")),
    ];
    assert_eq!(
        execute_statements(&statements, Some("there"), &mut runtime),
        Ok(SequenceControl::EndRcFile)
    );
    assert_eq!(runtime.get("A").unwrap(), "1");
    assert_eq!(
        execute_statements(&statements, Some("here"), &mut runtime),
        Ok(SequenceControl::Continue)
    );
    assert_eq!(runtime.get("A").unwrap(), "2");
}

#[test]
fn statements_that_need_more_are_refused() {
    let mut config = parse("INCLUDERC=/etc/a\nSWITCHRC=/etc/b\nX=`date`\n").unwrap();
    let mut found = Vec::new();
    while let Some(statement) = config.statements.pop() {
        let compiled = match statement {
            Statement::CommandAssignment(command) => CompiledStatement::CommandAssignment(command),
            Statement::Include(file) => CompiledStatement::Include(file),
            Statement::Switch(file) => CompiledStatement::Switch(file),
            other => panic!("unexpected statement: {other:?}"),
        };
        let mut runtime = RuntimeVariables::default();
        found.push(execute_statements(&[compiled], None, &mut runtime).unwrap_err());
        assert_eq!(runtime, RuntimeVariables::default());
    }
    assert_eq!(
        found,
        vec![
            EvalError::ExternalActionUnsupported { line: 3 },
            EvalError::RuntimeRcLoaderUnavailable { line: 2, statement: "SWITCHRC".to_owned() },
            EvalError::RuntimeRcLoaderUnavailable { line: 1, statement: "INCLUDERC".to_owned() },
        ]
    );
}

#[test]
fn initial_variables_are_assigned_first() {
    let supplied = [SuppliedVariable::parse("PROJECT=x\\$y".to_owned()).unwrap()];
    let config = parse("A=1\n").unwrap().expand(&supplied).unwrap();
    let mut runtime = RuntimeVariables::default();
    let statements = initial_statements(&config);
    assert_eq!(statements.len(), config.initial_variables().len());
    assert_eq!(
        execute_statements(&statements, None, &mut runtime),
        Ok(SequenceControl::Continue)
    );
    assert_eq!(runtime.get("PROJECT").unwrap(), "x$y");
}

#[test]
fn recipe_locks_are_resolved_with_the_current_values() {
    let config = parse("MAILDIR=/mail\n:0:$NAME.lock\nmaildir:inbox\n").unwrap();
    let recipe = match &config.statements[1] {
        Statement::Recipe(recipe) => recipe,
        other => panic!("unexpected statement: {other:?}"),
    };
    let mut runtime = RuntimeVariables::default();
    runtime.set("NAME", "/tmp/n");
    assert_eq!(
        resolve_lock(&recipe.lock, &runtime).unwrap().unwrap(),
        "/tmp/n.lock"
    );
    assert_eq!(resolve_lock(&None, &runtime), Ok(None));
    runtime.set("NAME", "../n");
    assert!(resolve_lock(&recipe.lock, &runtime).is_err());
}
