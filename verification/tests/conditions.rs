use procmail::config::errors::ParseError;
use procmail::config::header_actions::{
    parse_header_action, parse_header_operation, validate_header_action_recipe,
};
use procmail::config::limits::{AssignmentUse, ParseBudget, RcLimits};
use procmail::config::recipe_header::parse_recipe_header;
use procmail::config::regex_condition::{
    collect_edits, compile_condition, prepare_condition_regex, render, select_captures, NodeKind,
};
use procmail::config::{
    build_regex, parse, umask_from_config, ActionMode, ChildStatusMode, ConditionKind,
    ContinuationMode, ControlFlow, HeaderOperation, RcLimitVariable,
    RcParseCounts, RecipeAction, RecipeOptions, Statement, WriteErrorMode,
};
use procmail::configuration::{process_timeout_from_config, validate};
use procmail::delivery::maildir::Durability;
use procmail::message::{Message, MessageLimit, MessageLimits, MessageReadError};

fn chars(text: &str) -> Vec<char> {
    text.chars().collect()
}

fn lines(text: &str) -> Vec<Vec<char>> {
    text.lines().map(chars).collect()
}

fn matches(pattern: &str, input: &str) -> bool {
    compile_condition(pattern.to_owned(), 1, false)
        .unwrap()
        .compiled
        .is_match(input.as_bytes())
}

#[test]
fn anchors_stand_for_lines_or_for_the_whole_text() {
    assert!(matches("^Subject: x$", "From: y\nSubject: x\nTo: z\n"));
    assert!(!matches("^^Subject:", "From: y\nSubject: x\n"));
    assert!(matches("^^From:", "From: y\nSubject: x\n"));
    assert!(matches("x^^", "From: y\nSubject: x"));
    assert!(!matches("y^^", "From: y\nSubject: x"));
}

#[test]
fn word_edges_take_a_byte() {
    assert!(matches("\\<spam\\>", "a spam b"));
    assert!(!matches("\\<spam\\>", "a spammer b"));
}

#[test]
fn macros_find_addresses_and_daemons() {
    assert!(matches("^TO_joe@example", "Cc: someone, joe@example.org\n"));
    assert!(!matches("^TO_joe@example", "Subject: joe@example.org\n"));
    assert!(matches("^TOjoe", "To: joe\n"));
    assert!(matches("^FROM_DAEMON", "From: MAILER-DAEMON@example.org\n"));
    assert!(matches("^FROM_MAILER", "From: postmaster@example.org\n"));
    assert!(!matches("^FROM_MAILER", "From: joe@example.org\n"));
}

#[test]
fn conditions_ignore_case_unless_told_otherwise() {
    assert!(build_regex("spam", false).unwrap().is_match(b"SPAM"));
    assert!(!build_regex("spam", true).unwrap().is_match(b"SPAM"));
    assert!(build_regex("(", true).is_err());
}

#[test]
fn a_match_marker_names_what_follows() {
    let condition = compile_condition("^Subject: \\/.*".to_owned(), 1, false).unwrap();
    let capture = condition.match_capture.unwrap();
    let found = condition.compiled.captures(b"Subject: hello").unwrap();
    let start = found.get(capture).unwrap().start();
    assert_eq!(&b"Subject: hello"[start..], b"hello");
    assert_eq!(
        compile_condition("a\\/b\\/c".to_owned(), 7, false).unwrap_err(),
        ParseError::new(7, "regular expression contains more than one '\\/' marker".to_owned())
    );
    let condition = compile_condition("(a)(b)".to_owned(), 1, false).unwrap();
    assert_eq!(condition.match_capture, None);
    assert_eq!(condition.capture_indexes, vec![1, 2]);
}

#[test]
fn captures_are_told_from_the_marker() {
    let unnamed = vec![None, None, None];
    assert_eq!(select_captures(&unnamed, false, 1).unwrap(), (None, vec![1, 2]));
    let many = vec![None; 200];
    assert!(select_captures(&many, false, 1).is_err());
}

#[test]
fn edits_replace_what_they_cover() {
    let (rendered, _, _) = prepare_condition_regex("plain text", 1).unwrap();
    assert_eq!(rendered, "plain text");
    let nodes = [
        (NodeKind::Other, 0, 3),
        (NodeKind::Assertion, 2, 3),
        (NodeKind::Assertion, 1, 2),
        (NodeKind::Literal, 0, 1),
    ];
    let edits = collect_edits("a^^", &nodes, 1).unwrap();
    assert_eq!(render("a^^", &edits, 1).unwrap(), "a\\z");
    assert_eq!(render("a^^", &[], 1).unwrap(), "a^^");
    let nodes = [
        (NodeKind::Other, 0, 4),
        (NodeKind::Literal, 3, 4),
        (NodeKind::Assertion, 2, 3),
        (NodeKind::Assertion, 1, 2),
        (NodeKind::Literal, 0, 1),
    ];
    assert!(collect_edits("a^^b", &nodes, 1).is_err());
    assert!(collect_edits("a^^b", &nodes[..1], 1).unwrap().is_empty());
    assert!(collect_edits("\\/", &[(NodeKind::Assertion, 0, 2)], 1).unwrap().is_empty());
    assert_eq!(collect_edits("\\/", &[(NodeKind::Literal, 0, 2)], 1).unwrap().len(), 1);
}

#[test]
fn flags_select_options_in_any_order() {
    let one = parse_recipe_header(&chars(" Bfhw"), 1).unwrap();
    let other = parse_recipe_header(&chars(" whfB"), 1).unwrap();
    assert_eq!(one.options, other.options);
    assert_eq!(one.options.action_mode, ActionMode::Filter);
    assert_eq!(one.options.child_status, ChildStatusMode::Wait);
    let none = parse_recipe_header(&chars(""), 1).unwrap();
    assert_eq!(none.options.action_mode, ActionMode::Deliver);
    assert_eq!(none.options.continuation, ContinuationMode::Stop);
    assert_eq!(none.options.control, ControlFlow::Independent);
    assert_eq!(none.lock, None);
    assert_eq!(parse_recipe_header(&chars(":"), 1).unwrap().lock.unwrap(), "");
    assert_eq!(parse_recipe_header(&chars(" :x.lock"), 1).unwrap().lock.unwrap(), "x.lock");
    assert!(parse_recipe_header(&chars(" Z"), 1).is_err());
}

fn options_of(text: &str) -> RecipeOptions {
    match parse(text).unwrap().statements.pop().unwrap() {
        Statement::Recipe(recipe) => recipe.options,
        other => panic!("no recipe: {other:?}"),
    }
}

#[test]
fn deliveries_fail_on_write_errors() {
    assert_eq!(options_of(":0\nmaildir:x\n").write_errors, WriteErrorMode::Fail);
    assert!(parse(":0 i\nmaildir:x\n").is_err());
    assert_eq!(options_of(":0 i\n| cat\n").write_errors, WriteErrorMode::Ignore);
}

#[test]
fn header_operations_are_read_word_by_word() {
    assert!(matches!(
        parse_header_operation(&chars("remove X-Old"), 3).unwrap(),
        HeaderOperation::Remove { line: 3, name } if name == "X-Old"
    ));
    assert!(matches!(
        parse_header_operation(&chars("set X-New:  a value"), 3).unwrap(),
        HeaderOperation::Replace { name, value, .. } if name == "X-New" && value.source == "a value"
    ));
    assert!(matches!(
        parse_header_operation(&chars("add X-New: $A"), 3).unwrap(),
        HeaderOperation::Add { value, .. } if value.source == "$A" && value.expansion.is_none()
    ));
    assert!(matches!(
        parse_header_operation(&chars("prepend X-New:"), 3).unwrap(),
        HeaderOperation::Prepend { value, .. } if value.source.is_empty()
    ));
    for (text, message) in [
        ("remove", "header operation 'remove' has no arguments"),
        ("explode X-Old", "unknown headers operation 'explode'"),
        ("set X-New", "header operation 'set' requires NAME: VALUE"),
        ("set X-New: a\\", "folded header values are not supported"),
        ("set X-New: a\0", "header value contains a forbidden byte"),
    ] {
        assert_eq!(
            parse_header_operation(&chars(text), 3).unwrap_err(),
            ParseError::new(3, message.to_owned())
        );
    }
    assert!(parse_header_operation(&chars("remove bad name"), 3).is_err());
}

#[test]
fn header_actions_end_with_a_brace() {
    let text = ":0\nheaders {\nremove X-Old\n\n# silent\nset X-Other: x\n}\nA=1\n";
    let (action, next) = parse_header_action(&lines(text), 1, 1000).unwrap();
    assert_eq!(action.operations.len(), 2);
    assert_eq!(next, 7);
    let config = parse(text).unwrap();
    assert_eq!(config.statements.len(), 2);
    match &config.statements[0] {
        Statement::Recipe(recipe) => match &recipe.action {
            RecipeAction::Headers(found) => assert_eq!(found, &action),
            other => panic!("no header action: {other:?}"),
        },
        other => panic!("no recipe: {other:?}"),
    }
    assert!(parse_header_action(&lines("headers {\nremove X\n"), 0, 1000).is_err());
    assert!(validate_header_action_recipe("BD", &None, 1).is_ok());
    assert_eq!(
        validate_header_action_recipe("Bw", &None, 1).unwrap_err().message,
        "recipe flag 'w' is not supported for headers actions"
    );
    assert_eq!(
        validate_header_action_recipe("", &Some(String::new()), 1).unwrap_err().message,
        "headers actions do not support local lockfiles"
    );
}

#[test]
fn sizes_and_programs_are_conditions() {
    let kinds = |text: &str| match parse(text).unwrap().statements.pop().unwrap() {
        Statement::Recipe(mut recipe) => recipe.conditions.pop().unwrap(),
        other => panic!("no recipe: {other:?}"),
    };
    assert_eq!(kinds(":0\n* < 100\nmaildir:x\n").kind, ConditionKind::SmallerThan(100));
    assert_eq!(kinds(":0\n* > 100\nmaildir:x\n").kind, ConditionKind::LargerThan(100));
    assert_eq!(
        kinds(":0\n* ? test -f x\nmaildir:x\n").kind,
        ConditionKind::Program("test -f x".to_owned())
    );
    assert!(kinds(":0\n* ! spam\nmaildir:x\n").negated);
}

#[test]
fn settings_are_checked_as_a_whole() {
    let settings = |text: &str| {
        validate(&parse(text).unwrap(), Ok(MessageLimits::default()), Ok(()))
    };
    assert_eq!(settings("DURABILITY=full\n").unwrap().durability, Durability::Full);
    assert_eq!(settings("").unwrap().durability, Durability::Nothing);
    assert!(settings("DURABILITY=some\n").unwrap_err().contains("DURABILITY"));
    assert!(settings("LOCKMETHOD=some\n").unwrap_err().contains("LOCKMETHOD"));
    assert!(settings("A=1\nLOCKTIMEOUT=0\n").unwrap_err().starts_with("line 2: LOCKTIMEOUT"));
    assert!(settings("TIMEOUT=90000\n").unwrap_err().starts_with("line 1: TIMEOUT"));
    assert!(settings("UMASK=8\n").unwrap_err().contains("UMASK"));
    let config = parse("TIMEOUT=5\nTIMEOUT=7\nUMASK=022\n").unwrap();
    assert_eq!(process_timeout_from_config(&config), Ok(7));
    assert_eq!(umask_from_config(&config), Ok(0o022));
    assert_eq!(
        validate(&config, Err("limits".to_owned()), Ok(())).map(|_| ()).unwrap_err(),
        "limits"
    );
    assert_eq!(
        validate(&config, Ok(MessageLimits::default()), Err("trace".to_owned()))
            .map(|_| ())
            .unwrap_err(),
        "trace"
    );
}

#[test]
fn limits_change_alone_and_stay_in_bounds() {
    let mut limits = RcLimits::default();
    let before = limits;
    assert_eq!(limits.set(RcLimitVariable::Recipes, 5), Ok(()));
    assert_eq!(limits, RcLimits { recipes: 5, ..before });
    assert!(limits.set(RcLimitVariable::Recipes, usize::MAX).is_err());
    assert_eq!(limits, RcLimits { recipes: 5, ..before });
}

#[test]
fn a_budget_counts_what_is_read() {
    let mut budget = ParseBudget::new();
    let start = budget.snapshot();
    budget.charge_recipe(1).unwrap();
    budget.charge_assignment(2, AssignmentUse::Statement).unwrap();
    budget.record_recipe_contents(2, 1, 3).unwrap();
    let counts = budget.counts_since(start).unwrap();
    assert_eq!(
        counts,
        RcParseCounts { assignments: 1, statements: 2, recipes: 1, conditions: 2, regexes: 1 }
    );
    assert!(start.subtract(counts).is_err());
    assert_eq!(budget.linebuf(), 2048);
    assert!(budget.check_line(&vec!['x'; 2048], 1).is_ok());
    assert!(budget.check_line(&vec!['x'; 2049], 1).is_err());
    budget.reset(start);
    assert_eq!(budget.snapshot(), start);
    assert!(budget.check_nesting(0, 1).is_ok());
    let mut limits = RcLimits::default();
    limits.set(RcLimitVariable::Recipes, 1).unwrap();
    budget.replace_limits(limits);
    budget.charge_recipe(1).unwrap();
    assert!(budget.charge_recipe(2).is_err());
}

#[test]
fn messages_are_told_apart_by_their_limits() {
    let limits = MessageLimits { headers_size: 8, body_size: 4, message_size: 10 };
    let (head, used) = Message::read_headers(b"a: b\n\nrest", limits).unwrap();
    assert_eq!(head.as_bytes(), b"a: b\n\n");
    assert_eq!(used, 6);
    assert_eq!(head.count_piece(0, 4), Ok(4));
    let error = head.count_piece(1, 4).unwrap_err();
    assert_eq!(error, MessageReadError::LimitExceeded { kind: MessageLimit::Body, limit: 4 });
    assert_eq!(error.to_text(), "message body exceeds the limit of 4 bytes");
    let error = Message::read_headers(b"a: bcdefgh\n\n", limits).map(|_| ()).unwrap_err();
    assert_eq!(error.to_text(), "message headers exceed the limit of 8 bytes");
}
