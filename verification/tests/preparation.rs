use procmail::config::shell_conditions::expand_shell_condition;
use procmail::config::shell_eval::{TextValues, Values};
use procmail::config::tables::NameTable;
use procmail::config::{
    parse, Config, Destination, RcParseCounts, RecipeAction, ShellExpandedCondition, Statement,
};
use procmail::publication::{recipe_lock_path, OperationalError};
use procmail::runtime::RuntimeVariables;

fn values(entries: &[(&str, &str)]) -> Vec<(String, String)> {
    entries
        .iter()
        .map(|(name, value)| ((*name).to_owned(), (*value).to_owned()))
        .collect()
}

fn destination(config: Config) -> Destination {
    for statement in config.statements {
        if let Statement::Recipe(recipe) = statement {
            if let RecipeAction::Deliver(destination) = recipe.action {
                return destination;
            }
        }
    }
    panic!("no destination");
}

#[test]
fn files_are_expanded_with_the_values_of_a_message() {
    let config = parse("A=$B\n:0\nmaildir:$A/x\n").unwrap();
    let expanded = config
        .expand_with_runtime_values(&values(&[("MAILDIR", "/mail"), ("B", "box")]))
        .unwrap();
    assert!(expanded.initial_variables().is_empty());
    let mut runtime = RuntimeVariables::default();
    runtime.set("A", "box");
    let resolved = destination(expanded).resolve_with(TextValues::Runtime(&runtime)).unwrap();
    assert_eq!(resolved.path(), "/mail/box/x");

    let error = parse("A=1\nB=$MISSING\n")
        .unwrap()
        .expand_with_runtime_values(&[])
        .unwrap_err();
    assert_eq!(error.line, 2);
}

#[test]
fn checks_find_what_is_wrong_with_every_message() {
    let fine = parse("MAILDIR=/mail\n:0\nmaildir:$MATCH/x\n").unwrap();
    assert!(fine.prepare_for_check(&[]).is_ok());
    let wrong = parse("MAILDIR=/mail\n:0\nmaildir:$MISSING/y\n").unwrap();
    let error = wrong.prepare_for_check(&[]).unwrap_err();
    assert_eq!(error.line, 3);
}

#[test]
fn ordered_paths_are_checked_once_they_are_written() {
    let config = parse("MAILDIR=/mail\n:0\nmaildir:`date`/x\n").unwrap();
    let config = config.expand(&[]).unwrap();
    let ordered = destination(config);
    assert!(ordered.command_expression().is_some());
    let resolved = ordered.resolve_ordered_output("today/x".to_owned(), None).unwrap();
    assert_eq!(resolved.path(), "/mail/today/x");
    assert!(ordered.resolve_ordered_output("../x".to_owned(), None).is_err());
    let runtime = RuntimeVariables::default();
    assert_eq!(
        ordered.resolve_with(TextValues::Runtime(&runtime)).unwrap_err().message,
        "destination command substitution has not executed"
    );
    let plain = destination(parse("MAILDIR=/mail\n:0\nmaildir:x\n").unwrap());
    assert_eq!(
        plain.resolve_ordered_output("x".to_owned(), None).unwrap_err().message,
        "destination has no ordered expression"
    );
}

#[test]
fn conditions_take_values_as_patterns_or_quoted() {
    let mut known: NameTable<Vec<u8>> = NameTable::new();
    known.insert("NAME".to_owned(), b"a.b".to_vec());
    let expand = |source: &str| {
        let condition =
            ShellExpandedCondition { source: source.to_owned(), expansion: None };
        expand_shell_condition(&condition, 4, Values::Bytes(&known))
    };
    assert_eq!(expand("^From: $NAME").unwrap(), "^From: a.b");
    assert_eq!(expand("^From: $\\NAME").unwrap(), "^From: (?:)a\\.b");
    assert_eq!(expand("^From: $OTHER").unwrap_err().line, 4);
}

#[test]
fn limits_are_told_from_other_faults() {
    let long = "x".repeat(3000);
    assert!(parse(&long).unwrap_err().is_resource_limit());
    assert!(!parse(":0 Z\nmaildir:x\n").unwrap_err().is_resource_limit());
}

#[test]
fn recipe_locks_are_named_or_go_with_the_destination() {
    let mut runtime = RuntimeVariables::default();
    let folder = destination(parse("MAILDIR=/mail\n:0\nmbox:box\n").unwrap().expand(&[]).unwrap());
    let path = |lock: Option<&str>, to: Option<&Destination>, runtime: &RuntimeVariables| {
        recipe_lock_path(lock, to, TextValues::Runtime(runtime))
    };
    assert_eq!(path(None, Some(&folder), &runtime), Ok(None));
    assert_eq!(path(Some("/l"), None, &runtime), Ok(Some("/l".to_owned())));
    assert_eq!(
        path(Some(""), Some(&folder), &runtime),
        Ok(Some("/mail/box.lock".to_owned()))
    );
    runtime.set("LOCKEXT", ".lck");
    assert_eq!(
        path(Some(""), Some(&folder), &runtime),
        Ok(Some("/mail/box.lck".to_owned()))
    );
    assert_eq!(
        path(Some(""), None, &runtime),
        Err(OperationalError::PermanentDestination(
            "an implicit local lockfile requires a filesystem destination".to_owned()
        ))
    );
    runtime.set("LOCKEXT", "/x");
    assert_eq!(
        path(Some(""), Some(&folder), &runtime),
        Err(OperationalError::PermanentDestination("LOCKEXT must not contain '/'".to_owned()))
    );
}

#[test]
fn counts_tell_what_nested_blocks_hold() {
    let text = "A=1\n:0\n* x\n* < 5\n{\nB=2\n:0\n* $ y\nV=|cmd\n}\n";
    assert_eq!(
        parse(text).unwrap().parse_counts(),
        RcParseCounts { assignments: 3, statements: 4, recipes: 2, conditions: 3, regexes: 2 }
    );
}
