use procmail::config::assignments::parse_assignment;
use procmail::config::binding::{expand_runtime_bytes, expand_text, parse_linebuf};
use procmail::config::conditions::{parse_command_continuation, parse_condition_continuation};
use procmail::config::expansion::shift_known_positionals;
use procmail::config::expression_parser::{
    parse_assignment_word, parse_command_expression, parse_expression,
    parse_shell_condition_expression,
};
use procmail::config::paths::resolve_relative_path;
use procmail::config::shell_eval::{push_regex_escaped, TextValues};
use procmail::config::shell_pattern::{
    remove, transform_matching_bytes, Edge, PatternError, Selection,
};
use procmail::config::syntax_cursor::SyntaxCursor;
use procmail::config::tables::{ExpandedValue, NameTable};
use procmail::config::{parse, CaseDirection, RecipeAction, Statement};
use procmail::runtime::RuntimeVariables;

fn chars(text: &str) -> Vec<char> {
    text.chars().collect()
}

fn table(entries: &[(&str, &str)]) -> NameTable<ExpandedValue> {
    let mut known = NameTable::new();
    for (name, value) in entries {
        known.insert((*name).to_owned(), ExpandedValue { text: (*value).to_owned(), depth: 0 });
    }
    known
}

fn expand(input: &str, entries: &[(&str, &str)]) -> Result<String, String> {
    match expand_text(input, 5, 1000, &table(entries)) {
        Ok(value) => Ok(value.text),
        Err(error) => {
            assert_eq!(error.line, 5);
            Err(error.message)
        }
    }
}

#[test]
fn plain_and_single_quoted_text_stands_for_itself() {
    for text in ["", "plain", "a b#c", "100%", "~x"] {
        assert_eq!(parse_expression(text, 1).unwrap().literal_text().unwrap(), text);
        assert_eq!(expand(text, &[]).unwrap(), text);
    }
    for text in ["", "$HOME", "a\\b", "`date`", "\"x\""] {
        let quoted = format!("'{text}'");
        assert_eq!(parse_expression(&quoted, 1).unwrap().literal_text().unwrap(), text);
    }
}

#[test]
fn substituted_values_are_not_scanned_again() {
    assert_eq!(
        expand("<$A>${B}", &[("A", "$B `x` '"), ("B", "b")]).unwrap(),
        "<$B `x` '>b"
    );
}

#[test]
fn parameter_operations_select_words() {
    let known = [("SET", "value"), ("EMPTY", "")];
    for (input, expected) in [
        ("${SET:-word}", "value"),
        ("${EMPTY:-word}", "word"),
        ("${EMPTY-word}", ""),
        ("${UNSET-word}", "word"),
        ("${SET:+word}", "word"),
        ("${EMPTY:+word}", ""),
        ("${EMPTY+word}", "word"),
        ("${SET#va}", "lue"),
        ("${SET##*l}", "ue"),
        ("${SET%ue}", "val"),
        ("${SET%%l*}", "va"),
        ("${SET^}", "Value"),
        ("${SET^^}", "VALUE"),
        ("${UNSET:-${SET:-x}}", "value"),
    ] {
        assert_eq!(expand(input, &known).unwrap(), expected, "{input}");
    }
}

#[test]
fn unterminated_expressions_are_refused() {
    for (input, message) in [
        ("'x", "unterminated single-quoted expression"),
        ("\"x", "unterminated double-quoted expression"),
        ("${X:-y", "variable reference is missing '}'"),
        ("${X", "unsupported parameter expansion operator"),
    ] {
        let error = parse_expression(input, 9).unwrap_err();
        assert_eq!(error.line, 9);
        assert_eq!(error.message, message);
    }
}

#[test]
fn commands_are_parts_only_where_they_may_stand() {
    assert!(parse_command_expression("a`date`b", 1).unwrap().unwrap().has_commands());
    assert!(parse_command_expression("plain", 1).unwrap().is_none());
    assert!(!parse_shell_condition_expression("^Subject", 1).unwrap().has_commands());
    let word = parse_assignment_word(&chars("`date` # now"), 1).unwrap();
    assert_eq!(word.source, "`date`");
    assert!(word.expression.has_commands());
    assert_eq!(
        parse_assignment_word(&chars("one two"), 1).map(|_| ()).unwrap_err().message,
        "assignment value contains more than one shell word"
    );
}

#[test]
fn values_without_expressions_expand_to_themselves_or_fail() {
    let kept = parse_assignment(&chars("A=plain"), 1).unwrap().unwrap();
    assert!(kept.expansion.is_none());
    assert_eq!(
        parse_expression(&kept.value, 1).unwrap().literal_text().unwrap(),
        "plain"
    );
    let deferred = parse_assignment(&chars("A=${1bad}"), 1).unwrap().unwrap();
    assert!(deferred.expansion.is_none());
    assert!(parse_expression(&deferred.value, 1).is_err());
    assert!(parse_assignment(&chars("no assignment"), 1).unwrap().is_none());
}

#[test]
fn byte_values_pass_through_expansion() {
    let mut values: NameTable<Vec<u8>> = NameTable::new();
    values.insert("MATCH".to_owned(), vec![0xff, 0x00]);
    assert_eq!(
        expand_runtime_bytes("<$MATCH>", 1, 10, &values).unwrap(),
        vec![b'<', 0xff, 0x00, b'>']
    );
    assert!(expand_runtime_bytes("<$MATCH>", 1, 3, &values).is_err());
    assert_eq!(parse_linebuf("128", 1), Ok(128));
    assert!(parse_linebuf("127", 1).is_err());
}

#[test]
fn removals_take_the_shortest_or_the_longest_match() {
    let value = b"one.two.three";
    for (pattern, edge, selection, expected) in [
        (&b"*."[..], Edge::Prefix, Selection::Shortest, &b"two.three"[..]),
        (b"*.", Edge::Prefix, Selection::Longest, b"three"),
        (b".*", Edge::Suffix, Selection::Shortest, b"one.two"),
        (b".*", Edge::Suffix, Selection::Longest, b"one"),
        (b"x*", Edge::Prefix, Selection::Longest, b"one.two.three"),
        (b"[no]*[!a-z]", Edge::Prefix, Selection::Shortest, b"two.three"),
    ] {
        assert_eq!(remove(value, pattern, edge, selection).unwrap(), expected);
    }
    assert_eq!(
        transform_matching_bytes(b"banana", b"[a]", true, CaseDirection::Upper).unwrap(),
        b"bAnAnA"
    );
    assert_eq!(
        transform_matching_bytes(b"ABA", b"A", false, CaseDirection::Lower).unwrap(),
        b"aBA"
    );
}

#[test]
fn complex_patterns_are_refused_before_they_run() {
    let value = vec![b'a'; 60_000];
    let pattern = b"*a*a*a*a*a*a*a*a*b".to_vec();
    match remove(&value, &pattern, Edge::Prefix, Selection::Longest) {
        Err(PatternError::TooComplex { .. }) => {}
        other => assert_eq!(other.unwrap(), value),
    }
}

#[test]
fn values_in_patterns_lose_their_meaning() {
    let mut output = Vec::new();
    push_regex_escaped(&mut output, b"a.b*[c]", 100, 1).unwrap();
    assert_eq!(output, b"(?:)a\\.b\\*\\[c\\]");
    assert!(push_regex_escaped(&mut output, b"....", 25, 1).is_err());
}

#[test]
fn relative_paths_start_at_a_base() {
    assert_eq!(resolve_relative_path("in", Some("/mail"), 1).unwrap(), "/mail/in");
    assert_eq!(resolve_relative_path("in", Some("/mail/"), 1).unwrap(), "/mail/in");
    assert_eq!(resolve_relative_path("/in", Some("/mail"), 1).unwrap(), "/in");
}

#[test]
fn shifting_renumbers_the_arguments() {
    let mut known = table(&[("#", "3"), ("1", "a"), ("2", "b"), ("3", "c"), ("X", "x")]);
    shift_known_positionals(&mut known, 2);
    let text = |known: &NameTable<ExpandedValue>, name: &str| {
        known.get(name).map(|value| value.text.clone()).unwrap_or_default()
    };
    assert_eq!(text(&known, "1"), "c");
    assert_eq!(text(&known, "2"), "");
    assert_eq!(text(&known, "3"), "");
    assert_eq!(text(&known, "X"), "x");
}

#[test]
fn conditions_go_on_over_several_lines() {
    let lines: Vec<Vec<char>> = ["* ^Subject: \\", "  one", "maildir:x"].iter().map(|l| chars(l)).collect();
    let (condition, next) = parse_condition_continuation(&lines, 0, 1000).unwrap();
    assert_eq!(next, 2);
    let text: String = condition.iter().collect();
    assert!(text.contains("Subject"), "{text}");
    assert!(text.ends_with("one"), "{text}");
    assert!(!text.contains('\\'), "{text}");

    let lines: Vec<Vec<char>> = ["| cat \\", "x", "y"].iter().map(|l| chars(l)).collect();
    let (command, next) =
        parse_command_continuation(&lines, 0, &chars("cat \\"), 1000, "pipe command").unwrap();
    assert_eq!(next, 2);
    assert!(command.starts_with("cat"), "{command}");
    assert!(command.ends_with('x'), "{command}");
    assert!(parse_command_continuation(&lines, 0, &chars("cat \\"), 3, "pipe command").is_err());
}

#[test]
fn a_cursor_reads_words() {
    let source = chars("  set  X-Name: rest of it ");
    let mut cursor = SyntaxCursor::new(&source);
    assert!(!cursor.keyword("add"));
    assert!(cursor.keyword("set"));
    assert_eq!(cursor.word().unwrap().iter().collect::<String>(), "X-Name:");
    assert!(!cursor.is_end());
    assert_eq!(cursor.remainder().iter().collect::<String>(), "rest of it ");
    assert!(cursor.is_end());
    assert_eq!(cursor.offset(), source.len());
    assert_eq!(cursor.word(), None);
}

#[test]
fn comments_and_blank_lines_say_nothing_anywhere() {
    let plain = parse("A=1\n:0\nmaildir:x\n").unwrap();
    let spaced = parse("# first\n\nA=1\n\n# second\n:0\n\n# third\nmaildir:x\n#last\n").unwrap();
    assert_eq!(plain.statements.len(), spaced.statements.len());
    match (&plain.statements[1], &spaced.statements[1]) {
        (Statement::Recipe(a), Statement::Recipe(b)) => {
            assert_eq!(a.options, b.options);
            assert_eq!(b.line, 6);
            assert_eq!(b.action_line, 9);
        }
        _ => panic!("no recipe"),
    }
}

#[test]
fn binding_keeps_what_a_destination_leads_to() {
    let config = parse("MAILDIR=/mail\n:0\nmaildir:${BOX:-in}/${LASTFOLDER:-${NAME:-first}}\n").unwrap();
    let destination = match &config.statements[1] {
        Statement::Recipe(recipe) => match &recipe.action {
            RecipeAction::Deliver(destination) => destination,
            other => panic!("no destination: {other:?}"),
        },
        other => panic!("no recipe: {other:?}"),
    };
    let mut runtime = RuntimeVariables::default();
    runtime.set("BOX", "/mail/box");
    let bound = destination.bind_with(TextValues::Runtime(&runtime)).unwrap();
    assert_eq!(
        bound.resolve_with(TextValues::Runtime(&runtime)).unwrap(),
        destination.resolve_with(TextValues::Runtime(&runtime)).unwrap()
    );
    let mut later = RuntimeVariables::default();
    later.set("BOX", "/other");
    later.set("LASTFOLDER", "last");
    later.set("NAME", "second");
    assert_eq!(
        bound.resolve_with(TextValues::Runtime(&later)).unwrap().path(),
        "/mail/box/last"
    );
}
