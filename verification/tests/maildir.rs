use procmail::config::parse;
use procmail::delivery::failure::IoErrorKind;
use procmail::delivery::maildir::{
    directory_steps, unique_name, Durability, MAILDIR_NAME_LEN, MAILDIR_NAME_PREFIX,
};

#[test]
fn generated_names_have_a_fixed_safe_shape() {
    let name = unique_name().unwrap();

    assert_eq!(name.len(), MAILDIR_NAME_LEN);
    assert!(name.starts_with(MAILDIR_NAME_PREFIX));
    assert!(
        name[MAILDIR_NAME_PREFIX.len()..]
            .bytes()
            .all(|byte| byte.is_ascii_hexdigit())
    );
}

#[test]
fn random_source_distinguishes_generated_names() {
    let first = unique_name().unwrap();
    let second = unique_name().unwrap();

    assert_ne!(first, second);
    assert_eq!(first.len(), MAILDIR_NAME_LEN);
    assert_eq!(second.len(), MAILDIR_NAME_LEN);
}

#[test]
fn reads_explicit_durability_policy_in_statement_order() {
    for (value, expected) in [
        ("none", Durability::Nothing),
        ("file", Durability::File),
        ("full", Durability::Full),
    ] {
        let config = parse(&format!("DURABILITY={value}\n:0\nmaildir:box\n"))
            .unwrap()
            .expand(&[])
            .unwrap();
        assert_eq!(Durability::from_config(&config).unwrap(), expected);
    }

    let config = parse("DURABILITY=file\nDURABILITY=none\n:0\nmaildir:box\n")
        .unwrap()
        .expand(&[])
        .unwrap();
    assert_eq!(Durability::from_config(&config).unwrap(), Durability::Nothing);
}

#[test]
fn rejects_unknown_durability_before_delivery() {
    let config = parse("DURABILITY=strong\n:0\nmaildir:box\n")
        .unwrap()
        .expand(&[])
        .unwrap();

    assert!(Durability::from_config(&config).is_err());
}

#[test]
fn rejects_parent_components() {
    let error = directory_steps("mail/../dir").err().unwrap();
    assert_eq!(error.kind, IoErrorKind::InvalidInput);
}
