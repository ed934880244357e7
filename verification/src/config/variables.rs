//! The variables that the program knows by name: who may set them, what their
//! values may be, and those that a caller supplies.

use vstd::prelude::*;
use vstd::string::*;

use crate::config::{
    MAX_ASSIGNMENT_NAME_LEN, MAX_ASSIGNMENT_VALUE_LEN, MAX_PATH_EXPRESSION_LEN,
    MAX_SHELL_SETTING_LEN,
};
use crate::text::{self, to_chars, from_chars, text_len, same_text, is_ascii_digit, is_variable_name, has_char, split_at_char, strip_text, parse_unsigned, decimal_text, text3, text5, numbered};

verus! {

pub const MAX_COMMAND_LINE_VARIABLES: usize = 256;

pub const MAX_LOCK_TIMEOUT_SECONDS: u64 = 86_400;

pub const MAX_PROCESS_TIMEOUT_SECONDS: u64 = 86_400;

pub const DEFAULT_LOCK_EXT: &'static str = ".lock";

/// The file mode bits that are withheld where `UMASK` is not set: octal 077.
pub const DEFAULT_UMASK: u32 = 0o077;

pub const MAX_HOSTNAME_LEN: usize = 255;

pub const PROGRAM_VERSION: &'static str = "0.1.0";

/// Variables of procmail that have no counterpart here.
pub open spec fn unsupported(name: Seq<char>) -> bool {
    ||| name == "DEFAULT"@
    ||| name == "ORGMAIL"@
    ||| name == "COMSAT"@
    ||| name == "DELIVERED"@
    ||| name == "LOG"@
    ||| name == "MSGPREFIX"@
    ||| name == "NORESRETRY"@
    ||| name == "PROCMAIL_OVERFLOW"@
    ||| name == "SHELLMETAS"@
    ||| name == "SUSPEND"@
    ||| name == "SENDMAIL"@
    ||| name == "SENDMAILFLAGS"@
    ||| name == "SHIFT"@
}

/// The names of the variables of procmail that have no counterpart here.
pub fn unsupported_procmail_variables() -> (r: Vec<&'static str>)
    ensures
        forall|name: Seq<char>|
            unsupported(name) == exists|i: int| 0 <= i < r@.len() && #[trigger] r@[i]@ == name,
{
    let names = vec![
        "DEFAULT",
        "ORGMAIL",
        "COMSAT",
        "DELIVERED",
        "LOG",
        "MSGPREFIX",
        "NORESRETRY",
        "PROCMAIL_OVERFLOW",
        "SHELLMETAS",
        "SUSPEND",
        "SENDMAIL",
        "SENDMAILFLAGS",
        "SHIFT",
    ];
    assert forall|name: Seq<char>|
        unsupported(name) == exists|i: int|
            0 <= i < names@.len() && #[trigger] names@[i]@ == name by {
        assert(names@[0]@ == "DEFAULT"@);
        assert(names@[1]@ == "ORGMAIL"@);
        assert(names@[2]@ == "COMSAT"@);
        assert(names@[3]@ == "DELIVERED"@);
        assert(names@[4]@ == "LOG"@);
        assert(names@[5]@ == "MSGPREFIX"@);
        assert(names@[6]@ == "NORESRETRY"@);
        assert(names@[7]@ == "PROCMAIL_OVERFLOW"@);
        assert(names@[8]@ == "SHELLMETAS"@);
        assert(names@[9]@ == "SUSPEND"@);
        assert(names@[10]@ == "SENDMAIL"@);
        assert(names@[11]@ == "SENDMAILFLAGS"@);
        assert(names@[12]@ == "SHIFT"@);
    }
    names
}

/// Whether `name` is a variable of procmail that has no counterpart here.
fn is_unsupported(name: &str) -> (r: bool)
    ensures
        r == unsupported(name@),
{
    let names = unsupported_procmail_variables();
    let mut i: usize = 0;
    while i < names.len()
        invariant
            i <= names@.len(),
            forall|j: int| 0 <= j < i ==> #[trigger] names@[j]@ != name@,
            unsupported(name@) == exists|i: int|
                0 <= i < names@.len() && #[trigger] names@[i]@ == name@,
        decreases names.len() - i,
    {
        if same_text(names[i], name) {
            assert(names@[i as int]@ == name@);
            return true;
        }
        i = i + 1;
    }
    false
}

#[derive(Debug, Clone, Copy, PartialEq, Eq, Structural)]
pub enum MessageLimitVariable {
    MessageSize,
    HeadersSize,
    BodySize,
    HeaderLineSize,
    HeaderFieldSize,
}

#[derive(Debug, Clone, Copy, PartialEq, Eq, Structural)]
pub enum RcLimitVariable {
    Assignments,
    Statements,
    Recipes,
    Conditions,
    Regexes,
    ConditionsPerRecipe,
    NestingDepth,
}

/// What an assignment sets.
#[derive(Debug, Clone, Copy, PartialEq, Eq, Structural)]
pub enum AssignmentTarget {
    Maildir,
    LogFile,
    LogDetail,
    LogAbstract,
    Verbose,
    Durability,
    LockMethod,
    LockFile,
    LockExt,
    LockTimeout,
    LineBuf,
    ProcessTimeout,
    Umask,
    Trap,
    Shell,
    ShellFlags,
    Path,
    ExitCode,
    Host,
    MessageLimit(MessageLimitVariable),
    RcLimit(RcLimitVariable),
    User,
}

/// The assignments whose value is a path.
#[derive(Debug, Clone, Copy, PartialEq, Eq, Structural)]
pub enum AssignmentPath {
    Maildir,
    LogFile,
    LockFile,
}

/// Where the value of a variable comes from.
#[derive(Debug, Clone, Copy, PartialEq, Eq, Structural)]
pub enum VariableSource {
    RcFile,
    CommandLine,
    Environment,
    System,
    Runtime,
}

/// Who may set a variable.
#[derive(Debug, Clone, Copy, PartialEq, Eq, Structural)]
pub enum VariablePolicy {
    RcOnly(AssignmentTarget),
    RcOrCommandLine(AssignmentTarget),
    RuntimeOnly,
    ReadOnly,
    Unsupported,
}

/// Names made of `MATCH` and one or more digits.
pub open spec fn numbered_match(name: Seq<char>) -> bool {
    text::begins(name, "MATCH"@) && name.len() > "MATCH"@.len() && all_digits(
        text::after_prefix(name, "MATCH"@),
    )
}

/// Whether every character is a decimal digit.
pub open spec fn all_digits(s: Seq<char>) -> bool {
    forall|i: int| 0 <= i < s.len() ==> text::ascii_digit(#[trigger] s[i])
}

/// The policy of the message limit variables.
pub open spec fn message_limit_named(name: Seq<char>) -> Option<MessageLimitVariable> {
    if name == "LIMIT_MSG_SIZE"@ {
        Some(MessageLimitVariable::MessageSize)
    } else if name == "LIMIT_MSG_HEADERS"@ {
        Some(MessageLimitVariable::HeadersSize)
    } else if name == "LIMIT_MSG_BODY"@ {
        Some(MessageLimitVariable::BodySize)
    } else if name == "LIMIT_HEADER_LINE"@ {
        Some(MessageLimitVariable::HeaderLineSize)
    } else if name == "LIMIT_HEADER_FIELD"@ {
        Some(MessageLimitVariable::HeaderFieldSize)
    } else {
        None
    }
}

pub open spec fn rc_limit_named(name: Seq<char>) -> Option<RcLimitVariable> {
    if name == "LIMIT_MAX_ASSIGNMENTS"@ {
        Some(RcLimitVariable::Assignments)
    } else if name == "LIMIT_RC_STATEMENTS"@ {
        Some(RcLimitVariable::Statements)
    } else if name == "LIMIT_RC_RECIPES"@ {
        Some(RcLimitVariable::Recipes)
    } else if name == "LIMIT_RC_CONDITIONS"@ {
        Some(RcLimitVariable::Conditions)
    } else if name == "LIMIT_RC_REGEXES"@ {
        Some(RcLimitVariable::Regexes)
    } else if name == "LIMIT_RECIPE_CONDITIONS"@ {
        Some(RcLimitVariable::ConditionsPerRecipe)
    } else if name == "LIMIT_RECIPE_NESTING"@ {
        Some(RcLimitVariable::NestingDepth)
    } else {
        None
    }
}

/// The settings that only an rc file may assign.
pub open spec fn rc_setting_named(name: Seq<char>) -> Option<AssignmentTarget> {
    if name == "MAILDIR"@ {
        Some(AssignmentTarget::Maildir)
    } else if name == "LOGFILE"@ {
        Some(AssignmentTarget::LogFile)
    } else if name == "LOGDETAIL"@ {
        Some(AssignmentTarget::LogDetail)
    } else if name == "LOGABSTRACT"@ {
        Some(AssignmentTarget::LogAbstract)
    } else if name == "VERBOSE"@ {
        Some(AssignmentTarget::Verbose)
    } else if name == "DURABILITY"@ {
        Some(AssignmentTarget::Durability)
    } else if name == "LOCKMETHOD"@ {
        Some(AssignmentTarget::LockMethod)
    } else if name == "LOCKFILE"@ {
        Some(AssignmentTarget::LockFile)
    } else if name == "LOCKEXT"@ {
        Some(AssignmentTarget::LockExt)
    } else if name == "LOCKTIMEOUT"@ {
        Some(AssignmentTarget::LockTimeout)
    } else if name == "LINEBUF"@ {
        Some(AssignmentTarget::LineBuf)
    } else if name == "TIMEOUT"@ {
        Some(AssignmentTarget::ProcessTimeout)
    } else if name == "UMASK"@ {
        Some(AssignmentTarget::Umask)
    } else if name == "TRAP"@ {
        Some(AssignmentTarget::Trap)
    } else if name == "EXITCODE"@ {
        Some(AssignmentTarget::ExitCode)
    } else if name == "HOST"@ {
        Some(AssignmentTarget::Host)
    } else {
        None
    }
}

/// The settings that an rc file or the command line may assign.
pub open spec fn shell_setting_named(name: Seq<char>) -> Option<AssignmentTarget> {
    if name == "SHELL"@ {
        Some(AssignmentTarget::Shell)
    } else if name == "SHELLFLAGS"@ {
        Some(AssignmentTarget::ShellFlags)
    } else if name == "PATH"@ {
        Some(AssignmentTarget::Path)
    } else {
        None
    }
}

/// Who may set the variable `name`.
pub open spec fn policy_of(name: Seq<char>) -> VariablePolicy {
    if let Some(target) = rc_setting_named(name) {
        VariablePolicy::RcOnly(target)
    } else if let Some(target) = shell_setting_named(name) {
        VariablePolicy::RcOrCommandLine(target)
    } else if name == "LASTFOLDER"@ || name == "MATCH"@ || numbered_match(name) {
        VariablePolicy::RuntimeOnly
    } else if let Some(limit) = message_limit_named(name) {
        VariablePolicy::RcOnly(AssignmentTarget::MessageLimit(limit))
    } else if let Some(limit) = rc_limit_named(name) {
        VariablePolicy::RcOnly(AssignmentTarget::RcLimit(limit))
    } else if name == "PROCMAIL_VERSION"@ {
        VariablePolicy::ReadOnly
    } else if unsupported(name) {
        VariablePolicy::Unsupported
    } else {
        VariablePolicy::RcOrCommandLine(AssignmentTarget::User)
    }
}

fn rc_setting(name: &str) -> (r: Option<AssignmentTarget>)
    ensures
        r == rc_setting_named(name@),
{
    if same_text(name, "MAILDIR") {
        Some(AssignmentTarget::Maildir)
    } else if same_text(name, "LOGFILE") {
        Some(AssignmentTarget::LogFile)
    } else if same_text(name, "LOGDETAIL") {
        Some(AssignmentTarget::LogDetail)
    } else if same_text(name, "LOGABSTRACT") {
        Some(AssignmentTarget::LogAbstract)
    } else if same_text(name, "VERBOSE") {
        Some(AssignmentTarget::Verbose)
    } else if same_text(name, "DURABILITY") {
        Some(AssignmentTarget::Durability)
    } else if same_text(name, "LOCKMETHOD") {
        Some(AssignmentTarget::LockMethod)
    } else if same_text(name, "LOCKFILE") {
        Some(AssignmentTarget::LockFile)
    } else if same_text(name, "LOCKEXT") {
        Some(AssignmentTarget::LockExt)
    } else if same_text(name, "LOCKTIMEOUT") {
        Some(AssignmentTarget::LockTimeout)
    } else if same_text(name, "LINEBUF") {
        Some(AssignmentTarget::LineBuf)
    } else if same_text(name, "TIMEOUT") {
        Some(AssignmentTarget::ProcessTimeout)
    } else if same_text(name, "UMASK") {
        Some(AssignmentTarget::Umask)
    } else if same_text(name, "TRAP") {
        Some(AssignmentTarget::Trap)
    } else if same_text(name, "EXITCODE") {
        Some(AssignmentTarget::ExitCode)
    } else if same_text(name, "HOST") {
        Some(AssignmentTarget::Host)
    } else {
        None
    }
}

fn shell_setting(name: &str) -> (r: Option<AssignmentTarget>)
    ensures
        r == shell_setting_named(name@),
{
    if same_text(name, "SHELL") {
        Some(AssignmentTarget::Shell)
    } else if same_text(name, "SHELLFLAGS") {
        Some(AssignmentTarget::ShellFlags)
    } else if same_text(name, "PATH") {
        Some(AssignmentTarget::Path)
    } else {
        None
    }
}

fn message_limit(name: &str) -> (r: Option<MessageLimitVariable>)
    ensures
        r == message_limit_named(name@),
{
    if same_text(name, "LIMIT_MSG_SIZE") {
        Some(MessageLimitVariable::MessageSize)
    } else if same_text(name, "LIMIT_MSG_HEADERS") {
        Some(MessageLimitVariable::HeadersSize)
    } else if same_text(name, "LIMIT_MSG_BODY") {
        Some(MessageLimitVariable::BodySize)
    } else if same_text(name, "LIMIT_HEADER_LINE") {
        Some(MessageLimitVariable::HeaderLineSize)
    } else if same_text(name, "LIMIT_HEADER_FIELD") {
        Some(MessageLimitVariable::HeaderFieldSize)
    } else {
        None
    }
}

fn rc_limit(name: &str) -> (r: Option<RcLimitVariable>)
    ensures
        r == rc_limit_named(name@),
{
    if same_text(name, "LIMIT_MAX_ASSIGNMENTS") {
        Some(RcLimitVariable::Assignments)
    } else if same_text(name, "LIMIT_RC_STATEMENTS") {
        Some(RcLimitVariable::Statements)
    } else if same_text(name, "LIMIT_RC_RECIPES") {
        Some(RcLimitVariable::Recipes)
    } else if same_text(name, "LIMIT_RC_CONDITIONS") {
        Some(RcLimitVariable::Conditions)
    } else if same_text(name, "LIMIT_RC_REGEXES") {
        Some(RcLimitVariable::Regexes)
    } else if same_text(name, "LIMIT_RECIPE_CONDITIONS") {
        Some(RcLimitVariable::ConditionsPerRecipe)
    } else if same_text(name, "LIMIT_RECIPE_NESTING") {
        Some(RcLimitVariable::NestingDepth)
    } else {
        None
    }
}

fn is_all_digits(s: &[char]) -> (r: bool)
    ensures
        r == all_digits(s@),
{
    let mut i: usize = 0;
    while i < s.len()
        invariant
            i <= s.len(),
            forall|j: int| 0 <= j < i ==> text::ascii_digit(#[trigger] s@[j]),
        decreases s.len() - i,
    {
        if !is_ascii_digit(s[i]) {
            assert(!text::ascii_digit(s@[i as int]));
            return false;
        }
        i = i + 1;
    }
    true
}

fn is_numbered_match(name: &str) -> (r: bool)
    ensures
        r == numbered_match(name@),
{
    let chars = to_chars(name);
    match strip_text(chars.as_slice(), "MATCH") {
        Some(suffix) => suffix.len() > 0 && is_all_digits(suffix),
        None => false,
    }
}

/// Who may set the variable `name`.
pub fn variable_policy(name: &str) -> (r: VariablePolicy)
    ensures
        r == policy_of(name@),
{
    if let Some(target) = rc_setting(name) {
        return VariablePolicy::RcOnly(target);
    }
    if let Some(target) = shell_setting(name) {
        return VariablePolicy::RcOrCommandLine(target);
    }
    if same_text(name, "LASTFOLDER") || same_text(name, "MATCH") || is_numbered_match(name) {
        return VariablePolicy::RuntimeOnly;
    }
    if let Some(limit) = message_limit(name) {
        return VariablePolicy::RcOnly(AssignmentTarget::MessageLimit(limit));
    }
    if let Some(limit) = rc_limit(name) {
        return VariablePolicy::RcOnly(AssignmentTarget::RcLimit(limit));
    }
    if same_text(name, "PROCMAIL_VERSION") {
        return VariablePolicy::ReadOnly;
    }
    if is_unsupported(name) {
        return VariablePolicy::Unsupported;
    }
    VariablePolicy::RcOrCommandLine(AssignmentTarget::User)
}

/// The most bytes that an assigned value may take.
pub open spec fn value_limit(target: AssignmentTarget) -> usize {
    match target {
        AssignmentTarget::Maildir
        | AssignmentTarget::LogFile
        | AssignmentTarget::LockFile
        | AssignmentTarget::LockExt => MAX_PATH_EXPRESSION_LEN,
        AssignmentTarget::Shell
        | AssignmentTarget::ShellFlags
        | AssignmentTarget::Path => MAX_SHELL_SETTING_LEN,
        _ => MAX_ASSIGNMENT_VALUE_LEN,
    }
}

/// The most bytes that an assigned value may take.
pub fn assignment_value_limit(target: AssignmentTarget) -> (r: usize)
    ensures
        r == value_limit(target),
{
    match target {
        AssignmentTarget::Maildir
        | AssignmentTarget::LogFile
        | AssignmentTarget::LockFile
        | AssignmentTarget::LockExt => MAX_PATH_EXPRESSION_LEN,
        AssignmentTarget::Shell
        | AssignmentTarget::ShellFlags
        | AssignmentTarget::Path => MAX_SHELL_SETTING_LEN,
        _ => MAX_ASSIGNMENT_VALUE_LEN,
    }
}

impl VariablePolicy {
    /// Whether this policy lets `source` set the variable.
    pub open spec fn admits(self, source: VariableSource) -> bool {
        match self {
            VariablePolicy::RcOnly(_) => source == VariableSource::RcFile,
            VariablePolicy::RcOrCommandLine(_) => source == VariableSource::RcFile || source
                == VariableSource::CommandLine,
            VariablePolicy::RuntimeOnly => source == VariableSource::Runtime,
            VariablePolicy::ReadOnly | VariablePolicy::Unsupported => false,
        }
    }

    /// What an assignment from `source` sets.
    pub open spec fn target_for(self, source: VariableSource) -> Option<AssignmentTarget> {
        match self {
            VariablePolicy::RcOnly(target) => if source == VariableSource::RcFile {
                Some(target)
            } else {
                None
            },
            VariablePolicy::RcOrCommandLine(target) => if source == VariableSource::RcFile || source
                == VariableSource::CommandLine {
                Some(target)
            } else {
                None
            },
            _ => None,
        }
    }

    /// Whether this policy lets `source` set the variable.
    pub fn allows(self, source: VariableSource) -> (r: bool)
        ensures
            r == self.admits(source),
    {
        match self {
            VariablePolicy::RcOnly(_) => source == VariableSource::RcFile,
            VariablePolicy::RcOrCommandLine(_) => source == VariableSource::RcFile || source
                == VariableSource::CommandLine,
            VariablePolicy::RuntimeOnly => source == VariableSource::Runtime,
            VariablePolicy::ReadOnly | VariablePolicy::Unsupported => false,
        }
    }

    /// What an assignment from `source` sets.
    pub fn assignment_target(self, source: VariableSource) -> (r: Option<AssignmentTarget>)
        ensures
            r == self.target_for(source),
    {
        match self {
            VariablePolicy::RcOnly(target) => if source == VariableSource::RcFile {
                Some(target)
            } else {
                None
            },
            VariablePolicy::RcOrCommandLine(target) => if source == VariableSource::RcFile || source
                == VariableSource::CommandLine {
                Some(target)
            } else {
                None
            },
            _ => None,
        }
    }
}

/// The value of octal digits.
pub open spec fn octal_value(s: Seq<char>) -> Option<nat>
    decreases s.len(),
{
    if s.len() == 0 {
        Some(0)
    } else {
        match octal_value(s.subrange(0, s.len() - 1)) {
            Some(head) => if '0' <= s[s.len() - 1] <= '7' {
                Some(8 * head + (s[s.len() - 1] as nat - '0' as nat) as nat)
            } else {
                None
            },
            None => None,
        }
    }
}

/// The file mode mask that one to four octal digits write.
pub open spec fn umask_of(value: Seq<char>) -> Option<nat> {
    if value.len() == 0 || value.len() > 4 {
        None
    } else {
        match octal_value(value) {
            Some(mask) => if mask <= 0o777 {
                Some(mask)
            } else {
                None
            },
            None => None,
        }
    }
}

pub open spec fn umask_message() -> Seq<char> {
    "UMASK must be an octal integer from 0000 to 0777"@
}

proof fn lemma_octal_prefix(s: Seq<char>, n: int)
    requires
        0 <= n <= s.len(),
    ensures
        octal_value(s) is Some ==> octal_value(s.subrange(0, n)) is Some,
    decreases s.len() - n,
{
    if n < s.len() {
        let shorter = s.subrange(0, s.len() - 1);
        lemma_octal_prefix(shorter, n);
        assert(shorter.subrange(0, n) =~= s.subrange(0, n));
    } else {
        assert(s.subrange(0, n) =~= s);
    }
}

/// Reads a file mode mask.
pub fn parse_umask(value: &str) -> (r: Result<u32, String>)
    ensures
        match umask_of(value@) {
            Some(mask) => r == Ok::<u32, String>(mask as u32) && mask <= 0o777,
            None => r matches Err(message) && message@ == umask_message(),
        },
{
    let digits = to_chars(value);
    if digits.len() == 0 || digits.len() > 4 {
        return Err("UMASK must be an octal integer from 0000 to 0777".to_owned());
    }
    let mut mask: u32 = 0;
    let mut i: usize = 0;
    assert(digits@.subrange(0, 0) =~= Seq::<char>::empty());
    while i < digits.len()
        invariant
            i <= digits@.len() <= 4,
            digits@.len() > 0,
            digits@ == value@,
            octal_value(digits@.subrange(0, i as int)) == Some(mask as nat),
            i == 0 ==> mask == 0,
            i == 1 ==> mask < 8,
            i == 2 ==> mask < 64,
            i == 3 ==> mask < 512,
            i == 4 ==> mask < 4096,
        decreases digits.len() - i,
    {
        let c = digits[i];
        assert(digits@.subrange(0, i + 1).subrange(0, i as int) =~= digits@.subrange(0, i as int));
        proof {
            lemma_octal_prefix(digits@, i + 1);
        }
        if c < '0' || c > '7' {
            return Err("UMASK must be an octal integer from 0000 to 0777".to_owned());
        }
        mask = mask * 8 + (c as u32 - '0' as u32);
        i = i + 1;
    }
    assert(digits@.subrange(0, digits@.len() as int) =~= digits@);
    if mask > 0o777 {
        return Err("UMASK must be an octal integer from 0000 to 0777".to_owned());
    }
    Ok(mask)
}

/// Refuses a `TRAP` command that holds NUL.
pub fn validate_trap_command(value: &str) -> (r: Result<(), String>)
    ensures
        if value@.contains('\0') {
            r matches Err(message) && message@ == "TRAP command must not contain NUL"@
        } else {
            r is Ok
        },
{
    let chars = to_chars(value);
    if has_char(chars.as_slice(), '\0') {
        Err("TRAP command must not contain NUL".to_owned())
    } else {
        Ok(())
    }
}

/// Refuses a lock extension that is not part of a file name.
pub fn validate_lock_ext(value: &str) -> (r: Result<(), String>)
    ensures
        if value@.contains('\0') {
            r matches Err(message) && message@ == "LOCKEXT must not contain NUL"@
        } else if value@.contains('/') {
            r matches Err(message) && message@ == "LOCKEXT must not contain '/'"@
        } else {
            r is Ok
        },
{
    let chars = to_chars(value);
    if has_char(chars.as_slice(), '\0') {
        Err("LOCKEXT must not contain NUL".to_owned())
    } else if has_char(chars.as_slice(), '/') {
        Err("LOCKEXT must not contain '/'".to_owned())
    } else {
        Ok(())
    }
}

/// Admits `no` alone, which keeps header values out of the log.
pub fn validate_log_abstract(value: &str) -> (r: Result<(), String>)
    ensures
        if value@ == "no"@ {
            r is Ok
        } else {
            r matches Err(message) && message@
                == "LOGABSTRACT supports only 'no'; other values could log sensitive header values"@
        },
{
    if same_text(value, "no") {
        Ok(())
    } else {
        Err(
            "LOGABSTRACT supports only 'no'; other values could log sensitive header values".to_owned(),
        )
    }
}

/// Admits the names of the two lock methods.
pub fn validate_lock_method(value: &str) -> (r: Result<(), String>)
    ensures
        if value@ == "flock"@ || value@ == "dotlock"@ {
            r is Ok
        } else {
            r matches Err(message) && message@ == "LOCKMETHOD must be 'flock' or 'dotlock'"@
        },
{
    if same_text(value, "flock") || same_text(value, "dotlock") {
        Ok(())
    } else {
        Err("LOCKMETHOD must be 'flock' or 'dotlock'".to_owned())
    }
}

/// The number of seconds, from 1 to `max`, that `value` writes.
pub open spec fn seconds_of(value: Seq<char>, max: u64) -> Option<nat> {
    match text::unsigned_number(value, u64::MAX as nat) {
        Some(seconds) => if 1 <= seconds <= max {
            Some(seconds)
        } else {
            None
        },
        None => None,
    }
}

fn parse_seconds(value: &str, max: u64) -> (r: Option<u64>)
    ensures
        match seconds_of(value@, max) {
            Some(seconds) => r == Some(seconds as u64) && 1 <= seconds <= max,
            None => r is None,
        },
{
    let chars = to_chars(value);
    match parse_unsigned(chars.as_slice(), u64::MAX) {
        Some(seconds) => if 1 <= seconds && seconds <= max {
            Some(seconds)
        } else {
            None
        },
        None => None,
    }
}

/// Reads the longest wait for a lock.
pub fn parse_lock_timeout_seconds(value: &str) -> (r: Result<u64, String>)
    ensures
        match seconds_of(value@, MAX_LOCK_TIMEOUT_SECONDS) {
            Some(seconds) => r == Ok::<u64, String>(seconds as u64) && 1 <= seconds
                <= MAX_LOCK_TIMEOUT_SECONDS,
            None => r matches Err(message) && message@
                == "LOCKTIMEOUT must be an integer from 1 to 86400"@,
        },
{
    match parse_seconds(value, MAX_LOCK_TIMEOUT_SECONDS) {
        Some(seconds) => Ok(seconds),
        None => Err("LOCKTIMEOUT must be an integer from 1 to 86400".to_owned()),
    }
}

/// Reads the longest run of a command.
pub fn parse_process_timeout_seconds(value: &str) -> (r: Result<u64, String>)
    ensures
        match seconds_of(value@, MAX_PROCESS_TIMEOUT_SECONDS) {
            Some(seconds) => r == Ok::<u64, String>(seconds as u64) && 1 <= seconds
                <= MAX_PROCESS_TIMEOUT_SECONDS,
            None => r matches Err(message) && message@
                == "TIMEOUT must be an integer from 1 to 86400"@,
        },
{
    match parse_seconds(value, MAX_PROCESS_TIMEOUT_SECONDS) {
        Some(seconds) => Ok(seconds),
        None => Err("TIMEOUT must be an integer from 1 to 86400".to_owned()),
    }
}

/// What is wrong with `value` for `target`, if anything. Settings that are read
/// only when they are used are checked there.
pub open spec fn value_fault(target: AssignmentTarget, value: Seq<char>) -> Option<Seq<char>> {
    match target {
        AssignmentTarget::LogAbstract => if value == "no"@ {
            None
        } else {
            Some("LOGABSTRACT supports only 'no'; other values could log sensitive header values"@)
        },
        AssignmentTarget::LockExt => if value.contains('\0') {
            Some("LOCKEXT must not contain NUL"@)
        } else if value.contains('/') {
            Some("LOCKEXT must not contain '/'"@)
        } else {
            None
        },
        AssignmentTarget::Trap => if value.contains('\0') {
            Some("TRAP command must not contain NUL"@)
        } else {
            None
        },
        _ => None,
    }
}

impl AssignmentTarget {
    /// The kind of path that the value is, where it is one.
    pub open spec fn path_kind(self) -> Option<AssignmentPath> {
        match self {
            AssignmentTarget::Maildir => Some(AssignmentPath::Maildir),
            AssignmentTarget::LogFile => Some(AssignmentPath::LogFile),
            AssignmentTarget::LockFile => Some(AssignmentPath::LockFile),
            _ => None,
        }
    }

    /// The kind of path that the value is, where it is one.
    pub fn path(self) -> (r: Option<AssignmentPath>)
        ensures
            r == self.path_kind(),
    {
        match self {
            AssignmentTarget::Maildir => Some(AssignmentPath::Maildir),
            AssignmentTarget::LogFile => Some(AssignmentPath::LogFile),
            AssignmentTarget::LockFile => Some(AssignmentPath::LockFile),
            _ => None,
        }
    }

    /// Whether the assignment changes how the rest of an rc file is read.
    pub open spec fn steers_parsing(self) -> bool {
        self is LineBuf || self is RcLimit
    }

    /// Whether the assignment changes how the rest of an rc file is read.
    pub fn controls_rc_parsing(self) -> (r: bool)
        ensures
            r == self.steers_parsing(),
    {
        match self {
            AssignmentTarget::LineBuf => true,
            AssignmentTarget::RcLimit(_) => true,
            _ => false,
        }
    }

    /// Whether the assignment may stand on a path that only some messages
    /// take. Limits on messages and on rc files have to be known before.
    pub open spec fn may_be_conditional(self) -> bool {
        !self.steers_parsing() && !(self is MessageLimit)
    }

    /// Whether the assignment may stand on a path that only some messages
    /// take.
    pub fn supports_conditional_assignment(self) -> (r: bool)
        ensures
            r == self.may_be_conditional(),
    {
        match self {
            AssignmentTarget::LineBuf => false,
            AssignmentTarget::RcLimit(_) => false,
            AssignmentTarget::MessageLimit(_) => false,
            _ => true,
        }
    }

    /// Refuses a value that the target cannot have.
    pub fn validate_value(self, value: &str) -> (r: Result<(), String>)
        ensures
            match value_fault(self, value@) {
                Some(message) => r matches Err(found) && found@ == message,
                None => r is Ok,
            },
    {
        match self {
            AssignmentTarget::LogAbstract => validate_log_abstract(value),
            AssignmentTarget::LockExt => validate_lock_ext(value),
            AssignmentTarget::Trap => validate_trap_command(value),
            _ => Ok(()),
        }
    }
}

/// A variable that was given a value before any rc file was read.
#[derive(Debug, PartialEq, Eq)]
pub struct SuppliedVariable {
    name: String,
    value: String,
    source: VariableSource,
}

/// A supplied variable as its texts.
pub struct SuppliedModel {
    pub name: Seq<char>,
    pub value: Seq<char>,
    pub source: VariableSource,
}

impl View for SuppliedVariable {
    type V = SuppliedModel;

    closed spec fn view(&self) -> SuppliedModel {
        SuppliedModel { name: self.name@, value: self.value@, source: self.source }
    }
}

/// Why a supplied variable was refused.
#[derive(Debug, PartialEq, Eq)]
pub struct SuppliedVariableError {
    message: String,
}

impl View for SuppliedVariableError {
    type V = Seq<char>;

    closed spec fn view(&self) -> Seq<char> {
        self.message@
    }
}

impl SuppliedVariableError {
    fn new(message: String) -> (r: Self)
        ensures
            r@ == message@,
    {
        SuppliedVariableError { message }
    }

    pub fn message(&self) -> (r: &str)
        ensures
            r@ == self@,
    {
        self.message.as_str()
    }
}

/// What `NAME=VALUE` on the command line supplies, or why it is refused.
pub open spec fn supplied_by(input: Seq<char>) -> Result<SuppliedModel, Seq<char>> {
    match text::split_once(input, '=') {
        None => Err("--set value must have the form NAME=VALUE"@),
        Some((name, value)) => if text::byte_len(name) > MAX_ASSIGNMENT_NAME_LEN {
            Err(
                "--set name exceeds the hard limit of "@ + text::decimal(MAX_ASSIGNMENT_NAME_LEN as nat)
                    + " bytes"@,
            )
        } else if text::byte_len(value) > MAX_ASSIGNMENT_VALUE_LEN {
            Err(
                "--set value exceeds the hard limit of "@ + text::decimal(MAX_ASSIGNMENT_VALUE_LEN as nat)
                    + " bytes"@,
            )
        } else if !text::variable_name(name) {
            Err(
                "--set name must start with an ASCII letter or '_' and contain only ASCII letters, digits, or '_'"@,
            )
        } else if policy_of(name) is Unsupported {
            Err("procmail variable "@ + name + " is not supported"@)
        } else {
            match policy_of(name).target_for(VariableSource::CommandLine) {
                None => Err("variable "@ + name + " cannot be supplied with --set"@),
                Some(target) => if text::byte_len(value) > value_limit(target) {
                    Err(
                        "--set "@ + name + " value exceeds the hard limit of "@ + text::decimal(
                            value_limit(target) as nat,
                        ) + " bytes"@,
                    )
                } else {
                    Ok(SuppliedModel { name, value, source: VariableSource::CommandLine })
                },
            }
        },
    }
}

impl SuppliedVariable {
    /// Reads `NAME=VALUE` from the command line.
    pub fn parse(input: String) -> (r: Result<Self, SuppliedVariableError>)
        ensures
            match supplied_by(input@) {
                Ok(supplied) => r matches Ok(variable) && variable@ == supplied,
                Err(message) => r matches Err(error) && error@ == message,
            },
    {
        let chars = to_chars(input.as_str());
        let (name_chars, value_chars) = match split_at_char(chars.as_slice(), '=') {
            Some(parts) => parts,
            None => {
                return Err(
                    SuppliedVariableError::new(
                        "--set value must have the form NAME=VALUE".to_owned(),
                    ),
                );
            },
        };
        let name = from_chars(name_chars);
        let value = from_chars(value_chars);
        if text_len(name.as_str()) > MAX_ASSIGNMENT_NAME_LEN {
            return Err(
                SuppliedVariableError::new(
                    numbered(
                        "--set name exceeds the hard limit of ",
                        MAX_ASSIGNMENT_NAME_LEN,
                        " bytes",
                    ),
                ),
            );
        }
        if text_len(value.as_str()) > MAX_ASSIGNMENT_VALUE_LEN {
            return Err(
                SuppliedVariableError::new(
                    numbered(
                        "--set value exceeds the hard limit of ",
                        MAX_ASSIGNMENT_VALUE_LEN,
                        " bytes",
                    ),
                ),
            );
        }
        if !is_variable_name(name_chars) {
            return Err(
                SuppliedVariableError::new(
                    "--set name must start with an ASCII letter or '_' and contain only ASCII letters, digits, or '_'".to_owned(),
                ),
            );
        }
        let policy = variable_policy(name.as_str());
        if policy == VariablePolicy::Unsupported {
            return Err(
                SuppliedVariableError::new(
                    text3("procmail variable ", name.as_str(), " is not supported"),
                ),
            );
        }
        let target = match policy.assignment_target(VariableSource::CommandLine) {
            Some(target) => target,
            None => {
                return Err(
                    SuppliedVariableError::new(
                        text3("variable ", name.as_str(), " cannot be supplied with --set"),
                    ),
                );
            },
        };
        let limit = assignment_value_limit(target);
        if text_len(value.as_str()) > limit {
            let digits = decimal_text(limit);
            return Err(
                SuppliedVariableError::new(
                    text5(
                        "--set ",
                        name.as_str(),
                        " value exceeds the hard limit of ",
                        digits.as_str(),
                        " bytes",
                    ),
                ),
            );
        }
        Ok(SuppliedVariable { name, value, source: VariableSource::CommandLine })
    }

    /// Takes over one of the two values that the password database gives.
    pub fn from_environment(name: &str, value: String) -> (r: Result<Self, SuppliedVariableError>)
        ensures
            if name@ != "HOME"@ && name@ != "LOGNAME"@ {
                r matches Err(error) && error@ == "environment variable "@ + name@
                    + " is not admitted"@
            } else if text::byte_len(value@) > MAX_ASSIGNMENT_VALUE_LEN {
                r matches Err(error) && error@ == "environment variable "@ + name@
                    + " exceeds the hard limit of "@ + text::decimal(MAX_ASSIGNMENT_VALUE_LEN as nat)
                    + " bytes"@
            } else {
                r matches Ok(variable) && variable@ == (SuppliedModel {
                    name: name@,
                    value: value@,
                    source: VariableSource::Environment,
                })
            },
    {
        if !same_text(name, "HOME") && !same_text(name, "LOGNAME") {
            return Err(
                SuppliedVariableError::new(
                    text3("environment variable ", name, " is not admitted"),
                ),
            );
        }
        if text_len(value.as_str()) > MAX_ASSIGNMENT_VALUE_LEN {
            let digits = decimal_text(MAX_ASSIGNMENT_VALUE_LEN);
            return Err(
                SuppliedVariableError::new(
                    text5(
                        "environment variable ",
                        name,
                        " exceeds the hard limit of ",
                        digits.as_str(),
                        " bytes",
                    ),
                ),
            );
        }
        Ok(
            SuppliedVariable { name: name.to_owned(), value, source: VariableSource::Environment },
        )
    }

    /// Takes over the host's name.
    pub fn from_system_hostname(value: String) -> (r: Result<Self, SuppliedVariableError>)
        ensures
            if value@.len() == 0 || text::byte_len(value@) > MAX_HOSTNAME_LEN {
                r matches Err(error) && error@ == "system HOST must contain from 1 through "@
                    + text::decimal(MAX_HOSTNAME_LEN as nat) + " bytes"@
            } else {
                r matches Ok(variable) && variable@ == (SuppliedModel {
                    name: "HOST"@,
                    value: value@,
                    source: VariableSource::System,
                })
            },
    {
        if value.as_str().is_empty() || text_len(value.as_str()) > MAX_HOSTNAME_LEN {
            return Err(
                SuppliedVariableError::new(
                    numbered(
                        "system HOST must contain from 1 through ",
                        MAX_HOSTNAME_LEN,
                        " bytes",
                    ),
                ),
            );
        }
        Ok(SuppliedVariable { name: "HOST".to_owned(), value, source: VariableSource::System })
    }

    /// The version of the program, which nothing may change.
    pub fn from_program_version() -> (r: Result<Self, SuppliedVariableError>)
        ensures
            r matches Ok(variable) && variable@ == (SuppliedModel {
                name: "PROCMAIL_VERSION"@,
                value: PROGRAM_VERSION@,
                source: VariableSource::System,
            }),
    {
        Ok(
            SuppliedVariable {
                name: "PROCMAIL_VERSION".to_owned(),
                value: PROGRAM_VERSION.to_owned(),
                source: VariableSource::System,
            },
        )
    }

    pub fn name(&self) -> (r: &str)
        ensures
            r@ == self@.name,
    {
        self.name.as_str()
    }

    pub fn value(&self) -> (r: &str)
        ensures
            r@ == self@.value,
    {
        self.value.as_str()
    }

    pub fn source(&self) -> (r: VariableSource)
        ensures
            r == self@.source,
    {
        self.source
    }
}

/// No variable of procmail that has no counterpart here can be set by anyone.
pub proof fn unsupported_variables_admit_no_source(name: Seq<char>, source: VariableSource)
    requires
        policy_of(name) is Unsupported,
    ensures
        !policy_of(name).admits(source),
        policy_of(name).target_for(source) is None,
{
}

/// A source has an assignment target exactly where the policy lets it set the
/// variable, except that values made while messages are filtered have none.
pub proof fn a_target_exists_exactly_for_admitted_sources(
    policy: VariablePolicy,
    source: VariableSource,
)
    requires
        !(source is Runtime),
    ensures
        policy.target_for(source) is Some == policy.admits(source),
{
}

} // verus!
