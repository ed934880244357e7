//! What the variables of a configuration are told by, and what their values
//! may be.

use crate::config::limits;
use crate::config::variables::{
    self, AssignmentPath, AssignmentTarget, MessageLimitVariable, RcLimitVariable, VariablePolicy,
    VariableSource,
};
use crate::config::MAX_RC_SIZE;
use crate::text;
use vstd::prelude::*;

verus! {

/// What a setting is called. A variable of the user's own has any name.
pub open spec fn setting_name(target: AssignmentTarget) -> Option<Seq<char>> {
    match target {
        AssignmentTarget::Maildir => Some("MAILDIR"@),
        AssignmentTarget::LogFile => Some("LOGFILE"@),
        AssignmentTarget::LogDetail => Some("LOGDETAIL"@),
        AssignmentTarget::LogAbstract => Some("LOGABSTRACT"@),
        AssignmentTarget::Verbose => Some("VERBOSE"@),
        AssignmentTarget::Durability => Some("DURABILITY"@),
        AssignmentTarget::LockMethod => Some("LOCKMETHOD"@),
        AssignmentTarget::LockFile => Some("LOCKFILE"@),
        AssignmentTarget::LockExt => Some("LOCKEXT"@),
        AssignmentTarget::LockTimeout => Some("LOCKTIMEOUT"@),
        AssignmentTarget::LineBuf => Some("LINEBUF"@),
        AssignmentTarget::ProcessTimeout => Some("TIMEOUT"@),
        AssignmentTarget::Umask => Some("UMASK"@),
        AssignmentTarget::Trap => Some("TRAP"@),
        AssignmentTarget::ExitCode => Some("EXITCODE"@),
        AssignmentTarget::Host => Some("HOST"@),
        AssignmentTarget::Shell => Some("SHELL"@),
        AssignmentTarget::ShellFlags => Some("SHELLFLAGS"@),
        AssignmentTarget::Path => Some("PATH"@),
        AssignmentTarget::MessageLimit(MessageLimitVariable::MessageSize) => Some(
            "LIMIT_MSG_SIZE"@,
        ),
        AssignmentTarget::MessageLimit(MessageLimitVariable::HeadersSize) => Some(
            "LIMIT_MSG_HEADERS"@,
        ),
        AssignmentTarget::MessageLimit(MessageLimitVariable::BodySize) => Some("LIMIT_MSG_BODY"@),
        AssignmentTarget::MessageLimit(MessageLimitVariable::HeaderLineSize) => Some(
            "LIMIT_HEADER_LINE"@,
        ),
        AssignmentTarget::MessageLimit(MessageLimitVariable::HeaderFieldSize) => Some(
            "LIMIT_HEADER_FIELD"@,
        ),
        AssignmentTarget::RcLimit(RcLimitVariable::Assignments) => Some("LIMIT_MAX_ASSIGNMENTS"@),
        AssignmentTarget::RcLimit(RcLimitVariable::Statements) => Some("LIMIT_RC_STATEMENTS"@),
        AssignmentTarget::RcLimit(RcLimitVariable::Recipes) => Some("LIMIT_RC_RECIPES"@),
        AssignmentTarget::RcLimit(RcLimitVariable::Conditions) => Some("LIMIT_RC_CONDITIONS"@),
        AssignmentTarget::RcLimit(RcLimitVariable::Regexes) => Some("LIMIT_RC_REGEXES"@),
        AssignmentTarget::RcLimit(RcLimitVariable::ConditionsPerRecipe) => Some(
            "LIMIT_RECIPE_CONDITIONS"@,
        ),
        AssignmentTarget::RcLimit(RcLimitVariable::NestingDepth) => Some("LIMIT_RECIPE_NESTING"@),
        AssignmentTarget::User => None,
    }
}

/// Each setting has one name. A name that is none of them is a variable of the
/// user's own, which a configuration and the command line may set.
pub proof fn settings_are_told_by_their_names(name: Seq<char>)
    ensures
        variables::policy_of(name) matches VariablePolicy::RcOnly(target) ==> setting_name(target)
            == Some(name) && !(target is Shell) && !(target is ShellFlags) && !(target is Path),
        variables::policy_of(name) matches VariablePolicy::RcOrCommandLine(target) ==> target
            is User || (target is Shell || target is ShellFlags || target is Path)
            && setting_name(target) == Some(name),
        variables::policy_of(name) is RuntimeOnly ==> name == "LASTFOLDER"@ || text::begins(
            name,
            "MATCH"@,
        ) && forall|i: int| 5 <= i < name.len() ==> '0' <= #[trigger] name[i] <= '9',
        variables::policy_of(name) is ReadOnly ==> name == "PROCMAIL_VERSION"@,
        variables::policy_of(name) is Unsupported ==> {
            ||| name == "DEFAULT"@
            ||| name == "ORGMAIL"@
            ||| name == "COMSAT"@
            ||| name == "DELIVERED"@
            ||| name == "LOG"@
            ||| name == "MSGPREFIX"@
            ||| name == "NORESRETRY"@
            ||| name == "PROCMAIL_OVERFLOW"@
            ||| name == "SHELLMETAS"@
            ||| name == "SUSPEND"@
            ||| name == "SENDMAIL"@
            ||| name == "SENDMAILFLAGS"@
            ||| name == "SHIFT"@
        },
        variables::policy_of(name) == VariablePolicy::RcOrCommandLine(AssignmentTarget::User) ==> {
            &&& name != "MAILDIR"@
            &&& name != "LOGFILE"@
            &&& name != "LOGDETAIL"@
            &&& name != "LOGABSTRACT"@
            &&& name != "VERBOSE"@
            &&& name != "DURABILITY"@
            &&& name != "LOCKMETHOD"@
            &&& name != "LOCKFILE"@
            &&& name != "LOCKEXT"@
            &&& name != "LOCKTIMEOUT"@
            &&& name != "LINEBUF"@
            &&& name != "TIMEOUT"@
            &&& name != "UMASK"@
            &&& name != "TRAP"@
            &&& name != "EXITCODE"@
            &&& name != "HOST"@
            &&& name != "SHELL"@
            &&& name != "SHELLFLAGS"@
            &&& name != "PATH"@
            &&& name != "LIMIT_MSG_SIZE"@
            &&& name != "LIMIT_MSG_HEADERS"@
            &&& name != "LIMIT_MSG_BODY"@
            &&& name != "LIMIT_HEADER_LINE"@
            &&& name != "LIMIT_HEADER_FIELD"@
            &&& name != "LIMIT_MAX_ASSIGNMENTS"@
            &&& name != "LIMIT_RC_STATEMENTS"@
            &&& name != "LIMIT_RC_RECIPES"@
            &&& name != "LIMIT_RC_CONDITIONS"@
            &&& name != "LIMIT_RC_REGEXES"@
            &&& name != "LIMIT_RECIPE_CONDITIONS"@
            &&& name != "LIMIT_RECIPE_NESTING"@
            &&& name != "DEFAULT"@
            &&& name != "ORGMAIL"@
            &&& name != "COMSAT"@
            &&& name != "DELIVERED"@
            &&& name != "LOG"@
            &&& name != "MSGPREFIX"@
            &&& name != "NORESRETRY"@
            &&& name != "PROCMAIL_OVERFLOW"@
            &&& name != "SHELLMETAS"@
            &&& name != "SUSPEND"@
            &&& name != "SENDMAIL"@
            &&& name != "SENDMAILFLAGS"@
            &&& name != "SHIFT"@
            &&& name != "LASTFOLDER"@
            &&& name != "MATCH"@
            &&& name != "PROCMAIL_VERSION"@
        },
{
    reveal_strlit("MATCH");
    let tail = text::after_prefix(name, "MATCH"@);
    if variables::policy_of(name) is RuntimeOnly && name != "LASTFOLDER"@ {
        if name == "MATCH"@ {
            assert(name.subrange(0, 5) =~= name);
        } else {
            assert forall|i: int| 5 <= i < name.len() implies '0' <= #[trigger] name[i] <= '9' by {
                assert(tail[i - 5] == name[i]);
                assert(text::ascii_digit(tail[i - 5]));
            }
        }
    }
}

/// `MATCH` and a number is set by the message alone.
pub proof fn numbered_matches_belong_to_the_message(digits: Seq<char>)
    requires
        digits.len() > 0,
        forall|i: int| 0 <= i < digits.len() ==> '0' <= #[trigger] digits[i] <= '9',
    ensures
        variables::numbered_match("MATCH"@ + digits),
{
    reveal_strlit("MATCH");
    let name = "MATCH"@ + digits;
    assert(name.subrange(0, 5) =~= "MATCH"@);
    assert(text::after_prefix(name, "MATCH"@) =~= digits);
}

/// Who may set a variable: the configuration alone, the configuration and the
/// command line, the handling of a message alone, or nobody. The environment
/// and the system set none.
pub proof fn sources_set_what_is_theirs(target: AssignmentTarget, source: VariableSource)
    ensures
        VariablePolicy::RcOnly(target).admits(source) <==> source == VariableSource::RcFile,
        VariablePolicy::RcOrCommandLine(target).admits(source) <==> source
            == VariableSource::RcFile || source == VariableSource::CommandLine,
        VariablePolicy::RuntimeOnly.admits(source) <==> source == VariableSource::Runtime,
        !VariablePolicy::ReadOnly.admits(source),
        !VariablePolicy::Unsupported.admits(source),
        VariablePolicy::RcOnly(target).target_for(VariableSource::RcFile) == Some(target),
        VariablePolicy::RcOrCommandLine(target).target_for(VariableSource::RcFile) == Some(target),
        VariablePolicy::RcOrCommandLine(target).target_for(VariableSource::CommandLine) == Some(
            target,
        ),
        VariablePolicy::RcOnly(target).target_for(VariableSource::CommandLine) is None,
        VariablePolicy::RuntimeOnly.target_for(source) is None,
{
}

/// Paths and extensions of at most 4096 bytes, settings of the shell as well,
/// and every other value of at most 64 KiB.
pub proof fn values_have_their_limits(target: AssignmentTarget)
    ensures
        variables::value_limit(target) == 4096 || variables::value_limit(target) == 65536,
        variables::value_limit(target) == 4096 <==> target is Maildir || target is LogFile
            || target is LockFile || target is LockExt || target is Shell || target is ShellFlags
            || target is Path,
{
}

/// The mail directory, the log file and the lock file are paths. Only limits of
/// a configuration and the length of its lines steer its reading; these, and
/// limits of messages, stand outside of recipes.
pub proof fn targets_have_their_part(target: AssignmentTarget)
    ensures
        target.path_kind() == Some(AssignmentPath::Maildir) <==> target is Maildir,
        target.path_kind() == Some(AssignmentPath::LogFile) <==> target is LogFile,
        target.path_kind() == Some(AssignmentPath::LockFile) <==> target is LockFile,
        target.steers_parsing() <==> target is LineBuf || target is RcLimit,
        target.may_be_conditional() <==> target !is LineBuf && target !is RcLimit && target
            !is MessageLimit,
{
}

/// The bounds that no configuration can raise.
pub proof fn limits_cannot_be_raised_above(kind: RcLimitVariable)
    ensures
        limits::hard_limit(kind) == match kind {
            RcLimitVariable::Assignments => 65536usize,
            RcLimitVariable::Statements => 65536usize,
            RcLimitVariable::Recipes => 16384usize,
            RcLimitVariable::Conditions => 65536usize,
            RcLimitVariable::Regexes => 1024usize,
            RcLimitVariable::ConditionsPerRecipe => 4096usize,
            RcLimitVariable::NestingDepth => 256usize,
        },
        limits::default_limits().value(kind) == match kind {
            RcLimitVariable::Assignments => 4096usize,
            RcLimitVariable::Statements => 4096usize,
            RcLimitVariable::Recipes => 1024usize,
            RcLimitVariable::Conditions => 4096usize,
            RcLimitVariable::Regexes => 256usize,
            RcLimitVariable::ConditionsPerRecipe => 256usize,
            RcLimitVariable::NestingDepth => 64usize,
        },
        limits::default_limits().linebuf == 2048,
        MAX_RC_SIZE == 1048576,
{
}

/// The character of a digit.
pub open spec fn digit(n: nat) -> char {
    (48 + n) as char
}

/// A mask of permissions is written in octal, in one to four digits, of which
/// the first of four is a zero.
pub proof fn masks_are_octal(a: nat, b: nat, c: nat)
    requires
        a < 8,
        b < 8,
        c < 8,
    ensures
        variables::umask_of(seq![digit(c)]) == Some(c),
        variables::umask_of(seq![digit(b), digit(c)]) == Some(8 * b + c),
        variables::umask_of(seq![digit(a), digit(b), digit(c)]) == Some(64 * a + 8 * b + c),
        variables::umask_of(seq!['0', digit(a), digit(b), digit(c)]) == Some(64 * a + 8 * b + c),
{
    reveal_with_fuel(variables::octal_value, 5);
    let one = seq![digit(c)];
    let two = seq![digit(b), digit(c)];
    let three = seq![digit(a), digit(b), digit(c)];
    let four = seq!['0', digit(a), digit(b), digit(c)];
    assert(one.subrange(0, 0) =~= Seq::<char>::empty());
    assert(variables::octal_value(one) == Some(c));
    assert(two.subrange(0, 1) =~= seq![digit(b)]);
    assert(seq![digit(b)].subrange(0, 0) =~= Seq::<char>::empty());
    assert(variables::octal_value(two) == Some(8 * b + c));
    assert(three.subrange(0, 2) =~= seq![digit(a), digit(b)]);
    assert(seq![digit(a), digit(b)].subrange(0, 1) =~= seq![digit(a)]);
    assert(seq![digit(a)].subrange(0, 0) =~= Seq::<char>::empty());
    assert(variables::octal_value(three) == Some(64 * a + 8 * b + c));
    assert(four.subrange(0, 3) =~= seq!['0', digit(a), digit(b)]);
    assert(seq!['0', digit(a), digit(b)].subrange(0, 2) =~= seq!['0', digit(a)]);
    assert(seq!['0', digit(a)].subrange(0, 1) =~= seq!['0']);
    assert(seq!['0'].subrange(0, 0) =~= Seq::<char>::empty());
    assert(variables::octal_value(four) == Some(64 * a + 8 * b + c));
}

/// Nothing else is a mask: no empty text, none of more than four characters,
/// none with another character than `0` to `7`, and none of four digits whose
/// first is not zero.
pub proof fn other_texts_are_no_masks(value: Seq<char>, i: int)
    requires
        value.len() == 0 || value.len() > 4 || 0 <= i < value.len() && !('0' <= value[i] <= '7')
            || value.len() == 4 && value[0] != '0',
    ensures
        variables::umask_of(value) is None,
{
    if 0 < value.len() <= 4 {
        if 0 <= i < value.len() && !('0' <= value[i] <= '7') {
            lemma_not_octal(value, i);
        } else if '0' <= value[0] <= '7' {
            let three = value.subrange(0, 3);
            let two = three.subrange(0, 2);
            let one = two.subrange(0, 1);
            assert(one[0] == value[0]);
            reveal_with_fuel(variables::octal_value, 5);
            assert(variables::octal_value(one) is Some ==> variables::octal_value(one)->Some_0
                >= 1);
            assert(variables::octal_value(two) is Some ==> variables::octal_value(two)->Some_0
                >= 8);
            assert(variables::octal_value(three) is Some ==> variables::octal_value(three)->Some_0
                >= 64);
        } else {
            lemma_not_octal(value, 0);
        }
    }
}

proof fn lemma_not_octal(value: Seq<char>, i: int)
    requires
        0 <= i < value.len(),
        !('0' <= value[i] <= '7'),
    ensures
        variables::octal_value(value) is None,
    decreases value.len(),
{
    if i < value.len() - 1 {
        lemma_not_octal(value.subrange(0, value.len() - 1), i);
    }
}

/// A number of seconds is at least one, and at most the largest one admitted.
pub proof fn seconds_are_positive_and_bounded(n: nat, max: u64)
    ensures
        1 <= n <= max ==> variables::seconds_of(text::decimal(n), max) == Some(n),
        n == 0 || n > max ==> variables::seconds_of(text::decimal(n), max) is None,
        variables::seconds_of(Seq::empty(), max) is None,
        variables::MAX_LOCK_TIMEOUT_SECONDS == 86400,
        variables::MAX_PROCESS_TIMEOUT_SECONDS == 86400,
        variables::DEFAULT_UMASK == 63,
{
    text::numbers_are_read_from_their_digits(n, u64::MAX as nat);
}

/// What a value may not be: `LOGABSTRACT` is `no`, a lock extension holds no
/// NUL and no slash, a trap no NUL. Of no other value is anything asked.
pub proof fn values_are_refused_for_a_reason(target: AssignmentTarget, value: Seq<char>)
    ensures
        variables::value_fault(target, value) is Some <==> {
            ||| target is LogAbstract && value != "no"@
            ||| target is LockExt && (value.contains('\0') || value.contains('/'))
            ||| target is Trap && value.contains('\0')
        },
{
}

/// What the command line supplies is a name, `=` and a value, which may hold
/// further `=`. The name is that of a variable which the command line may set,
/// and both are bounded.
pub proof fn supplied_variables_are_named(name: Seq<char>, value: Seq<char>)
    requires
        !name.contains('='),
    ensures
        ({
            let supplied = variables::supplied_by(name + seq!['='] + value);
            let policy = variables::policy_of(name);
            &&& supplied is Ok <==> {
                &&& text::variable_name(name)
                &&& text::byte_len(name) <= 128
                &&& policy is RcOrCommandLine
                &&& text::byte_len(value) <= variables::value_limit(policy->RcOrCommandLine_0)
            }
            &&& supplied is Ok ==> supplied->Ok_0.name == name && supplied->Ok_0.value == value
                && supplied->Ok_0.source == VariableSource::CommandLine
        }),
{
    let input = name + seq!['='] + value;
    text::texts_are_split_at_the_first_place(input, '=');
    assert(input[name.len() as int] == '=');
    let (before, after) = text::split_once(input, '=')->Some_0;
    if before.len() < name.len() {
        assert(input[before.len() as int] == '=');
        assert(name[before.len() as int] == '=');
    } else if before.len() > name.len() {
        assert(before[name.len() as int] == input[name.len() as int]);
    }
    assert(before =~= input.subrange(0, name.len() as int));
    assert(name =~= input.subrange(0, name.len() as int));
    assert(after =~= input.subrange(name.len() as int + 1, input.len() as int));
    assert(value =~= input.subrange(name.len() as int + 1, input.len() as int));
}

/// A text without `=` supplies nothing.
pub proof fn supplied_variables_have_a_value(input: Seq<char>)
    requires
        !input.contains('='),
    ensures
        variables::supplied_by(input) is Err,
{
    text::texts_are_split_at_the_first_place(input, '=');
    if text::split_once(input, '=') is Some {
        let (before, after) = text::split_once(input, '=')->Some_0;
        assert(input[before.len() as int] == '=');
    }
}

} // verus!
