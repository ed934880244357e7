//! What a run of the program comes to: its status, the commands that it runs
//! and what they are given, and the parts of a message.

use vstd::prelude::*;
use vstd::utf8::*;

use crate::commands::{self, ActionRoute, ChildExit, ChildStatusPolicy, OutputHandling, TrapResult};
use crate::config::arguments;
use crate::config::recipe::{ActionMode, ChildStatusMode, RecipeOptions};
use crate::config::variables;
use crate::delivery::failure::DeliveryFailureClass;
use crate::environment;
use crate::message::{self, MessageLimits};
use crate::publication::{self, OperationalFault};
use crate::runtime;
use crate::text;

verus! {

/// Each failure has its status, and a signal has none.
pub proof fn failures_have_their_status(message: Seq<char>, signal: i32)
    ensures
        OperationalFault::Input(message).status() == Some(65u8),
        OperationalFault::Internal(message).status() == Some(70u8),
        OperationalFault::PermanentDestination(message).status() == Some(73u8),
        OperationalFault::TemporaryDelivery(message).status() == Some(75u8),
        OperationalFault::Configuration(message).status() == Some(78u8),
        OperationalFault::Undelivered(message).status() == Some(79u8),
        OperationalFault::Signaled(signal).status() is None,
{
}

/// A failed delivery ends with the status that tells whether to try again.
pub proof fn failed_deliveries_have_their_status(message: Seq<char>)
    ensures
        publication::delivery_fault(DeliveryFailureClass::Retryable, message).status() == Some(
            75u8,
        ),
        publication::delivery_fault(DeliveryFailureClass::Permanent, message).status() == Some(
            73u8,
        ),
        publication::delivery_fault(DeliveryFailureClass::Internal, message).status() == Some(
            70u8,
        ),
{
}

/// A lock file that is not named stands beside its destination: it is the
/// destination's path and the extension, which holds no slash and no NUL. The
/// path has at most 4096 bytes.
pub proof fn implicit_locks_have_the_extension(destination: Seq<char>, extension: Seq<char>)
    ensures
        ({
            let lock = publication::implicit_lockfile(destination, extension);
            &&& lock is Ok <==> !extension.contains('\0') && !extension.contains('/')
                && text::byte_len(destination) + text::byte_len(extension) <= 4096
            &&& lock is Ok ==> lock->Ok_0 == destination + extension
            &&& lock is Err ==> lock->Err_0 is PermanentDestination
        }),
{
}

/// How a command is run: none at all writes the message to the output, a filter
/// replaces the message, a command whose status nobody waits for runs in the
/// background, and every other one is waited for.
pub proof fn commands_go_their_way(command: Seq<char>, options: RecipeOptions)
    ensures
        commands::route_of(command, options) == ActionRoute::Stdout <==> command.len() == 0,
        commands::route_of(command, options) == ActionRoute::Filter <==> command.len() > 0
            && options.action_mode == ActionMode::Filter,
        commands::route_of(command, options) == ActionRoute::Background <==> command.len() > 0
            && options.action_mode == ActionMode::Deliver && options.child_status
            == ChildStatusMode::Ignore,
{
}

/// What is done with a command's output and with its status fits together: what
/// is captured comes of a capture, what filters comes of a recipe, and a
/// condition looks at the status alone.
pub proof fn outputs_fit_their_purpose(output: OutputHandling, status: ChildStatusPolicy)
    ensures
        commands::policies_fit(output, status) <==> match status {
            ChildStatusPolicy::Condition => output is Discard,
            ChildStatusPolicy::Capture => output is Capture,
            ChildStatusPolicy::Recipe => output is Discard || output is Filter,
        },
{
}

/// A command fails unless it ends by itself with status zero.
pub proof fn only_success_is_no_failure(exit: ChildExit)
    ensures
        commands::child_failure(exit) is None <==> exit is Success,
{
}

/// The exit code that a trap leaves. It is changed only where it was set and
/// empty; then a status of the trap other than zero becomes the exit code, and
/// a trap that could not be run, or that failed without a status, makes it that
/// of a delivery to try again.
pub proof fn traps_give_the_exit_code(code: u8, timed_out: bool, accepted: bool, error: String)
    ensures
        ({
            let asked = Some(Seq::<char>::empty());
            let finished = |exit_code: Option<u8>|
                TrapResult::Finished { exit_code, timed_out, accepted };
            &&& code != 0 ==> commands::trapped_exit_code(asked, finished(Some(code))) == Some(
                text::decimal(code as nat),
            )
            &&& accepted ==> commands::trapped_exit_code(asked, finished(Some(0u8))) is None
            &&& accepted ==> commands::trapped_exit_code(asked, finished(None)) is None
            &&& !accepted ==> commands::trapped_exit_code(asked, finished(Some(0u8))) == Some(
                text::decimal(75),
            )
            &&& !accepted ==> commands::trapped_exit_code(asked, finished(None)) == Some(
                text::decimal(75),
            )
            &&& commands::trapped_exit_code(asked, TrapResult::NotRun(error)) == Some(
                text::decimal(75),
            )
        }),
{
}

/// Where the exit code is not set, or has a value, a trap leaves it alone.
pub proof fn traps_leave_other_exit_codes_alone(exit_code: Option<Seq<char>>, result: TrapResult)
    requires
        exit_code is Some ==> exit_code->Some_0.len() > 0,
    ensures
        commands::trapped_exit_code(exit_code, result) is None,
{
}

/// A trap is reported where it was not run or took too long.
pub proof fn failed_traps_are_reported(result: TrapResult)
    ensures
        commands::trap_diagnostic(result) is None <==> (result matches TrapResult::Finished {
            timed_out,
            ..
        } && !timed_out),
{
}

/// A command has 960 seconds, unless `TIMEOUT` holds another number of them,
/// from one to a day.
pub proof fn commands_have_their_time(entries: Seq<(Seq<char>, Seq<u8>)>, seconds: nat)
    ensures
        runtime::text_of(entries, "TIMEOUT"@) is None ==> commands::process_timeout(entries)
            == Ok::<nat, Seq<char>>(960),
        runtime::text_of(entries, "TIMEOUT"@) == Some(text::decimal(seconds)) ==> if 1 <= seconds
            <= 86400 {
            commands::process_timeout(entries) == Ok::<nat, Seq<char>>(seconds)
        } else {
            commands::process_timeout(entries) is Err
        },
{
    text::numbers_are_read_from_their_digits(seconds, u64::MAX as nat);
}

proof fn lemma_default(
    values: Seq<(Seq<char>, Seq<u8>)>,
    name: Seq<char>,
    value: Seq<char>,
    other: Seq<char>,
)
    ensures
        ({
            let after = environment::with_default(values, name, value);
            &&& runtime::value_of(after, name) == match runtime::value_of(values, name) {
                Some(kept) => Some(kept),
                None => Some(encode_utf8(value)),
            }
            &&& other != name ==> runtime::value_of(after, other) == runtime::value_of(
                values,
                other,
            )
        }),
{
    let after = values.push((name, encode_utf8(value)));
    lemma_pushed(values, (name, encode_utf8(value)), name, 0);
    lemma_pushed(values, (name, encode_utf8(value)), other, 0);
    lemma_places(values, other, 0);
    lemma_places(values, name, 0);
}

proof fn lemma_places(values: Seq<(Seq<char>, Seq<u8>)>, name: Seq<char>, i: int)
    requires
        0 <= i <= values.len(),
    ensures
        i <= runtime::place_of(values, name, i) <= values.len(),
    decreases values.len() - i,
{
    if i < values.len() && values[i].0 != name {
        lemma_places(values, name, i + 1);
    }
}

proof fn lemma_pushed(
    values: Seq<(Seq<char>, Seq<u8>)>,
    entry: (Seq<char>, Seq<u8>),
    name: Seq<char>,
    i: int,
)
    requires
        0 <= i <= values.len(),
    ensures
        ({
            let before = runtime::place_of(values, name, i);
            let after = runtime::place_of(values.push(entry), name, i);
            &&& before < values.len() ==> after == before
            &&& before >= values.len() && entry.0 == name ==> after == values.len()
            &&& before >= values.len() && entry.0 != name ==> after == values.len() + 1
        }),
    decreases values.len() - i,
{
    let more = values.push(entry);
    if i < values.len() {
        assert(more[i] == values[i]);
        if values[i].0 != name {
            lemma_pushed(values, entry, name, i + 1);
        }
    } else {
        assert(more[i] == entry);
        reveal_with_fuel(runtime::place_of, 3);
    }
}

/// A command finds a shell, its flags and a search path where the message has
/// none of its own, and what it has otherwise.
pub proof fn commands_have_a_shell_and_a_path(
    values: Seq<(Seq<char>, Seq<u8>)>,
    other: Seq<char>,
)
    requires
        other != "SHELL"@ && other != "SHELLFLAGS"@ && other != "PATH"@,
    ensures
        ({
            let after = environment::with_defaults(values);
            let kept = |name: Seq<char>, value: Seq<char>|
                match runtime::value_of(values, name) {
                    Some(own) => Some(own),
                    None => Some(encode_utf8(value)),
                };
            &&& runtime::value_of(after, "SHELL"@) == kept("SHELL"@, "/bin/sh"@)
            &&& runtime::value_of(after, "SHELLFLAGS"@) == kept("SHELLFLAGS"@, "-c"@)
            &&& runtime::value_of(after, "PATH"@) == kept("PATH"@, "/usr/bin:/bin"@)
            &&& runtime::value_of(after, other) == runtime::value_of(values, other)
        }),
{
    reveal_strlit("SHELL");
    reveal_strlit("SHELLFLAGS");
    reveal_strlit("PATH");
    assert("SHELL"@.len() == 5 && "SHELLFLAGS"@.len() == 10 && "PATH"@.len() == 4);
    let first = environment::with_default(values, "SHELL"@, "/bin/sh"@);
    let second = environment::with_default(first, "SHELLFLAGS"@, "-c"@);
    lemma_default(values, "SHELL"@, "/bin/sh"@, "SHELLFLAGS"@);
    lemma_default(values, "SHELL"@, "/bin/sh"@, "PATH"@);
    lemma_default(values, "SHELL"@, "/bin/sh"@, other);
    lemma_default(first, "SHELLFLAGS"@, "-c"@, "SHELL"@);
    lemma_default(first, "SHELLFLAGS"@, "-c"@, "PATH"@);
    lemma_default(first, "SHELLFLAGS"@, "-c"@, other);
    lemma_default(second, "PATH"@, "/usr/bin:/bin"@, "SHELL"@);
    lemma_default(second, "PATH"@, "/usr/bin:/bin"@, "SHELLFLAGS"@);
    lemma_default(second, "PATH"@, "/usr/bin:/bin"@, other);
}

/// What may stand in a command's environment: a variable's name of at most 128
/// bytes, and a value without NUL within the limit of that name.
pub proof fn environment_entries_are_bounded(name: Seq<char>, value: Seq<u8>)
    ensures
        environment::entry_fault(name, value) is None <==> text::variable_name(name)
            && text::byte_len(name) <= 128 && !value.contains(0u8) && value.len()
            <= environment::entry_limit(name),
        environment::entry_limit(name) <= 65536,
        variables::policy_of(name) is RcOrCommandLine
            && variables::policy_of(name)->RcOrCommandLine_0 is User
            ==> environment::entry_limit(name) == 65536,
        environment::MAX_CHILD_ENVIRONMENT_VARIABLES == 512,
        environment::MAX_CHILD_ENVIRONMENT_BYTES == 262144,
{
}

/// A command's arguments are those of the message, in their order, and empty
/// where one has no value.
pub proof fn arguments_are_passed_in_order(
    entries: Seq<(Seq<char>, Seq<u8>)>,
    n: nat,
    i: int,
)
    requires
        environment::arguments_of(entries, n) is Ok,
        0 <= i < n,
    ensures
        environment::arguments_of(entries, n)->Ok_0.len() == n,
        environment::arguments_of(entries, n)->Ok_0[i] == match runtime::value_of(
            entries,
            text::decimal((i + 1) as nat),
        ) {
            Some(value) => value,
            None => Seq::empty(),
        },
        !environment::arguments_of(entries, n)->Ok_0[i].contains(0u8),
    decreases n,
{
    if n > 1 && i < n - 1 {
        arguments_are_passed_in_order(entries, (n - 1) as nat, i);
    } else {
        lemma_argument_count(entries, (n - 1) as nat);
    }
}

proof fn lemma_argument_count(entries: Seq<(Seq<char>, Seq<u8>)>, n: nat)
    requires
        environment::arguments_of(entries, n) is Ok,
    ensures
        environment::arguments_of(entries, n)->Ok_0.len() == n,
    decreases n,
{
    if n > 0 {
        lemma_argument_count(entries, (n - 1) as nat);
    }
}

/// A shell is approved or nothing is run: the message's own shell is the
/// approved one, letter for letter.
pub proof fn shells_are_approved(
    approved: Option<Seq<char>>,
    model: environment::EnvironmentModel,
)
    ensures
        environment::authorized(approved, model) is Ok <==> approved is Some && runtime::text_of(
            model.values,
            "SHELL"@,
        ) == approved,
        environment::authorized(approved, model) matches Ok((path, flags)) ==> Some(path)
            == approved && (runtime::text_of(model.values, "SHELLFLAGS"@) matches Some(set)
            ==> flags == set),
{
}

/// The number of arguments is what `#` holds, none where it holds nothing, and
/// 256 at most.
pub proof fn arguments_are_counted(entries: Seq<(Seq<char>, Seq<u8>)>, n: nat)
    ensures
        runtime::text_of(entries, "#"@) is None ==> environment::argument_count(entries) == Ok::<
            nat,
            Seq<char>,
        >(0),
        runtime::text_of(entries, "#"@) == Some(text::decimal(n)) ==> if n <= 256 {
            environment::argument_count(entries) == Ok::<nat, Seq<char>>(n)
        } else {
            environment::argument_count(entries) is Err
        },
{
    reveal_strlit("0");
    text::numbers_are_read_from_their_digits(n, usize::MAX as nat);
    text::numbers_are_read_from_their_digits(0, usize::MAX as nat);
    assert("0"@ =~= text::decimal(0));
}

/// The names of arguments are `#` and the numbers from 1 to 256.
pub proof fn arguments_have_numbers(n: nat)
    ensures
        arguments::positional_name(text::decimal(n)) <==> 1 <= n <= 256,
        arguments::positional_name("#"@),
        !arguments::positional_name("@"@),
        !arguments::positional_name(Seq::empty()),
{
    reveal_strlit("#");
    reveal_strlit("@");
    text::numbers_are_read_from_their_digits(n, usize::MAX as nat);
    text::lemma_decimal_digits(n);
    text::decimals_spell_their_number(n);
    let number = text::decimal(n);
    assert(text::ascii_digit(number[0]));
    assert("#"@[0] == '#');
    assert("@"@[0] == '@');
    assert(!text::ascii_digit("@"@[0]));
    assert(variables::all_digits(number));
}

/// An argument is taken where there are fewer than 256, where it has at most
/// 64 KiB, and where all of them have at most 256 KiB.
pub proof fn arguments_are_bounded(given: Seq<Seq<char>>, value: Seq<char>)
    requires
        given.len() <= 256,
    ensures
        arguments::argument_fault(given, value) is None <==> given.len() < 256 && text::byte_len(
            value,
        ) <= 65536 && arguments::total_bytes(given, given.len()) + text::byte_len(value) <= 262144,
        arguments::total_bytes(given.push(value), given.len() + 1) == arguments::total_bytes(
            given,
            given.len(),
        ) + text::byte_len(value),
        arguments::total_bytes(Seq::empty(), 0) == 0,
{
    lemma_total(given, given.push(value), given.len());
    assert(given.push(value).last() == value);
}

proof fn lemma_total(given: Seq<Seq<char>>, more: Seq<Seq<char>>, n: nat)
    requires
        n <= given.len() <= more.len(),
        forall|i: int| 0 <= i < given.len() ==> given[i] == more[i],
    ensures
        arguments::total_bytes(given, n) == arguments::total_bytes(more, n),
    decreases n,
{
    if n > 0 {
        lemma_total(given, more, (n - 1) as nat);
    }
}

/// Whether a line begins at the place.
pub open spec fn begins_line(bytes: Seq<u8>, i: int) -> bool {
    i == 0 || 0 < i <= bytes.len() && bytes[i - 1] == 10
}

/// Whether an empty line begins at the place: a line feed, or a carriage return
/// and a line feed.
pub open spec fn empty_line_at(bytes: Seq<u8>, i: int) -> bool {
    begins_line(bytes, i) && 0 <= i < bytes.len() && (bytes[i] == 10 || i + 1 < bytes.len()
        && bytes[i] == 13 && bytes[i + 1] == 10)
}

/// The headers of a message end with its first empty line, or with the message
/// where it has none.
pub proof fn headers_end_with_an_empty_line(bytes: Seq<u8>, i: int)
    ensures
        ({
            let end = message::headers_end(bytes, 0);
            &&& 0 <= end <= bytes.len()
            &&& empty_line_at(bytes, i) ==> end <= i + 2
            &&& empty_line_at(bytes, i) && bytes[i] == 10 ==> end <= i + 1
            &&& end < bytes.len() ==> bytes[end - 1] == 10 && (empty_line_at(bytes, end - 1)
                || empty_line_at(bytes, end - 2) && bytes[end - 2] == 13)
        }),
{
    lemma_headers_end(bytes, 0, i);
}

proof fn lemma_line_end(bytes: Seq<u8>, i: int)
    requires
        0 <= i < bytes.len(),
    ensures
        i < message::line_end(bytes, i) <= bytes.len(),
        forall|j: int| i <= j < message::line_end(bytes, i) - 1 ==> bytes[j] != 10,
        message::line_end(bytes, i) < bytes.len() ==> bytes[message::line_end(bytes, i) - 1] == 10,
        bytes[message::line_end(bytes, i) - 1] != 10 ==> message::line_end(bytes, i)
            == bytes.len(),
    decreases bytes.len() - i,
{
    if bytes[i] != 10 {
        if i + 1 < bytes.len() {
            lemma_line_end(bytes, i + 1);
        } else {
            reveal_with_fuel(message::line_end, 2);
        }
    }
}

proof fn lemma_headers_end(bytes: Seq<u8>, from: int, i: int)
    requires
        0 <= from <= bytes.len(),
        begins_line(bytes, from),
    ensures
        ({
            let end = message::headers_end(bytes, from);
            &&& from <= end <= bytes.len()
            &&& i >= from && empty_line_at(bytes, i) ==> end <= i + 2
            &&& i >= from && empty_line_at(bytes, i) && bytes[i] == 10 ==> end <= i + 1
            &&& end < bytes.len() ==> end > from && bytes[end - 1] == 10 && (empty_line_at(
                bytes,
                end - 1,
            ) || empty_line_at(bytes, end - 2) && bytes[end - 2] == 13)
        }),
    decreases bytes.len() - from,
{
    if from < bytes.len() {
        lemma_line_end(bytes, from);
        let end = message::line_end(bytes, from);
        let line = bytes.subrange(from, end);
        if message::blank_line(line) {
            assert(line.len() == end - from);
            assert(line[0] == bytes[from]);
            if line.len() == 2 {
                assert(line[1] == bytes[from + 1]);
            }
            if i > from && empty_line_at(bytes, i) {
                assert(i >= end - 1 || bytes[i - 1] != 10);
            }
        } else {
            if bytes[from] == 10 {
                assert(end == from + 1);
                assert(line =~= seq![10u8]);
            } else if from + 1 < bytes.len() && bytes[from] == 13 && bytes[from + 1] == 10 {
                assert(end == from + 2);
                assert(line =~= seq![13u8, 10u8]);
            }
            assert(!empty_line_at(bytes, from));
            if bytes[end - 1] == 10 {
                lemma_headers_end(bytes, end, i);
            } else {
                assert(message::headers_end(bytes, end) == bytes.len());
            }
            if from < i < end && empty_line_at(bytes, i) {
                assert(bytes[i - 1] != 10);
            }
        }
    }
}

/// A piece of a body is taken while the body and the whole message stay within
/// their limits.
pub proof fn bodies_are_bounded(headers: nat, body: nat, piece: nat, limits: MessageLimits)
    ensures
        message::piece_fault(headers, body, piece, limits) is None <==> body + piece
            <= limits.body_size && headers + body + piece <= limits.message_size,
{
}

/// The variables that are set before a configuration sets any.
pub proof fn variables_have_defaults()
    ensures
        runtime::value_of(runtime::default_variables(), "LINEBUF"@) == Some(encode_utf8("2048"@)),
        runtime::value_of(runtime::default_variables(), "TIMEOUT"@) == Some(encode_utf8("960"@)),
        runtime::value_of(runtime::default_variables(), "UMASK"@) == Some(encode_utf8("077"@)),
        runtime::value_of(runtime::default_variables(), "LOCKEXT"@) == Some(encode_utf8(".lock"@)),
        runtime::default_variables().len() == 4,
{
    reveal_strlit("LINEBUF");
    reveal_strlit("TIMEOUT");
    reveal_strlit("UMASK");
    reveal_strlit("LOCKEXT");
    assert("LINEBUF"@[0] == 'L' && "LINEBUF"@[1] == 'I');
    assert("TIMEOUT"@[0] == 'T');
    assert("UMASK"@[0] == 'U');
    assert("LOCKEXT"@[0] == 'L' && "LOCKEXT"@[1] == 'O');
    reveal_with_fuel(runtime::place_of, 5);
}

} // verus!
