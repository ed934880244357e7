//! Maildir directories: names of messages, paths that are opened, and how a
//! message is published.

use rustix::rand::{getrandom, GetRandomFlags};
use vstd::prelude::*;
use vstd::slice::slice_subrange;
use vstd::string::*;

use crate::config::expression;
use crate::config::paths;
use crate::config::recipe::{self, Config};
use crate::config::settings::{self, line_message, settings_of};
use crate::config::variables::AssignmentTarget;
use crate::delivery::failure::{self, IoError, IoErrorKind, IoFailure};
use crate::delivery::local_lock::FileStatus;
use crate::delivery::mbox_append;
use crate::delivery::mode::{self, is_writable_by_others};
use crate::delivery::sink::{append_bytes, CommitFault, PublishedDelivery, SinkCommitError};
use crate::text::{
    self, find_char, from_chars, numbered, same_text, text2, text3, to_chars,
};

verus! {

/// What has to be safe on disk before a delivery counts.
#[derive(Debug, Clone, Copy, PartialEq, Eq, Structural)]
pub enum Durability {
    Nothing,
    File,
    Full,
}

impl Default for Durability {
    fn default() -> (r: Self)
        ensures
            r is Nothing,
    {
        Durability::Nothing
    }
}

/// The durability that a value names.
pub open spec fn durability_named(value: Seq<char>) -> Option<Durability> {
    if value == "none"@ {
        Some(Durability::Nothing)
    } else if value == "file"@ {
        Some(Durability::File)
    } else if value == "full"@ {
        Some(Durability::Full)
    } else {
        None
    }
}

/// The durability that the first `n` values leave.
pub open spec fn durability_after(values: Seq<(nat, Seq<char>)>, n: nat) -> Result<
    Durability,
    Seq<char>,
>
    decreases n,
{
    if n == 0 || n > values.len() {
        Ok(Durability::Nothing)
    } else {
        match durability_after(values, (n - 1) as nat) {
            Err(message) => Err(message),
            Ok(_) => match durability_named(values[n - 1].1) {
                Some(durability) => Ok(durability),
                None => Err(
                    settings::on_line(
                        values[n - 1].0,
                        "invalid DURABILITY: expected 'none', 'file', or 'full'"@,
                    ),
                ),
            },
        }
    }
}

proof fn lemma_first_durability_fault(values: Seq<(nat, Seq<char>)>, n: nat, m: nat)
    requires
        n <= m <= values.len(),
        durability_after(values, n) is Err,
    ensures
        durability_after(values, m) == durability_after(values, n),
    decreases m,
{
    if n < m {
        lemma_first_durability_fault(values, n, (m - 1) as nat);
    }
}

impl Durability {
    /// The durability that a configuration asks for.
    pub fn from_config(config: &Config) -> (r: Result<Self, String>)
        ensures
            ({
                let values = settings::assigned_values(
                    config@.statements,
                    config@.statements.len(),
                    AssignmentTarget::Durability,
                );
                match durability_after(values, values.len()) {
                    Ok(durability) => r == Ok::<Self, String>(durability),
                    Err(message) => r matches Err(found) && found@ == message,
                }
            }),
    {
        let values = settings_of(config, AssignmentTarget::Durability);
        let ghost models = settings::value_models(values@);
        let mut policy = Durability::Nothing;
        let mut i: usize = 0;
        while i < values.len()
            invariant
                i <= values@.len(),
                models == settings::value_models(values@),
                models == settings::assigned_values(
                    config@.statements,
                    config@.statements.len(),
                    AssignmentTarget::Durability,
                ),
                durability_after(models, i as nat) == Ok::<Durability, Seq<char>>(policy),
            decreases values.len() - i,
        {
            assert(models[i as int] == (values@[i as int].0 as nat, values@[i as int].1@));
            let value = values[i].1.as_str();
            policy = if same_text(value, "none") {
                Durability::Nothing
            } else if same_text(value, "file") {
                Durability::File
            } else if same_text(value, "full") {
                Durability::Full
            } else {
                proof {
                    lemma_first_durability_fault(models, (i + 1) as nat, models.len());
                }
                return Err(
                    line_message(
                        values[i].0,
                        "invalid DURABILITY: expected 'none', 'file', or 'full'",
                    ),
                );
            };
            i = i + 1;
        }
        Ok(policy)
    }
}

pub const MAX_NAME_ATTEMPTS: u64 = 128;

pub const MAILDIR_NAME_PREFIX: &'static str = "procmail-rs.";

pub const MAILDIR_RANDOM_BYTES: usize = 16;

pub const MAILDIR_NAME_LEN: usize = 44;

/// The permissions that a new message asks for.
pub const MAILDIR_FILE_MODE: u32 = 0o600;

/// A hexadecimal digit.
pub open spec fn hex_digit(n: nat) -> char {
    if n < 10 {
        ('0' as nat + n) as char
    } else {
        ('a' as nat + (n - 10)) as char
    }
}

fn hex_char(n: u8) -> (r: char)
    requires
        n < 16,
    ensures
        r == hex_digit(n as nat),
{
    if n < 10 {
        (48 + n) as char
    } else {
        (87 + n) as char
    }
}

/// The first `n` bytes in hexadecimal digits.
pub open spec fn hex_text(bytes: Seq<u8>, n: nat) -> Seq<char>
    decreases n,
{
    if n == 0 || n > bytes.len() {
        Seq::empty()
    } else {
        hex_text(bytes, (n - 1) as nat).push(hex_digit((bytes[n - 1] / 16) as nat)).push(
            hex_digit((bytes[n - 1] % 16) as nat),
        )
    }
}

/// The name of a message that these bytes make.
pub open spec fn name_of(bytes: Seq<u8>) -> Seq<char> {
    MAILDIR_NAME_PREFIX@ + hex_text(bytes, bytes.len())
}

/// Makes the name of a message of bytes.
pub fn maildir_name(bytes: &[u8]) -> (r: String)
    ensures
        r@ == name_of(bytes@),
{
    let mut digits = String::new();
    let mut i: usize = 0;
    assert(digits@ =~= Seq::<char>::empty());
    while i < bytes.len()
        invariant
            i <= bytes@.len(),
            digits@ == hex_text(bytes@, i as nat),
        decreases bytes.len() - i,
    {
        digits.push(hex_char(bytes[i] / 16));
        digits.push(hex_char(bytes[i] % 16));
        i = i + 1;
    }
    text2(MAILDIR_NAME_PREFIX, digits.as_str())
}

/// `rustix::rand::getrandom` fills a buffer with random bytes, or a part of it
/// from its start on, or gives the number of the system's error. Nothing can
/// be said of the bytes.
#[verifier::external_body]
fn random_bytes(length: usize) -> (r: Result<Vec<u8>, i32>)
    requires
        length <= isize::MAX,
    ensures
        r matches Ok(bytes) ==> bytes@.len() <= length,
{
    let mut bytes = vec![0u8; length];
    match getrandom(&mut bytes[..], GetRandomFlags::empty()) {
        Ok(count) => {
            bytes.truncate(count);
            Ok(bytes)
        },
        Err(error) => Err(error.raw_os_error()),
    }
}

/// The failure of a random source that gives nothing.
pub open spec fn no_random_data() -> IoFailure {
    failure::failure(IoErrorKind::UnexpectedEof, "Linux random source returned no data"@)
}

/// Takes a piece of random bytes, as the system gave it.
pub fn take_random(bytes: &mut Vec<u8>, piece: Result<Vec<u8>, i32>) -> (r: Result<(), IoError>)
    ensures
        match piece {
            Ok(found) => if found@.len() == 0 {
                r matches Err(error) && error@ == no_random_data() && final(bytes)@ == old(bytes)@
            } else {
                r is Ok && final(bytes)@ == old(bytes)@ + found@
            },
            Err(code) => {
                &&& r matches Err(error) && failure::reported_as(error@, code)
                &&& final(bytes)@ == old(bytes)@
            },
        },
{
    match piece {
        Ok(found) => {
            if found.len() == 0 {
                return Err(
                    IoError::new(
                        IoErrorKind::UnexpectedEof,
                        "Linux random source returned no data",
                    ),
                );
            }
            append_bytes(bytes, found.as_slice());
            Ok(())
        },
        Err(code) => Err(IoError::from_system(code)),
    }
}

/// Whether a failure is one of the random source.
pub open spec fn source_failed(error: IoFailure) -> bool {
    error == no_random_data() || exists|code: i32| #[trigger] failure::reported_as(error, code)
}

/// Collects so many random bytes, in as many pieces as they come.
pub fn fill_random(length: usize) -> (r: Result<Vec<u8>, IoError>)
    requires
        length <= isize::MAX,
    ensures
        match r {
            Ok(bytes) => bytes@.len() == length,
            Err(error) => length > 0 && source_failed(error@),
        },
{
    let mut bytes: Vec<u8> = Vec::new();
    while bytes.len() < length
        invariant
            bytes@.len() <= length <= isize::MAX,
        decreases length - bytes@.len(),
    {
        let piece = random_bytes(length - bytes.len());
        match take_random(&mut bytes, piece) {
            Ok(()) => {},
            Err(error) => {
                return Err(error);
            },
        }
    }
    Ok(bytes)
}

/// Whether a name is one that random bytes make.
pub open spec fn is_message_name(name: Seq<char>) -> bool {
    exists|bytes: Seq<u8>| bytes.len() == MAILDIR_RANDOM_BYTES && name == #[trigger] name_of(bytes)
}

/// A name for a new message.
pub fn unique_name() -> (r: Result<String, IoError>)
    ensures
        match r {
            Ok(name) => is_message_name(name@),
            Err(error) => source_failed(error@),
        },
{
    match fill_random(MAILDIR_RANDOM_BYTES) {
        Ok(bytes) => Ok(maildir_name(bytes.as_slice())),
        Err(error) => Err(error),
    }
}

proof fn lemma_hex_text(bytes: Seq<u8>, n: nat)
    requires
        n <= bytes.len(),
    ensures
        hex_text(bytes, n).len() == 2 * n,
        forall|i: int|
            0 <= i < 2 * n ==> {
                ||| '0' <= #[trigger] hex_text(bytes, n)[i] <= '9'
                ||| 'a' <= hex_text(bytes, n)[i] <= 'f'
            },
    decreases n,
{
    if n > 0 {
        lemma_hex_text(bytes, (n - 1) as nat);
    }
}

/// The name of a message always has the same length and is made of the prefix
/// and hexadecimal digits alone: it holds no `/` and tells nothing of the
/// process.
pub proof fn message_names_are_safe(name: Seq<char>)
    requires
        is_message_name(name),
    ensures
        name.len() == MAILDIR_NAME_LEN,
        text::begins(name, MAILDIR_NAME_PREFIX@),
        forall|i: int|
            12 <= i < name.len() ==> {
                ||| '0' <= #[trigger] name[i] <= '9'
                ||| 'a' <= name[i] <= 'f'
            },
        !name.contains('/'),
{
    let bytes = choose|bytes: Seq<u8>|
        bytes.len() == MAILDIR_RANDOM_BYTES && name == #[trigger] name_of(bytes);
    let digits = hex_text(bytes, bytes.len());
    lemma_hex_text(bytes, bytes.len());
    reveal_strlit("procmail-rs.");
    assert(MAILDIR_NAME_PREFIX@ == "procmail-rs."@);
    assert(name.subrange(0, 12) =~= MAILDIR_NAME_PREFIX@);
    assert forall|i: int| 12 <= i < name.len() implies {
        ||| '0' <= #[trigger] name[i] <= '9'
        ||| 'a' <= name[i] <= 'f'
    } by {
        assert(name[i] == digits[i - 12]);
    }
    assert forall|i: int| 0 <= i < name.len() implies #[trigger] name[i] != '/' by {
        if i < 12 {
            assert(name[i] == "procmail-rs."@[i]);
        }
    }
}

proof fn lemma_hex_digits_apart(a: nat, b: nat)
    requires
        a < 16,
        b < 16,
        hex_digit(a) == hex_digit(b),
    ensures
        a == b,
{
}

proof fn lemma_hex_text_apart(a: Seq<u8>, b: Seq<u8>, n: nat)
    requires
        n <= a.len(),
        n <= b.len(),
        hex_text(a, n) == hex_text(b, n),
    ensures
        forall|i: int| 0 <= i < n ==> #[trigger] a[i] == b[i],
    decreases n,
{
    if n > 0 {
        let last = (n - 1) as nat;
        let place = 2 * last as int;
        lemma_hex_text(a, n);
        lemma_hex_text(b, n);
        lemma_hex_text(a, last);
        lemma_hex_text(b, last);
        assert(hex_text(a, last) =~= hex_text(a, n).subrange(0, place));
        assert(hex_text(b, last) =~= hex_text(b, n).subrange(0, place));
        lemma_hex_text_apart(a, b, last);
        assert(hex_text(a, n)[place] == hex_digit((a[last as int] / 16) as nat));
        assert(hex_text(b, n)[place] == hex_digit((b[last as int] / 16) as nat));
        assert(hex_text(a, n)[place + 1] == hex_digit((a[last as int] % 16) as nat));
        assert(hex_text(b, n)[place + 1] == hex_digit((b[last as int] % 16) as nat));
        lemma_hex_digits_apart((a[last as int] / 16) as nat, (b[last as int] / 16) as nat);
        lemma_hex_digits_apart((a[last as int] % 16) as nat, (b[last as int] % 16) as nat);
        assert(a[last as int] == b[last as int]);
    }
}

/// Different random bytes make different names.
pub proof fn different_bytes_make_different_names(a: Seq<u8>, b: Seq<u8>)
    requires
        a.len() == MAILDIR_RANDOM_BYTES,
        b.len() == MAILDIR_RANDOM_BYTES,
        name_of(a) == name_of(b),
    ensures
        a == b,
{
    let prefix = MAILDIR_NAME_PREFIX@;
    let first = hex_text(a, a.len());
    let second = hex_text(b, b.len());
    assert(first =~= name_of(a).subrange(prefix.len() as int, name_of(a).len() as int));
    assert(second =~= name_of(b).subrange(prefix.len() as int, name_of(b).len() as int));
    lemma_hex_text_apart(a, b, a.len());
    assert(a =~= b);
}

/// How one try to take a name came out.
#[derive(Debug)]
pub enum AttemptOutcome {
    Taken,
    Collision,
    Failed(IoError),
}

/// What follows from it.
#[derive(Debug)]
pub enum AttemptDecision {
    Done,
    Retry,
    Fail(IoError),
}

pub enum AttemptVerdict {
    Done,
    Retry,
    Fail(IoFailure),
}

impl View for AttemptDecision {
    type V = AttemptVerdict;

    open spec fn view(&self) -> AttemptVerdict {
        match self {
            AttemptDecision::Done => AttemptVerdict::Done,
            AttemptDecision::Retry => AttemptVerdict::Retry,
            AttemptDecision::Fail(error) => AttemptVerdict::Fail(error@),
        }
    }
}

/// What follows from try `attempt`, counted from 0. Only a name that somebody
/// else has is worth another try, and only so often.
pub open spec fn attempt_verdict(attempt: u64, outcome: AttemptOutcome, what: Seq<char>) -> AttemptVerdict {
    match outcome {
        AttemptOutcome::Taken => AttemptVerdict::Done,
        AttemptOutcome::Failed(error) => AttemptVerdict::Fail(error@),
        AttemptOutcome::Collision => if attempt + 1 < MAX_NAME_ATTEMPTS {
            AttemptVerdict::Retry
        } else {
            AttemptVerdict::Fail(
                failure::failure(
                    IoErrorKind::AlreadyExists,
                    "cannot allocate "@ + what + " after "@ + text::decimal(
                        MAX_NAME_ATTEMPTS as nat,
                    ) + " attempts"@,
                ),
            )
        },
    }
}

/// Decides what follows from a try to take a name.
pub fn after_attempt(attempt: u64, outcome: AttemptOutcome, what: &str) -> (r: AttemptDecision)
    ensures
        r@ == attempt_verdict(attempt, outcome, what@),
{
    match outcome {
        AttemptOutcome::Taken => AttemptDecision::Done,
        AttemptOutcome::Failed(error) => AttemptDecision::Fail(error),
        AttemptOutcome::Collision => {
            if attempt < MAX_NAME_ATTEMPTS - 1 {
                AttemptDecision::Retry
            } else {
                let start = text3("cannot allocate ", what, " after ");
                let message = numbered(start.as_str(), MAX_NAME_ATTEMPTS as usize, " attempts");
                AttemptDecision::Fail(IoError::new(IoErrorKind::AlreadyExists, message.as_str()))
            }
        },
    }
}

/// The pieces of a path between its slashes, from `from` on.
pub open spec fn segments(path: Seq<char>, from: int) -> Seq<Seq<char>>
    decreases path.len() - from,
{
    if from < 0 || from > path.len() {
        Seq::empty()
    } else {
        let end = text::find_from(path, '/', from);
        if from <= end < path.len() {
            seq![path.subrange(from, end)] + segments(path, end + 1)
        } else {
            seq![path.subrange(from, path.len() as int)]
        }
    }
}

/// Whether one of the pieces names the directory above.
pub open spec fn goes_up(pieces: Seq<Seq<char>>) -> bool {
    exists|i: int| 0 <= i < pieces.len() && #[trigger] pieces[i] == ".."@
}

/// Whether a piece names an entry of a directory.
pub open spec fn names_entry(piece: Seq<char>) -> bool {
    piece.len() > 0 && piece != "."@ && piece != ".."@
}

/// The entries that the first `n` pieces name.
pub open spec fn entries(pieces: Seq<Seq<char>>, n: nat) -> Seq<Seq<char>>
    decreases n,
{
    if n == 0 || n > pieces.len() {
        Seq::empty()
    } else if names_entry(pieces[n - 1]) {
        entries(pieces, (n - 1) as nat).push(pieces[n - 1])
    } else {
        entries(pieces, (n - 1) as nat)
    }
}

/// Parts a path at its slashes.
pub fn split_path(path: &[char]) -> (r: Vec<String>)
    ensures
        expression::texts(r@) == segments(path@, 0),
{
    let length = path.len();
    let mut pieces: Vec<String> = Vec::new();
    let mut from: usize = 0;
    assert(expression::texts(pieces@) + segments(path@, 0) =~= segments(path@, 0));
    loop
        invariant
            length == path@.len(),
            from <= path@.len(),
            expression::texts(pieces@) + segments(path@, from as int) == segments(path@, 0),
        decreases length - from,
    {
        let end = find_char(path, '/', from);
        let piece = from_chars(slice_subrange(path, from, end));
        let ghost before = pieces@;
        pieces.push(piece);
        assert(expression::texts(pieces@) =~= expression::texts(before).push(piece@));
        if end >= length {
            assert(expression::texts(pieces@) =~= expression::texts(before) + segments(
                path@,
                from as int,
            ));
            return pieces;
        }
        assert(expression::texts(pieces@) + segments(path@, end + 1) =~= expression::texts(before)
            + segments(path@, from as int));
        from = end + 1;
    }
}

/// The directories that are opened one after another, each in the one before,
/// to reach a path without following a link.
pub open spec fn directories_to(path: Seq<char>) -> Result<Seq<Seq<char>>, Seq<char>> {
    let pieces = segments(path, 0);
    let named = entries(pieces, pieces.len());
    if path.len() == 0 {
        Err("Maildir path is empty"@)
    } else if goes_up(pieces) {
        Err("Maildir path must not contain '..'"@)
    } else if path[0] != '/' && named.len() == 0 {
        Err("Maildir path does not name a directory"@)
    } else {
        Ok(
            seq![
                if path[0] == '/' {
                    "/"@
                } else {
                    "."@
                },
            ] + named,
        )
    }
}

/// Lists the directories that are opened one after another, each in the one
/// before, to reach a path without following a link.
pub fn directory_steps(path: &str) -> (r: Result<Vec<String>, IoError>)
    ensures
        match directories_to(path@) {
            Ok(names) => r matches Ok(found) && expression::texts(found@) == names,
            Err(message) => r matches Err(error) && error@ == failure::failure(
                IoErrorKind::InvalidInput,
                message,
            ),
        },
{
    let chars = to_chars(path);
    if chars.len() == 0 {
        return Err(IoError::new(IoErrorKind::InvalidInput, "Maildir path is empty"));
    }
    let pieces = split_path(chars.as_slice());
    let ghost models = expression::texts(pieces@);
    let absolute = chars[0] == '/';
    let mut steps: Vec<String> = Vec::new();
    steps.push(
        if absolute {
            "/".to_owned()
        } else {
            ".".to_owned()
        },
    );
    let ghost root = if absolute {
        "/"@
    } else {
        "."@
    };
    assert(expression::texts(steps@) =~= seq![root] + entries(models, 0));
    let mut i: usize = 0;
    while i < pieces.len()
        invariant
            i <= pieces@.len(),
            models == expression::texts(pieces@),
            models == segments(path@, 0),
            path@.len() > 0,
            root == (if path@[0] == '/' {
                "/"@
            } else {
                "."@
            }),
            forall|j: int| 0 <= j < i ==> #[trigger] models[j] != ".."@,
            expression::texts(steps@) == seq![root] + entries(models, i as nat),
        decreases pieces.len() - i,
    {
        assert(models[i as int] == pieces@[i as int]@);
        let piece = pieces[i].as_str();
        if same_text(piece, "..") {
            return Err(
                IoError::new(IoErrorKind::InvalidInput, "Maildir path must not contain '..'"),
            );
        }
        if !piece.is_empty() && !same_text(piece, ".") {
            let ghost before = steps@;
            let step = pieces[i].clone();
            steps.push(step);
            assert(expression::texts(steps@) =~= expression::texts(before).push(step@));
            assert((seq![root] + entries(models, i as nat)).push(models[i as int]) =~= seq![root]
                + entries(models, (i + 1) as nat));
        }
        i = i + 1;
    }
    assert(expression::texts(steps@).len() == steps@.len());
    if !absolute && steps.len() == 1 {
        return Err(
            IoError::new(IoErrorKind::InvalidInput, "Maildir path does not name a directory"),
        );
    }
    Ok(steps)
}

/// No step on the way to a path goes up, and each one below the first is a name
/// in the directory that was opened before.
pub proof fn directory_steps_only_go_down(path: Seq<char>)
    requires
        directories_to(path) is Ok,
    ensures
        forall|i: int|
            1 <= i < directories_to(path)->Ok_0.len() ==> names_entry(
                #[trigger] directories_to(path)->Ok_0[i],
            ),
{
    let pieces = segments(path, 0);
    lemma_entries(pieces, pieces.len());
}

proof fn lemma_entries(pieces: Seq<Seq<char>>, n: nat)
    ensures
        forall|i: int|
            0 <= i < entries(pieces, n).len() ==> names_entry(#[trigger] entries(pieces, n)[i]),
    decreases n,
{
    if n > 0 && n <= pieces.len() {
        lemma_entries(pieces, (n - 1) as nat);
        let before = entries(pieces, (n - 1) as nat);
        assert forall|i: int| 0 <= i < entries(pieces, n).len() implies names_entry(
            #[trigger] entries(pieces, n)[i],
        ) by {
            if i < before.len() {
                assert(entries(pieces, n)[i] == before[i]);
            }
        }
    }
}

/// What is wrong with a path for `MAILDIR`.
pub open spec fn maildir_path_fault(path: Seq<char>) -> Option<Seq<char>> {
    if path.len() == 0 {
        Some("path is empty"@)
    } else if goes_up(segments(path, 0)) {
        Some("path must not contain '..'"@)
    } else {
        None
    }
}

/// Refuses a path that is empty or goes up.
pub fn validate_maildir_path(path: &str) -> (r: Result<(), String>)
    ensures
        match maildir_path_fault(path@) {
            Some(message) => r matches Err(found) && found@ == message,
            None => r is Ok,
        },
{
    let chars = to_chars(path);
    if chars.len() == 0 {
        return Err("path is empty".to_owned());
    }
    let pieces = split_path(chars.as_slice());
    let ghost models = expression::texts(pieces@);
    let mut i: usize = 0;
    while i < pieces.len()
        invariant
            i <= pieces@.len(),
            models == expression::texts(pieces@),
            models == segments(path@, 0),
            path@.len() > 0,
            forall|j: int| 0 <= j < i ==> #[trigger] models[j] != ".."@,
        decreases pieces.len() - i,
    {
        assert(models[i as int] == pieces@[i as int]@);
        if same_text(pieces[i].as_str(), "..") {
            return Err("path must not contain '..'".to_owned());
        }
        i = i + 1;
    }
    Ok(())
}

/// Where a message of this name is published.
pub open spec fn published_path(maildir: Seq<char>, name: Seq<char>) -> Seq<char> {
    paths::joined_path(paths::joined_path(maildir, "new"@), name)
}

fn join_path(base: &str, path: &str) -> (r: String)
    ensures
        r@ == paths::joined_path(base@, path@),
{
    let chars = to_chars(base);
    if text::ends_with(chars.as_slice(), '/') {
        text2(base, path)
    } else {
        text3(base, "/", path)
    }
}

fn publication(maildir: &str, name: &str) -> (r: PublishedDelivery)
    ensures
        r@ == published_path(maildir@, name@),
{
    let directory = join_path(maildir, "new");
    PublishedDelivery::new(join_path(directory.as_str(), name))
}

/// How far the publication of a message has come.
#[derive(Debug, Clone, Copy, PartialEq, Eq, Structural)]
pub enum CommitPhase {
    SyncingFile,
    Publishing,
    SyncingTmp,
    SyncingNew,
    Ended,
}

/// How a step of the publication came out.
#[derive(Debug)]
pub enum CommitEvent {
    Done,
    Published(String),
    Failed(IoError),
    FailedPublished(IoError, String),
}

/// The publication of a message in a Maildir.
#[derive(Debug)]
pub struct MaildirCommit {
    durability: Durability,
    phase: CommitPhase,
    name: Option<String>,
    error: Option<IoError>,
}

pub struct CommitModel {
    pub durability: Durability,
    pub phase: CommitPhase,
    pub name: Option<Seq<char>>,
    pub error: Option<IoFailure>,
}

impl View for MaildirCommit {
    type V = CommitModel;

    closed spec fn view(&self) -> CommitModel {
        CommitModel {
            durability: self.durability,
            phase: self.phase,
            name: recipe::optional_text(self.name),
            error: mbox_append::failure_model(self.error),
        }
    }
}

impl CommitModel {
    /// Once a step has come out like this.
    pub open spec fn after(self, event: CommitEvent) -> CommitModel {
        match event {
            CommitEvent::Failed(error) => CommitModel {
                phase: CommitPhase::Ended,
                error: Some(error@),
                ..self
            },
            CommitEvent::FailedPublished(error, name) => CommitModel {
                phase: CommitPhase::Ended,
                error: Some(error@),
                name: Some(name@),
                ..self
            },
            CommitEvent::Published(name) => CommitModel {
                phase: if self.durability is Full {
                    CommitPhase::SyncingTmp
                } else {
                    CommitPhase::Ended
                },
                name: Some(name@),
                ..self
            },
            CommitEvent::Done => CommitModel {
                phase: match self.phase {
                    CommitPhase::SyncingFile => CommitPhase::Publishing,
                    CommitPhase::SyncingTmp => CommitPhase::SyncingNew,
                    _ => CommitPhase::Ended,
                },
                ..self
            },
        }
    }

    /// Whether a step of this phase can come out like this.
    pub open spec fn can(self, event: CommitEvent) -> bool {
        match event {
            CommitEvent::Failed(_) => !(self.phase is Ended),
            CommitEvent::Done => !(self.phase is Publishing) && !(self.phase is Ended),
            CommitEvent::Published(_) => self.phase is Publishing,
            CommitEvent::FailedPublished(_, _) => self.phase is Publishing,
        }
    }

    /// What holds of a publication in every phase.
    pub open spec fn wf(self) -> bool {
        &&& self.phase is SyncingFile || self.phase is Publishing ==> self.name is None
            && self.error is None
        &&& self.phase is SyncingTmp || self.phase is SyncingNew ==> self.name is Some
            && self.error is None && self.durability is Full
        &&& self.phase is SyncingFile ==> !(self.durability is Nothing)
        &&& self.phase is Ended && self.error is None ==> self.name is Some
    }
}

impl MaildirCommit {
    /// A publication that starts.
    pub fn new(durability: Durability) -> (r: Self)
        ensures
            r@ == (CommitModel {
                durability,
                phase: if durability is Nothing {
                    CommitPhase::Publishing
                } else {
                    CommitPhase::SyncingFile
                },
                name: None,
                error: None,
            }),
            r@.wf(),
    {
        let phase = if durability == Durability::Nothing {
            CommitPhase::Publishing
        } else {
            CommitPhase::SyncingFile
        };
        MaildirCommit { durability, phase, name: None, error: None }
    }

    /// The step that comes next.
    pub fn phase(&self) -> (r: CommitPhase)
        ensures
            r == self@.phase,
    {
        self.phase
    }

    /// Once that step has come out like this.
    pub fn advance(self, event: CommitEvent) -> (r: Self)
        requires
            self@.wf(),
            self@.can(event),
        ensures
            r@ == self@.after(event),
            r@.wf(),
    {
        let mut next = self;
        match event {
            CommitEvent::Failed(error) => {
                next.phase = CommitPhase::Ended;
                next.error = Some(error);
            },
            CommitEvent::FailedPublished(error, name) => {
                next.phase = CommitPhase::Ended;
                next.error = Some(error);
                next.name = Some(name);
            },
            CommitEvent::Published(name) => {
                next.phase = if next.durability == Durability::Full {
                    CommitPhase::SyncingTmp
                } else {
                    CommitPhase::Ended
                };
                next.name = Some(name);
            },
            CommitEvent::Done => {
                next.phase = match next.phase {
                    CommitPhase::SyncingFile => CommitPhase::Publishing,
                    CommitPhase::SyncingTmp => CommitPhase::SyncingNew,
                    _ => CommitPhase::Ended,
                };
            },
        }
        next
    }

    /// What came of the publication in the Maildir at `maildir`.
    pub fn finish(self, maildir: &str) -> (r: Result<PublishedDelivery, SinkCommitError>)
        requires
            self@.wf(),
            self@.phase is Ended,
        ensures
            match self@.error {
                None => r matches Ok(published) && published@ == published_path(
                    maildir@,
                    self@.name->0,
                ),
                Some(source) => r matches Err(error) && error@ == (CommitFault {
                    source,
                    published: match self@.name {
                        Some(name) => Some(published_path(maildir@, name)),
                        None => None,
                    },
                }),
            },
    {
        match self.error {
            None => {
                let name = match self.name {
                    Some(name) => name,
                    None => String::new(),
                };
                Ok(publication(maildir, name.as_str()))
            },
            Some(source) => match self.name {
                Some(name) => Err(
                    SinkCommitError::after_publication(
                        source,
                        publication(maildir, name.as_str()),
                    ),
                ),
                None => Err(SinkCommitError::before_publication(source)),
            },
        }
    }
}

/// A message becomes visible only after its bytes are as safe as was asked
/// for: nothing is published while its file still has to be synced.
pub proof fn a_message_is_synced_before_it_is_visible(commit: CommitModel, event: CommitEvent)
    requires
        commit.wf(),
        commit.can(event),
        commit.name is None,
        commit.after(event).name is Some,
    ensures
        commit.phase is Publishing,
{
}

/// What tells a file from every other one on the machine.
#[derive(Debug, Clone, Copy, PartialEq, Eq, Structural)]
pub struct FileIdentity {
    pub is_regular: bool,
    pub device: u64,
    pub inode: u64,
}

/// Whether a name still stands for the file that was opened under it.
pub open spec fn still_names(opened: FileIdentity, named: FileIdentity) -> bool {
    named.is_regular && named.device == opened.device && named.inode == opened.inode
}

/// Refuses a name that has come to stand for another file.
pub fn verify_named_file(opened: FileIdentity, named: FileIdentity) -> (r: Result<(), IoError>)
    ensures
        if still_names(opened, named) {
            r is Ok
        } else {
            r matches Err(error) && error@ == failure::failure(
                IoErrorKind::PermissionDenied,
                "Maildir temporary file was replaced concurrently"@,
            )
        },
{
    if named.is_regular && named.device == opened.device && named.inode == opened.inode {
        Ok(())
    } else {
        Err(
            IoError::new(
                IoErrorKind::PermissionDenied,
                "Maildir temporary file was replaced concurrently",
            ),
        )
    }
}

/// Why a directory cannot be a part of the user's Maildir.
pub open spec fn maildir_fault(
    status: FileStatus,
    user: u32,
    name: Seq<char>,
) -> Option<IoFailure> {
    if !status.is_directory {
        Some(failure::failure(IoErrorKind::InvalidInput, name + " is not a directory"@))
    } else if status.owner != user || mode::lets_others_write(status.mode) {
        Some(
            failure::failure(
                IoErrorKind::PermissionDenied,
                name + " must be owned by the current uid and not writable by other users"@,
            ),
        )
    } else {
        None
    }
}

/// Refuses a directory of a Maildir that others could change.
pub fn validate_directory(status: FileStatus, user: u32, name: &str) -> (r: Result<(), IoError>)
    ensures
        match maildir_fault(status, user, name@) {
            Some(fault) => r matches Err(error) && error@ == fault,
            None => r is Ok,
        },
{
    if !status.is_directory {
        let message = text2(name, " is not a directory");
        return Err(IoError::new(IoErrorKind::InvalidInput, message.as_str()));
    }
    if status.owner != user || is_writable_by_others(status.mode) {
        let message = text2(
            name,
            " must be owned by the current uid and not writable by other users",
        );
        return Err(IoError::new(IoErrorKind::PermissionDenied, message.as_str()));
    }
    Ok(())
}

} // verus!
