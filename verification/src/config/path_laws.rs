//! What a path may be, and where it leads from.

use vstd::prelude::*;
use vstd::utf8::*;

use crate::config::errors::Fault;
use crate::config::paths::{self, PathPurpose, Resolver};
use crate::config::recipe::{AssignmentModel, DestinationKind, DestinationModel, PathModel};
use crate::config::resolution;
use crate::config::shell_eval;
use crate::config::variables::AssignmentPath;
use crate::text;

verus! {

/// Whether a piece of a path names an entry of a directory.
pub open spec fn names_one_entry(piece: Seq<char>) -> bool {
    piece.len() > 0 && piece != "."@ && piece != ".."@
}

/// Whether every piece between slashes names an entry of a directory.
pub open spec fn all_name_entries(path: Seq<char>) -> bool {
    forall|from: int, end: int| #[trigger]
        paths::component_at(path, from, end) ==> names_one_entry(path.subrange(from, end))
}

proof fn lemma_components(path: Seq<char>, from: int)
    requires
        0 <= from <= path.len(),
        from == 0 || path[from - 1] == '/',
    ensures
        paths::components_fault(path, from) is None <==> forall|f: int, e: int|
            from <= f && #[trigger] paths::component_at(path, f, e) ==> names_one_entry(
                path.subrange(f, e),
            ),
    decreases path.len() - from,
{
    let end = text::find_from(path, '/', from);
    text::lemma_first_place(path, '/', from);
    assert(paths::component_at(path, from, end));
    let piece = path.subrange(from, end);
    assert((paths::component_fault(piece) is None) == names_one_entry(piece));
    assert forall|f: int, e: int|
        from <= f && #[trigger] paths::component_at(path, f, e) implies f == from && e == end || f
        > end by {
        if f == from {
            if e < end {
                assert(path[e] == '/');
            } else if e > end {
                assert(path[end] != '/');
            }
        } else if f <= end {
            assert(path[f - 1] == '/');
        }
    }
    if end < path.len() {
        lemma_components(path, end + 1);
    }
}

/// A path is one or more names with a slash between two of them, without `.`
/// and `..`, and without NUL; it may begin with a slash, and may end with one
/// where that is asked for.
pub proof fn paths_are_made_of_names(path: Seq<char>, trailing: bool)
    requires
        path.len() > 0,
        path[0] != '/',
        path.last() != '/',
    ensures
        ({
            let good = !path.contains('\0') && all_name_entries(path);
            &&& paths::path_fault(path, trailing) is None <==> good
            &&& paths::path_fault(seq!['/'] + path, trailing) is None <==> good
            &&& paths::path_fault(path.push('/'), true) is None <==> good
            &&& paths::path_fault((seq!['/'] + path).push('/'), true) is None <==> good
            &&& paths::path_fault(path.push('/'), false) is Some
        }),
{
    lemma_components(path, 0);
    let rooted = seq!['/'] + path;
    assert(text::rest_of(rooted) =~= path);
    assert(rooted.last() == path.last());
    assert(paths::path_components(path, trailing) == path);
    assert(paths::path_components(rooted, trailing) == path);
    let closed = path.push('/');
    assert(closed.subrange(0, closed.len() - 1) =~= path);
    let both = rooted.push('/');
    assert(text::rest_of(both) =~= closed);
    assert forall|longer: Seq<char>|
        longer == rooted || longer == closed || longer == both implies #[trigger] longer.contains(
        '\0',
    ) == path.contains('\0') by {
        if path.contains('\0') {
            let i = choose|i: int| 0 <= i < path.len() && path[i] == '\0';
            if longer == closed {
                assert(longer[i] == '\0');
            } else {
                assert(longer[i + 1] == '\0');
            }
        }
        if longer.contains('\0') {
            let i = choose|i: int| 0 <= i < longer.len() && longer[i] == '\0';
            if longer == closed {
                assert(path[i] == '\0');
            } else {
                assert(path[i - 1] == '\0');
            }
        }
    }
    assert(rooted.contains('\0') == path.contains('\0'));
    assert(closed.contains('\0') == path.contains('\0'));
    assert(both.contains('\0') == path.contains('\0'));
}

/// An empty text and a lone slash are no paths.
pub proof fn some_entry_is_named(trailing: bool)
    ensures
        paths::path_fault(Seq::empty(), trailing) is Some,
        paths::path_fault(seq!['/'], trailing) is Some,
{
    assert(text::rest_of(seq!['/']) =~= Seq::<char>::empty());
}

/// A path that is absolute, or empty, or that nothing stands before, stays as
/// it is. Every other one is put behind its directory, with one slash between
/// them, and has 4096 bytes at most.
pub proof fn relative_paths_start_at_their_base(path: Seq<char>, base: Seq<char>, line: nat)
    ensures
        paths::relative_path(path, None, line) == Ok::<_, Fault>(path),
        base.len() == 0 || path.len() == 0 || path[0] == '/' ==> paths::relative_path(
            path,
            Some(base),
            line,
        ) == Ok::<_, Fault>(path),
        base.len() > 0 && path.len() > 0 && path[0] != '/' ==> ({
            let joined = if base.last() == '/' {
                base + path
            } else {
                base.push('/') + path
            };
            if text::byte_len(joined) <= 4096 {
                paths::relative_path(path, Some(base), line) == Ok::<
                    _,
                    Fault,
                >(joined)
            } else {
                paths::relative_path(path, Some(base), line) is Err
            }
        }),
{
    if base.len() > 0 && path.len() > 0 && path[0] != '/' {
        reveal_strlit("/");
        reveal_with_fuel(shell_eval::extended_by, 4);
        let first = encode_utf8(base);
        let last = encode_utf8(path);
        let empty = Seq::<u8>::empty();
        assert(empty + first =~= first);
        if base.last() == '/' {
            text::lemma_encode_concat(base, path);
        } else {
            assert("/"@ =~= seq!['/']);
            assert(base.push('/') =~= base + "/"@);
            text::lemma_encode_concat(base, "/"@);
            text::lemma_encode_concat(base + "/"@, path);
        }
    }
}

/// What a path is for decides what it may be. A lock, a log and a configuration
/// may have none. A destination that no mark types holds no blanks, only a mail
/// directory ends with a slash, and what is discarded goes to `/dev/null`.
pub proof fn purposes_decide_what_a_path_may_be(resolver: Resolver, source: Seq<char>, i: int)
    ensures
        resolver.resolved(Seq::empty()) == Ok::<_, Fault>(Seq::<char>::empty())
            <==> resolver.purpose is Lockfile || resolver.purpose is Logfile
            || resolver.purpose is RcFile,
        (resolver.purpose is Maildir || resolver.purpose is Mbox || resolver.purpose is File
            || resolver.purpose is Discard) && !resolver.typed_destination && 0 <= i < source.len()
            && (source[i] == ' ' || source[i] == '\t' || source[i] == '\n' || source[i] == '\r')
            ==> resolver.resolved(source) is Err,
        resolver.purpose is Discard && resolver.resolved(source) is Ok ==> resolver.resolved(
            source,
        )->Ok_0 == "/dev/null"@,
        resolver.resolved(source) is Ok && source.len() > 0 && resolver.resolved(
            source,
        )->Ok_0.last() == '/' ==> resolver.purpose is Maildir,
        resolver.resolved(source) is Ok && source.len() > 0 ==> paths::relative_path(
            source,
            resolver.base,
            resolver.line,
        ) == resolver.resolved(source),
{
    if 0 <= i < source.len() && (source[i] == ' ' || source[i] == '\t' || source[i] == '\n'
        || source[i] == '\r') {
        assert(text::ascii_white_space(source[i]));
        assert(paths::holds_white_space(source));
    }
    if resolver.resolved(Seq::empty()) is Ok && !resolver.purpose.takes_empty() {
        relative_paths_start_at_their_base(
            Seq::empty(),
            match resolver.base {
                Some(base) => base,
                None => Seq::empty(),
            },
            resolver.line,
        );
        assert(!paths::holds_white_space(Seq::<char>::empty()));
    }
}

/// What each setting's path, and each destination, is for.
pub proof fn paths_have_their_purpose()
    ensures
        resolution::assignment_purpose(AssignmentPath::Maildir).0 == PathPurpose::Maildir,
        resolution::assignment_purpose(AssignmentPath::LogFile).0 == PathPurpose::Logfile,
        resolution::assignment_purpose(AssignmentPath::LockFile).0 == PathPurpose::Lockfile,
        resolution::delivery_purpose(DestinationKind::Maildir) == PathPurpose::Maildir,
        resolution::delivery_purpose(DestinationKind::Mbox) == PathPurpose::Mbox,
        resolution::delivery_purpose(DestinationKind::File) == PathPurpose::File,
        resolution::delivery_purpose(DestinationKind::Discard) == PathPurpose::Discard,
{
}

/// A path starts at the mail directory of the moment where it was left open,
/// and else where it was said to.
pub proof fn paths_start_at_the_mail_directory(path: PathModel, values: Map<Seq<char>, Seq<char>>)
    ensures
        path.runtime_base && values.contains_key("MAILDIR"@) ==> resolution::active_base(
            path,
            values,
        ) == Some(values["MAILDIR"@]),
        !path.runtime_base || !values.contains_key("MAILDIR"@) ==> resolution::active_base(
            path,
            values,
        ) == path.base,
{
}

/// A destination whose kind was left open discards what goes to `/dev/null`
/// and is a mailbox everywhere else; one whose kind is known keeps it. What is
/// settled holds nothing to be expanded.
pub proof fn settled_destinations_are_final(destination: DestinationModel, path: Seq<char>)
    ensures
        ({
            let settled = destination.settled(path);
            &&& destination.kind is File && path == "/dev/null"@ ==> settled.kind
                == DestinationKind::Discard
            &&& destination.kind is File && path != "/dev/null"@ ==> settled.kind
                == DestinationKind::Mbox
            &&& !(destination.kind is File) ==> settled.kind == destination.kind
            &&& settled.path.source == path
            &&& settled.path.expansion is None
            &&& settled.path.base is None
            &&& !settled.path.runtime_dependent
            &&& !settled.path.runtime_base
        }),
{
}

/// A header's value holds no NUL, no carriage return and no line feed.
pub proof fn header_values_are_one_line(value: Seq<char>, line: nat)
    ensures
        resolution::header_value_fault(value, line) is None <==> !value.contains('\0')
            && !value.contains('\r') && !value.contains('\n'),
{
}

/// An assignment of a text that needs no expansion sets that text. A path is
/// put behind the mail directory of the moment unless it is absolute; nothing
/// else is.
pub proof fn assigned_paths_start_at_the_mail_directory(
    assignment: AssignmentModel,
    values: Map<Seq<char>, Seq<char>>,
)
    requires
        assignment.expansion is None,
    ensures
        ({
            let found = resolution::assignment_value(assignment, values);
            let value = assignment.value;
            let target = assignment.target;
            let is_path = target is Maildir || target is LogFile || target is LockFile;
            &&& !is_path && !(target is LogAbstract) && !(target is LockExt) && !(target is Trap)
                ==> found == Ok::<Seq<char>, Fault>(value)
            &&& !is_path && found is Ok ==> found->Ok_0 == value
            &&& is_path && found is Ok && value.len() > 0 && value[0] == '/' ==> found->Ok_0
                == value
            &&& is_path && found is Ok && value.len() > 0 && value[0] != '/'
                && values.contains_key("MAILDIR"@) && values["MAILDIR"@].len() > 0
                ==> found->Ok_0 == if values["MAILDIR"@].last() == '/' {
                values["MAILDIR"@] + value
            } else {
                values["MAILDIR"@].push('/') + value
            }
            &&& is_path && found is Ok && !values.contains_key("MAILDIR"@) ==> found->Ok_0 == value
            &&& target is Maildir && value.len() == 0 ==> found is Err
        }),
{
    let base = if values.contains_key("MAILDIR"@) {
        values["MAILDIR"@]
    } else {
        Seq::empty()
    };
    relative_paths_start_at_their_base(assignment.value, base, assignment.line);
}

} // verus!
