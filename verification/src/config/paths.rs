//! Paths of files that mail is delivered to, locks are taken on, and further
//! configuration is read from.

use vstd::prelude::*;
use vstd::slice::slice_subrange;
use vstd::string::*;
use vstd::utf8::*;

use crate::config::binding::{self, evaluate_with_linebuf};
use crate::config::errors::{self, ExpansionError, Fault};
use crate::config::expression::{ExpressionModel, ShellExpression};
use crate::config::shell_eval::{self, push_bounded, TextValues};
use crate::config::MAX_PATH_EXPRESSION_LEN;
use crate::text::{
    self, chars_are, ends_with, find_char, has_char, is_ascii_white_space, same_text, starts_with,
    string_from_utf8, text3, text_bytes, to_chars,
};

verus! {

/// What a path is for.
#[derive(Debug, Clone, Copy, PartialEq, Eq, Structural)]
pub enum PathPurpose {
    Maildir,
    Mbox,
    File,
    Discard,
    Lockfile,
    Logfile,
    RcFile,
}

impl PathPurpose {
    /// Whether an empty path means that there is none.
    pub open spec fn takes_empty(self) -> bool {
        self is Lockfile || self is Logfile || self is RcFile
    }

    /// Whether mail is delivered to the path.
    pub open spec fn is_delivery(self) -> bool {
        self is Maildir || self is Mbox || self is File || self is Discard
    }

    fn allows_empty(self) -> (r: bool)
        ensures
            r == self.takes_empty(),
    {
        match self {
            PathPurpose::Lockfile | PathPurpose::Logfile | PathPurpose::RcFile => true,
            _ => false,
        }
    }

    fn is_destination(self) -> (r: bool)
        ensures
            r == self.is_delivery(),
    {
        match self {
            PathPurpose::Lockfile | PathPurpose::Logfile | PathPurpose::RcFile => false,
            _ => true,
        }
    }
}

/// What is wrong with one component of a path.
pub open spec fn component_fault(component: Seq<char>) -> Option<Seq<char>> {
    if component.len() == 0 {
        Some("contains an empty component"@)
    } else if component == "."@ {
        Some("must not contain '.'"@)
    } else if component == ".."@ {
        Some("must not contain '..'"@)
    } else {
        None
    }
}

/// What is wrong with the first faulty component from `from` on.
pub open spec fn components_fault(path: Seq<char>, from: int) -> Option<Seq<char>>
    decreases path.len() - from,
{
    if from < 0 || from > path.len() {
        None
    } else {
        let end = text::find_from(path, '/', from);
        match component_fault(path.subrange(from, end)) {
            Some(message) => Some(message),
            None => if from <= end < path.len() {
                components_fault(path, end + 1)
            } else {
                None
            },
        }
    }
}

/// The components of a path: what lies between a leading `/` and, where it is
/// allowed, a trailing one.
pub open spec fn path_components(path: Seq<char>, allows_trailing_slash: bool) -> Seq<char> {
    let relative = if text::begins_with(path, '/') {
        text::rest_of(path)
    } else {
        path
    };
    if allows_trailing_slash && text::closes_with(relative, '/') {
        relative.subrange(0, relative.len() - 1)
    } else {
        relative
    }
}

/// What is wrong with a path, if anything.
pub open spec fn path_fault(path: Seq<char>, allows_trailing_slash: bool) -> Option<Seq<char>> {
    if path.len() == 0 {
        Some("is empty"@)
    } else if path.contains('\0') {
        Some("contains NUL"@)
    } else if text::closes_with(path, '/') && !allows_trailing_slash {
        Some("must not end with '/'"@)
    } else if path_components(path, allows_trailing_slash).len() == 0 {
        Some("does not name a filesystem entry"@)
    } else {
        components_fault(path_components(path, allows_trailing_slash), 0)
    }
}

/// Refuses a path that names a file in more than one way, or none at all.
pub fn validate_filesystem_path(
    path: &str,
    line: usize,
    description: &str,
    allows_trailing_slash: bool,
) -> (r: Result<(), ExpansionError>)
    ensures
        match path_fault(path@, allows_trailing_slash) {
            Some(message) => r matches Err(error) && error@ == errors::fault(
                line as nat,
                description@ + " path "@ + message,
            ),
            None => r is Ok,
        },
{
    let chars = to_chars(path);
    if chars.len() == 0 {
        return Err(ExpansionError::new(line, text3(description, " path ", "is empty")));
    }
    if has_char(chars.as_slice(), '\0') {
        return Err(ExpansionError::new(line, text3(description, " path ", "contains NUL")));
    }
    if ends_with(chars.as_slice(), '/') && !allows_trailing_slash {
        return Err(
            ExpansionError::new(line, text3(description, " path ", "must not end with '/'")),
        );
    }
    let start: usize = if starts_with(chars.as_slice(), '/') {
        1
    } else {
        0
    };
    let relative = slice_subrange(chars.as_slice(), start, chars.len());
    assert(start == 0 ==> relative@ =~= chars@);
    let components = if allows_trailing_slash && ends_with(relative, '/') {
        slice_subrange(relative, 0, relative.len() - 1)
    } else {
        relative
    };
    if components.len() == 0 {
        return Err(
            ExpansionError::new(
                line,
                text3(description, " path ", "does not name a filesystem entry"),
            ),
        );
    }
    let mut from: usize = 0;
    loop
        invariant
            from <= components@.len(),
            components_fault(components@, 0) == components_fault(components@, from as int),
            path_fault(path@, allows_trailing_slash) == components_fault(components@, 0),
        decreases components.len() - from,
    {
        let end = find_char(components, '/', from);
        let component = slice_subrange(components, from, end);
        let message = if component.len() == 0 {
            Some("contains an empty component")
        } else if chars_are(component, ".") {
            Some("must not contain '.'")
        } else if chars_are(component, "..") {
            Some("must not contain '..'")
        } else {
            None
        };
        if let Some(text) = message {
            return Err(ExpansionError::new(line, text3(description, " path ", text)));
        }
        if end == components.len() {
            return Ok(());
        }
        from = end + 1;
    }
}

/// A relative path behind the directory that it is relative to.
pub open spec fn joined_path(base: Seq<char>, path: Seq<char>) -> Seq<char> {
    if text::closes_with(base, '/') {
        base + path
    } else {
        base + "/"@ + path
    }
}

/// The chunks of which a joined path is put together.
pub open spec fn path_chunks(base: Seq<char>, path: Seq<char>) -> Seq<Seq<u8>> {
    if text::closes_with(base, '/') {
        seq![encode_utf8(base), encode_utf8(path)]
    } else {
        seq![encode_utf8(base), encode_utf8("/"@), encode_utf8(path)]
    }
}

/// A path behind the directory that it is relative to, unless it is absolute
/// or there is no directory.
pub open spec fn relative_path(path: Seq<char>, base: Option<Seq<char>>, line: nat) -> Result<
    Seq<char>,
    Fault,
> {
    match base {
        Some(directory) => if directory.len() == 0 || path.len() == 0 || text::begins_with(
            path,
            '/',
        ) {
            Ok(path)
        } else {
            match shell_eval::extended_by(
                Seq::empty(),
                MAX_PATH_EXPRESSION_LEN,
                path_chunks(directory, path),
                0,
            ) {
                Ok(_) => Ok(joined_path(directory, path)),
                Err(error) => Err(
                    shell_eval::length_fault(line, error, MAX_PATH_EXPRESSION_LEN),
                ),
            }
        },
        None => Ok(path),
    }
}

/// Joins a path to the directory that it is relative to.
pub fn resolve_relative_path(path: &str, base: Option<&str>, line: usize) -> (r: Result<
    String,
    ExpansionError,
>)
    ensures
        match relative_path(
            path@,
            match base {
                Some(directory) => Some(directory@),
                None => None,
            },
            line as nat,
        ) {
            Ok(resolved) => r matches Ok(found) && found@ == resolved,
            Err(error) => r matches Err(found) && found@ == error,
        },
{
    let directory = match base {
        Some(directory) => directory,
        None => {
            return Ok(path.to_owned());
        },
    };
    let path_chars = to_chars(path);
    let base_chars = to_chars(directory);
    if base_chars.len() == 0 || path_chars.len() == 0 || starts_with(path_chars.as_slice(), '/') {
        return Ok(path.to_owned());
    }
    let mut output: Vec<u8> = Vec::new();
    let limit: usize = MAX_PATH_EXPRESSION_LEN;
    let ghost none = Seq::<u8>::empty();
    proof {
        reveal_with_fuel(shell_eval::extended_by, 4);
    }
    let base_bytes = text_bytes(directory);
    match push_bounded(&mut output, base_bytes.as_slice(), limit, line) {
        Ok(()) => {},
        Err(error) => {
            return Err(error);
        },
    }
    if !ends_with(base_chars.as_slice(), '/') {
        let slash = text_bytes("/");
        match push_bounded(&mut output, slash.as_slice(), limit, line) {
            Ok(()) => {},
            Err(error) => {
                return Err(error);
            },
        }
    }
    let path_bytes = text_bytes(path);
    match push_bounded(&mut output, path_bytes.as_slice(), limit, line) {
        Ok(()) => {},
        Err(error) => {
            return Err(error);
        },
    }
    proof {
        text::lemma_encode_concat(directory@, "/"@);
        text::lemma_encode_concat(directory@ + "/"@, path@);
        text::lemma_encode_concat(directory@, path@);
        assert(none + encode_utf8(directory@) =~= encode_utf8(directory@));
        assert(output@ == encode_utf8(joined_path(directory@, path@)));
        encode_utf8_valid_utf8(joined_path(directory@, path@));
        encode_utf8_decode_utf8(joined_path(directory@, path@));
    }
    match string_from_utf8(output) {
        Some(joined) => {
            proof {
                encode_utf8_decode_utf8(joined@);
            }
            Ok(joined)
        },
        None => Err(ExpansionError::told(line, "resolved path is not valid UTF-8")),
    }
}

/// How a path is made of a text.
#[derive(Clone, Copy)]
pub struct PathResolver<'a> {
    pub purpose: PathPurpose,
    pub description: &'static str,
    pub line: usize,
    pub base: Option<&'a str>,
    pub typed_destination: bool,
}

/// How a path is made of a text, with texts as sequences of characters.
pub struct Resolver {
    pub purpose: PathPurpose,
    pub description: Seq<char>,
    pub line: nat,
    pub base: Option<Seq<char>>,
    pub typed_destination: bool,
}

impl<'a> View for PathResolver<'a> {
    type V = Resolver;

    open spec fn view(&self) -> Resolver {
        Resolver {
            purpose: self.purpose,
            description: self.description@,
            line: self.line as nat,
            base: match self.base {
                Some(directory) => Some(directory@),
                None => None,
            },
            typed_destination: self.typed_destination,
        }
    }
}

/// Whether one of the characters is ASCII white space.
pub open spec fn holds_white_space(s: Seq<char>) -> bool {
    exists|i: int| 0 <= i < s.len() && text::ascii_white_space(#[trigger] s[i])
}

fn has_white_space(s: &[char]) -> (r: bool)
    ensures
        r == holds_white_space(s@),
{
    let mut i: usize = 0;
    while i < s.len()
        invariant
            i <= s.len(),
            forall|j: int| 0 <= j < i ==> !text::ascii_white_space(#[trigger] s@[j]),
        decreases s.len() - i,
    {
        if is_ascii_white_space(s[i]) {
            assert(text::ascii_white_space(s@[i as int]));
            return true;
        }
        i = i + 1;
    }
    false
}

impl Resolver {
    /// The path that a text is.
    pub open spec fn resolved(self, source: Seq<char>) -> Result<Seq<char>, Fault> {
        if source.len() == 0 && self.purpose.takes_empty() {
            Ok(Seq::empty())
        } else if self.purpose.is_delivery() && !self.typed_destination && holds_white_space(
            source,
        ) {
            Err(
                errors::fault(
                    self.line,
                    "multiple unmarked mailbox destinations are not supported"@,
                ),
            )
        } else {
            match relative_path(source, self.base, self.line) {
                Err(error) => Err(error),
                Ok(path) => match path_fault(path, self.purpose is Maildir) {
                    Some(message) => Err(
                        errors::fault(self.line, self.description + " path "@ + message),
                    ),
                    None => if self.purpose is Discard && path != "/dev/null"@ {
                        Err(
                            errors::fault(
                                self.line,
                                "discard destination must resolve exactly to /dev/null"@,
                            ),
                        )
                    } else {
                        Ok(path)
                    },
                },
            }
        }
    }

    /// The path that an expression is.
    pub open spec fn evaluated(
        self,
        expression: ExpressionModel,
        values: Map<Seq<char>, Seq<char>>,
    ) -> Result<Seq<char>, Fault> {
        match binding::runtime_text(expression, self.line, MAX_PATH_EXPRESSION_LEN, values) {
            Ok(source) => self.resolved(source),
            Err(error) => Err(error),
        }
    }
}

impl<'a> PathResolver<'a> {
    pub fn new(
        purpose: PathPurpose,
        description: &'static str,
        line: usize,
        base: Option<&'a str>,
    ) -> (r: Self)
        ensures
            r@ == (Resolver {
                purpose,
                description: description@,
                line: line as nat,
                base: match base {
                    Some(directory) => Some(directory@),
                    None => None,
                },
                typed_destination: true,
            }),
    {
        PathResolver { purpose, description, line, base, typed_destination: true }
    }

    /// The path that `source` is.
    pub fn resolve(self, source: &str) -> (r: Result<String, ExpansionError>)
        ensures
            match self@.resolved(source@) {
                Ok(path) => r matches Ok(found) && found@ == path,
                Err(error) => r matches Err(found) && found@ == error,
            },
    {
        if source.is_empty() && self.purpose.allows_empty() {
            return Ok(String::new());
        }
        let chars = to_chars(source);
        if self.purpose.is_destination() && !self.typed_destination && has_white_space(
            chars.as_slice(),
        ) {
            return Err(
                ExpansionError::told(
                    self.line,
                    "multiple unmarked mailbox destinations are not supported",
                ),
            );
        }
        let path = match resolve_relative_path(source, self.base, self.line) {
            Ok(path) => path,
            Err(error) => {
                return Err(error);
            },
        };
        match validate_filesystem_path(
            path.as_str(),
            self.line,
            self.description,
            self.purpose == PathPurpose::Maildir,
        ) {
            Ok(()) => {},
            Err(error) => {
                return Err(error);
            },
        }
        if self.purpose == PathPurpose::Discard && !same_text(path.as_str(), "/dev/null") {
            return Err(
                ExpansionError::told(
                    self.line,
                    "discard destination must resolve exactly to /dev/null",
                ),
            );
        }
        Ok(path)
    }

    /// The path that `expression` is.
    pub fn evaluate(self, expression: &ShellExpression, values: TextValues<'_>) -> (r: Result<
        String,
        ExpansionError,
    >)
        ensures
            match self@.evaluated(expression@, values@) {
                Ok(path) => r matches Ok(found) && found@ == path,
                Err(error) => r matches Err(found) && found@ == error,
            },
    {
        match evaluate_with_linebuf(expression, self.line, MAX_PATH_EXPRESSION_LEN, values) {
            Ok(source) => self.resolve(source.as_str()),
            Err(error) => Err(error),
        }
    }
}

/// Whether `from` and `end` are where a component of a path starts and ends.
pub open spec fn component_at(components: Seq<char>, from: int, end: int) -> bool {
    &&& 0 <= from <= end <= components.len()
    &&& from == 0 || components[from - 1] == '/'
    &&& end == components.len() || components[end] == '/'
    &&& forall|i: int| from <= i < end ==> #[trigger] components[i] != '/'
}

proof fn lemma_no_faulty_component(components: Seq<char>, start: int, from: int, end: int)
    requires
        0 <= start <= from,
        components_fault(components, start) is None,
        component_at(components, from, end),
        start == 0 || components[start - 1] == '/',
    ensures
        component_fault(components.subrange(from, end)) is None,
    decreases components.len() - start,
{
    text::lemma_find_from(components, '/', start);
    let first = text::find_from(components, '/', start);
    if from == start {
        if first < end {
            assert(components[first] == '/');
        } else if end < first {
            assert(components[end] != '/');
        }
    } else if from <= first {
        assert(components[from - 1] != '/');
    } else {
        lemma_no_faulty_component(components, first + 1, from, end);
    }
}

/// A resolved delivery path names one file in one way: it is not empty, holds
/// no NUL, and no component of it is empty, `.` or `..`.
pub proof fn a_resolved_destination_is_unambiguous(
    resolver: Resolver,
    source: Seq<char>,
    from: int,
    end: int,
)
    requires
        resolver.purpose.is_delivery(),
        resolver.resolved(source) is Ok,
        component_at(
            path_components(resolver.resolved(source)->Ok_0, resolver.purpose is Maildir),
            from,
            end,
        ),
    ensures
        ({
            let path = resolver.resolved(source)->Ok_0;
            let component = path_components(path, resolver.purpose is Maildir).subrange(from, end);
            &&& path.len() > 0
            &&& !path.contains('\0')
            &&& component.len() > 0
            &&& component != "."@
            &&& component != ".."@
        }),
{
    let path = resolver.resolved(source)->Ok_0;
    lemma_no_faulty_component(path_components(path, resolver.purpose is Maildir), 0, from, end);
}

} // verus!
