//! What assignments, paths, headers and destinations come to when their
//! variables have values.

use vstd::prelude::*;
use vstd::string::*;

use crate::config::binding::{
    self, bind_static_expression, evaluate_with_linebuf, expression_has_runtime,
};
use crate::config::errors::{self, ExpansionError, Fault};
use crate::config::expression::{ExpressionModel, ShellExpression};
use crate::config::expression_parser::{self, parse_expression};
use crate::config::paths::{PathPurpose, PathResolver, Resolver};
use crate::config::recipe::{
    self, Assignment, AssignmentModel, Destination, DestinationKind, DestinationModel, HeaderAction,
    HeaderOperation, HeaderOperationModel, HeaderValue, HeaderValueModel, PathExpression, PathModel,
    RcFileExpression, RcFileModel,
};
use crate::config::shell_eval::TextValues;
use crate::config::variables::{self, assignment_value_limit, AssignmentPath};
use crate::config::MAX_ASSIGNMENT_VALUE_LEN;
use crate::text::{has_char, same_text, to_chars};

verus! {

/// The expression of a text: the one that is kept, or the one that the text
/// writes.
pub open spec fn expression_of(
    expansion: Option<ExpressionModel>,
    source: Seq<char>,
    line: nat,
) -> Result<ExpressionModel, Fault> {
    match expansion {
        Some(expression) => Ok(expression),
        None => expression_parser::ordinary_expression(source, line),
    }
}

/// The value of a variable, where it has one.
pub open spec fn value_of(values: Map<Seq<char>, Seq<char>>, name: Seq<char>) -> Option<Seq<char>> {
    if values.contains_key(name) {
        Some(values[name])
    } else {
        None
    }
}

/// What a path variable is for, and how messages call it.
pub open spec fn assignment_purpose(path: AssignmentPath) -> (PathPurpose, Seq<char>) {
    match path {
        AssignmentPath::Maildir => (PathPurpose::Maildir, "MAILDIR"@),
        AssignmentPath::LogFile => (PathPurpose::Logfile, "LOGFILE"@),
        AssignmentPath::LockFile => (PathPurpose::Lockfile, "LOCKFILE"@),
    }
}

/// What a path variable is for, and how messages call it.
pub fn assignment_path(path: AssignmentPath) -> (r: (PathPurpose, &'static str))
    ensures
        r.0 == assignment_purpose(path).0,
        r.1@ == assignment_purpose(path).1,
{
    match path {
        AssignmentPath::Maildir => (PathPurpose::Maildir, "MAILDIR"),
        AssignmentPath::LogFile => (PathPurpose::Logfile, "LOGFILE"),
        AssignmentPath::LockFile => (PathPurpose::Lockfile, "LOCKFILE"),
    }
}

/// A path variable's value as a path.
pub open spec fn assigned_path(
    path: AssignmentPath,
    value: Seq<char>,
    line: nat,
    base: Option<Seq<char>>,
) -> Result<Seq<char>, Fault> {
    let (purpose, description) = assignment_purpose(path);
    (Resolver { purpose, description, line, base, typed_destination: true }).resolved(value)
}

/// Makes a path of a path variable's value.
pub fn resolve_assigned_path(
    path: AssignmentPath,
    value: &str,
    line: usize,
    base: &Option<String>,
) -> (r: Result<String, ExpansionError>)
    ensures
        errors::expanded_as(
            r,
            assigned_path(path, value@, line as nat, recipe::optional_text(*base)),
        ),
{
    let (purpose, description) = assignment_path(path);
    PathResolver::new(purpose, description, line, borrowed(base)).resolve(value)
}

/// A text that is lent out.
pub fn borrowed(text: &Option<String>) -> (r: Option<&str>)
    ensures
        r is Some == (*text is Some),
        r matches Some(found) ==> recipe::optional_text(*text) == Some(found@),
{
    match text {
        Some(found) => Some(found.as_str()),
        None => None,
    }
}

/// A copy of a text.
pub fn copied_text(text: &Option<String>) -> (r: Option<String>)
    ensures
        recipe::optional_text(r) == recipe::optional_text(*text),
{
    match text {
        Some(found) => Some(found.clone()),
        None => None,
    }
}

/// A copy of an expression.
pub fn copied_expansion(expansion: &Option<ShellExpression>) -> (r: Option<ShellExpression>)
    ensures
        recipe::expansion_model(r) == recipe::expansion_model(*expansion),
{
    match expansion {
        Some(expression) => Some(expression.duplicate()),
        None => None,
    }
}

/// The value of an assignment that is executed.
pub open spec fn assignment_value(
    assignment: AssignmentModel,
    values: Map<Seq<char>, Seq<char>>,
) -> Result<Seq<char>, Fault> {
    let evaluated = match assignment.expansion {
        Some(expression) => binding::runtime_text(
            expression,
            assignment.line,
            variables::value_limit(assignment.target),
            values,
        ),
        None => Ok(assignment.value),
    };
    match evaluated {
        Err(error) => Err(error),
        Ok(value) => match variables::value_fault(assignment.target, value) {
            Some(message) => Err(errors::fault(assignment.line, message)),
            None => match assignment.target.path_kind() {
                None => Ok(value),
                Some(path) => assigned_path(
                    path,
                    value,
                    assignment.line,
                    value_of(values, "MAILDIR"@),
                ),
            },
        },
    }
}

impl Assignment {
    /// The value that the assignment gives its variable.
    pub fn resolve_with(&self, values: TextValues<'_>) -> (r: Result<String, ExpansionError>)
        ensures
            errors::expanded_as(r, assignment_value(self@, values@)),
    {
        let value = match &self.expansion {
            Some(expression) => match evaluate_with_linebuf(
                expression,
                self.line,
                assignment_value_limit(self.target),
                values,
            ) {
                Ok(value) => value,
                Err(error) => {
                    return Err(error);
                },
            },
            None => self.value.clone(),
        };
        match self.target.validate_value(value.as_str()) {
            Ok(()) => {},
            Err(message) => {
                return Err(ExpansionError::new(self.line, message));
            },
        }
        match self.target.path() {
            None => Ok(value),
            Some(path) => {
                let base = values.get("MAILDIR");
                resolve_assigned_path(path, value.as_str(), self.line, &base)
            },
        }
    }

    /// A copy of the assignment.
    pub fn duplicate(&self) -> (r: Self)
        ensures
            r@ == self@,
    {
        Assignment {
            line: self.line,
            name: self.name.clone(),
            value: self.value.clone(),
            target: self.target,
            expansion: copied_expansion(&self.expansion),
        }
    }
}

/// The path of a further rc file.
pub open spec fn rc_file_path(file: RcFileModel, values: Map<Seq<char>, Seq<char>>) -> Result<
    Seq<char>,
    Fault,
> {
    match expression_of(file.expansion, file.value, file.line) {
        Err(error) => Err(error),
        Ok(expression) => (Resolver {
            purpose: PathPurpose::RcFile,
            description: "rc file"@,
            line: file.line,
            base: value_of(values, "MAILDIR"@),
            typed_destination: true,
        }).evaluated(expression, values),
    }
}

impl RcFileExpression {
    /// The path of the file. A relative path starts at `MAILDIR`, where that
    /// is set.
    pub fn resolve_with(&self, values: TextValues<'_>) -> (r: Result<String, ExpansionError>)
        ensures
            errors::expanded_as(r, rc_file_path(self@, values@)),
    {
        let base = values.get("MAILDIR");
        let resolver = PathResolver::new(
            PathPurpose::RcFile,
            "rc file",
            self.line,
            borrowed(&base),
        );
        match &self.expansion {
            Some(expression) => resolver.evaluate(expression, values),
            None => match parse_expression(self.value.as_str(), self.line) {
                Ok(expression) => resolver.evaluate(&expression, values),
                Err(error) => Err(error),
            },
        }
    }
}

/// What is wrong with an expanded header value.
pub open spec fn header_value_fault(value: Seq<char>, line: nat) -> Option<Fault> {
    if value.contains('\0') || value.contains('\r') || value.contains('\n') {
        Some(errors::fault(line, "expanded header value contains NUL, CR, or LF"@))
    } else {
        None
    }
}

/// Refuses an expanded header value that would not stay in its line.
pub fn validate_header_value(value: &str, line: usize) -> (r: Result<(), ExpansionError>)
    ensures
        errors::faulted_as(r, header_value_fault(value@, line as nat)),
{
    let chars = to_chars(value);
    if has_char(chars.as_slice(), '\0') || has_char(chars.as_slice(), '\r') || has_char(
        chars.as_slice(),
        '\n',
    ) {
        return Err(ExpansionError::told(line, "expanded header value contains NUL, CR, or LF"));
    }
    Ok(())
}

/// The value of a header field.
pub open spec fn header_text(
    value: HeaderValueModel,
    line: nat,
    values: Map<Seq<char>, Seq<char>>,
) -> Result<Seq<char>, Fault> {
    match expression_of(value.expansion, value.source, line) {
        Err(error) => Err(error),
        Ok(expression) => match binding::runtime_text(
            expression,
            line,
            MAX_ASSIGNMENT_VALUE_LEN,
            values,
        ) {
            Err(error) => Err(error),
            Ok(text) => match header_value_fault(text, line) {
                Some(error) => Err(error),
                None => Ok(text),
            },
        },
    }
}

fn evaluate_header(expression: &ShellExpression, line: usize, values: TextValues<'_>) -> (r: Result<
    String,
    ExpansionError,
>)
    ensures
        errors::expanded_as(
            r,
            header_text(
                HeaderValueModel { source: Seq::empty(), expansion: Some(expression@) },
                line as nat,
                values@,
            ),
        ),
{
    let value = match evaluate_with_linebuf(expression, line, MAX_ASSIGNMENT_VALUE_LEN, values) {
        Ok(value) => value,
        Err(error) => {
            return Err(error);
        },
    };
    match validate_header_value(value.as_str(), line) {
        Ok(()) => Ok(value),
        Err(error) => Err(error),
    }
}

impl HeaderValue {
    /// The value of the field.
    pub fn resolve_with(&self, line: usize, values: TextValues<'_>) -> (r: Result<
        String,
        ExpansionError,
    >)
        ensures
            errors::expanded_as(r, header_text(self@, line as nat, values@)),
    {
        match &self.expansion {
            Some(expression) => evaluate_header(expression, line, values),
            None => match parse_expression(self.source.as_str(), line) {
                Ok(expression) => evaluate_header(&expression, line, values),
                Err(error) => Err(error),
            },
        }
    }
}

/// A header value that is a fixed text.
pub open spec fn fixed_value(text: Seq<char>) -> HeaderValueModel {
    HeaderValueModel { source: text, expansion: None }
}

/// A header operation once its value is known.
pub open spec fn resolved_operation(
    operation: HeaderOperationModel,
    values: Map<Seq<char>, Seq<char>>,
) -> Result<HeaderOperationModel, Fault> {
    match operation {
        HeaderOperationModel::Replace { line, name, value } => match header_text(
            value,
            line,
            values,
        ) {
            Ok(text) => Ok(HeaderOperationModel::Replace { line, name, value: fixed_value(text) }),
            Err(error) => Err(error),
        },
        HeaderOperationModel::Add { line, name, value } => match header_text(value, line, values) {
            Ok(text) => Ok(HeaderOperationModel::Add { line, name, value: fixed_value(text) }),
            Err(error) => Err(error),
        },
        HeaderOperationModel::Prepend { line, name, value } => match header_text(
            value,
            line,
            values,
        ) {
            Ok(text) => Ok(HeaderOperationModel::Prepend { line, name, value: fixed_value(text) }),
            Err(error) => Err(error),
        },
        other => Ok(other),
    }
}

/// The first `n` header operations once their values are known.
pub open spec fn resolved_operations(
    operations: Seq<HeaderOperationModel>,
    n: nat,
    values: Map<Seq<char>, Seq<char>>,
) -> Result<Seq<HeaderOperationModel>, Fault>
    decreases n,
{
    if n == 0 || n > operations.len() {
        Ok(Seq::empty())
    } else {
        match resolved_operations(operations, (n - 1) as nat, values) {
            Err(error) => Err(error),
            Ok(before) => match resolved_operation(operations[n - 1], values) {
                Err(error) => Err(error),
                Ok(operation) => Ok(before.push(operation)),
            },
        }
    }
}

/// The first fault among the operations is the fault of them all.
proof fn lemma_first_fault(
    operations: Seq<HeaderOperationModel>,
    n: nat,
    m: nat,
    values: Map<Seq<char>, Seq<char>>,
)
    requires
        n <= m <= operations.len(),
        resolved_operations(operations, n, values) is Err,
    ensures
        resolved_operations(operations, m, values) == resolved_operations(operations, n, values),
    decreases m,
{
    if n < m {
        lemma_first_fault(operations, n, (m - 1) as nat, values);
    }
}

impl HeaderOperation {
    /// The operation with its value as a fixed text.
    pub fn resolve_with(&self, values: TextValues<'_>) -> (r: Result<Self, ExpansionError>)
        ensures
            errors::expanded_as(r, resolved_operation(self@, values@)),
    {
        match self {
            HeaderOperation::Remove { line, name } => Ok(
                HeaderOperation::Remove { line: *line, name: name.clone() },
            ),
            HeaderOperation::Rename { line, from, to } => Ok(
                HeaderOperation::Rename { line: *line, from: from.clone(), to: to.clone() },
            ),
            HeaderOperation::Extract { line, name, target, mode } => Ok(
                HeaderOperation::Extract {
                    line: *line,
                    name: name.clone(),
                    target: target.clone(),
                    mode: *mode,
                },
            ),
            HeaderOperation::Replace { line, name, value } => match value.resolve_with(
                *line,
                values,
            ) {
                Ok(source) => Ok(
                    HeaderOperation::Replace {
                        line: *line,
                        name: name.clone(),
                        value: HeaderValue { source, expansion: None },
                    },
                ),
                Err(error) => Err(error),
            },
            HeaderOperation::Add { line, name, value } => match value.resolve_with(*line, values) {
                Ok(source) => Ok(
                    HeaderOperation::Add {
                        line: *line,
                        name: name.clone(),
                        value: HeaderValue { source, expansion: None },
                    },
                ),
                Err(error) => Err(error),
            },
            HeaderOperation::Prepend { line, name, value } => match value.resolve_with(
                *line,
                values,
            ) {
                Ok(source) => Ok(
                    HeaderOperation::Prepend {
                        line: *line,
                        name: name.clone(),
                        value: HeaderValue { source, expansion: None },
                    },
                ),
                Err(error) => Err(error),
            },
        }
    }
}

impl HeaderAction {
    /// The operations with their values as fixed texts.
    pub fn resolve_with(&self, values: TextValues<'_>) -> (r: Result<Self, ExpansionError>)
        ensures
            errors::expanded_as(r, resolved_operations(self@, self@.len(), values@)),
    {
        let ghost models = self@;
        let mut operations: Vec<HeaderOperation> = Vec::new();
        assert(recipe::operation_models(operations@) =~= Seq::empty());
        let mut i: usize = 0;
        while i < self.operations.len()
            invariant
                i <= self.operations@.len(),
                models == self@,
                models.len() == self.operations@.len(),
                resolved_operations(models, i as nat, values@) == Ok::<
                    Seq<HeaderOperationModel>,
                    Fault,
                >(recipe::operation_models(operations@)),
            decreases self.operations.len() - i,
        {
            assert(models[i as int] == self.operations@[i as int]@);
            match self.operations[i].resolve_with(values) {
                Ok(operation) => {
                    let ghost before = operations@;
                    operations.push(operation);
                    assert(recipe::operation_models(operations@) =~= recipe::operation_models(
                        before,
                    ).push(operation@));
                },
                Err(error) => {
                    proof {
                        lemma_first_fault(models, (i + 1) as nat, models.len(), values@);
                    }
                    return Err(error);
                },
            }
            i = i + 1;
        }
        Ok(HeaderAction { operations })
    }
}

/// Where a relative path starts.
pub open spec fn active_base(path: PathModel, values: Map<Seq<char>, Seq<char>>) -> Option<
    Seq<char>,
> {
    if path.runtime_base && values.contains_key("MAILDIR"@) {
        Some(values["MAILDIR"@])
    } else {
        path.base
    }
}

/// The path of a lockfile.
pub open spec fn lockfile_path(path: PathModel, values: Map<Seq<char>, Seq<char>>) -> Result<
    Seq<char>,
    Fault,
> {
    match expression_of(path.expansion, path.source, path.line) {
        Err(error) => Err(error),
        Ok(expression) => (Resolver {
            purpose: PathPurpose::Lockfile,
            description: "lockfile"@,
            line: path.line,
            base: active_base(path, values),
            typed_destination: true,
        }).evaluated(expression, values),
    }
}

impl PathExpression {
    /// Where a relative path starts.
    fn select_base(&self, values: TextValues<'_>) -> (r: Option<String>)
        ensures
            recipe::optional_text(r) == active_base(self@, values@),
    {
        if self.runtime_base {
            if let Some(directory) = values.get("MAILDIR") {
                return Some(directory);
            }
        }
        copied_text(&self.base)
    }

    /// The path, as the path of a lockfile.
    pub fn resolve_with(&self, values: TextValues<'_>) -> (r: Result<String, ExpansionError>)
        ensures
            errors::expanded_as(r, lockfile_path(self@, values@)),
    {
        let base = self.select_base(values);
        let resolver = PathResolver::new(
            PathPurpose::Lockfile,
            "lockfile",
            self.line,
            borrowed(&base),
        );
        match &self.expansion {
            Some(expression) => resolver.evaluate(expression, values),
            None => match parse_expression(self.source.as_str(), self.line) {
                Ok(expression) => resolver.evaluate(&expression, values),
                Err(error) => Err(error),
            },
        }
    }
}

/// What a destination's path is for.
pub open spec fn delivery_purpose(kind: DestinationKind) -> PathPurpose {
    match kind {
        DestinationKind::Maildir => PathPurpose::Maildir,
        DestinationKind::Mbox => PathPurpose::Mbox,
        DestinationKind::File => PathPurpose::File,
        DestinationKind::Discard => PathPurpose::Discard,
    }
}

/// How messages call a destination.
pub open spec fn destination_label(kind: DestinationKind) -> Seq<char> {
    match kind {
        DestinationKind::Maildir => "Maildir destination"@,
        DestinationKind::Mbox => "mbox destination"@,
        DestinationKind::File => "file destination"@,
        DestinationKind::Discard => "discard destination"@,
    }
}

impl DestinationModel {
    /// How the path of the destination is made.
    pub open spec fn resolver(self, base: Option<Seq<char>>) -> Resolver {
        Resolver {
            purpose: delivery_purpose(self.kind),
            description: destination_label(self.kind),
            line: self.path.line,
            base,
            typed_destination: self.path.typed_destination,
        }
    }

    /// The destination once its path is known: nothing more can change it.
    pub open spec fn settled(self, path: Seq<char>) -> DestinationModel {
        DestinationModel {
            kind: if self.kind is File {
                if path == "/dev/null"@ {
                    DestinationKind::Discard
                } else {
                    DestinationKind::Mbox
                }
            } else {
                self.kind
            },
            path: PathModel {
                source: path,
                base: None,
                line: self.path.line,
                runtime_dependent: false,
                runtime_base: false,
                typed_destination: self.path.typed_destination,
                expansion: None,
            },
        }
    }

    /// Whether the order matters in which the path is evaluated.
    pub open spec fn is_ordered(self) -> bool {
        self.path.expansion is Some && self.path.expansion->0.requires_ordered_evaluation()
    }

    /// The destination with the values that are known.
    pub open spec fn resolved(self, values: Map<Seq<char>, Seq<char>>) -> Result<
        DestinationModel,
        Fault,
    > {
        if self.path.expansion is Some && self.path.expansion->0.has_commands() {
            Err(errors::fault(self.path.line, "destination command substitution has not executed"@))
        } else {
            match expression_of(self.path.expansion, self.path.source, self.path.line) {
                Err(error) => Err(error),
                Ok(expression) => match self.resolver(active_base(self.path, values)).evaluated(
                    expression,
                    values,
                ) {
                    Err(error) => Err(error),
                    Ok(path) => Ok(self.settled(path)),
                },
            }
        }
    }

    /// The destination with the values bound that are known now.
    pub open spec fn bound(self, values: Map<Seq<char>, Seq<char>>) -> Result<
        DestinationModel,
        Fault,
    > {
        if self.is_ordered() {
            Err(errors::fault(self.path.line, "destination ordered expression has not executed"@))
        } else {
            match expression_of(self.path.expansion, self.path.source, self.path.line) {
                Err(error) => Err(error),
                Ok(expression) => match binding::bound_at(expression, self.path.line, values, 0) {
                    Err(error) => Err(error),
                    Ok(expansion) => Ok(
                        DestinationModel {
                            kind: self.kind,
                            path: PathModel {
                                runtime_dependent: binding::has_runtime(expansion),
                                expansion: Some(expansion),
                                ..self.path
                            },
                        },
                    ),
                },
            }
        }
    }

    /// The destination whose path an ordered evaluation wrote.
    pub open spec fn written(self, source: Seq<char>, maildir: Option<Seq<char>>) -> Result<
        DestinationModel,
        Fault,
    > {
        if !self.is_ordered() {
            Err(errors::fault(self.path.line, "destination has no ordered expression"@))
        } else {
            let base = if self.path.runtime_base {
                maildir
            } else {
                self.path.base
            };
            match self.resolver(base).resolved(source) {
                Err(error) => Err(error),
                Ok(path) => Ok(self.settled(path)),
            }
        }
    }
}

/// A destination of this kind.
pub fn destination_with(kind: DestinationKind, path: PathExpression) -> (r: Destination)
    ensures
        r@ == (DestinationModel { kind, path: path@ }),
{
    match kind {
        DestinationKind::Maildir => Destination::Maildir(path),
        DestinationKind::Mbox => Destination::Mbox(path),
        DestinationKind::File => Destination::File(path),
        DestinationKind::Discard => Destination::Discard(path),
    }
}

impl Destination {
    /// The path of the destination, as an expression.
    pub fn expression(&self) -> (r: &PathExpression)
        ensures
            r@ == self@.path,
    {
        match self {
            Destination::Maildir(expression) => expression,
            Destination::Mbox(expression) => expression,
            Destination::File(expression) => expression,
            Destination::Discard(expression) => expression,
        }
    }

    /// The destination's path and its kind apart.
    pub fn into_parts(self) -> (r: (DestinationKind, PathExpression))
        ensures
            r.0 == self@.kind,
            r.1@ == self@.path,
    {
        match self {
            Destination::Maildir(expression) => (DestinationKind::Maildir, expression),
            Destination::Mbox(expression) => (DestinationKind::Mbox, expression),
            Destination::File(expression) => (DestinationKind::File, expression),
            Destination::Discard(expression) => (DestinationKind::Discard, expression),
        }
    }

    fn resolver<'a>(&self, base: Option<&'a str>) -> (r: PathResolver<'a>)
        ensures
            r@ == self@.resolver(
                match base {
                    Some(directory) => Some(directory@),
                    None => None,
                },
            ),
    {
        let (purpose, description) = match self.kind() {
            DestinationKind::Maildir => (PathPurpose::Maildir, "Maildir destination"),
            DestinationKind::Mbox => (PathPurpose::Mbox, "mbox destination"),
            DestinationKind::File => (PathPurpose::File, "file destination"),
            DestinationKind::Discard => (PathPurpose::Discard, "discard destination"),
        };
        let expression = self.expression();
        PathResolver {
            purpose,
            description,
            line: expression.line,
            base,
            typed_destination: expression.typed_destination,
        }
    }

    /// The destination once its path is known.
    fn settle(&self, source: String) -> (r: Self)
        ensures
            r@ == self@.settled(source@),
    {
        let expression = self.expression();
        let kind = match self.kind() {
            DestinationKind::File => {
                if same_text(source.as_str(), "/dev/null") {
                    DestinationKind::Discard
                } else {
                    DestinationKind::Mbox
                }
            },
            other => other,
        };
        let path = PathExpression {
            source,
            base: None,
            line: expression.line,
            runtime_dependent: false,
            runtime_base: false,
            typed_destination: expression.typed_destination,
            expansion: None,
        };
        destination_with(kind, path)
    }

    /// The expression of the path, where the order of its evaluation matters.
    pub fn command_expression(&self) -> (r: Option<&ShellExpression>)
        ensures
            r is Some == self@.is_ordered(),
            r matches Some(expression) ==> self@.path.expansion == Some(expression@),
    {
        match &self.expression().expansion {
            Some(expression) => {
                if expression.requires_ordered_evaluation() {
                    Some(expression)
                } else {
                    None
                }
            },
            None => None,
        }
    }

    /// The line on which the destination is named.
    pub fn line(&self) -> (r: usize)
        ensures
            r == self@.path.line,
    {
        self.expression().line
    }

    /// The destination whose path an ordered evaluation wrote.
    pub fn resolve_ordered_output(&self, source: String, runtime_maildir: Option<&str>) -> (r:
        Result<Self, ExpansionError>)
        ensures
            errors::expanded_as(
                r,
                self@.written(
                    source@,
                    match runtime_maildir {
                        Some(directory) => Some(directory@),
                        None => None,
                    },
                ),
            ),
    {
        let expression = self.expression();
        if self.command_expression().is_none() {
            return Err(
                ExpansionError::told(expression.line, "destination has no ordered expression"),
            );
        }
        let base = if expression.runtime_base {
            runtime_maildir
        } else {
            borrowed(&expression.base)
        };
        match self.resolver(base).resolve(source.as_str()) {
            Ok(path) => Ok(self.settle(path)),
            Err(error) => Err(error),
        }
    }

    fn bind_expression(&self, compiled: &ShellExpression, values: TextValues<'_>) -> (r: Result<
        Self,
        ExpansionError,
    >)
        ensures
            errors::expanded_as(
                r,
                match binding::bound_at(compiled@, self@.path.line, values@, 0) {
                    Err(error) => Err(error),
                    Ok(expansion) => Ok(
                        DestinationModel {
                            kind: self@.kind,
                            path: PathModel {
                                runtime_dependent: binding::has_runtime(expansion),
                                expansion: Some(expansion),
                                ..self@.path
                            },
                        },
                    ),
                },
            ),
    {
        let expression = self.expression();
        let expansion = match bind_static_expression(compiled, expression.line, values, 0) {
            Ok(expansion) => expansion,
            Err(error) => {
                return Err(error);
            },
        };
        let bound = PathExpression {
            source: expression.source.clone(),
            base: copied_text(&expression.base),
            line: expression.line,
            runtime_dependent: expression_has_runtime(&expansion),
            runtime_base: expression.runtime_base,
            typed_destination: expression.typed_destination,
            expansion: Some(expansion),
        };
        Ok(destination_with(self.kind(), bound))
    }

    /// The destination with the values bound that are known now. Variables
    /// that only the message sets stay open.
    pub fn bind_with(&self, values: TextValues<'_>) -> (r: Result<Self, ExpansionError>)
        ensures
            errors::expanded_as(r, self@.bound(values@)),
    {
        let expression = self.expression();
        if self.command_expression().is_some() {
            return Err(
                ExpansionError::told(
                    expression.line,
                    "destination ordered expression has not executed",
                ),
            );
        }
        match &expression.expansion {
            Some(compiled) => self.bind_expression(compiled, values),
            None => match parse_expression(expression.source.as_str(), expression.line) {
                Ok(compiled) => self.bind_expression(&compiled, values),
                Err(error) => Err(error),
            },
        }
    }

    /// The destination with its path.
    pub fn resolve_with(&self, values: TextValues<'_>) -> (r: Result<Self, ExpansionError>)
        ensures
            errors::expanded_as(r, self@.resolved(values@)),
    {
        let expression = self.expression();
        let base = expression.select_base(values);
        let resolver = self.resolver(borrowed(&base));
        let path = match &expression.expansion {
            Some(compiled) => {
                if compiled.has_commands() {
                    return Err(
                        ExpansionError::told(
                            expression.line,
                            "destination command substitution has not executed",
                        ),
                    );
                }
                resolver.evaluate(compiled, values)
            },
            None => match parse_expression(expression.source.as_str(), expression.line) {
                Ok(compiled) => resolver.evaluate(&compiled, values),
                Err(error) => {
                    return Err(error);
                },
            },
        };
        match path {
            Ok(path) => Ok(self.settle(path)),
            Err(error) => Err(error),
        }
    }

    /// The path as it stands.
    pub fn path(&self) -> (r: &str)
        ensures
            r@ == self@.path.source,
    {
        self.expression().source()
    }

    /// Whether the path depends on values that only the message sets.
    pub fn needs_runtime_variables(&self) -> (r: bool)
        ensures
            r == (self@.path.runtime_dependent || self@.path.runtime_base),
    {
        let expression = self.expression();
        expression.runtime_dependent || expression.runtime_base
    }
}

/// A resolved destination needs no more values, and it is never an unmarked
/// file: it is a Maildir, an mbox file, or nothing at all.
pub proof fn a_resolved_destination_is_final(
    destination: DestinationModel,
    values: Map<Seq<char>, Seq<char>>,
)
    requires
        destination.resolved(values) is Ok,
    ensures
        ({
            let resolved = destination.resolved(values)->Ok_0;
            &&& !(resolved.kind is File)
            &&& !resolved.path.runtime_dependent
            &&& !resolved.path.runtime_base
            &&& resolved.path.line == destination.path.line
            &&& destination.kind is File || resolved.kind == destination.kind
        }),
{
}

/// A header value never breaks out of its line, whatever its variables hold.
pub proof fn header_values_stay_in_their_line(
    value: HeaderValueModel,
    line: nat,
    values: Map<Seq<char>, Seq<char>>,
)
    requires
        header_text(value, line, values) is Ok,
    ensures
        ({
            let shown = header_text(value, line, values)->Ok_0;
            !shown.contains('\0') && !shown.contains('\r') && !shown.contains('\n')
        }),
{
}

} // verus!
