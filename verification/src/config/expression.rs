//! Shell-like expressions: literal text, variables with their parameter
//! operations, commands, and quoted parts.

use vstd::prelude::*;
use vstd::string::*;

verus! {

/// The letter case that a case change selects.
#[derive(Debug, Clone, Copy, PartialEq, Eq, Structural)]
pub enum CaseDirection {
    Upper,
    Lower,
}

/// A parsed expression.
#[derive(Debug, PartialEq, Eq)]
pub struct ShellExpression {
    pub parts: Vec<ShellPart>,
}

/// One part of an expression.
#[derive(Debug, PartialEq, Eq)]
pub enum ShellPart {
    Literal(String),
    Variable { name: String, operation: ParameterOperation },
    RegexQuotedVariable(String),
    Command(String),
    PatternQuote(Box<ShellExpression>),
}

/// What a reference makes of a variable's value.
#[derive(Debug, PartialEq, Eq)]
pub enum ParameterOperation {
    Value,
    DefaultIfUnset(ShellExpression),
    DefaultIfUnsetOrEmpty(ShellExpression),
    AlternateIfSet(ShellExpression),
    AlternateIfSetAndNotEmpty(ShellExpression),
    AssignIfUnsetOrEmpty(ShellExpression),
    ErrorIfUnsetOrEmpty(ShellExpression),
    Length,
    RemovePrefix { pattern: ShellExpression, longest: bool },
    RemoveSuffix { pattern: ShellExpression, longest: bool },
    ChangeCase { pattern: ShellExpression, direction: CaseDirection, all: bool },
}

/// An expression as a sequence of parts.
pub struct ExpressionModel {
    pub parts: Seq<PartModel>,
}

/// A part of an expression, with its texts as sequences of characters.
pub enum PartModel {
    Literal(Seq<char>),
    Variable { name: Seq<char>, operation: OperationModel },
    RegexQuotedVariable(Seq<char>),
    Command(Seq<char>),
    PatternQuote(ExpressionModel),
}

/// A parameter operation over expression models.
pub enum OperationModel {
    Value,
    DefaultIfUnset(ExpressionModel),
    DefaultIfUnsetOrEmpty(ExpressionModel),
    AlternateIfSet(ExpressionModel),
    AlternateIfSetAndNotEmpty(ExpressionModel),
    AssignIfUnsetOrEmpty(ExpressionModel),
    ErrorIfUnsetOrEmpty(ExpressionModel),
    Length,
    RemovePrefix { pattern: ExpressionModel, longest: bool },
    RemoveSuffix { pattern: ExpressionModel, longest: bool },
    ChangeCase { pattern: ExpressionModel, direction: CaseDirection, all: bool },
}

/// The first `n` parts as models.
pub open spec fn part_models(parts: Seq<ShellPart>, n: nat) -> Seq<PartModel>
    decreases parts, n,
{
    if n == 0 || n > parts.len() {
        Seq::empty()
    } else {
        part_models(parts, (n - 1) as nat).push(part_model(parts[n - 1]))
    }
}

pub open spec fn expression_model(expression: ShellExpression) -> ExpressionModel
    decreases expression, 0nat,
{
    ExpressionModel { parts: part_models(expression.parts@, expression.parts@.len()) }
}

pub open spec fn part_model(part: ShellPart) -> PartModel
    decreases part, 0nat,
{
    match part {
        ShellPart::Literal(text) => PartModel::Literal(text@),
        ShellPart::Variable { name, operation } => PartModel::Variable {
            name: name@,
            operation: operation_model(operation),
        },
        ShellPart::RegexQuotedVariable(name) => PartModel::RegexQuotedVariable(name@),
        ShellPart::Command(command) => PartModel::Command(command@),
        ShellPart::PatternQuote(expression) => PartModel::PatternQuote(
            expression_model(*expression),
        ),
    }
}

pub open spec fn operation_model(operation: ParameterOperation) -> OperationModel
    decreases operation, 0nat,
{
    match operation {
        ParameterOperation::Value => OperationModel::Value,
        ParameterOperation::DefaultIfUnset(word) => OperationModel::DefaultIfUnset(
            expression_model(word),
        ),
        ParameterOperation::DefaultIfUnsetOrEmpty(word) => OperationModel::DefaultIfUnsetOrEmpty(
            expression_model(word),
        ),
        ParameterOperation::AlternateIfSet(word) => OperationModel::AlternateIfSet(
            expression_model(word),
        ),
        ParameterOperation::AlternateIfSetAndNotEmpty(word) =>
            OperationModel::AlternateIfSetAndNotEmpty(expression_model(word)),
        ParameterOperation::AssignIfUnsetOrEmpty(word) => OperationModel::AssignIfUnsetOrEmpty(
            expression_model(word),
        ),
        ParameterOperation::ErrorIfUnsetOrEmpty(word) => OperationModel::ErrorIfUnsetOrEmpty(
            expression_model(word),
        ),
        ParameterOperation::Length => OperationModel::Length,
        ParameterOperation::RemovePrefix { pattern, longest } => OperationModel::RemovePrefix {
            pattern: expression_model(pattern),
            longest,
        },
        ParameterOperation::RemoveSuffix { pattern, longest } => OperationModel::RemoveSuffix {
            pattern: expression_model(pattern),
            longest,
        },
        ParameterOperation::ChangeCase { pattern, direction, all } => OperationModel::ChangeCase {
            pattern: expression_model(pattern),
            direction,
            all,
        },
    }
}

impl View for ShellExpression {
    type V = ExpressionModel;

    open spec fn view(&self) -> ExpressionModel {
        expression_model(*self)
    }
}

impl View for ShellPart {
    type V = PartModel;

    open spec fn view(&self) -> PartModel {
        part_model(*self)
    }
}

impl View for ParameterOperation {
    type V = OperationModel;

    open spec fn view(&self) -> OperationModel {
        operation_model(*self)
    }
}

/// Each model stands where its part stands.
pub proof fn lemma_part_models(parts: Seq<ShellPart>, n: nat)
    requires
        n <= parts.len(),
    ensures
        part_models(parts, n).len() == n,
        forall|i: int| 0 <= i < n ==> #[trigger] part_models(parts, n)[i] == part_model(parts[i]),
    decreases n,
{
    if n > 0 {
        lemma_part_models(parts, (n - 1) as nat);
    }
}

/// Parts with the same models make the same expression.
pub proof fn lemma_expression_parts(expression: ShellExpression)
    ensures
        expression@.parts.len() == expression.parts@.len(),
        forall|i: int|
            0 <= i < expression.parts@.len() ==> #[trigger] expression@.parts[i]
                == expression.parts@[i]@,
{
    lemma_part_models(expression.parts@, expression.parts@.len());
}

/// Pushing a part pushes its model.
pub proof fn lemma_part_models_push(parts: Seq<ShellPart>, part: ShellPart)
    ensures
        part_models(parts.push(part), parts.len() + 1) == part_models(parts, parts.len()).push(
            part@,
        ),
{
    lemma_part_models(parts, parts.len());
    lemma_part_models(parts.push(part), parts.len());
    assert(part_models(parts.push(part), parts.len()) =~= part_models(parts, parts.len()));
}

/// Parts as models.
pub open spec fn models_of(parts: Seq<ShellPart>) -> Seq<PartModel> {
    part_models(parts, parts.len())
}

/// Pushing a part pushes its model, and dropping the last part drops its
/// model.
pub proof fn lemma_models_of(parts: Seq<ShellPart>, part: ShellPart)
    ensures
        models_of(parts).len() == parts.len(),
        models_of(parts.push(part)) == models_of(parts).push(part@),
        parts.len() > 0 ==> models_of(parts.drop_last()) == models_of(parts).drop_last(),
        parts.len() > 0 ==> models_of(parts).last() == parts.last()@,
        models_of(Seq::<ShellPart>::empty()) == Seq::<PartModel>::empty(),
{
    lemma_part_models(parts, parts.len());
    lemma_part_models_push(parts, part);
    if parts.len() > 0 {
        let shorter = parts.drop_last();
        lemma_part_models(shorter, shorter.len());
        assert(models_of(shorter) =~= models_of(parts).drop_last());
    }
}

impl OperationModel {
    /// The expression that an operation may evaluate.
    pub open spec fn word(self) -> Option<ExpressionModel> {
        match self {
            OperationModel::Value | OperationModel::Length => None,
            OperationModel::DefaultIfUnset(word) => Some(word),
            OperationModel::DefaultIfUnsetOrEmpty(word) => Some(word),
            OperationModel::AlternateIfSet(word) => Some(word),
            OperationModel::AlternateIfSetAndNotEmpty(word) => Some(word),
            OperationModel::AssignIfUnsetOrEmpty(word) => Some(word),
            OperationModel::ErrorIfUnsetOrEmpty(word) => None,
            OperationModel::RemovePrefix { pattern, longest } => Some(pattern),
            OperationModel::RemoveSuffix { pattern, longest } => Some(pattern),
            OperationModel::ChangeCase { pattern, direction, all } => Some(pattern),
        }
    }

    /// The word that takes the place of the variable's value.
    pub open spec fn selected_word(self, is_set: bool, is_empty: bool) -> Option<ExpressionModel> {
        match self {
            OperationModel::DefaultIfUnset(word) => if !is_set {
                Some(word)
            } else {
                None
            },
            OperationModel::DefaultIfUnsetOrEmpty(word) => if !is_set || is_empty {
                Some(word)
            } else {
                None
            },
            OperationModel::AlternateIfSet(word) => if is_set {
                Some(word)
            } else {
                None
            },
            OperationModel::AlternateIfSetAndNotEmpty(word) => if is_set && !is_empty {
                Some(word)
            } else {
                None
            },
            OperationModel::AssignIfUnsetOrEmpty(word) => if !is_set || is_empty {
                Some(word)
            } else {
                None
            },
            _ => None,
        }
    }

    /// The operations that fail on a variable that is not set.
    pub open spec fn requires_value(self) -> bool {
        self is Value || self.is_value_transform()
    }

    /// The operations that compute something from the variable's value.
    pub open spec fn is_value_transform(self) -> bool {
        self is Length || self is RemovePrefix || self is RemoveSuffix || self is ChangeCase
    }

    /// Whether the operation's word is evaluated.
    pub open spec fn evaluates_word(self, is_set: bool, is_empty: bool) -> bool {
        if self is RemovePrefix || self is RemoveSuffix || self is ChangeCase {
            is_set
        } else {
            self.selected_word(is_set, is_empty) is Some
        }
    }

    /// Whether the variable's own value is used where no word is selected.
    pub open spec fn uses_value_when_word_is_not_selected(self) -> bool {
        self is Value || self is DefaultIfUnset || self is DefaultIfUnsetOrEmpty
            || self is ErrorIfUnsetOrEmpty || self.is_value_transform()
    }
}

impl ParameterOperation {
    /// The expression that this operation may evaluate.
    pub fn word(&self) -> (r: Option<&ShellExpression>)
        ensures
            match self@.word() {
                Some(word) => r matches Some(found) && found@ == word,
                None => r is None,
            },
            r matches Some(found) ==> decreases_to!(self => found),
    {
        match self {
            ParameterOperation::Value | ParameterOperation::Length => None,
            ParameterOperation::DefaultIfUnset(word) => Some(word),
            ParameterOperation::DefaultIfUnsetOrEmpty(word) => Some(word),
            ParameterOperation::AlternateIfSet(word) => Some(word),
            ParameterOperation::AlternateIfSetAndNotEmpty(word) => Some(word),
            ParameterOperation::AssignIfUnsetOrEmpty(word) => Some(word),
            ParameterOperation::ErrorIfUnsetOrEmpty(_) => None,
            ParameterOperation::RemovePrefix { pattern, .. } => Some(pattern),
            ParameterOperation::RemoveSuffix { pattern, .. } => Some(pattern),
            ParameterOperation::ChangeCase { pattern, .. } => Some(pattern),
        }
    }

    /// Whether the word takes the place of the variable's value.
    pub fn selects_word(&self, is_set: bool, is_empty: bool) -> (r: bool)
        ensures
            r == (self@.selected_word(is_set, is_empty) is Some),
    {
        self.selected_word(is_set, is_empty).is_some()
    }

    /// The word that takes the place of the variable's value.
    pub fn selected_word(&self, is_set: bool, is_empty: bool) -> (r: Option<&ShellExpression>)
        ensures
            match self@.selected_word(is_set, is_empty) {
                Some(word) => r matches Some(found) && found@ == word,
                None => r is None,
            },
            r matches Some(found) ==> decreases_to!(self => found),
    {
        match self {
            ParameterOperation::DefaultIfUnset(word) => if !is_set {
                Some(word)
            } else {
                None
            },
            ParameterOperation::DefaultIfUnsetOrEmpty(word) => if !is_set || is_empty {
                Some(word)
            } else {
                None
            },
            ParameterOperation::AlternateIfSet(word) => if is_set {
                Some(word)
            } else {
                None
            },
            ParameterOperation::AlternateIfSetAndNotEmpty(word) => if is_set && !is_empty {
                Some(word)
            } else {
                None
            },
            ParameterOperation::AssignIfUnsetOrEmpty(word) => if !is_set || is_empty {
                Some(word)
            } else {
                None
            },
            _ => None,
        }
    }

    /// Whether this operation fails on a variable that is not set.
    pub fn requires_value(&self) -> (r: bool)
        ensures
            r == self@.requires_value(),
    {
        matches!(self, ParameterOperation::Value) || self.is_value_transform()
    }

    /// Whether this operation computes something from the variable's value.
    pub fn is_value_transform(&self) -> (r: bool)
        ensures
            r == self@.is_value_transform(),
    {
        matches!(self, ParameterOperation::Length) || matches!(
            self,
            ParameterOperation::RemovePrefix { .. }
        ) || matches!(self, ParameterOperation::RemoveSuffix { .. }) || matches!(
            self,
            ParameterOperation::ChangeCase { .. }
        )
    }

    /// Whether the word is evaluated for a variable that is set and empty as
    /// given.
    pub fn evaluates_word(&self, is_set: bool, is_empty: bool) -> (r: bool)
        ensures
            r == self@.evaluates_word(is_set, is_empty),
    {
        match self {
            ParameterOperation::RemovePrefix { .. } => is_set,
            ParameterOperation::RemoveSuffix { .. } => is_set,
            ParameterOperation::ChangeCase { .. } => is_set,
            _ => self.selects_word(is_set, is_empty),
        }
    }

    /// Whether the variable's own value is used where no word is selected.
    pub fn uses_value_when_word_is_not_selected(&self) -> (r: bool)
        ensures
            r == self@.uses_value_when_word_is_not_selected(),
    {
        matches!(self, ParameterOperation::Value) || matches!(
            self,
            ParameterOperation::DefaultIfUnset(_)
        ) || matches!(self, ParameterOperation::DefaultIfUnsetOrEmpty(_)) || matches!(
            self,
            ParameterOperation::ErrorIfUnsetOrEmpty(_)
        ) || self.is_value_transform()
    }
}

/// Whether one of the first `n` parts runs a command.
pub open spec fn parts_run_commands(parts: Seq<PartModel>, n: nat) -> bool
    decreases parts, n,
{
    n > 0 && n <= parts.len() && (parts_run_commands(parts, (n - 1) as nat) || part_runs_command(
        parts[n - 1],
    ))
}

pub open spec fn part_runs_command(part: PartModel) -> bool
    decreases part, 0nat,
{
    match part {
        PartModel::Command(_) => true,
        PartModel::PatternQuote(expression) => parts_run_commands(
            expression.parts,
            expression.parts.len(),
        ),
        PartModel::Variable { name, operation } => match operation.word() {
            Some(word) => parts_run_commands(word.parts, word.parts.len()),
            None => false,
        },
        _ => false,
    }
}

impl ExpressionModel {
    /// Whether evaluating the expression may run a command.
    pub open spec fn has_commands(self) -> bool {
        parts_run_commands(self.parts, self.parts.len())
    }

    /// Whether evaluating the expression may assign a variable.
    pub open spec fn has_assignments(self) -> bool {
        parts_assigned(self.parts, self.parts.len()).len() > 0
    }

    /// The variables that evaluating the expression may assign, in order.
    pub open spec fn assigned(self) -> Seq<Seq<char>> {
        parts_assigned(self.parts, self.parts.len())
    }

    /// Whether the order of evaluation matters.
    pub open spec fn requires_ordered_evaluation(self) -> bool {
        self.has_commands() || self.has_assignments()
    }
}

/// The variables that the first `n` parts may assign, in order.
pub open spec fn parts_assigned(parts: Seq<PartModel>, n: nat) -> Seq<Seq<char>>
    decreases parts, n,
{
    if n == 0 || n > parts.len() {
        Seq::empty()
    } else {
        parts_assigned(parts, (n - 1) as nat) + part_assigned(parts[n - 1])
    }
}

pub open spec fn part_assigned(part: PartModel) -> Seq<Seq<char>>
    decreases part, 0nat,
{
    match part {
        PartModel::PatternQuote(expression) => parts_assigned(
            expression.parts,
            expression.parts.len(),
        ),
        PartModel::Variable { name, operation } => (if operation is AssignIfUnsetOrEmpty {
            seq![name]
        } else {
            Seq::empty()
        }) + (match operation.word() {
            Some(word) => parts_assigned(word.parts, word.parts.len()),
            None => Seq::empty(),
        }),
        _ => Seq::empty(),
    }
}

/// Texts as sequences of characters.
pub open spec fn texts(strings: Seq<String>) -> Seq<Seq<char>> {
    Seq::new(strings.len(), |i: int| strings[i]@)
}

impl ShellExpression {
    /// Whether evaluating this expression may run a command.
    pub fn has_commands(&self) -> (r: bool)
        ensures
            r == self@.has_commands(),
        decreases self,
    {
        proof {
            lemma_expression_parts(*self);
        }
        let mut i: usize = 0;
        while i < self.parts.len()
            invariant
                i <= self.parts@.len(),
                self@.parts.len() == self.parts@.len(),
                forall|j: int|
                    0 <= j < self.parts@.len() ==> #[trigger] self@.parts[j] == self.parts@[j]@,
                !parts_run_commands(self@.parts, i as nat),
            decreases self.parts.len() - i,
        {
            let found = match &self.parts[i] {
                ShellPart::Command(_) => true,
                ShellPart::PatternQuote(expression) => expression.has_commands(),
                ShellPart::Variable { operation, .. } => match operation.word() {
                    Some(word) => word.has_commands(),
                    None => false,
                },
                _ => false,
            };
            assert(found == part_runs_command(self@.parts[i as int]));
            i = i + 1;
            if found {
                proof {
                    lemma_some_part_runs_command(self@.parts, i as nat, self@.parts.len());
                }
                return true;
            }
        }
        false
    }

    /// The variables that evaluating this expression may assign, in order.
    pub fn assignment_names(&self) -> (r: Vec<String>)
        ensures
            texts(r@) == self@.assigned(),
        decreases self,
    {
        proof {
            lemma_expression_parts(*self);
        }
        let mut names: Vec<String> = Vec::new();
        let mut i: usize = 0;
        assert(texts(names@) =~= Seq::empty());
        while i < self.parts.len()
            invariant
                i <= self.parts@.len(),
                self@.parts.len() == self.parts@.len(),
                forall|j: int|
                    0 <= j < self.parts@.len() ==> #[trigger] self@.parts[j] == self.parts@[j]@,
                texts(names@) == parts_assigned(self@.parts, i as nat),
            decreases self.parts.len() - i,
        {
            let ghost before = names@;
            match &self.parts[i] {
                ShellPart::PatternQuote(expression) => {
                    let mut inner = expression.assignment_names();
                    let ghost added = inner@;
                    names.append(&mut inner);
                    assert(texts(names@) =~= texts(before) + texts(added));
                },
                ShellPart::Variable { name, operation } => {
                    if matches!(operation, ParameterOperation::AssignIfUnsetOrEmpty(_)) {
                        names.push(name.clone());
                        assert(texts(names@) =~= texts(before) + seq![name@]);
                    } else {
                        assert(texts(names@) =~= texts(before) + Seq::empty());
                    }
                    let ghost own = names@;
                    if let Some(word) = operation.word() {
                        let mut inner = word.assignment_names();
                        let ghost added = inner@;
                        names.append(&mut inner);
                        assert(texts(names@) =~= texts(own) + texts(added));
                    }
                    assert(texts(names@) =~= texts(before) + part_assigned(self@.parts[i as int]));
                },
                _ => {
                    assert(texts(names@) =~= texts(before) + Seq::empty());
                },
            }
            assert(texts(names@) == texts(before) + part_assigned(self@.parts[i as int]));
            i = i + 1;
        }
        names
    }

    /// Whether evaluating this expression may assign a variable.
    pub fn has_assignments(&self) -> (r: bool)
        ensures
            r == self@.has_assignments(),
    {
        let names = self.assignment_names();
        assert(texts(names@).len() == names@.len());
        names.len() > 0
    }

    /// Whether the order of evaluation matters.
    pub fn requires_ordered_evaluation(&self) -> (r: bool)
        ensures
            r == self@.requires_ordered_evaluation(),
    {
        self.has_commands() || self.has_assignments()
    }

    /// The text of an expression that is all literal.
    pub fn literal_text(&self) -> (r: Option<String>)
        ensures
            match parts_text(self@.parts, self@.parts.len()) {
                Some(text) => r matches Some(found) && found@ == text,
                None => r is None,
            },
    {
        proof {
            lemma_expression_parts(*self);
        }
        let mut value = String::new();
        let mut i: usize = 0;
        while i < self.parts.len()
            invariant
                i <= self.parts@.len(),
                self@.parts.len() == self.parts@.len(),
                forall|j: int|
                    0 <= j < self.parts@.len() ==> #[trigger] self@.parts[j] == self.parts@[j]@,
                parts_text(self@.parts, i as nat) == Some(value@),
            decreases self.parts.len() - i,
        {
            match &self.parts[i] {
                ShellPart::Literal(text) => {
                    value.append(text.as_str());
                },
                _ => {
                    proof {
                        lemma_no_text(self@.parts, (i + 1) as nat, self@.parts.len());
                    }
                    return None;
                },
            }
            i = i + 1;
        }
        Some(value)
    }
}

/// The text of the first `n` parts, when all of them are literal.
pub open spec fn parts_text(parts: Seq<PartModel>, n: nat) -> Option<Seq<char>>
    decreases n,
{
    if n == 0 || n > parts.len() {
        Some(Seq::empty())
    } else {
        match (parts_text(parts, (n - 1) as nat), parts[n - 1]) {
            (Some(head), PartModel::Literal(text)) => Some(head + text),
            _ => None,
        }
    }
}

proof fn lemma_no_text(parts: Seq<PartModel>, n: nat, m: nat)
    requires
        0 < n <= m <= parts.len(),
        parts_text(parts, n) is None,
    ensures
        parts_text(parts, m) is None,
    decreases m,
{
    if n < m {
        lemma_no_text(parts, n, (m - 1) as nat);
    }
}

proof fn lemma_some_part_runs_command(parts: Seq<PartModel>, n: nat, m: nat)
    requires
        n <= m <= parts.len(),
        parts_run_commands(parts, n),
    ensures
        parts_run_commands(parts, m),
    decreases m,
{
    if n < m {
        lemma_some_part_runs_command(parts, n, (m - 1) as nat);
    }
}

impl ShellExpression {
    /// A copy of this expression.
    pub fn duplicate(&self) -> (r: Self)
        ensures
            r@ == self@,
        decreases self, 0nat,
    {
        proof {
            lemma_expression_parts(*self);
        }
        let mut parts: Vec<ShellPart> = Vec::with_capacity(self.parts.len());
        let mut i: usize = 0;
        proof {
            lemma_models_of(parts@, arbitrary());
            assert(models_of(parts@) =~= self@.parts.take(0));
        }
        while i < self.parts.len()
            invariant
                i <= self.parts@.len(),
                self@.parts.len() == self.parts@.len(),
                forall|j: int|
                    0 <= j < self.parts@.len() ==> #[trigger] self@.parts[j] == self.parts@[j]@,
                models_of(parts@) == self@.parts.take(i as int),
            decreases self.parts.len() - i,
        {
            let part = self.parts[i].duplicate();
            proof {
                lemma_models_of(parts@, part);
                assert(self@.parts[i as int] == self.parts@[i as int]@);
                assert(self@.parts.take(i + 1) =~= self@.parts.take(i as int).push(
                    self@.parts[i as int],
                ));
            }
            parts.push(part);
            i = i + 1;
        }
        assert(self@.parts.take(self@.parts.len() as int) =~= self@.parts);
        ShellExpression { parts }
    }
}

impl ShellPart {
    /// A copy of this part.
    pub fn duplicate(&self) -> (r: Self)
        ensures
            r@ == self@,
        decreases self, 0nat,
    {
        match self {
            ShellPart::Literal(text) => ShellPart::Literal(text.clone()),
            ShellPart::Variable { name, operation } => ShellPart::Variable {
                name: name.clone(),
                operation: operation.duplicate(),
            },
            ShellPart::RegexQuotedVariable(name) => ShellPart::RegexQuotedVariable(name.clone()),
            ShellPart::Command(command) => ShellPart::Command(command.clone()),
            ShellPart::PatternQuote(expression) => {
                let inner: ShellExpression = (**expression).duplicate();
                ShellPart::PatternQuote(Box::new(inner))
            },
        }
    }
}

impl ParameterOperation {
    /// A copy of this operation.
    pub fn duplicate(&self) -> (r: Self)
        ensures
            r@ == self@,
        decreases self, 0nat,
    {
        match self {
            ParameterOperation::Value => ParameterOperation::Value,
            ParameterOperation::DefaultIfUnset(word) => ParameterOperation::DefaultIfUnset(
                word.duplicate(),
            ),
            ParameterOperation::DefaultIfUnsetOrEmpty(word) =>
                ParameterOperation::DefaultIfUnsetOrEmpty(word.duplicate()),
            ParameterOperation::AlternateIfSet(word) => ParameterOperation::AlternateIfSet(
                word.duplicate(),
            ),
            ParameterOperation::AlternateIfSetAndNotEmpty(word) =>
                ParameterOperation::AlternateIfSetAndNotEmpty(word.duplicate()),
            ParameterOperation::AssignIfUnsetOrEmpty(word) =>
                ParameterOperation::AssignIfUnsetOrEmpty(word.duplicate()),
            ParameterOperation::ErrorIfUnsetOrEmpty(word) =>
                ParameterOperation::ErrorIfUnsetOrEmpty(word.duplicate()),
            ParameterOperation::Length => ParameterOperation::Length,
            ParameterOperation::RemovePrefix { pattern, longest } =>
                ParameterOperation::RemovePrefix { pattern: pattern.duplicate(), longest: *longest },
            ParameterOperation::RemoveSuffix { pattern, longest } =>
                ParameterOperation::RemoveSuffix { pattern: pattern.duplicate(), longest: *longest },
            ParameterOperation::ChangeCase { pattern, direction, all } =>
                ParameterOperation::ChangeCase {
                pattern: pattern.duplicate(),
                direction: *direction,
                all: *all,
            },
        }
    }
}

} // verus!
