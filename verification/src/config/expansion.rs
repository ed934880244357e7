//! Expansion of a whole configuration.

use vstd::prelude::*;
use vstd::string::*;

use crate::config::arguments::{PositionalArguments, MAX_POSITIONAL_ARGUMENTS};
use crate::config::binding::{self, expand_text};
use crate::config::errors::{self, ExpansionError, Fault};
use crate::config::limits::RcParseCounts;
use crate::config::preparation::{
    self, ConfigPreparer, PreparationPhase, Preparer,
};
use crate::config::recipe::{self, Config, ConfigModel, Statement, StatementModel};
use crate::config::tables::{ExpandedValue, NameSet, NameTable, ValueText};
use crate::config::variables::{
    self, parse_umask, AssignmentTarget, SuppliedModel, SuppliedVariable, VariableSource,
    DEFAULT_LOCK_EXT, DEFAULT_UMASK,
};
use crate::config::MAX_ASSIGNMENT_VALUE_LEN;
use crate::text::{self, decimal_text, parse_usize, same_text, text2, text3, to_chars};

verus! {

/// The variables with which an rc file starts.
pub struct Start {
    pub known: Map<Seq<char>, ValueText>,
    pub initial: Seq<(Seq<char>, Seq<char>, VariableSource)>,
}

/// A value that nothing was expanded for.
pub open spec fn plain_value(text: Seq<char>) -> ValueText {
    ValueText { text, depth: 0 }
}

/// The value of a supplied variable. What the system supplies is taken as it
/// is; what the command line supplies is expanded.
pub open spec fn supplied_value(supplied: SuppliedModel, known: Map<Seq<char>, ValueText>) -> Result<
    ValueText,
    Fault,
> {
    if supplied.source is Environment || supplied.source is System {
        Ok(plain_value(supplied.value))
    } else {
        binding::expanded_text(supplied.value, 0, MAX_ASSIGNMENT_VALUE_LEN, known)
    }
}

/// The variables once the first `n` supplied ones are set.
pub open spec fn supplied_start(supplied: Seq<SuppliedModel>, n: nat) -> Result<Start, Fault>
    decreases n,
{
    if n == 0 || n > supplied.len() {
        Ok(Start { known: Map::empty(), initial: Seq::empty() })
    } else {
        let variable = supplied[n - 1];
        match supplied_start(supplied, (n - 1) as nat) {
            Err(error) => Err(error),
            Ok(start) => match supplied_value(variable, start.known) {
                Err(error) => Err(error),
                Ok(value) => Ok(
                    Start {
                        known: start.known.insert(variable.name, value),
                        initial: start.initial.push((variable.name, value.text, variable.source)),
                    },
                ),
            },
        }
    }
}

/// The argument of this number, empty where there is none.
pub open spec fn argument(arguments: Seq<Seq<char>>, n: nat) -> Seq<char> {
    if 1 <= n <= arguments.len() {
        arguments[n - 1]
    } else {
        Seq::empty()
    }
}

/// The variables once the first `n` positional parameters are set.
pub open spec fn numbered_start(start: Start, arguments: Seq<Seq<char>>, n: nat) -> Start
    decreases n,
{
    if n == 0 {
        start
    } else {
        let before = numbered_start(start, arguments, (n - 1) as nat);
        Start {
            known: before.known.insert(text::decimal(n), plain_value(argument(arguments, n))),
            initial: if n <= arguments.len() {
                before.initial.push(
                    (text::decimal(n), arguments[n - 1], VariableSource::CommandLine),
                )
            } else {
                before.initial
            },
        }
    }
}

/// The variables once all positional parameters are set.
pub open spec fn arguments_start(start: Start, arguments: Seq<Seq<char>>) -> Start {
    let numbered = numbered_start(start, arguments, MAX_POSITIONAL_ARGUMENTS as nat);
    let count = text::decimal(arguments.len());
    Start {
        known: numbered.known.insert("#"@, plain_value(count)),
        initial: if arguments.len() > 0 {
            numbered.initial.push(("#"@, count, VariableSource::CommandLine))
        } else {
            numbered.initial
        },
    }
}

/// The values, with one for a name that has none.
pub open spec fn with_default(
    known: Map<Seq<char>, ValueText>,
    name: Seq<char>,
    value: Seq<char>,
) -> Map<Seq<char>, ValueText> {
    if known.contains_key(name) {
        known
    } else {
        known.insert(name, plain_value(value))
    }
}

fn insert_default(known: &mut NameTable<ExpandedValue>, name: &str, value: String)
    ensures
        final(known)@ == with_default(old(known)@, name@, value@),
{
    if !known.contains(name) {
        known.insert(name.to_owned(), ExpandedValue { text: value, depth: 0 });
    }
}

/// A configuration that is expanded from these variables on.
pub open spec fn expanded_from(config: ConfigModel, start: Start, maildir: Option<Seq<char>>) -> Result<
    ConfigModel,
    Fault,
> {
    let known = with_default(
        with_default(start.known, "LINEBUF"@, text::decimal(config.initial_linebuf as nat)),
        "LOCKEXT"@,
        DEFAULT_LOCK_EXT@,
    );
    match preparation::prepared_statements(
        Preparer {
            known,
            dynamic: Set::empty(),
            maildir,
            linebuf: config.initial_linebuf,
            phase: PreparationPhase::Eager,
        },
        config.statements,
        config.statements.len(),
    ) {
        Err(error) => Err(error),
        Ok((statements, _)) => Ok(
            ConfigModel { statements, initial_variables: start.initial, ..config },
        ),
    }
}

fn expand_config(
    config: Config,
    known: NameTable<ExpandedValue>,
    initial_variables: Vec<(String, String, VariableSource)>,
    maildir: Option<String>,
) -> (r: Result<Config, ExpansionError>)
    ensures
        errors::expanded_as(
            r,
            expanded_from(
                config@,
                Start { known: known@, initial: recipe::variable_models(initial_variables@) },
                recipe::optional_text(maildir),
            ),
        ),
{
    let mut known = known;
    let Config { statements, initial_variables: _, parse_counts, initial_linebuf } = config;
    proof {
        recipe::lemma_statement_models(statements@, statements@.len());
    }
    insert_default(&mut known, "LINEBUF", decimal_text(initial_linebuf));
    insert_default(&mut known, "LOCKEXT", DEFAULT_LOCK_EXT.to_owned());
    let mut preparer = ConfigPreparer {
        known,
        dynamic: NameSet::new(),
        maildir,
        linebuf: initial_linebuf,
        phase: PreparationPhase::Eager,
    };
    match preparer.prepare_statements(statements) {
        Ok(statements) => {
            proof {
                recipe::lemma_statement_models(statements@, statements@.len());
            }
            Ok(Config { statements, initial_variables, parse_counts, initial_linebuf })
        },
        Err(error) => Err(error),
    }
}

/// Supplied variables as models.
pub open spec fn supplied_models(supplied: Seq<SuppliedVariable>) -> Seq<SuppliedModel> {
    Seq::new(supplied.len(), |i: int| supplied[i]@)
}

/// A configuration that is expanded with these variables and arguments.
pub open spec fn expanded_with(
    config: ConfigModel,
    supplied: Seq<SuppliedModel>,
    arguments: Seq<Seq<char>>,
) -> Result<ConfigModel, Fault> {
    match supplied_start(supplied, supplied.len()) {
        Err(error) => Err(error),
        Ok(start) => expanded_from(config, arguments_start(start, arguments), None),
    }
}

proof fn lemma_first_supplied_fault(supplied: Seq<SuppliedModel>, n: nat, m: nat)
    requires
        n <= m <= supplied.len(),
        supplied_start(supplied, n) is Err,
    ensures
        supplied_start(supplied, m) == supplied_start(supplied, n),
    decreases m,
{
    if n < m {
        lemma_first_supplied_fault(supplied, n, (m - 1) as nat);
    }
}

proof fn lemma_variables_push(
    variables: Seq<(String, String, VariableSource)>,
    variable: (String, String, VariableSource),
)
    ensures
        recipe::variable_models(variables.push(variable)) == recipe::variable_models(
            variables,
        ).push((variable.0@, variable.1@, variable.2)),
{
    assert(recipe::variable_models(variables.push(variable)) =~= recipe::variable_models(
        variables,
    ).push((variable.0@, variable.1@, variable.2)));
}

type StartTables = (NameTable<ExpandedValue>, Vec<(String, String, VariableSource)>);

/// Sets the supplied variables.
fn start_from_supplied(supplied: &[SuppliedVariable]) -> (r: Result<StartTables, ExpansionError>)
    ensures
        match supplied_start(supplied_models(supplied@), supplied@.len()) {
            Ok(start) => r matches Ok(found) && found.0@ == start.known && recipe::variable_models(
                found.1@,
            ) == start.initial,
            Err(error) => r matches Err(found) && found@ == error,
        },
{
    let ghost models = supplied_models(supplied@);
    let mut known: NameTable<ExpandedValue> = NameTable::new();
    let mut initial: Vec<(String, String, VariableSource)> = Vec::new();
    assert(recipe::variable_models(initial@) =~= Seq::empty());
    let mut i: usize = 0;
    while i < supplied.len()
        invariant
            i <= supplied@.len(),
            models == supplied_models(supplied@),
            supplied_start(models, i as nat) == Ok::<Start, Fault>(
                Start { known: known@, initial: recipe::variable_models(initial@) },
            ),
        decreases supplied.len() - i,
    {
        assert(models[i as int] == supplied@[i as int]@);
        let variable = &supplied[i];
        let taken = match variable.source() {
            VariableSource::Environment | VariableSource::System => true,
            _ => false,
        };
        let value = if taken {
            ExpandedValue { text: variable.value().to_owned(), depth: 0 }
        } else {
            match expand_text(variable.value(), 0, MAX_ASSIGNMENT_VALUE_LEN, &known) {
                Ok(value) => value,
                Err(error) => {
                    proof {
                        lemma_first_supplied_fault(models, (i + 1) as nat, models.len());
                    }
                    return Err(error);
                },
            }
        };
        let entry = (variable.name().to_owned(), value.text.clone(), variable.source());
        proof {
            lemma_variables_push(initial@, entry);
        }
        initial.push(entry);
        known.insert(variable.name().to_owned(), value);
        i = i + 1;
    }
    Ok((known, initial))
}

/// Sets the positional parameters. Every one that a file may name has a
/// value, so that one that was not passed is empty.
fn start_with_arguments(tables: StartTables, arguments: &PositionalArguments) -> (r: StartTables)
    requires
        arguments.wf(),
    ensures
        ({
            let start = arguments_start(
                Start { known: tables.0@, initial: recipe::variable_models(tables.1@) },
                arguments@,
            );
            &&& r.0@ == start.known
            &&& recipe::variable_models(r.1@) == start.initial
        }),
{
    let (mut known, mut initial) = tables;
    let ghost before = Start { known: known@, initial: recipe::variable_models(initial@) };
    let count = arguments.len();
    let mut index: usize = 0;
    while index < MAX_POSITIONAL_ARGUMENTS
        invariant
            index <= MAX_POSITIONAL_ARGUMENTS,
            count == arguments@.len(),
            arguments.wf(),
            numbered_start(before, arguments@, index as nat) == (Start {
                known: known@,
                initial: recipe::variable_models(initial@),
            }),
        decreases MAX_POSITIONAL_ARGUMENTS - index,
    {
        let name = decimal_text(index + 1);
        let value = match arguments.get(index) {
            Some(value) => value.to_owned(),
            None => String::new(),
        };
        assert(value@ =~= argument(arguments@, (index + 1) as nat));
        if index < count {
            let entry = (name.clone(), value.clone(), VariableSource::CommandLine);
            proof {
                lemma_variables_push(initial@, entry);
            }
            initial.push(entry);
        }
        known.insert(name, ExpandedValue { text: value, depth: 0 });
        index = index + 1;
    }
    let total = decimal_text(count);
    if count > 0 {
        let entry = ("#".to_owned(), total.clone(), VariableSource::CommandLine);
        proof {
            lemma_variables_push(initial@, entry);
        }
        initial.push(entry);
    }
    known.insert("#".to_owned(), ExpandedValue { text: total, depth: 0 });
    (known, initial)
}

/// Expands a configuration with the variables and the arguments that the
/// command line supplies.
pub fn expand_with_arguments(
    config: Config,
    supplied: &[SuppliedVariable],
    arguments: &PositionalArguments,
) -> (r: Result<Config, ExpansionError>)
    requires
        arguments.wf(),
    ensures
        errors::expanded_as(
            r,
            expanded_with(config@, supplied_models(supplied@), arguments@),
        ),
{
    match start_from_supplied(supplied) {
        Ok(tables) => {
            let (known, initial) = start_with_arguments(tables, arguments);
            expand_config(config, known, initial, None)
        },
        Err(error) => Err(error),
    }
}

/// Named values, as they are given.
pub open spec fn value_models(values: Seq<(String, String)>) -> Seq<(Seq<char>, Seq<char>)> {
    Seq::new(values.len(), |i: int| (values[i].0@, values[i].1@))
}

/// The values once the first `n` are set: a later one replaces an earlier one.
pub open spec fn given_values(values: Seq<(Seq<char>, Seq<char>)>, n: nat) -> Map<
    Seq<char>,
    ValueText,
>
    decreases n,
{
    if n == 0 || n > values.len() {
        Map::empty()
    } else {
        given_values(values, (n - 1) as nat).insert(
            values[n - 1].0,
            plain_value(values[n - 1].1),
        )
    }
}

/// The last value of `MAILDIR` among the first `n`.
pub open spec fn given_maildir(values: Seq<(Seq<char>, Seq<char>)>, n: nat) -> Option<Seq<char>>
    decreases n,
{
    if n == 0 || n > values.len() {
        None
    } else if values[n - 1].0 == "MAILDIR"@ {
        Some(values[n - 1].1)
    } else {
        given_maildir(values, (n - 1) as nat)
    }
}

/// The values, with empty ones for the first `n` positional parameters that
/// have none.
pub open spec fn with_numbers(known: Map<Seq<char>, ValueText>, n: nat) -> Map<
    Seq<char>,
    ValueText,
>
    decreases n,
{
    if n == 0 {
        known
    } else {
        with_default(with_numbers(known, (n - 1) as nat), text::decimal(n), Seq::empty())
    }
}

/// The values, with ones for all positional parameters.
pub open spec fn with_positionals(known: Map<Seq<char>, ValueText>) -> Map<Seq<char>, ValueText> {
    with_default(with_numbers(known, MAX_POSITIONAL_ARGUMENTS as nat), "#"@, "0"@)
}

/// Sets the positional parameters that have no value.
fn populate_missing_positionals(known: &mut NameTable<ExpandedValue>)
    ensures
        final(known)@ == with_positionals(old(known)@),
{
    let ghost before = known@;
    let mut index: usize = 0;
    while index < MAX_POSITIONAL_ARGUMENTS
        invariant
            index <= MAX_POSITIONAL_ARGUMENTS,
            known@ == with_numbers(before, index as nat),
        decreases MAX_POSITIONAL_ARGUMENTS - index,
    {
        index = index + 1;
        let name = decimal_text(index);
        let empty = String::new();
        assert(empty@ =~= Seq::<char>::empty());
        insert_default(known, name.as_str(), empty);
    }
    insert_default(known, "#", "0".to_owned());
}

/// Sets the given values.
fn table_of(values: &[(String, String)]) -> (r: NameTable<ExpandedValue>)
    ensures
        r@ == given_values(value_models(values@), values@.len()),
{
    let ghost models = value_models(values@);
    let mut known: NameTable<ExpandedValue> = NameTable::new();
    let mut i: usize = 0;
    while i < values.len()
        invariant
            i <= values@.len(),
            models == value_models(values@),
            known@ == given_values(models, i as nat),
        decreases values.len() - i,
    {
        assert(models[i as int] == (values@[i as int].0@, values@[i as int].1@));
        known.insert(
            values[i].0.clone(),
            ExpandedValue { text: values[i].1.clone(), depth: 0 },
        );
        i = i + 1;
    }
    known
}

/// Finds the last value of `MAILDIR`.
fn find_maildir(values: &[(String, String)]) -> (r: Option<String>)
    ensures
        recipe::optional_text(r) == given_maildir(value_models(values@), values@.len()),
{
    let ghost models = value_models(values@);
    let mut left: usize = values.len();
    while left > 0
        invariant
            left <= values@.len(),
            models == value_models(values@),
            given_maildir(models, values@.len()) == given_maildir(models, left as nat),
        decreases left,
    {
        assert(models[left - 1] == (values@[left - 1].0@, values@[left - 1].1@));
        if same_text(values[left - 1].0.as_str(), "MAILDIR") {
            return Some(values[left - 1].1.clone());
        }
        left = left - 1;
    }
    None
}

/// A configuration that is expanded while a message is filtered.
pub open spec fn expanded_at_runtime(
    config: ConfigModel,
    values: Seq<(Seq<char>, Seq<char>)>,
) -> Result<ConfigModel, Fault> {
    expanded_from(
        config,
        Start {
            known: with_positionals(given_values(values, values.len())),
            initial: Seq::empty(),
        },
        given_maildir(values, values.len()),
    )
}

/// A configuration that is checked while there is no message.
pub open spec fn checked_config(
    config: ConfigModel,
    values: Seq<(Seq<char>, Seq<char>)>,
) -> Result<ConfigModel, Fault> {
    match preparation::prepared_statements(
        Preparer {
            known: with_positionals(given_values(values, values.len())),
            dynamic: Set::empty(),
            maildir: given_maildir(values, values.len()),
            linebuf: config.initial_linebuf,
            phase: PreparationPhase::Deferred,
        },
        config.statements,
        config.statements.len(),
    ) {
        Err(error) => Err(error),
        Ok((statements, _)) => Ok(ConfigModel { statements, ..config }),
    }
}

impl Config {
    /// Expands all that is known before there is a message.
    pub fn expand(self, supplied: &[SuppliedVariable]) -> (r: Result<Self, ExpansionError>)
        ensures
            errors::expanded_as(
                r,
                expanded_with(self@, supplied_models(supplied@), Seq::empty()),
            ),
    {
        let arguments = PositionalArguments::new();
        expand_with_arguments(self, supplied, &arguments)
    }

    /// Expands a file that is read while a message is filtered, with the
    /// values that variables have then.
    pub fn expand_with_runtime_values(self, values: &[(String, String)]) -> (r: Result<
        Self,
        ExpansionError,
    >)
        ensures
            errors::expanded_as(r, expanded_at_runtime(self@, value_models(values@))),
    {
        let maildir = find_maildir(values);
        let mut known = table_of(values);
        populate_missing_positionals(&mut known);
        let initial: Vec<(String, String, VariableSource)> = Vec::new();
        assert(recipe::variable_models(initial@) =~= Seq::empty());
        expand_config(self, known, initial, maildir)
    }

    /// Prepares every statement for a message that is not there yet, so that
    /// what is wrong whatever the message is shows now.
    pub fn prepare_for_check(self, values: &[(String, String)]) -> (r: Result<
        Self,
        ExpansionError,
    >)
        ensures
            errors::expanded_as(r, checked_config(self@, value_models(values@))),
    {
        let maildir = find_maildir(values);
        let mut known = table_of(values);
        populate_missing_positionals(&mut known);
        let Config { statements, initial_variables, parse_counts, initial_linebuf } = self;
        proof {
            recipe::lemma_statement_models(statements@, statements@.len());
        }
        let mut preparer = ConfigPreparer {
            known,
            dynamic: NameSet::new(),
            maildir,
            linebuf: initial_linebuf,
            phase: PreparationPhase::Deferred,
        };
        match preparer.prepare_statements(statements) {
            Ok(statements) => {
                Ok(Config { statements, initial_variables, parse_counts, initial_linebuf })
            },
            Err(error) => Err(error),
        }
    }

    /// The variables with which the file starts.
    pub fn initial_variables(&self) -> (r: &[(String, String, VariableSource)])
        ensures
            recipe::variable_models(r@) == self@.initial_variables,
    {
        self.initial_variables.as_slice()
    }

    /// What was counted while the file was read.
    pub fn parse_counts(&self) -> (r: RcParseCounts)
        ensures
            r == self@.parse_counts,
    {
        self.parse_counts
    }
}

/// How many arguments there are.
pub open spec fn argument_count(known: Map<Seq<char>, ValueText>) -> nat {
    if known.contains_key("#"@) {
        match text::unsigned_number(known["#"@].text, usize::MAX as nat) {
            Some(count) => count,
            None => 0,
        }
    } else {
        0
    }
}

/// The value that the parameter `n` has once `amount` of `count` are gone.
pub open spec fn shifted_value(
    known: Map<Seq<char>, ValueText>,
    count: nat,
    amount: nat,
    n: nat,
) -> ValueText {
    if n + amount <= count && known.contains_key(text::decimal(n + amount)) {
        known[text::decimal(n + amount)]
    } else {
        plain_value(Seq::empty())
    }
}

/// The values once the first `n` parameters have been shifted.
pub open spec fn shifted_numbers(
    known: Map<Seq<char>, ValueText>,
    count: nat,
    amount: nat,
    n: nat,
) -> Map<Seq<char>, ValueText>
    decreases n,
{
    if n == 0 {
        known
    } else {
        shifted_numbers(known, count, amount, (n - 1) as nat).insert(
            text::decimal(n),
            shifted_value(known, count, amount, n),
        )
    }
}

/// The values once `requested` arguments, or all that there are, are gone.
pub open spec fn shifted(known: Map<Seq<char>, ValueText>, requested: nat) -> Map<
    Seq<char>,
    ValueText,
> {
    let count = argument_count(known);
    let amount = if requested < count {
        requested
    } else {
        count
    };
    shifted_numbers(known, count, amount, MAX_POSITIONAL_ARGUMENTS as nat).insert(
        "#"@,
        plain_value(text::decimal((count - amount) as nat)),
    )
}

/// Drops the first arguments, so that the ones after them take their numbers.
pub fn shift_known_positionals(known: &mut NameTable<ExpandedValue>, requested: usize)
    ensures
        final(known)@ == shifted(old(known)@, requested as nat),
{
    let ghost before = known@;
    let source = known.duplicate();
    let count = match source.get("#") {
        Some(value) => {
            let chars = to_chars(value.text.as_str());
            match parse_usize(chars.as_slice()) {
                Some(count) => count,
                None => 0,
            }
        },
        None => 0,
    };
    let amount = if requested < count {
        requested
    } else {
        count
    };
    let remaining = count - amount;
    let mut index: usize = 0;
    while index < MAX_POSITIONAL_ARGUMENTS
        invariant
            index <= MAX_POSITIONAL_ARGUMENTS,
            source@ == before,
            amount <= count,
            remaining == count - amount,
            known@ == shifted_numbers(before, count as nat, amount as nat, index as nat),
        decreases MAX_POSITIONAL_ARGUMENTS - index,
    {
        index = index + 1;
        let empty = String::new();
        assert(empty@ =~= Seq::<char>::empty());
        let mut value = ExpandedValue { text: empty, depth: 0 };
        if index <= remaining {
            let name = decimal_text(index + amount);
            if let Some(found) = source.get(name.as_str()) {
                value = found.clone();
            }
        }
        known.insert(decimal_text(index), value);
    }
    known.insert("#".to_owned(), ExpandedValue { text: decimal_text(remaining), depth: 0 });
}

/// The mask that the first `n` statements leave, or what is wrong with it.
pub open spec fn umask_in(statements: Seq<StatementModel>, n: nat) -> Result<nat, Seq<char>>
    decreases n,
{
    if n == 0 || n > statements.len() {
        Ok(DEFAULT_UMASK as nat)
    } else {
        match umask_in(statements, (n - 1) as nat) {
            Err(message) => Err(message),
            Ok(before) => match statements[n - 1] {
                StatementModel::Assignment(assignment) => if assignment.target is Umask {
                    match variables::umask_of(assignment.value) {
                        Some(mask) => Ok(mask),
                        None => Err(
                            "line "@ + text::decimal(assignment.line) + (": "@
                                + variables::umask_message()),
                        ),
                    }
                } else {
                    Ok(before)
                },
                _ => Ok(before),
            },
        }
    }
}

proof fn lemma_first_umask_fault(statements: Seq<StatementModel>, n: nat, m: nat)
    requires
        n <= m <= statements.len(),
        umask_in(statements, n) is Err,
    ensures
        umask_in(statements, m) == umask_in(statements, n),
    decreases m,
{
    if n < m {
        lemma_first_umask_fault(statements, n, (m - 1) as nat);
    }
}

/// The mask that a configuration sets.
pub fn umask_from_config(config: &Config) -> (r: Result<u32, String>)
    ensures
        match umask_in(config@.statements, config@.statements.len()) {
            Ok(mask) => r matches Ok(found) && found == mask,
            Err(message) => r matches Err(found) && found@ == message,
        },
{
    let ghost models = config@.statements;
    proof {
        recipe::lemma_statement_models(config.statements@, config.statements@.len());
    }
    let mut mask: u32 = DEFAULT_UMASK;
    let mut i: usize = 0;
    while i < config.statements.len()
        invariant
            i <= config.statements@.len(),
            models == config@.statements,
            models.len() == config.statements@.len(),
            forall|j: int|
                0 <= j < config.statements@.len() ==> #[trigger] models[j]
                    == config.statements@[j]@,
            umask_in(models, i as nat) == Ok::<nat, Seq<char>>(mask as nat),
        decreases config.statements.len() - i,
    {
        assert(models[i as int] == config.statements@[i as int]@);
        if let Statement::Assignment(assignment) = &config.statements[i] {
            if assignment.target == AssignmentTarget::Umask {
                match parse_umask(assignment.value.as_str()) {
                    Ok(found) => {
                        mask = found;
                    },
                    Err(message) => {
                        proof {
                            lemma_first_umask_fault(models, (i + 1) as nat, models.len());
                        }
                        let digits = decimal_text(assignment.line);
                        let rest = text2(": ", message.as_str());
                        return Err(text3("line ", digits.as_str(), rest.as_str()));
                    },
                }
            }
        }
        i = i + 1;
    }
    Ok(mask)
}

} // verus!
