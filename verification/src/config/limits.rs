//! What an rc file may hold: counts of what has been read, limits on them, and
//! the two together.

use vstd::prelude::*;
use vstd::string::*;

use crate::config::errors::{self, ParseError, Refusal};
use crate::config::recipe::{Assignment, AssignmentModel};
use crate::config::variables::{AssignmentTarget, RcLimitVariable};
use crate::config::{
    DEFAULT_LINEBUF, HARD_MAX_CONDITIONS_PER_RECIPE, HARD_MAX_RC_ASSIGNMENTS,
    HARD_MAX_RC_CONDITIONS, HARD_MAX_RC_RECIPES, HARD_MAX_RC_REGEXES, HARD_MAX_RC_STATEMENTS,
    HARD_MAX_RECIPE_NESTING_DEPTH, MAX_CONDITIONS_PER_RECIPE, MAX_RC_ASSIGNMENTS,
    MAX_LINEBUF, MAX_RC_CONDITIONS, MAX_RC_RECIPES, MAX_RC_REGEXES, MAX_RC_STATEMENTS,
    MAX_RECIPE_NESTING_DEPTH, MIN_LINEBUF,
};
use crate::text::{self, chars_len, counted, numbered, parse_usize, text2, text3, to_chars};

verus! {

/// How much of each kind has been read.
#[derive(Debug, Clone, Copy, PartialEq, Eq, Structural)]
pub struct RcParseCounts {
    pub assignments: usize,
    pub statements: usize,
    pub recipes: usize,
    pub conditions: usize,
    pub regexes: usize,
}

/// How much of each kind may be read.
#[derive(Debug, Clone, Copy, PartialEq, Eq, Structural)]
pub struct RcLimits {
    pub assignments: usize,
    pub statements: usize,
    pub recipes: usize,
    pub conditions: usize,
    pub regexes: usize,
    pub conditions_per_recipe: usize,
    pub nesting_depth: usize,
    pub linebuf: usize,
}

/// The greatest value that a limit can be given.
pub open spec fn hard_limit(kind: RcLimitVariable) -> usize {
    match kind {
        RcLimitVariable::Assignments => HARD_MAX_RC_ASSIGNMENTS,
        RcLimitVariable::Statements => HARD_MAX_RC_STATEMENTS,
        RcLimitVariable::Recipes => HARD_MAX_RC_RECIPES,
        RcLimitVariable::Conditions => HARD_MAX_RC_CONDITIONS,
        RcLimitVariable::Regexes => HARD_MAX_RC_REGEXES,
        RcLimitVariable::ConditionsPerRecipe => HARD_MAX_CONDITIONS_PER_RECIPE,
        RcLimitVariable::NestingDepth => HARD_MAX_RECIPE_NESTING_DEPTH,
    }
}

/// The limits that hold where an rc file sets none.
pub open spec fn default_limits() -> RcLimits {
    RcLimits {
        assignments: MAX_RC_ASSIGNMENTS,
        statements: MAX_RC_STATEMENTS,
        recipes: MAX_RC_RECIPES,
        conditions: MAX_RC_CONDITIONS,
        regexes: MAX_RC_REGEXES,
        conditions_per_recipe: MAX_CONDITIONS_PER_RECIPE,
        nesting_depth: MAX_RECIPE_NESTING_DEPTH,
        linebuf: DEFAULT_LINEBUF,
    }
}

pub open spec fn no_counts() -> RcParseCounts {
    RcParseCounts { assignments: 0, statements: 0, recipes: 0, conditions: 0, regexes: 0 }
}

impl RcParseCounts {
    pub fn new() -> (r: Self)
        ensures
            r == no_counts(),
    {
        RcParseCounts { assignments: 0, statements: 0, recipes: 0, conditions: 0, regexes: 0 }
    }
}

impl Default for RcLimits {
    fn default() -> (r: Self)
        ensures
            r == default_limits(),
    {
        RcLimits {
            assignments: MAX_RC_ASSIGNMENTS,
            statements: MAX_RC_STATEMENTS,
            recipes: MAX_RC_RECIPES,
            conditions: MAX_RC_CONDITIONS,
            regexes: MAX_RC_REGEXES,
            conditions_per_recipe: MAX_CONDITIONS_PER_RECIPE,
            nesting_depth: MAX_RECIPE_NESTING_DEPTH,
            linebuf: DEFAULT_LINEBUF,
        }
    }
}

impl RcLimits {
    /// The limits once `kind` has been given `value`.
    pub open spec fn with(self, kind: RcLimitVariable, value: usize) -> RcLimits {
        match kind {
            RcLimitVariable::Assignments => RcLimits { assignments: value, ..self },
            RcLimitVariable::Statements => RcLimits { statements: value, ..self },
            RcLimitVariable::Recipes => RcLimits { recipes: value, ..self },
            RcLimitVariable::Conditions => RcLimits { conditions: value, ..self },
            RcLimitVariable::Regexes => RcLimits { regexes: value, ..self },
            RcLimitVariable::ConditionsPerRecipe => RcLimits {
                conditions_per_recipe: value,
                ..self
            },
            RcLimitVariable::NestingDepth => RcLimits { nesting_depth: value, ..self },
        }
    }

    /// The value of a limit.
    pub open spec fn value(self, kind: RcLimitVariable) -> usize {
        match kind {
            RcLimitVariable::Assignments => self.assignments,
            RcLimitVariable::Statements => self.statements,
            RcLimitVariable::Recipes => self.recipes,
            RcLimitVariable::Conditions => self.conditions,
            RcLimitVariable::Regexes => self.regexes,
            RcLimitVariable::ConditionsPerRecipe => self.conditions_per_recipe,
            RcLimitVariable::NestingDepth => self.nesting_depth,
        }
    }

    /// Gives a limit a value, unless that is more than the hard limit, which
    /// is handed back.
    pub fn set(&mut self, kind: RcLimitVariable, value: usize) -> (r: Result<(), usize>)
        ensures
            if value > hard_limit(kind) {
                r == Err::<(), usize>(hard_limit(kind)) && *final(self) == *old(self)
            } else {
                r is Ok && *final(self) == old(self).with(kind, value)
            },
    {
        let most: usize = match kind {
            RcLimitVariable::Assignments => HARD_MAX_RC_ASSIGNMENTS,
            RcLimitVariable::Statements => HARD_MAX_RC_STATEMENTS,
            RcLimitVariable::Recipes => HARD_MAX_RC_RECIPES,
            RcLimitVariable::Conditions => HARD_MAX_RC_CONDITIONS,
            RcLimitVariable::Regexes => HARD_MAX_RC_REGEXES,
            RcLimitVariable::ConditionsPerRecipe => HARD_MAX_CONDITIONS_PER_RECIPE,
            RcLimitVariable::NestingDepth => HARD_MAX_RECIPE_NESTING_DEPTH,
        };
        if value > most {
            return Err(most);
        }
        match kind {
            RcLimitVariable::Assignments => {
                self.assignments = value;
            },
            RcLimitVariable::Statements => {
                self.statements = value;
            },
            RcLimitVariable::Recipes => {
                self.recipes = value;
            },
            RcLimitVariable::Conditions => {
                self.conditions = value;
            },
            RcLimitVariable::Regexes => {
                self.regexes = value;
            },
            RcLimitVariable::ConditionsPerRecipe => {
                self.conditions_per_recipe = value;
            },
            RcLimitVariable::NestingDepth => {
                self.nesting_depth = value;
            },
        }
        Ok(())
    }
}

/// Setting one limit leaves all the others, and the bound on lines, as they
/// were.
pub proof fn a_limit_changes_alone(
    limits: RcLimits,
    kind: RcLimitVariable,
    other: RcLimitVariable,
    value: usize,
)
    ensures
        limits.with(kind, value).value(other) == (if other == kind {
            value
        } else {
            limits.value(other)
        }),
        limits.with(kind, value).linebuf == limits.linebuf,
{
}

/// What earlier counts leave of these, as far as none of them went down.
pub open spec fn counted_since(counts: RcParseCounts, earlier: RcParseCounts) -> Result<
    RcParseCounts,
    Refusal,
> {
    if counts.assignments < earlier.assignments {
        Err(errors::refusal(1, "rc assignment count moved backwards"@))
    } else if counts.statements < earlier.statements {
        Err(errors::refusal(1, "rc statement count moved backwards"@))
    } else if counts.recipes < earlier.recipes {
        Err(errors::refusal(1, "rc recipe count moved backwards"@))
    } else if counts.conditions < earlier.conditions {
        Err(errors::refusal(1, "rc condition count moved backwards"@))
    } else if counts.regexes < earlier.regexes {
        Err(errors::refusal(1, "rc regex count moved backwards"@))
    } else {
        Ok(
            RcParseCounts {
                assignments: (counts.assignments - earlier.assignments) as usize,
                statements: (counts.statements - earlier.statements) as usize,
                recipes: (counts.recipes - earlier.recipes) as usize,
                conditions: (counts.conditions - earlier.conditions) as usize,
                regexes: (counts.regexes - earlier.regexes) as usize,
            },
        )
    }
}

impl RcParseCounts {
    /// What was counted since `earlier`.
    pub fn subtract(self, earlier: Self) -> (r: Result<Self, ParseError>)
        ensures
            match counted_since(self, earlier) {
                Ok(counts) => r == Ok::<Self, ParseError>(counts),
                Err(error) => r matches Err(found) && found@ == error,
            },
    {
        if self.assignments < earlier.assignments {
            return Err(ParseError::told(1, "rc assignment count moved backwards"));
        }
        if self.statements < earlier.statements {
            return Err(ParseError::told(1, "rc statement count moved backwards"));
        }
        if self.recipes < earlier.recipes {
            return Err(ParseError::told(1, "rc recipe count moved backwards"));
        }
        if self.conditions < earlier.conditions {
            return Err(ParseError::told(1, "rc condition count moved backwards"));
        }
        if self.regexes < earlier.regexes {
            return Err(ParseError::told(1, "rc regex count moved backwards"));
        }
        Ok(
            RcParseCounts {
                assignments: self.assignments - earlier.assignments,
                statements: self.statements - earlier.statements,
                recipes: self.recipes - earlier.recipes,
                conditions: self.conditions - earlier.conditions,
                regexes: self.regexes - earlier.regexes,
            },
        )
    }
}

/// What has been read of a configuration, and what may be.
#[derive(Debug, Clone, Copy, PartialEq, Eq, Structural)]
pub struct ParseBudget {
    pub counts: RcParseCounts,
    pub limits: RcLimits,
}

/// What an assignment is part of.
#[derive(Debug, Clone, Copy, PartialEq, Eq, Structural)]
pub enum AssignmentUse {
    Statement,
    CaptureAction,
}

/// The refusal of one more item of a kind of which there are `count`.
pub open spec fn over_count(count: nat, limit: usize, line: nat, name: Seq<char>) -> Option<
    Refusal,
> {
    if count >= limit {
        Some(
            errors::over_limit(
                line,
                "rc "@ + name + " count exceeds the active limit of "@ + text::decimal(
                    limit as nat,
                ),
            ),
        )
    } else {
        None
    }
}

fn check_count_limit(count: usize, limit: usize, line: usize, name: &str) -> (r: Result<
    (),
    ParseError,
>)
    ensures
        errors::refused_as(r, over_count(count as nat, limit, line as nat, name@)),
{
    if count >= limit {
        let start = text3("rc ", name, " count exceeds the active limit of ");
        return Err(ParseError::limit(line, counted(start.as_str(), limit)));
    }
    Ok(())
}

/// The refusal of a line that is too long.
pub open spec fn over_linebuf(line: Seq<char>, line_number: nat, limit: usize) -> Option<Refusal> {
    if text::byte_len(line) > limit {
        Some(
            errors::over_limit(
                line_number,
                "rc line exceeds the active LINEBUF limit of "@ + text::decimal(limit as nat)
                    + " bytes"@,
            ),
        )
    } else {
        None
    }
}

/// Refuses a line that is longer than `limit` bytes.
pub fn check_linebuf(line: &[char], line_number: usize, limit: usize) -> (r: Result<
    (),
    ParseError,
>)
    ensures
        errors::refused_as(r, over_linebuf(line@, line_number as nat, limit)),
{
    if chars_len(line) > limit {
        return Err(
            ParseError::limit(
                line_number,
                numbered("rc line exceeds the active LINEBUF limit of ", limit, " bytes"),
            ),
        );
    }
    Ok(())
}

impl ParseBudget {
    /// The budget once a recipe has been counted.
    pub open spec fn with_recipe(self, line: nat) -> (Option<Refusal>, ParseBudget) {
        let refused = over_count(
            self.counts.recipes as nat,
            self.limits.recipes,
            line,
            "recipe"@,
        );
        let counts = RcParseCounts { recipes: (self.counts.recipes + 1) as usize, ..self.counts };
        if refused is Some {
            (refused, self)
        } else if self.counts.statements == usize::MAX {
            (
                Some(errors::refusal(line, "rc statement count overflows"@)),
                ParseBudget { counts, ..self },
            )
        } else {
            (
                None,
                ParseBudget {
                    counts: RcParseCounts {
                        statements: (self.counts.statements + 1) as usize,
                        ..counts
                    },
                    ..self
                },
            )
        }
    }

    /// The budget once an assignment has been counted.
    pub open spec fn with_assignment(self, line: nat, usage: AssignmentUse) -> (
        Option<Refusal>,
        ParseBudget,
    ) {
        let refused = over_count(
            self.counts.assignments as nat,
            self.limits.assignments,
            line,
            "assignment"@,
        );
        let counts = RcParseCounts {
            assignments: (self.counts.assignments + 1) as usize,
            ..self.counts
        };
        if refused is Some {
            (refused, self)
        } else if usage is CaptureAction {
            (None, ParseBudget { counts, ..self })
        } else if self.counts.statements == usize::MAX {
            (
                Some(errors::refusal(line, "rc statement count overflows"@)),
                ParseBudget { counts, ..self },
            )
        } else {
            (
                None,
                ParseBudget {
                    counts: RcParseCounts {
                        statements: (self.counts.statements + 1) as usize,
                        ..counts
                    },
                    ..self
                },
            )
        }
    }

    /// The budget once the conditions of a recipe have been counted.
    pub open spec fn with_contents(self, conditions: nat, regexes: nat, line: nat) -> (
        Option<Refusal>,
        ParseBudget,
    ) {
        let counts = RcParseCounts {
            conditions: (self.counts.conditions + conditions) as usize,
            ..self.counts
        };
        if self.counts.conditions + conditions > usize::MAX {
            (Some(errors::refusal(line, "rc condition count overflows"@)), self)
        } else if self.counts.regexes + regexes > usize::MAX {
            (
                Some(errors::refusal(line, "rc regex count overflows"@)),
                ParseBudget { counts, ..self },
            )
        } else {
            (
                None,
                ParseBudget {
                    counts: RcParseCounts {
                        regexes: (self.counts.regexes + regexes) as usize,
                        ..counts
                    },
                    ..self
                },
            )
        }
    }

    /// The refusal of one more statement.
    pub open spec fn no_statement(self, line: nat) -> Option<Refusal> {
        over_count(self.counts.statements as nat, self.limits.statements, line, "statement"@)
    }

    /// The refusal of one more condition of a recipe that has `recipe_count`.
    pub open spec fn no_condition(self, recipe_count: nat, line: nat) -> Option<Refusal> {
        if recipe_count >= self.limits.conditions_per_recipe {
            Some(
                errors::over_limit(
                    line,
                    "recipe condition count exceeds the active limit of "@ + text::decimal(
                        self.limits.conditions_per_recipe as nat,
                    ),
                ),
            )
        } else if self.counts.conditions + recipe_count > usize::MAX {
            Some(errors::refusal(line, "rc condition count overflows"@))
        } else {
            over_count(
                self.counts.conditions as nat + recipe_count,
                self.limits.conditions,
                line,
                "condition"@,
            )
        }
    }

    /// The refusal of one more regular expression in a recipe that has
    /// `recipe_count`.
    pub open spec fn no_regex(self, recipe_count: nat, line: nat) -> Option<Refusal> {
        if self.counts.regexes + recipe_count > usize::MAX {
            Some(errors::refusal(line, "rc regex count overflows"@))
        } else {
            over_count(
                self.counts.regexes as nat + recipe_count,
                self.limits.regexes,
                line,
                "regex"@,
            )
        }
    }

    /// The depth of a block inside one of depth `depth`.
    pub open spec fn nested(self, depth: nat, line: nat) -> Result<nat, Refusal> {
        if depth >= usize::MAX {
            Err(errors::refusal(line, "recipe nesting depth overflows"@))
        } else if depth + 1 > self.limits.nesting_depth {
            Err(
                errors::over_limit(
                    line,
                    "recipe nesting depth "@ + text::decimal(depth + 1)
                        + " exceeds the active limit of "@ + text::decimal(
                        self.limits.nesting_depth as nat,
                    ),
                ),
            )
        } else {
            Ok(depth + 1)
        }
    }

    /// The budget once an assignment has taken effect on it.
    pub open spec fn assigned(self, assignment: AssignmentModel) -> (Option<Refusal>, ParseBudget) {
        let value = text::unsigned_number(assignment.value, usize::MAX as nat);
        match assignment.target {
            AssignmentTarget::RcLimit(kind) => match value {
                None => (
                    Some(
                        errors::refusal(
                            assignment.line,
                            assignment.name + " must be an unsigned decimal integer"@,
                        ),
                    ),
                    self,
                ),
                Some(limit) => if limit > hard_limit(kind) {
                    (
                        Some(
                            errors::over_limit(
                                assignment.line,
                                assignment.name + " exceeds the hard limit of "@ + text::decimal(
                                    hard_limit(kind) as nat,
                                ),
                            ),
                        ),
                        self,
                    )
                } else {
                    (None, ParseBudget { limits: self.limits.with(kind, limit as usize), ..self })
                },
            },
            AssignmentTarget::LineBuf => match value {
                None => (
                    Some(
                        errors::refusal(
                            assignment.line,
                            "LINEBUF must be an unsigned decimal integer"@,
                        ),
                    ),
                    self,
                ),
                Some(linebuf) => if linebuf < MIN_LINEBUF || linebuf > MAX_LINEBUF {
                    (
                        Some(
                            errors::over_limit(
                                assignment.line,
                                "LINEBUF must be from "@ + text::decimal(MIN_LINEBUF as nat)
                                    + " through "@ + text::decimal(MAX_LINEBUF as nat)
                                    + " bytes"@,
                            ),
                        ),
                        self,
                    )
                } else {
                    (
                        None,
                        ParseBudget {
                            limits: RcLimits { linebuf: linebuf as usize, ..self.limits },
                            ..self
                        },
                    )
                },
            },
            _ => (None, self),
        }
    }

    /// A budget with nothing counted and the limits that hold by default.
    pub fn new() -> (r: Self)
        ensures
            r == (ParseBudget { counts: no_counts(), limits: default_limits() }),
    {
        ParseBudget { counts: RcParseCounts::new(), limits: RcLimits::default() }
    }

    /// Starts again from `counts`, with the limits that hold by default.
    pub fn reset(&mut self, counts: RcParseCounts)
        ensures
            *final(self) == (ParseBudget { counts, limits: default_limits() }),
    {
        self.counts = counts;
        self.limits = RcLimits::default();
    }

    pub fn replace_limits(&mut self, limits: RcLimits)
        ensures
            *final(self) == (ParseBudget { limits, ..*old(self) }),
    {
        self.limits = limits;
    }

    pub fn set_linebuf(&mut self, linebuf: usize)
        ensures
            *final(self) == (ParseBudget {
                limits: RcLimits { linebuf, ..old(self).limits },
                ..*old(self)
            }),
    {
        self.limits.linebuf = linebuf;
    }

    /// What has been counted so far.
    pub fn snapshot(&self) -> (r: RcParseCounts)
        ensures
            r == self.counts,
    {
        self.counts
    }

    /// What has been counted since `earlier`.
    pub fn counts_since(&self, earlier: RcParseCounts) -> (r: Result<RcParseCounts, ParseError>)
        ensures
            match counted_since(self.counts, earlier) {
                Ok(counts) => r == Ok::<RcParseCounts, ParseError>(counts),
                Err(error) => r matches Err(found) && found@ == error,
            },
    {
        self.counts.subtract(earlier)
    }

    /// How long a line may be.
    pub fn linebuf(&self) -> (r: usize)
        ensures
            r == self.limits.linebuf,
    {
        self.limits.linebuf
    }

    /// Refuses a line that is too long.
    pub fn check_line(&self, line: &[char], line_number: usize) -> (r: Result<(), ParseError>)
        ensures
            errors::refused_as(
                r,
                over_linebuf(line@, line_number as nat, self.limits.linebuf),
            ),
    {
        check_linebuf(line, line_number, self.linebuf())
    }

    /// Refuses one more statement where there are as many as may be.
    pub fn check_statement(&self, line: usize) -> (r: Result<(), ParseError>)
        ensures
            errors::refused_as(r, self.no_statement(line as nat)),
    {
        check_count_limit(self.counts.statements, self.limits.statements, line, "statement")
    }

    /// Counts a recipe.
    pub fn charge_recipe(&mut self, line: usize) -> (r: Result<(), ParseError>)
        ensures
            errors::refused_as(r, old(self).with_recipe(line as nat).0),
            *final(self) == old(self).with_recipe(line as nat).1,
    {
        match check_count_limit(self.counts.recipes, self.limits.recipes, line, "recipe") {
            Ok(()) => {},
            Err(error) => {
                return Err(error);
            },
        }
        self.counts.recipes = self.counts.recipes + 1;
        if self.counts.statements == usize::MAX {
            return Err(ParseError::told(line, "rc statement count overflows"));
        }
        self.counts.statements = self.counts.statements + 1;
        Ok(())
    }

    /// Counts an assignment.
    pub fn charge_assignment(&mut self, line: usize, usage: AssignmentUse) -> (r: Result<
        (),
        ParseError,
    >)
        ensures
            errors::refused_as(r, old(self).with_assignment(line as nat, usage).0),
            *final(self) == old(self).with_assignment(line as nat, usage).1,
    {
        match check_count_limit(
            self.counts.assignments,
            self.limits.assignments,
            line,
            "assignment",
        ) {
            Ok(()) => {},
            Err(error) => {
                return Err(error);
            },
        }
        self.counts.assignments = self.counts.assignments + 1;
        if usage == AssignmentUse::Statement {
            if self.counts.statements == usize::MAX {
                return Err(ParseError::told(line, "rc statement count overflows"));
            }
            self.counts.statements = self.counts.statements + 1;
        }
        Ok(())
    }

    /// Refuses one more condition of a recipe that has `recipe_count`.
    pub fn check_condition(&self, recipe_count: usize, line: usize) -> (r: Result<(), ParseError>)
        ensures
            errors::refused_as(r, self.no_condition(recipe_count as nat, line as nat)),
    {
        if recipe_count >= self.limits.conditions_per_recipe {
            return Err(
                ParseError::limit(
                    line,
                    counted(
                        "recipe condition count exceeds the active limit of ",
                        self.limits.conditions_per_recipe,
                    ),
                ),
            );
        }
        match self.counts.conditions.checked_add(recipe_count) {
            Some(total) => check_count_limit(total, self.limits.conditions, line, "condition"),
            None => Err(ParseError::told(line, "rc condition count overflows")),
        }
    }

    /// Refuses one more regular expression in a recipe that has
    /// `recipe_count`.
    pub fn check_regex(&self, recipe_count: usize, line: usize) -> (r: Result<(), ParseError>)
        ensures
            errors::refused_as(r, self.no_regex(recipe_count as nat, line as nat)),
    {
        match self.counts.regexes.checked_add(recipe_count) {
            Some(total) => check_count_limit(total, self.limits.regexes, line, "regex"),
            None => Err(ParseError::told(line, "rc regex count overflows")),
        }
    }

    /// Counts the conditions and regular expressions of a recipe.
    pub fn record_recipe_contents(&mut self, conditions: usize, regexes: usize, line: usize) -> (r:
        Result<(), ParseError>)
        ensures
            errors::refused_as(
                r,
                old(self).with_contents(conditions as nat, regexes as nat, line as nat).0,
            ),
            *final(self) == old(self).with_contents(
                conditions as nat,
                regexes as nat,
                line as nat,
            ).1,
    {
        match self.counts.conditions.checked_add(conditions) {
            Some(total) => {
                self.counts.conditions = total;
            },
            None => {
                return Err(ParseError::told(line, "rc condition count overflows"));
            },
        }
        match self.counts.regexes.checked_add(regexes) {
            Some(total) => {
                self.counts.regexes = total;
            },
            None => {
                return Err(ParseError::told(line, "rc regex count overflows"));
            },
        }
        Ok(())
    }

    /// The depth of a block inside one of depth `depth`.
    pub fn check_nesting(&self, depth: usize, line: usize) -> (r: Result<usize, ParseError>)
        ensures
            match self.nested(depth as nat, line as nat) {
                Ok(next) => r matches Ok(found) && found == next,
                Err(error) => r matches Err(found) && found@ == error,
            },
    {
        match depth.checked_add(1) {
            None => Err(ParseError::told(line, "recipe nesting depth overflows")),
            Some(next) => {
                if next > self.limits.nesting_depth {
                    let start = numbered(
                        "recipe nesting depth ",
                        next,
                        " exceeds the active limit of ",
                    );
                    return Err(
                        ParseError::limit(line, counted(start.as_str(), self.limits.nesting_depth)),
                    );
                }
                Ok(next)
            },
        }
    }

    /// Lets an assignment that sets a limit take effect.
    pub fn apply_assignment(&mut self, assignment: &Assignment) -> (r: Result<(), ParseError>)
        ensures
            errors::refused_as(r, old(self).assigned(assignment@).0),
            *final(self) == old(self).assigned(assignment@).1,
    {
        match assignment.target {
            AssignmentTarget::RcLimit(kind) => {
                let value = to_chars(assignment.value.as_str());
                match parse_usize(value.as_slice()) {
                    None => Err(
                        ParseError::new(
                            assignment.line,
                            text2(
                                assignment.name.as_str(),
                                " must be an unsigned decimal integer",
                            ),
                        ),
                    ),
                    Some(limit) => match self.limits.set(kind, limit) {
                        Ok(()) => Ok(()),
                        Err(most) => {
                            let start = text2(
                                assignment.name.as_str(),
                                " exceeds the hard limit of ",
                            );
                            Err(ParseError::limit(assignment.line, counted(start.as_str(), most)))
                        },
                    },
                }
            },
            AssignmentTarget::LineBuf => {
                let value = to_chars(assignment.value.as_str());
                match parse_usize(value.as_slice()) {
                    None => Err(
                        ParseError::told(
                            assignment.line,
                            "LINEBUF must be an unsigned decimal integer",
                        ),
                    ),
                    Some(linebuf) => {
                        if linebuf < MIN_LINEBUF || linebuf > MAX_LINEBUF {
                            let start = numbered("LINEBUF must be from ", MIN_LINEBUF, " through ");
                            return Err(
                                ParseError::limit(
                                    assignment.line,
                                    numbered(start.as_str(), MAX_LINEBUF, " bytes"),
                                ),
                            );
                        }
                        self.limits.linebuf = linebuf;
                        Ok(())
                    },
                }
            },
            _ => Ok(()),
        }
    }
}

/// However an rc file sets its limits, none of them goes above its hard limit,
/// and lines stay between their bounds.
pub proof fn assigned_limits_stay_in_bounds(budget: ParseBudget, assignment: AssignmentModel)
    requires
        forall|kind: RcLimitVariable| #[trigger] budget.limits.value(kind) <= hard_limit(kind),
        MIN_LINEBUF <= budget.limits.linebuf <= MAX_LINEBUF,
    ensures
        ({
            let after = budget.assigned(assignment).1;
            &&& forall|kind: RcLimitVariable| #[trigger]
                after.limits.value(kind) <= hard_limit(kind)
            &&& MIN_LINEBUF <= after.limits.linebuf <= MAX_LINEBUF
            &&& after.counts == budget.counts
        }),
{
    let after = budget.assigned(assignment).1;
    assert forall|kind: RcLimitVariable| #[trigger]
        after.limits.value(kind) <= hard_limit(kind) by {
        assert(budget.limits.value(kind) <= hard_limit(kind));
    }
}

} // verus!
