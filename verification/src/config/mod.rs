//! Configuration.

use vstd::prelude::*;

pub mod action_laws;
pub mod action_parser;
pub mod analysis;
pub mod arguments;
pub mod assignments;
pub mod binding;
pub mod binding_laws;
pub mod budget_laws;
pub mod conditions;
pub mod count_laws;
pub mod errors;
pub mod evaluation_laws;
pub mod expansion;
pub mod expression;
pub mod expression_parser;
pub mod header_actions;
pub mod limits;
pub mod operation_laws;
pub mod parser;
pub mod parser_laws;
pub mod path_laws;
pub mod paths;
pub mod pattern_laws;
pub mod preparation;
pub mod preparation_laws;
pub mod recipe;
pub mod recipe_header;
pub mod regex_condition;
pub mod regex_laws;
pub mod resolution;
pub mod settings;
pub mod shell_conditions;
pub mod shell_eval;
pub mod shell_pattern;
pub mod statement_laws;
pub mod syntax_cursor;
pub mod syntax_laws;
pub mod tables;
pub mod variable_laws;
pub mod variables;

pub use arguments::{PositionalArgumentError, PositionalArguments};
pub use errors::{ExpansionError, ParseError};
pub use expansion::umask_from_config;
pub use expression::CaseDirection;
pub use limits::{ParseBudget, RcLimits, RcParseCounts};
pub use parser::{parse, parse_with_state};
pub use recipe::{
    ActionInput, ActionMode, Assignment, CaptureAction, CaseMode, ChildStatusMode,
    CommandAssignment, Condition, ConditionInput, ConditionKind, Config, ContinuationMode,
    ControlFlow, Destination, DestinationKind, HeaderAction, HeaderExtractionMode, HeaderOperation,
    HeaderValue, OutputEnding, PathExpression, PipeAction, RcFileExpression, Recipe, RecipeAction,
    RecipeOptions, RegexCondition, ShellExpandedCondition, Statement, WriteErrorMode,
};
pub use regex_condition::build_regex;
pub use variables::{
    parse_lock_timeout_seconds, parse_process_timeout_seconds, parse_umask,
    unsupported_procmail_variables, validate_lock_ext, validate_lock_method,
    validate_log_abstract, validate_trap_command, variable_policy, AssignmentTarget,
    MessageLimitVariable, RcLimitVariable, SuppliedVariable, SuppliedVariableError, VariablePolicy,
    VariableSource, DEFAULT_LOCK_EXT, DEFAULT_UMASK,
};

verus! {

pub const MAX_ASSIGNMENT_NAME_LEN: usize = 128;

pub const MAX_ASSIGNMENT_VALUE_LEN: usize = 64 * 1024;

pub const MAX_SHELL_SETTING_LEN: usize = 4096;

pub const MAX_CONDITIONS_PER_RECIPE: usize = 256;

pub const MAX_EXPANSION_DEPTH: usize = 32;

pub const MAX_PATH_EXPRESSION_LEN: usize = 4096;

pub const MAX_PIPE_COMMAND_LEN: usize = 64 * 1024;

pub const MAX_HEADER_OPERATIONS_PER_ACTION: usize = 256;

pub const MAX_RECIPE_NESTING_DEPTH: usize = 64;

pub const MAX_REGEX_COMPILED_SIZE: usize = 8 * 1024 * 1024;

pub const MAX_REGEX_PATTERN_LEN: usize = 64 * 1024;

pub const MAX_REGEX_CAPTURES: usize = 64;

pub const MAX_REGEX_AST_NESTING: u32 = 256;

pub const MAX_MATCH_BYTES: usize = MAX_ASSIGNMENT_VALUE_LEN;

pub const MAX_RC_REGEXES: usize = 256;

pub const MAX_RC_SIZE: usize = 1024 * 1024;

pub const DEFAULT_LINEBUF: usize = 2048;

pub const MIN_LINEBUF: usize = 128;

pub const MAX_LINEBUF: usize = MAX_RC_SIZE;

pub const MAX_RC_CONDITIONS: usize = 4096;

pub const MAX_RC_RECIPES: usize = 1024;

pub const MAX_RC_STATEMENTS: usize = 4096;

pub const MAX_RC_ASSIGNMENTS: usize = 4096;

pub const HARD_MAX_CONDITIONS_PER_RECIPE: usize = 4096;

pub const HARD_MAX_RECIPE_NESTING_DEPTH: usize = 256;

pub const HARD_MAX_RC_ASSIGNMENTS: usize = 65_536;

pub const HARD_MAX_RC_CONDITIONS: usize = 65_536;

pub const HARD_MAX_RC_RECIPES: usize = 16_384;

pub const HARD_MAX_RC_REGEXES: usize = 1024;

pub const HARD_MAX_RC_STATEMENTS: usize = 65_536;

} // verus!
