//! What may be read of a configuration, and what its positional parameters are.

use vstd::prelude::*;

use crate::config::errors::Refusal;
use crate::config::expansion::{self, Start};
use crate::config::limits::{self, AssignmentUse, ParseBudget, RcParseCounts};
use crate::config::recipe::AssignmentModel;
use crate::config::tables::ValueText;
use crate::config::variables::{AssignmentTarget, RcLimitVariable};
use crate::text;

verus! {

/// One more is admitted while there are fewer than the limit, and a line while
/// it has no more bytes than its limit.
pub proof fn limits_are_reached_but_not_passed(
    count: nat,
    limit: usize,
    line: nat,
    name: Seq<char>,
    content: Seq<char>,
)
    ensures
        limits::over_count(count, limit, line, name) is None <==> count < limit,
        limits::over_linebuf(content, line, limit) is None <==> text::byte_len(content) <= limit,
{
}

/// The budget of a configuration. What is read is counted with what was read
/// before; a recipe has a limit of its own for its conditions.
pub proof fn budgets_admit_what_is_within_them(budget: ParseBudget, count: nat, line: nat)
    requires
        budget.counts.conditions + count <= usize::MAX,
        budget.counts.regexes + count <= usize::MAX,
        count < usize::MAX,
    ensures
        budget.no_statement(line) is None <==> budget.counts.statements < budget.limits.statements,
        budget.no_condition(count, line) is None <==> count < budget.limits.conditions_per_recipe
            && budget.counts.conditions + count < budget.limits.conditions,
        budget.no_regex(count, line) is None <==> budget.counts.regexes + count
            < budget.limits.regexes,
        budget.nested(count, line) is Ok <==> count < budget.limits.nesting_depth,
        budget.nested(count, line) is Ok ==> budget.nested(count, line)->Ok_0 == count + 1,
{
}

/// What a statement takes from a budget. A recipe is one recipe and one
/// statement. An assignment is one assignment and one statement, but that a
/// capture is part of its recipe. What a recipe holds is added at once.
pub proof fn budgets_count_what_is_read(
    budget: ParseBudget,
    conditions: nat,
    regexes: nat,
    line: nat,
)
    requires
        budget.counts.statements < usize::MAX,
        budget.counts.conditions + conditions <= usize::MAX,
        budget.counts.regexes + regexes <= usize::MAX,
    ensures
        ({
            let counts = budget.counts;
            let (refused, after) = budget.with_recipe(line);
            &&& refused is None <==> counts.recipes < budget.limits.recipes
            &&& refused is None ==> after.limits == budget.limits && after.counts.recipes
                == counts.recipes + 1 && after.counts.statements == counts.statements + 1
                && after.counts.assignments == counts.assignments && after.counts.conditions
                == counts.conditions && after.counts.regexes == counts.regexes
        }),
        ({
            let counts = budget.counts;
            let (refused, after) = budget.with_assignment(line, AssignmentUse::Statement);
            &&& refused is None <==> counts.assignments < budget.limits.assignments
            &&& refused is None ==> after.limits == budget.limits && after.counts.assignments
                == counts.assignments + 1 && after.counts.statements == counts.statements + 1
                && after.counts.recipes == counts.recipes && after.counts.conditions
                == counts.conditions && after.counts.regexes == counts.regexes
        }),
        ({
            let counts = budget.counts;
            let (refused, after) = budget.with_assignment(line, AssignmentUse::CaptureAction);
            &&& refused is None <==> counts.assignments < budget.limits.assignments
            &&& refused is None ==> after.limits == budget.limits && after.counts.assignments
                == counts.assignments + 1 && after.counts.statements == counts.statements
                && after.counts.recipes == counts.recipes && after.counts.conditions
                == counts.conditions && after.counts.regexes == counts.regexes
        }),
        ({
            let counts = budget.counts;
            let (refused, after) = budget.with_contents(conditions, regexes, line);
            &&& refused is None
            &&& after.limits == budget.limits
            &&& after.counts.conditions == counts.conditions + conditions
            &&& after.counts.regexes == counts.regexes + regexes
            &&& after.counts.recipes == counts.recipes
            &&& after.counts.statements == counts.statements
            &&& after.counts.assignments == counts.assignments
        }),
{
}

/// A configuration sets its limits by numbers: those of what it holds to no
/// more than the hard limit, and that of its lines from 128 to 1048576 bytes.
/// Each setting changes its own limit and nothing else.
pub proof fn limits_are_set_by_numbers(
    budget: ParseBudget,
    assignment: AssignmentModel,
    n: nat,
    kind: RcLimitVariable,
    other: RcLimitVariable,
)
    requires
        assignment.value == text::decimal(n),
    ensures
        ({
            let (refused, after) = budget.assigned(assignment);
            &&& assignment.target == AssignmentTarget::RcLimit(kind) ==> {
                &&& refused is None <==> n <= limits::hard_limit(kind)
                &&& refused is None ==> after.limits.value(kind) == n && after.limits.linebuf
                    == budget.limits.linebuf && (other != kind ==> after.limits.value(other)
                    == budget.limits.value(other))
            }
            &&& assignment.target == AssignmentTarget::LineBuf ==> {
                &&& refused is None <==> 128 <= n <= 1048576
                &&& refused is None ==> after.limits.linebuf == n && after.limits.value(other)
                    == budget.limits.value(other)
            }
            &&& !(assignment.target is RcLimit) && !(assignment.target is LineBuf) ==> refused
                is None && after == budget
            &&& after.counts == budget.counts
        }),
{
    text::numbers_are_read_from_their_digits(n, usize::MAX as nat);
}

/// What was read since an earlier count is the difference of the two.
pub proof fn counts_are_taken_from_one_another(earlier: RcParseCounts, more: RcParseCounts)
    requires
        earlier.assignments + more.assignments <= usize::MAX,
        earlier.statements + more.statements <= usize::MAX,
        earlier.recipes + more.recipes <= usize::MAX,
        earlier.conditions + more.conditions <= usize::MAX,
        earlier.regexes + more.regexes <= usize::MAX,
    ensures
        limits::counted_since(
            RcParseCounts {
                assignments: (earlier.assignments + more.assignments) as usize,
                statements: (earlier.statements + more.statements) as usize,
                recipes: (earlier.recipes + more.recipes) as usize,
                conditions: (earlier.conditions + more.conditions) as usize,
                regexes: (earlier.regexes + more.regexes) as usize,
            },
            earlier,
        ) == Ok::<RcParseCounts, Refusal>(more),
{
}

proof fn lemma_decimals_differ(a: nat, b: nat)
    requires
        a != b,
    ensures
        text::decimal(a) != text::decimal(b),
{
    text::decimals_are_read_back(a);
    text::decimals_are_read_back(b);
}

proof fn lemma_not_the_count(n: nat)
    ensures
        text::decimal(n) != "#"@,
{
    reveal_strlit("#");
    text::lemma_decimal_digits(n);
    text::decimals_spell_their_number(n);
    assert(text::ascii_digit(text::decimal(n)[0]));
    assert("#"@[0] == '#');
}

proof fn lemma_shifted_numbers(
    known: Map<Seq<char>, ValueText>,
    count: nat,
    amount: nat,
    n: nat,
    k: nat,
)
    ensures
        1 <= k <= n ==> expansion::shifted_numbers(known, count, amount, n).contains_key(
            text::decimal(k),
        ) && expansion::shifted_numbers(known, count, amount, n)[text::decimal(k)]
            == expansion::shifted_value(known, count, amount, k),
    decreases n,
{
    if n > 0 {
        lemma_shifted_numbers(known, count, amount, (n - 1) as nat, k);
        if k != n {
            lemma_decimals_differ(k, n);
        }
    }
}

/// A shift takes the first arguments away: each one left moves to the front, by
/// as many places as there were taken, and behind the last one there is none.
/// No more are taken than there are.
pub proof fn arguments_are_shifted(
    known: Map<Seq<char>, ValueText>,
    count: nat,
    requested: nat,
    n: nat,
)
    requires
        known.contains_key("#"@),
        known["#"@].text == text::decimal(count),
        count <= usize::MAX,
        1 <= n <= 256,
    ensures
        ({
            let after = expansion::shifted(known, requested);
            let amount = if requested < count {
                requested
            } else {
                count
            };
            &&& after["#"@].text == text::decimal((count - amount) as nat)
            &&& n + amount <= count && known.contains_key(text::decimal(n + amount))
                ==> after[text::decimal(n)] == known[text::decimal(n + amount)]
            &&& n + amount > count ==> after[text::decimal(n)].text == Seq::<char>::empty()
            &&& after.contains_key(text::decimal(n))
        }),
{
    text::numbers_are_read_from_their_digits(count, usize::MAX as nat);
    let amount = if requested < count {
        requested
    } else {
        count
    };
    lemma_shifted_numbers(known, count, amount, 256, n);
    lemma_not_the_count(n);
}

proof fn lemma_numbered(start: Start, arguments: Seq<Seq<char>>, n: nat, k: nat)
    ensures
        1 <= k <= n ==> expansion::numbered_start(start, arguments, n).known.contains_key(
            text::decimal(k),
        ) && expansion::numbered_start(start, arguments, n).known[text::decimal(k)].text
            == expansion::argument(arguments, k),
    decreases n,
{
    if n > 0 {
        lemma_numbered(start, arguments, (n - 1) as nat, k);
        if k != n {
            lemma_decimals_differ(k, n);
        }
    }
}

/// Arguments are known by their numbers, and by `#` how many there are. One
/// that was not given is empty.
pub proof fn arguments_are_known_by_number(start: Start, arguments: Seq<Seq<char>>, n: nat)
    requires
        1 <= n <= 256,
    ensures
        ({
            let known = expansion::arguments_start(start, arguments).known;
            &&& known.contains_key("#"@)
            &&& known["#"@].text == text::decimal(arguments.len())
            &&& known.contains_key(text::decimal(n))
            &&& n <= arguments.len() ==> known[text::decimal(n)].text == arguments[n - 1]
            &&& n > arguments.len() ==> known[text::decimal(n)].text == Seq::<char>::empty()
        }),
{
    lemma_numbered(start, arguments, 256, n);
    lemma_not_the_count(n);
}

/// Of several values for a name the last one is known, and the mail directory
/// is that of the last `MAILDIR`.
pub proof fn the_last_value_given_is_known(
    values: Seq<(Seq<char>, Seq<char>)>,
    name: Seq<char>,
    value: Seq<char>,
    other: Seq<char>,
)
    ensures
        ({
            let more = values.push((name, value));
            let before = expansion::given_values(values, values.len());
            let after = expansion::given_values(more, more.len());
            &&& after.contains_key(name) && after[name].text == value
            &&& other != name ==> (after.contains_key(other) <==> before.contains_key(other))
            &&& other != name && before.contains_key(other) ==> after[other] == before[other]
            &&& expansion::given_maildir(more, more.len()) == if name == "MAILDIR"@ {
                Some(value)
            } else {
                expansion::given_maildir(values, values.len())
            }
        }),
        expansion::given_maildir(Seq::empty(), 0) is None,
        !expansion::given_values(Seq::empty(), 0).contains_key(name),
{
    let more = values.push((name, value));
    lemma_given(values, more, values.len());
    assert(more.last() == (name, value));
}

proof fn lemma_given(
    values: Seq<(Seq<char>, Seq<char>)>,
    more: Seq<(Seq<char>, Seq<char>)>,
    n: nat,
)
    requires
        n <= values.len() <= more.len(),
        forall|i: int| 0 <= i < values.len() ==> values[i] == more[i],
    ensures
        expansion::given_values(values, n) == expansion::given_values(more, n),
        expansion::given_maildir(values, n) == expansion::given_maildir(more, n),
    decreases n,
{
    if n > 0 {
        lemma_given(values, more, (n - 1) as nat);
    }
}

/// A default is known where nothing else is, and changes no other value.
pub proof fn defaults_give_way(
    known: Map<Seq<char>, ValueText>,
    name: Seq<char>,
    value: Seq<char>,
    other: Seq<char>,
)
    ensures
        ({
            let after = expansion::with_default(known, name, value);
            &&& known.contains_key(name) ==> after == known
            &&& !known.contains_key(name) ==> after.contains_key(name) && after[name].text == value
            &&& known.contains_key(other) ==> after.contains_key(other) && after[other]
                == known[other]
        }),
{
}

} // verus!
