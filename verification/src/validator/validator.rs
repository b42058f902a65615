use vstd::prelude::*;

use super::data_loader::{
    load_data, lookup, opt_text, rows_view, spec_load_data, DataSet, DataView, Row, RowMap,
};
use super::numbers::{
    holds, pair_fact, relation_holds, shown_number, spec_compare_numbers, NumberFacts,
    NumberFactsView,
};
use super::report::{
    violations_view, ReportView, ValidationReport, ValidatorError, ValidatorErrorKind,
    ValidatorErrorView, Violation, ViolationView,
};
use crate::lexer::tokenizer::time_at;
use crate::ast::decimal::{all_digits, digits_of, digits_value, float_text, is_float_text};
use crate::ast::{
    opt_view, Comparator, Condition, ConditionView, Constraint, ConstraintView, ContextKind,
    Decimal, Operand, OperandView, Rule, RuleSet, RuleView, Severity, Statement, StatementView,
};
use crate::text::{
    chars_of, find_char, char_index, is_ascii_digit, lemma_char_index, push_char, push_str,
    spec_is_ascii_digit, str_eq, string_of_range,
};

verus! {

// ------------------------------------------------------------------------
// Comparing values.
// ------------------------------------------------------------------------
/// Two field values compare as numbers when both are numbers; otherwise
/// only `==` and `!=` hold or fail, on the text.
pub open spec fn spec_compare_fields(facts: NumberFactsView, l: Seq<char>, r: Seq<char>, comparator: Comparator) -> bool {
    match pair_fact(facts.pairs, l, r) {
        Some(Some(rel)) => relation_holds(rel, comparator),
        _ => match comparator {
            Comparator::Eq => l == r,
            Comparator::Neq => l != r,
            _ => false,
        },
    }
}

/// Whether column `field` of `row` stands in relation `comparator` to the
/// operand (a number, or another column of the same row); false when a
/// column is missing or a value that must be a number is not one.
pub open spec fn spec_compare_field(facts: NumberFactsView, 
    row: RowMap,
    field: Seq<char>,
    comparator: Comparator,
    value: OperandView,
) -> bool {
    match lookup(row, field) {
        None => false,
        Some(lhs) => match value {
            OperandView::Number(rhs) => spec_compare_numbers(facts, lhs, comparator, rhs),
            OperandView::Field(f) => match lookup(row, f) {
                Some(rhs) => spec_compare_fields(facts, lhs, rhs, comparator),
                None => false,
            },
        },
    }
}

// ------------------------------------------------------------------------
// Times of day.
// ------------------------------------------------------------------------
/// The `i32` written by `s`: an optional sign, then decimal digits, the
/// value in range; `None` otherwise.
pub open spec fn spec_parse_i32(s: Seq<char>) -> Option<i32> {
    let signed = s.len() > 0 && (s[0] == '+' || s[0] == '-');
    let body = if signed {
        s.drop_first()
    } else {
        s
    };
    let v = digits_value(digits_of(body));
    let value = if s.len() > 0 && s[0] == '-' {
        -v
    } else {
        v
    };
    if body.len() > 0 && all_digits(body) && i32::MIN <= value <= i32::MAX {
        Some(value as i32)
    } else {
        None
    }
}

/// `hours:minutes` as minutes (`hours * 60 + minutes`, wrapping around on
/// `i32` overflow), split at the first `:`.
pub open spec fn spec_parse_time_minutes(s: Seq<char>) -> Option<i32> {
    let k = char_index(s, ':');
    if k >= s.len() {
        None
    } else {
        match (spec_parse_i32(s.take(k)), spec_parse_i32(s.skip(k + 1))) {
            (Some(h), Some(m)) => Some(h.wrapping_mul(60).wrapping_add(m)),
            _ => None,
        }
    }
}

/// Whether `value` lies in the interval from `from` to `to`, which wraps
/// past midnight when `from > to`.
pub open spec fn spec_is_in_range(value: int, from: int, to: int) -> bool {
    if from <= to {
        from <= value && value <= to
    } else {
        value >= from || value <= to
    }
}

// ------------------------------------------------------------------------
// Entities.
// ------------------------------------------------------------------------
/// The model of an entity a rule is evaluated on.
pub struct EntityView {
    pub id: Seq<char>,
    pub name: Seq<char>,
    pub row: RowMap,
    pub flights: Seq<RowMap>,
}

pub open spec fn field_or_empty(row: RowMap, key: Seq<char>) -> Seq<char> {
    match lookup(row, key) {
        Some(v) => v,
        None => Seq::empty(),
    }
}

/// The flights whose `piloto_id` is `id` (both absent counts as equal), in
/// order.
pub open spec fn flights_of_pilot(vuelos: Seq<RowMap>, id: Option<Seq<char>>) -> Seq<RowMap>
    decreases vuelos.len(),
{
    if vuelos.len() == 0 {
        Seq::empty()
    } else {
        let rest = flights_of_pilot(vuelos.drop_last(), id);
        if lookup(vuelos.last(), "piloto_id"@) == id {
            rest.push(vuelos.last())
        } else {
            rest
        }
    }
}

pub open spec fn pilot_entity(data: DataView, row: RowMap) -> EntityView {
    EntityView {
        id: field_or_empty(row, "id"@),
        name: field_or_empty(row, "nombre"@),
        row,
        flights: flights_of_pilot(data.vuelos, lookup(row, "id"@)),
    }
}

pub open spec fn aircraft_entity(row: RowMap) -> EntityView {
    EntityView {
        id: field_or_empty(row, "id"@),
        name: field_or_empty(row, "matricula"@),
        row,
        flights: Seq::empty(),
    }
}

pub open spec fn flight_entity(row: RowMap) -> EntityView {
    EntityView {
        id: field_or_empty(row, "id"@),
        name: field_or_empty(row, "id"@),
        row,
        flights: seq![row],
    }
}

pub open spec fn crew_entity(row: RowMap) -> EntityView {
    EntityView {
        id: field_or_empty(row, "id"@),
        name: field_or_empty(row, "nombre"@),
        row,
        flights: Seq::empty(),
    }
}

/// The entities of a context: pilots (with their flights), aircraft,
/// flights (each its own only flight; also for airports), or crew (the
/// pilots, without flights).
pub open spec fn spec_entities(data: DataView, context: ContextKind) -> Seq<EntityView> {
    match context {
        ContextKind::Piloto => data.pilotos.map_values(|r: RowMap| pilot_entity(data, r)),
        ContextKind::Aeronave => data.aeronaves.map_values(|r: RowMap| aircraft_entity(r)),
        ContextKind::Vuelo | ContextKind::Aeropuerto => data.vuelos.map_values(
            |r: RowMap| flight_entity(r),
        ),
        ContextKind::Tripulacion => data.pilotos.map_values(|r: RowMap| crew_entity(r)),
    }
}

// ------------------------------------------------------------------------
// Evaluation.
// ------------------------------------------------------------------------
/// A field of the entity's flights: `vuelo.<column>`.
pub open spec fn is_flight_field(f: Seq<char>) -> bool {
    f.len() >= 6 && f.take(6) == "vuelo."@
}

/// A condition on a flight field holds when it holds for some flight of the
/// entity; any other condition is read on the entity's own row.
pub open spec fn spec_eval_condition(facts: NumberFactsView, c: ConditionView, e: EntityView) -> bool {
    if is_flight_field(c.field) {
        exists|i: int|
            0 <= i < e.flights.len() && #[trigger] spec_compare_field(facts, 
                e.flights[i],
                c.field.skip(6),
                c.comparator,
                c.value,
            )
    } else {
        spec_compare_field(facts, e.row, c.field, c.comparator, c.value)
    }
}

/// A comparison is read on the entity's row; a time range holds when the
/// field and both bounds are times and the field lies outside the range.
pub open spec fn spec_eval_constraint(facts: NumberFactsView, c: ConstraintView, e: EntityView) -> bool {
    match c {
        ConstraintView::Comparison { field, comparator, value } => spec_compare_field(facts, 
            e.row,
            field,
            comparator,
            value,
        ),
        ConstraintView::OutsideRange { field, from, to } => {
            let v = match lookup(e.row, field) {
                Some(t) => spec_parse_time_minutes(t),
                None => None,
            };
            match (v, spec_parse_time_minutes(from), spec_parse_time_minutes(to)) {
                (Some(v), Some(f), Some(t)) => !spec_is_in_range(v as int, f as int, t as int),
                _ => false,
            }
        },
    }
}

/// Whether the entity satisfies the rule: a conditional rule holds when its
/// condition does not or its constraint does.
pub open spec fn spec_evaluate_rule(facts: NumberFactsView, rule: RuleView, e: EntityView) -> bool {
    match rule.statement {
        StatementView::Conditional { condition, constraint } => !spec_eval_condition(facts, 
            condition,
            e,
        ) || spec_eval_constraint(facts, constraint, e),
        StatementView::Always { constraint } => spec_eval_constraint(facts, constraint, e),
    }
}

// ------------------------------------------------------------------------
// Messages.
// ------------------------------------------------------------------------
/// A character as `{:?}` shows it inside a string.
pub open spec fn escape_char(c: char) -> Seq<char> {
    if c == '"' {
        seq!['\\', '"']
    } else if c == '\\' {
        seq!['\\', '\\']
    } else if c == '\n' {
        seq!['\\', 'n']
    } else if c == '\r' {
        seq!['\\', 'r']
    } else if c == '\t' {
        seq!['\\', 't']
    } else if c == '\0' {
        seq!['\\', '0']
    } else {
        seq![c]
    }
}

pub open spec fn escape_text(s: Seq<char>) -> Seq<char>
    decreases s.len(),
{
    if s.len() == 0 {
        Seq::empty()
    } else {
        escape_text(s.drop_last()) + escape_char(s.last())
    }
}

/// A string as `{:?}` shows it: quoted and escaped.
pub open spec fn debug_str(s: Seq<char>) -> Seq<char> {
    seq!['"'] + escape_text(s) + seq!['"']
}

pub open spec fn comparator_debug(c: Comparator) -> Seq<char> {
    match c {
        Comparator::Gte => "Gte"@,
        Comparator::Lte => "Lte"@,
        Comparator::Gt => "Gt"@,
        Comparator::Lt => "Lt"@,
        Comparator::Eq => "Eq"@,
        Comparator::Neq => "Neq"@,
    }
}

pub open spec fn operand_debug(facts: NumberFactsView, o: OperandView) -> Seq<char> {
    match o {
        OperandView::Number(n) => "Number("@ + shown_number(facts.shown, n) + ")"@,
        OperandView::Field(f) => "Field("@ + debug_str(f) + ")"@,
    }
}

/// A constraint as `{:?}` shows it.
pub open spec fn constraint_debug(facts: NumberFactsView, c: ConstraintView) -> Seq<char> {
    match c {
        ConstraintView::Comparison { field, comparator, value } => "Comparison { field: "@
            + debug_str(field) + ", comparator: "@ + comparator_debug(comparator) + ", value: "@
            + operand_debug(facts, value) + " }"@,
        ConstraintView::OutsideRange { field, from, to } => "OutsideRange { field: "@ + debug_str(
            field,
        ) + ", from: "@ + debug_str(from) + ", to: "@ + debug_str(to) + " }"@,
    }
}

/// The value of column `key` in the first flight that has it, or empty.
pub open spec fn first_flight_value(flights: Seq<RowMap>, key: Seq<char>) -> Seq<char>
    decreases flights.len(),
{
    if flights.len() == 0 {
        Seq::empty()
    } else if flights[0].contains_key(key) {
        flights[0][key]
    } else {
        first_flight_value(flights.drop_first(), key)
    }
}

/// The field a constraint reads.
pub open spec fn constraint_field(c: ConstraintView) -> Seq<char> {
    match c {
        ConstraintView::Comparison { field, .. } => field,
        ConstraintView::OutsideRange { field, .. } => field,
    }
}

/// The message of a violation: a field, `=`, the value it has for the
/// entity and ` → ` before the constraint. The field is the condition's for
/// a conditional rule and the constraint's for an unconditional one.
pub open spec fn spec_build_message(facts: NumberFactsView, rule: RuleView, e: EntityView) -> Seq<char> {
    match rule.statement {
        StatementView::Conditional { condition, constraint } => {
            let field_value = if is_flight_field(condition.field) {
                first_flight_value(e.flights, condition.field.skip(6))
            } else {
                field_or_empty(e.row, condition.field)
            };
            condition.field + "="@ + field_value + " \u{2192} "@ + constraint_debug(facts, constraint)
        },
        StatementView::Always { constraint } => {
            let field = constraint_field(constraint);
            field + "="@ + field_or_empty(e.row, field) + " \u{2192} "@ + constraint_debug(facts, 
                constraint,
            )
        },
    }
}

// ------------------------------------------------------------------------
// Reports.
// ------------------------------------------------------------------------
pub open spec fn violation_of(facts: NumberFactsView, rule: RuleView, e: EntityView) -> ViolationView {
    ViolationView {
        rule_name: rule.name,
        entity_id: e.id,
        entity_name: e.name,
        message: spec_build_message(facts, rule, e),
        severity: rule.metadata.severity,
        norm: rule.metadata.norm,
    }
}

/// The violations of `rule` among `es`, in order.
pub open spec fn rule_violations(facts: NumberFactsView, rule: RuleView, es: Seq<EntityView>) -> Seq<ViolationView>
    decreases es.len(),
{
    if es.len() == 0 {
        Seq::empty()
    } else {
        rule_violations(facts, rule, es.drop_last()) + if spec_evaluate_rule(facts, rule, es.last()) {
            Seq::<ViolationView>::empty()
        } else {
            seq![violation_of(facts, rule, es.last())]
        }
    }
}

/// The rule passes the filters: its name is `only` and its severity is
/// `severity`, where these are given.
pub open spec fn rule_selected(
    rule: RuleView,
    only: Option<Seq<char>>,
    severity: Option<Severity>,
) -> bool {
    &&& (only matches Some(n) ==> n == rule.name)
    &&& (severity matches Some(s) ==> s == rule.metadata.severity)
}

/// The violations of the selected rules, rule by rule in order, and within
/// a rule entity by entity in order.
pub open spec fn spec_violations(facts: NumberFactsView, 
    data: DataView,
    rules: Seq<RuleView>,
    only: Option<Seq<char>>,
    severity: Option<Severity>,
) -> Seq<ViolationView>
    decreases rules.len(),
{
    if rules.len() == 0 {
        Seq::empty()
    } else {
        spec_violations(facts, data, rules.drop_last(), only, severity) + if rule_selected(
            rules.last(),
            only,
            severity,
        ) {
            rule_violations(facts, rules.last(), spec_entities(data, rules.last().context))
        } else {
            Seq::<ViolationView>::empty()
        }
    }
}

/// The report of validating `rules` on `data`.
pub open spec fn spec_validate(facts: NumberFactsView, 
    data: DataView,
    rules: Seq<RuleView>,
    only: Option<Seq<char>>,
    severity: Option<Severity>,
) -> ReportView {
    let vs = spec_violations(facts, data, rules, only, severity);
    ReportView { valid: vs.len() == 0, violations: vs }
}

// ------------------------------------------------------------------------
// Checking that a rule fits the data.
// ------------------------------------------------------------------------
/// A value written as a time of day, `[0-9]{2}:[0-9]{2}`.
pub open spec fn is_time_text(s: Seq<char>) -> bool {
    s.len() == 5 && time_at(s, 0)
}

/// A value written as a number (see `is_float_text`).
pub open spec fn is_number_text(s: Seq<char>) -> bool {
    is_float_text(s)
}

/// What keeps a field from being checked: the kind of problem and the
/// field it concerns.
pub struct ProblemView {
    pub kind: ValidatorErrorKind,
    pub field: Seq<char>,
}

pub open spec fn problem(kind: ValidatorErrorKind, field: Seq<char>) -> Option<ProblemView> {
    Some(ProblemView { kind, field })
}

/// What keeps column `field` of `row` from being compared with `value`: a
/// column that the row lacks, or a time set against a number.
pub open spec fn comparison_problem(row: RowMap, field: Seq<char>, value: OperandView) -> Option<
    ProblemView,
> {
    match lookup(row, field) {
        None => problem(ValidatorErrorKind::MissingField, field),
        Some(lhs) => match value {
            OperandView::Number(_) => if is_time_text(lhs) {
                problem(ValidatorErrorKind::IncompatibleTypes, field)
            } else {
                None
            },
            OperandView::Field(f) => match lookup(row, f) {
                None => problem(ValidatorErrorKind::MissingField, f),
                Some(rhs) => if (is_time_text(lhs) && is_number_text(rhs)) || (is_number_text(lhs)
                    && is_time_text(rhs)) {
                    problem(ValidatorErrorKind::IncompatibleTypes, field)
                } else {
                    None
                },
            },
        },
    }
}

/// The first problem met comparing column `field` of each of `flights`, in
/// order.
pub open spec fn flights_problem(flights: Seq<RowMap>, field: Seq<char>, value: OperandView) -> Option<
    ProblemView,
>
    decreases flights.len(),
{
    if flights.len() == 0 {
        None
    } else {
        match flights_problem(flights.drop_last(), field, value) {
            Some(p) => Some(p),
            None => comparison_problem(flights.last(), field, value),
        }
    }
}

pub open spec fn condition_problem(c: ConditionView, e: EntityView) -> Option<ProblemView> {
    if is_flight_field(c.field) {
        flights_problem(e.flights, c.field.skip(6), c.value)
    } else {
        comparison_problem(e.row, c.field, c.value)
    }
}

/// A time range needs the field, and the field must not hold a number.
pub open spec fn constraint_problem(c: ConstraintView, e: EntityView) -> Option<ProblemView> {
    match c {
        ConstraintView::Comparison { field, comparator: _, value } => comparison_problem(
            e.row,
            field,
            value,
        ),
        ConstraintView::OutsideRange { field, from: _, to: _ } => match lookup(e.row, field) {
            None => problem(ValidatorErrorKind::MissingField, field),
            Some(v) => if is_number_text(v) {
                problem(ValidatorErrorKind::IncompatibleTypes, field)
            } else {
                None
            },
        },
    }
}

/// The first problem with the fields a rule reads on an entity: the
/// condition's, then the constraint's.
pub open spec fn rule_problem(rule: RuleView, e: EntityView) -> Option<ProblemView> {
    match rule.statement {
        StatementView::Conditional { condition, constraint } => match condition_problem(
            condition,
            e,
        ) {
            Some(p) => Some(p),
            None => constraint_problem(constraint, e),
        },
        StatementView::Always { constraint } => constraint_problem(constraint, e),
    }
}

pub open spec fn error_of(rule: RuleView, e: EntityView, p: ProblemView) -> ValidatorErrorView {
    ValidatorErrorView { rule_name: rule.name, entity_id: e.id, field: p.field, kind: p.kind }
}

/// The first entity among `es`, in order, on which `rule` cannot be
/// checked.
pub open spec fn entities_problem(rule: RuleView, es: Seq<EntityView>) -> Option<ValidatorErrorView>
    decreases es.len(),
{
    if es.len() == 0 {
        None
    } else {
        match entities_problem(rule, es.drop_last()) {
            Some(e) => Some(e),
            None => match rule_problem(rule, es.last()) {
                Some(p) => Some(error_of(rule, es.last(), p)),
                None => None,
            },
        }
    }
}

/// The first selected rule, in order, that cannot be checked on `data`,
/// at the first entity where it shows.
pub open spec fn spec_check(
    data: DataView,
    rules: Seq<RuleView>,
    only: Option<Seq<char>>,
    severity: Option<Severity>,
) -> Option<ValidatorErrorView>
    decreases rules.len(),
{
    if rules.len() == 0 {
        None
    } else {
        match spec_check(data, rules.drop_last(), only, severity) {
            Some(e) => Some(e),
            None => if rule_selected(rules.last(), only, severity) {
                entities_problem(rules.last(), spec_entities(data, rules.last().context))
            } else {
                None
            },
        }
    }
}

/// The outcome of validating `rules` on `data`: the report, or the first
/// selected rule that reads a missing column or compares a time with a
/// number.
pub open spec fn spec_validate_checked(facts: NumberFactsView, 
    data: DataView,
    rules: Seq<RuleView>,
    only: Option<Seq<char>>,
    severity: Option<Severity>,
) -> Result<ReportView, ValidatorErrorView> {
    match spec_check(data, rules, only, severity) {
        Some(e) => Err(e),
        None => Ok(spec_validate(facts, data, rules, only, severity)),
    }
}

// ------------------------------------------------------------------------
// The numbers a validation compares.
// ------------------------------------------------------------------------
/// The pair of texts that comparing column `field` of `row` with `value`
/// compares as numbers, when both sides are there.
pub open spec fn comparison_pairs(row: RowMap, field: Seq<char>, value: OperandView) -> Seq<
    (Seq<char>, Seq<char>),
> {
    match lookup(row, field) {
        None => Seq::empty(),
        Some(lhs) => match value {
            OperandView::Number(n) => seq![(lhs, n)],
            OperandView::Field(f) => match lookup(row, f) {
                Some(rhs) => seq![(lhs, rhs)],
                None => Seq::empty(),
            },
        },
    }
}

pub open spec fn flights_pairs(flights: Seq<RowMap>, field: Seq<char>, value: OperandView) -> Seq<
    (Seq<char>, Seq<char>),
>
    decreases flights.len(),
{
    if flights.len() == 0 {
        Seq::empty()
    } else {
        flights_pairs(flights.drop_last(), field, value) + comparison_pairs(
            flights.last(),
            field,
            value,
        )
    }
}

pub open spec fn condition_pairs(c: ConditionView, e: EntityView) -> Seq<(Seq<char>, Seq<char>)> {
    if is_flight_field(c.field) {
        flights_pairs(e.flights, c.field.skip(6), c.value)
    } else {
        comparison_pairs(e.row, c.field, c.value)
    }
}

pub open spec fn constraint_pairs(c: ConstraintView, e: EntityView) -> Seq<(Seq<char>, Seq<char>)> {
    match c {
        ConstraintView::Comparison { field, comparator: _, value } => comparison_pairs(
            e.row,
            field,
            value,
        ),
        ConstraintView::OutsideRange { .. } => Seq::empty(),
    }
}

pub open spec fn rule_pairs(rule: RuleView, e: EntityView) -> Seq<(Seq<char>, Seq<char>)> {
    match rule.statement {
        StatementView::Conditional { condition, constraint } => condition_pairs(condition, e)
            + constraint_pairs(constraint, e),
        StatementView::Always { constraint } => constraint_pairs(constraint, e),
    }
}

pub open spec fn entities_pairs(rule: RuleView, es: Seq<EntityView>) -> Seq<(Seq<char>, Seq<char>)>
    decreases es.len(),
{
    if es.len() == 0 {
        Seq::empty()
    } else {
        entities_pairs(rule, es.drop_last()) + rule_pairs(rule, es.last())
    }
}

/// Every pair of texts that validating the selected rules on `data` may
/// compare as numbers: rule by rule, entity by entity, the condition's
/// before the constraint's.
pub open spec fn spec_number_pairs(
    data: DataView,
    rules: Seq<RuleView>,
    only: Option<Seq<char>>,
    severity: Option<Severity>,
) -> Seq<(Seq<char>, Seq<char>)>
    decreases rules.len(),
{
    if rules.len() == 0 {
        Seq::empty()
    } else {
        spec_number_pairs(data, rules.drop_last(), only, severity) + if rule_selected(
            rules.last(),
            only,
            severity,
        ) {
            entities_pairs(rules.last(), spec_entities(data, rules.last().context))
        } else {
            Seq::empty()
        }
    }
}

pub open spec fn operand_literals(o: OperandView) -> Seq<Seq<char>> {
    match o {
        OperandView::Number(n) => seq![n],
        OperandView::Field(_) => Seq::empty(),
    }
}

pub open spec fn constraint_literals(c: ConstraintView) -> Seq<Seq<char>> {
    match c {
        ConstraintView::Comparison { field: _, comparator: _, value } => operand_literals(value),
        ConstraintView::OutsideRange { .. } => Seq::empty(),
    }
}

pub open spec fn rule_literals(rule: RuleView) -> Seq<Seq<char>> {
    match rule.statement {
        StatementView::Conditional { condition, constraint } => operand_literals(condition.value)
            + constraint_literals(constraint),
        StatementView::Always { constraint } => constraint_literals(constraint),
    }
}

/// The numbers the rules write, rule by rule, the condition's before the
/// constraint's.
pub open spec fn spec_number_literals(rules: Seq<RuleView>) -> Seq<Seq<char>>
    decreases rules.len(),
{
    if rules.len() == 0 {
        Seq::empty()
    } else {
        spec_number_literals(rules.drop_last()) + rule_literals(rules.last())
    }
}

pub open spec fn pairs_view(v: Seq<(String, String)>) -> Seq<(Seq<char>, Seq<char>)> {
    v.map_values(|p: (String, String)| (p.0@, p.1@))
}

// ------------------------------------------------------------------------
// The validator.
// ------------------------------------------------------------------------
/// Checks rule sets against a data set.
pub struct Validator {
    data: DataSet,
}

impl Validator {
    /// The data the validator checks.
    pub closed spec fn data(&self) -> DataView {
        self.data@
    }

    /// The names of the CSV files that were missing when the validator was
    /// made; rules over their tables check nothing.
    pub fn missing_tables(&self) -> (r: &Vec<String>)
        ensures
            r@.map_values(|s: String| s@) == self.data().missing,
    {
        &self.data.missing
    }
}

// ------------------------------------------------------------------------
// Executable functions.
// ------------------------------------------------------------------------
/// Compares two field values (see `spec_compare_fields`).
pub fn compare_fields(facts: &NumberFacts, left: &str, right: &str, comparator: Comparator) -> (r:
    bool)
    ensures
        r == spec_compare_fields(facts@, left@, right@, comparator),
{
    match facts.pair(left, right) {
        Some(Some(rel)) => holds(rel, comparator),
        _ => match comparator {
            Comparator::Eq => str_eq(left, right),
            Comparator::Neq => !str_eq(left, right),
            _ => false,
        },
    }
}

fn compare_field(
    facts: &NumberFacts,
    row: &Row,
    field: &str,
    comparator: Comparator,
    value: &Operand,
) -> (r: bool)
    ensures
        r == spec_compare_field(facts@, row@, field@, comparator, value@),
{
    let lhs = match row.get(field) {
        Some(v) => v,
        None => return false,
    };
    match value {
        Operand::Number(rhs) => match facts.pair(lhs.as_str(), rhs.as_str()) {
            Some(Some(rel)) => holds(rel, comparator),
            _ => false,
        },
        Operand::Field(rhs_field) => match row.get(rhs_field.as_str()) {
            Some(rhs_value) => compare_fields(facts, lhs.as_str(), rhs_value.as_str(), comparator),
            None => false,
        },
    }
}

/// Parses `cs[start..end]` as an `i32` (see `spec_parse_i32`).
#[verifier::loop_isolation(false)]
fn parse_i32_range(cs: &Vec<char>, start: usize, end: usize) -> (r: Option<i32>)
    requires
        start <= end <= cs.len(),
    ensures
        r == spec_parse_i32(cs@.subrange(start as int, end as int)),
{
    let ghost s = cs@.subrange(start as int, end as int);
    let mut i = start;
    let mut negative = false;
    if i < end && (cs[i] == '+' || cs[i] == '-') {
        negative = cs[i] == '-';
        i = i + 1;
    }
    let body_start = i;
    let ghost bstart = i as int;
    let ghost body = cs@.subrange(bstart, end as int);
    assert(body =~= if s.len() > 0 && (s[0] == '+' || s[0] == '-') {
        s.drop_first()
    } else {
        s
    });
    let mut acc: i64 = 0;
    let mut big = false;
    while i < end
        invariant
            0 <= start <= bstart <= i <= end,
            end <= cs.len(),
            body == cs@.subrange(bstart, end as int),
            forall|j: int| bstart <= j < i ==> spec_is_ascii_digit(#[trigger] cs@[j]),
            !big ==> acc == digits_value(digits_of(cs@.subrange(bstart, i as int))) && 0 <= acc
                <= 2147483648,
            big ==> digits_value(digits_of(cs@.subrange(bstart, i as int))) > 2147483648,
        decreases end - i,
    {
        let c = cs[i];
        if !('0' <= c && c <= '9') {
            assert(body[i - bstart] == c);
            assert(!all_digits(body));
            return None;
        }
        let ghost prev = digits_value(digits_of(cs@.subrange(bstart, i as int)));
        let d = ((c as u32) - ('0' as u32)) as i64;
        assert(d as u8 == crate::ast::decimal::digit_of(c));
        assert(digits_of(cs@.subrange(bstart, i + 1)) =~= digits_of(
            cs@.subrange(bstart, i as int),
        ).push(d as u8));
        assert(digits_of(cs@.subrange(bstart, i + 1)).drop_last() =~= digits_of(
            cs@.subrange(bstart, i as int),
        ));
        if !big {
            let next = acc * 10 + d;
            if next > 2147483648 {
                big = true;
            } else {
                acc = next;
            }
        } else {
            assert(prev * 10 + d > 2147483648) by (nonlinear_arith)
                requires
                    prev > 2147483648,
                    d >= 0,
            ;
        }
        i = i + 1;
    }
    assert(cs@.subrange(bstart, end as int) == body);
    assert(all_digits(body));
    if i == body_start {
        return None;
    }
    if big {
        return None;
    }
    if negative {
        Some((0 - acc) as i32)
    } else if acc <= 2147483647 {
        Some(acc as i32)
    } else {
        None
    }
}

/// Minutes since midnight of an `hours:minutes` text (see
/// `spec_parse_time_minutes`).
pub fn parse_time_minutes(value: &str) -> (r: Option<i32>)
    ensures
        r == spec_parse_time_minutes(value@),
{
    let cs = chars_of(value);
    let k = find_char(&cs, ':');
    proof {
        lemma_char_index(cs@, ':');
    }
    if k >= cs.len() {
        return None;
    }
    assert(cs@.subrange(0, k as int) =~= cs@.take(k as int));
    assert(cs@.subrange(k + 1, cs.len() as int) =~= cs@.skip(k + 1));
    let hours = match parse_i32_range(&cs, 0, k) {
        Some(h) => h,
        None => return None,
    };
    let minutes = match parse_i32_range(&cs, k + 1, cs.len()) {
        Some(m) => m,
        None => return None,
    };
    Some(hours.wrapping_mul(60).wrapping_add(minutes))
}

/// Whether `value` lies in the (possibly wrapping) range from `from` to
/// `to`.
pub fn is_in_range(value: i32, from: i32, to: i32) -> (r: bool)
    ensures
        r == spec_is_in_range(value as int, from as int, to as int),
{
    if from <= to {
        value >= from && value <= to
    } else {
        value >= from || value <= to
    }
}

// ------------------------------------------------------------------------
// Entities and evaluation.
// ------------------------------------------------------------------------
/// An entity a rule is evaluated on: an identifier, a display name, its
/// row, and the flights that belong to it.
struct Entity<'a> {
    id: String,
    name: String,
    row: &'a Row,
    flights: Vec<&'a Row>,
}

pub open spec fn refs_view(rs: Seq<&Row>) -> Seq<RowMap> {
    rs.map_values(|r: &Row| r@)
}

impl<'a> View for Entity<'a> {
    type V = EntityView;

    closed spec fn view(&self) -> EntityView {
        EntityView {
            id: self.id@,
            name: self.name@,
            row: self.row@,
            flights: refs_view(self.flights@),
        }
    }
}

pub open spec fn opt_ref_view(o: Option<&String>) -> Option<Seq<char>> {
    match o {
        Some(s) => Some(s@),
        None => None,
    }
}

/// The value of column `key`, or the empty string.
fn get_or_empty(row: &Row, key: &str) -> (r: String)
    ensures
        r@ == field_or_empty(row@, key@),
{
    match row.get(key) {
        Some(v) => v.clone(),
        None => String::new(),
    }
}

/// The flights whose `piloto_id` equals `id`.
fn pilot_flights<'a>(vuelos: &'a Vec<Row>, id: Option<&String>) -> (r: Vec<&'a Row>)
    ensures
        refs_view(r@) == flights_of_pilot(rows_view(vuelos@), opt_ref_view(id)),
{
    let ghost all = rows_view(vuelos@);
    let mut flights: Vec<&'a Row> = Vec::new();
    let mut i: usize = 0;
    while i < vuelos.len()
        invariant
            i <= vuelos.len(),
            all == rows_view(vuelos@),
            refs_view(flights@) == flights_of_pilot(all.take(i as int), opt_ref_view(id)),
        decreases vuelos.len() - i,
    {
        let flight = &vuelos[i];
        let fid = flight.get("piloto_id");
        let same = match (fid, id) {
            (None, None) => true,
            (Some(a), Some(b)) => str_eq(a.as_str(), b.as_str()),
            _ => false,
        };
        let ghost prev = refs_view(flights@);
        assert(all.take(i + 1).drop_last() =~= all.take(i as int));
        assert(all.take(i + 1).last() == flight@);
        assert(same == (lookup(flight@, "piloto_id"@) == opt_ref_view(id)));
        if same {
            flights.push(flight);
            assert(refs_view(flights@) =~= prev.push(flight@));
        }
        i = i + 1;
    }
    assert(all.take(vuelos.len() as int) =~= all);
    flights
}

/// The column named by a flight field (`vuelo.<column>`), if `field` is one.
fn flight_column(field: &String) -> (r: Option<String>)
    ensures
        match r {
            Some(c) => is_flight_field(field@) && c@ == field@.skip(6),
            None => !is_flight_field(field@),
        },
{
    let cs = chars_of(field.as_str());
    proof {
        reveal_strlit("vuelo.");
    }
    if cs.len() >= 6 && cs[0] == 'v' && cs[1] == 'u' && cs[2] == 'e' && cs[3] == 'l' && cs[4]
        == 'o' && cs[5] == '.' {
        assert(cs@.take(6) =~= "vuelo."@);
        let c = string_of_range(&cs, 6, cs.len());
        assert(cs@.subrange(6, cs.len() as int) =~= cs@.skip(6));
        Some(c)
    } else {
        proof {
            if cs.len() >= 6 && cs@.take(6) == "vuelo."@ {
                assert(cs@.take(6)[0] == 'v');
                assert(cs@.take(6)[1] == 'u');
                assert(cs@.take(6)[2] == 'e');
                assert(cs@.take(6)[3] == 'l');
                assert(cs@.take(6)[4] == 'o');
                assert(cs@.take(6)[5] == '.');
            }
        }
        None
    }
}

impl Validator {
    /// The entities a rule of context `context` is evaluated on.
    fn entities_for_rule(&self, context: ContextKind) -> (r: Vec<Entity<'_>>)
        ensures
            r@.map_values(|e: Entity| e@) == spec_entities(self.data@, context),
    {
        let ghost data = self.data@;
        let table: &Vec<Row> = match context {
            ContextKind::Piloto | ContextKind::Tripulacion => &self.data.pilotos,
            ContextKind::Aeronave => &self.data.aeronaves,
            ContextKind::Vuelo | ContextKind::Aeropuerto => &self.data.vuelos,
        };
        let mut entities: Vec<Entity<'_>> = Vec::new();
        let mut i: usize = 0;
        while i < table.len()
            invariant
                i <= table.len(),
                data == self.data@,
                rows_view(table@) == match context {
                    ContextKind::Piloto | ContextKind::Tripulacion => data.pilotos,
                    ContextKind::Aeronave => data.aeronaves,
                    ContextKind::Vuelo | ContextKind::Aeropuerto => data.vuelos,
                },
                entities@.map_values(|e: Entity| e@) == spec_entities(data, context).take(i as int),
            decreases table.len() - i,
        {
            let row = &table[i];
            let entity = match context {
                ContextKind::Piloto => Entity {
                    id: get_or_empty(row, "id"),
                    name: get_or_empty(row, "nombre"),
                    row,
                    flights: pilot_flights(&self.data.vuelos, row.get("id")),
                },
                ContextKind::Aeronave => Entity {
                    id: get_or_empty(row, "id"),
                    name: get_or_empty(row, "matricula"),
                    row,
                    flights: Vec::new(),
                },
                ContextKind::Vuelo | ContextKind::Aeropuerto => {
                    let mut flights: Vec<&Row> = Vec::new();
                    flights.push(row);
                    assert(refs_view(flights@) =~= seq![row@]);
                    Entity {
                        id: get_or_empty(row, "id"),
                        name: get_or_empty(row, "id"),
                        row,
                        flights,
                    }
                },
                ContextKind::Tripulacion => Entity {
                    id: get_or_empty(row, "id"),
                    name: get_or_empty(row, "nombre"),
                    row,
                    flights: Vec::new(),
                },
            };
            assert(rows_view(table@)[i as int] == row@);
            assert(refs_view(Seq::<&Row>::empty()) =~= Seq::<RowMap>::empty());
            assert(entity@ == spec_entities(data, context)[i as int]);
            let ghost prev = entities@.map_values(|e: Entity| e@);
            entities.push(entity);
            assert(entities@.map_values(|e: Entity| e@) =~= prev.push(entity@));
            i = i + 1;
            assert(spec_entities(data, context).take(i as int) =~= spec_entities(
                data,
                context,
            ).take((i - 1) as int).push(entity@));
        }
        assert(spec_entities(data, context).take(table.len() as int) =~= spec_entities(
            data,
            context,
        ));
        entities
    }

    fn eval_condition(&self, facts: &NumberFacts, condition: &Condition, entity: &Entity<'_>) -> (r:
        bool)
        ensures
            r == spec_eval_condition(facts@, condition@, entity@),
    {
        match flight_column(&condition.field) {
            Some(column) => {
                let mut i: usize = 0;
                while i < entity.flights.len()
                    invariant
                        i <= entity.flights.len(),
                        column@ == condition.field@.skip(6),
                        is_flight_field(condition.field@),
                        forall|j: int|
                            0 <= j < i ==> !#[trigger] spec_compare_field(facts@, 
                                refs_view(entity.flights@)[j],
                                condition.field@.skip(6),
                                condition.comparator,
                                condition.value@,
                            ),
                    decreases entity.flights.len() - i,
                {
                    if compare_field(
                        facts,
                        entity.flights[i],
                        column.as_str(),
                        condition.comparator,
                        &condition.value,
                    ) {
                        assert(refs_view(entity.flights@)[i as int] == entity.flights@[i as int]@);
                        assert(spec_compare_field(facts@, 
                            entity@.flights[i as int],
                            condition@.field.skip(6),
                            condition@.comparator,
                            condition@.value,
                        ));
                        return true;
                    }
                    assert(refs_view(entity.flights@)[i as int] == entity.flights@[i as int]@);
                    i = i + 1;
                }
                false
            },
            None => compare_field(
                facts,
                entity.row,
                condition.field.as_str(),
                condition.comparator,
                &condition.value,
            ),
        }
    }

    fn eval_constraint(&self, facts: &NumberFacts, constraint: &Constraint, entity: &Entity<'_>) -> (r:
        bool)
        ensures
            r == spec_eval_constraint(facts@, constraint@, entity@),
    {
        match constraint {
            Constraint::Comparison { field, comparator, value } => compare_field(
                facts,
                entity.row,
                field.as_str(),
                *comparator,
                value,
            ),
            Constraint::OutsideRange { field, from, to } => {
                let value = match entity.row.get(field.as_str()) {
                    Some(v) => parse_time_minutes(v.as_str()),
                    None => None,
                };
                let from = parse_time_minutes(from.as_str());
                let to = parse_time_minutes(to.as_str());
                match (value, from, to) {
                    (Some(value), Some(from), Some(to)) => !is_in_range(value, from, to),
                    _ => false,
                }
            },
        }
    }

    fn evaluate_rule(&self, facts: &NumberFacts, rule: &Rule, entity: &Entity<'_>) -> (r: bool)
        ensures
            r == spec_evaluate_rule(facts@, rule@, entity@),
    {
        match &rule.statement {
            Statement::Conditional { condition, constraint } => {
                if !self.eval_condition(facts, condition, entity) {
                    true
                } else {
                    self.eval_constraint(facts, constraint, entity)
                }
            },
            Statement::Always { constraint } => self.eval_constraint(facts, constraint, entity),
        }
    }
}

// ------------------------------------------------------------------------
// Messages.
// ------------------------------------------------------------------------
/// A problem as found by the checks: its kind and field.
pub open spec fn problem_view(r: Option<(ValidatorErrorKind, String)>) -> Option<ProblemView> {
    match r {
        Some((k, f)) => problem(k, f@),
        None => None,
    }
}

fn is_time_value(v: &str) -> (r: bool)
    ensures
        r == is_time_text(v@),
{
    let cs = chars_of(v);
    cs.len() == 5 && is_ascii_digit(cs[0]) && is_ascii_digit(cs[1]) && cs[2] == ':'
        && is_ascii_digit(cs[3]) && is_ascii_digit(cs[4])
}

fn is_number_value(v: &str) -> (r: bool)
    ensures
        r == is_number_text(v@),
{
    float_text(v)
}

fn comparison_problem_of(row: &Row, field: &str, value: &Operand) -> (r: Option<
    (ValidatorErrorKind, String),
>)
    ensures
        problem_view(r) == comparison_problem(row@, field@, value@),
{
    let lhs = match row.get(field) {
        Some(v) => v,
        None => return Some((ValidatorErrorKind::MissingField, String::from_str(field))),
    };
    match value {
        Operand::Number(_) => {
            if is_time_value(lhs.as_str()) {
                Some((ValidatorErrorKind::IncompatibleTypes, String::from_str(field)))
            } else {
                None
            }
        },
        Operand::Field(f) => match row.get(f.as_str()) {
            None => Some((ValidatorErrorKind::MissingField, f.clone())),
            Some(rhs) => {
                let lt = is_time_value(lhs.as_str());
                let ln = is_number_value(lhs.as_str());
                let rt = is_time_value(rhs.as_str());
                let rn = is_number_value(rhs.as_str());
                if (lt && rn) || (ln && rt) {
                    Some((ValidatorErrorKind::IncompatibleTypes, String::from_str(field)))
                } else {
                    None
                }
            },
        },
    }
}

fn flights_problem_of(flights: &Vec<&Row>, column: &str, value: &Operand) -> (r: Option<
    (ValidatorErrorKind, String),
>)
    ensures
        problem_view(r) == flights_problem(refs_view(flights@), column@, value@),
{
    let ghost fs = refs_view(flights@);
    let mut found: Option<(ValidatorErrorKind, String)> = None;
    let mut i: usize = 0;
    while i < flights.len()
        invariant
            i <= flights.len(),
            fs == refs_view(flights@),
            problem_view(found) == flights_problem(fs.take(i as int), column@, value@),
        decreases flights.len() - i,
    {
        assert(fs.take(i + 1).drop_last() =~= fs.take(i as int));
        assert(fs.take(i + 1).last() == flights@[i as int]@);
        if found.is_none() {
            found = comparison_problem_of(flights[i], column, value);
        }
        i = i + 1;
    }
    assert(fs.take(flights.len() as int) =~= fs);
    found
}

fn condition_problem_of(condition: &Condition, entity: &Entity<'_>) -> (r: Option<
    (ValidatorErrorKind, String),
>)
    ensures
        problem_view(r) == condition_problem(condition@, entity@),
{
    match flight_column(&condition.field) {
        Some(column) => flights_problem_of(&entity.flights, column.as_str(), &condition.value),
        None => comparison_problem_of(entity.row, condition.field.as_str(), &condition.value),
    }
}

fn constraint_problem_of(constraint: &Constraint, entity: &Entity<'_>) -> (r: Option<
    (ValidatorErrorKind, String),
>)
    ensures
        problem_view(r) == constraint_problem(constraint@, entity@),
{
    match constraint {
        Constraint::Comparison { field, comparator: _, value } => comparison_problem_of(
            entity.row,
            field.as_str(),
            value,
        ),
        Constraint::OutsideRange { field, from: _, to: _ } => match entity.row.get(
            field.as_str(),
        ) {
            None => Some((ValidatorErrorKind::MissingField, field.clone())),
            Some(v) => {
                if is_number_value(v.as_str()) {
                    Some((ValidatorErrorKind::IncompatibleTypes, field.clone()))
                } else {
                    None
                }
            },
        },
    }
}

fn rule_problem_of(rule: &Rule, entity: &Entity<'_>) -> (r: Option<(ValidatorErrorKind, String)>)
    ensures
        problem_view(r) == rule_problem(rule@, entity@),
{
    match &rule.statement {
        Statement::Conditional { condition, constraint } => match condition_problem_of(
            condition,
            entity,
        ) {
            Some(p) => Some(p),
            None => constraint_problem_of(constraint, entity),
        },
        Statement::Always { constraint } => constraint_problem_of(constraint, entity),
    }
}

pub open spec fn opt_error_view(r: Option<ValidatorError>) -> Option<ValidatorErrorView> {
    match r {
        Some(e) => Some(e@),
        None => None,
    }
}

/// The first of `entities` on which `rule` cannot be checked.
fn check_rule(rule: &Rule, entities: &Vec<Entity<'_>>) -> (r: Option<ValidatorError>)
    ensures
        opt_error_view(r) == entities_problem(rule@, entities@.map_values(|e: Entity| e@)),
{
    let ghost es = entities@.map_values(|e: Entity| e@);
    let mut found: Option<ValidatorError> = None;
    let mut i: usize = 0;
    while i < entities.len()
        invariant
            i <= entities.len(),
            es == entities@.map_values(|e: Entity| e@),
            opt_error_view(found) == entities_problem(rule@, es.take(i as int)),
        decreases entities.len() - i,
    {
        let entity = &entities[i];
        assert(es[i as int] == entity@);
        assert(es.take(i + 1).drop_last() =~= es.take(i as int));
        assert(es.take(i + 1).last() == entity@);
        if found.is_none() {
            match rule_problem_of(rule, entity) {
                Some((kind, field)) => {
                    found = Some(
                        ValidatorError {
                            rule_name: rule.name.clone(),
                            entity_id: entity.id.clone(),
                            field,
                            kind,
                        },
                    );
                },
                None => {},
            }
        }
        i = i + 1;
    }
    assert(es.take(entities.len() as int) =~= es);
    found
}

fn push_comparison_pairs(out: &mut Vec<(String, String)>, row: &Row, field: &str, value: &Operand)
    ensures
        pairs_view(final(out)@) == pairs_view(old(out)@) + comparison_pairs(row@, field@, value@),
{
    let ghost before = pairs_view(out@);
    match row.get(field) {
        None => {},
        Some(lhs) => match value {
            Operand::Number(n) => {
                out.push((lhs.clone(), n.clone()));
            },
            Operand::Field(f) => match row.get(f.as_str()) {
                Some(rhs) => {
                    out.push((lhs.clone(), rhs.clone()));
                },
                None => {},
            },
        },
    }
    assert(pairs_view(out@) =~= before + comparison_pairs(row@, field@, value@));
}

fn push_flights_pairs(
    out: &mut Vec<(String, String)>,
    flights: &Vec<&Row>,
    column: &str,
    value: &Operand,
)
    ensures
        pairs_view(final(out)@) == pairs_view(old(out)@) + flights_pairs(
            refs_view(flights@),
            column@,
            value@,
        ),
{
    let ghost fs = refs_view(flights@);
    let ghost start = pairs_view(out@);
    let mut i: usize = 0;
    assert(start + flights_pairs(fs.take(0), column@, value@) =~= start);
    while i < flights.len()
        invariant
            i <= flights.len(),
            fs == refs_view(flights@),
            pairs_view(out@) == start + flights_pairs(fs.take(i as int), column@, value@),
        decreases flights.len() - i,
    {
        assert(fs.take(i + 1).drop_last() =~= fs.take(i as int));
        assert(fs.take(i + 1).last() == flights@[i as int]@);
        push_comparison_pairs(out, flights[i], column, value);
        i = i + 1;
        assert(pairs_view(out@) =~= start + flights_pairs(fs.take(i as int), column@, value@));
    }
    assert(fs.take(flights.len() as int) =~= fs);
}

fn push_rule_pairs(out: &mut Vec<(String, String)>, rule: &Rule, entity: &Entity<'_>)
    ensures
        pairs_view(final(out)@) == pairs_view(old(out)@) + rule_pairs(rule@, entity@),
{
    let ghost before = pairs_view(out@);
    let constraint = match &rule.statement {
        Statement::Conditional { condition, constraint } => {
            match flight_column(&condition.field) {
                Some(column) => push_flights_pairs(
                    out,
                    &entity.flights,
                    column.as_str(),
                    &condition.value,
                ),
                None => push_comparison_pairs(
                    out,
                    entity.row,
                    condition.field.as_str(),
                    &condition.value,
                ),
            }
            constraint
        },
        Statement::Always { constraint } => constraint,
    };
    let ghost mid = pairs_view(out@);
    match constraint {
        Constraint::Comparison { field, comparator: _, value } => {
            push_comparison_pairs(out, entity.row, field.as_str(), value);
        },
        Constraint::OutsideRange { .. } => {},
    }
    assert(pairs_view(out@) =~= before + rule_pairs(rule@, entity@));
}

fn push_operand_literals(out: &mut Vec<String>, o: &Operand)
    ensures
        final(out)@.map_values(|s: String| s@) == old(out)@.map_values(|s: String| s@)
            + operand_literals(o@),
{
    let ghost before = out@.map_values(|s: String| s@);
    match o {
        Operand::Number(n) => {
            out.push(n.clone());
        },
        Operand::Field(_) => {},
    }
    assert(out@.map_values(|s: String| s@) =~= before + operand_literals(o@));
}

/// The numbers that `rules` write (see `spec_number_literals`).
pub fn number_literals(rules: &RuleSet) -> (r: Vec<String>)
    ensures
        r@.map_values(|s: String| s@) == spec_number_literals(rules@),
{
    let ghost rs = rules@;
    let mut out: Vec<String> = Vec::new();
    let mut i: usize = 0;
    assert(out@.map_values(|s: String| s@) =~= spec_number_literals(rs.take(0)));
    while i < rules.rules.len()
        invariant
            i <= rules.rules.len(),
            rs == rules@,
            rs.len() == rules.rules.len(),
            out@.map_values(|s: String| s@) == spec_number_literals(rs.take(i as int)),
        decreases rules.rules.len() - i,
    {
        let rule = &rules.rules[i];
        assert(rs[i as int] == rule@);
        assert(rs.take(i + 1).drop_last() =~= rs.take(i as int));
        assert(rs.take(i + 1).last() == rule@);
        let ghost before = out@.map_values(|s: String| s@);
        match &rule.statement {
            Statement::Conditional { condition, constraint } => {
                push_operand_literals(&mut out, &condition.value);
                match constraint {
                    Constraint::Comparison { field: _, comparator: _, value } => {
                        push_operand_literals(&mut out, value);
                    },
                    Constraint::OutsideRange { .. } => {},
                }
            },
            Statement::Always { constraint } => match constraint {
                Constraint::Comparison { field: _, comparator: _, value } => {
                    push_operand_literals(&mut out, value);
                },
                Constraint::OutsideRange { .. } => {},
            },
        }
        i = i + 1;
        assert(out@.map_values(|s: String| s@) =~= spec_number_literals(rs.take(i as int)));
    }
    assert(rs.take(rules.rules.len() as int) =~= rs);
    out
}

fn push_escaped(s: &mut String, c: char)
    ensures
        final(s)@ == old(s)@ + escape_char(c),
{
    if c == '"' {
        push_char(s, '\\');
        push_char(s, '"');
    } else if c == '\\' {
        push_char(s, '\\');
        push_char(s, '\\');
    } else if c == '\n' {
        push_char(s, '\\');
        push_char(s, 'n');
    } else if c == '\r' {
        push_char(s, '\\');
        push_char(s, 'r');
    } else if c == '\t' {
        push_char(s, '\\');
        push_char(s, 't');
    } else if c == '\0' {
        push_char(s, '\\');
        push_char(s, '0');
    } else {
        push_char(s, c);
    }
    assert(final(s)@ =~= old(s)@ + escape_char(c));
}

/// Appends `t` quoted and escaped, as `{:?}` shows a string.
fn push_debug_str(s: &mut String, t: &String)
    ensures
        final(s)@ == old(s)@ + debug_str(t@),
{
    let cs = chars_of(t.as_str());
    push_char(s, '"');
    let ghost start = s@;
    let mut i: usize = 0;
    while i < cs.len()
        invariant
            i <= cs.len(),
            start == old(s)@.push('"'),
            s@ == start + escape_text(cs@.take(i as int)),
        decreases cs.len() - i,
    {
        push_escaped(s, cs[i]);
        i = i + 1;
        assert(cs@.take(i as int).drop_last() =~= cs@.take((i - 1) as int));
        assert(s@ =~= start + escape_text(cs@.take(i as int)));
    }
    assert(cs@.take(cs.len() as int) =~= t@);
    push_char(s, '"');
    assert(final(s)@ =~= old(s)@ + debug_str(t@));
}

fn push_comparator_debug(s: &mut String, c: Comparator)
    ensures
        final(s)@ == old(s)@ + comparator_debug(c),
{
    match c {
        Comparator::Gte => push_str(s, "Gte"),
        Comparator::Lte => push_str(s, "Lte"),
        Comparator::Gt => push_str(s, "Gt"),
        Comparator::Lt => push_str(s, "Lt"),
        Comparator::Eq => push_str(s, "Eq"),
        Comparator::Neq => push_str(s, "Neq"),
    }
}

fn push_operand_debug(facts: &NumberFacts, s: &mut String, o: &Operand)
    ensures
        final(s)@ == old(s)@ + operand_debug(facts@, o@),
{
    match o {
        Operand::Number(n) => {
            push_str(s, "Number(");
            let t = facts.shown(n.as_str());
            push_str(s, t.as_str());
            push_str(s, ")");
            assert(final(s)@ =~= old(s)@ + operand_debug(facts@, o@));
        },
        Operand::Field(f) => {
            push_str(s, "Field(");
            push_debug_str(s, f);
            push_str(s, ")");
            assert(final(s)@ =~= old(s)@ + operand_debug(facts@, o@));
        },
    }
}

/// Appends the constraint as `{:?}` shows it.
fn push_constraint_debug(facts: &NumberFacts, s: &mut String, c: &Constraint)
    ensures
        final(s)@ == old(s)@ + constraint_debug(facts@, c@),
{
    match c {
        Constraint::Comparison { field, comparator, value } => {
            push_str(s, "Comparison { field: ");
            push_debug_str(s, field);
            push_str(s, ", comparator: ");
            push_comparator_debug(s, *comparator);
            push_str(s, ", value: ");
            push_operand_debug(facts, s, value);
            push_str(s, " }");
            assert(final(s)@ =~= old(s)@ + constraint_debug(facts@, c@));
        },
        Constraint::OutsideRange { field, from, to } => {
            push_str(s, "OutsideRange { field: ");
            push_debug_str(s, field);
            push_str(s, ", from: ");
            push_debug_str(s, from);
            push_str(s, ", to: ");
            push_debug_str(s, to);
            push_str(s, " }");
            assert(final(s)@ =~= old(s)@ + constraint_debug(facts@, c@));
        },
    }
}

/// The value of column `key` in the first of `flights` that has it.
fn first_flight_value_of(flights: &Vec<&Row>, key: &str) -> (r: String)
    ensures
        r@ == first_flight_value(refs_view(flights@), key@),
{
    let ghost fs = refs_view(flights@);
    assert(fs.skip(0) =~= fs);
    let mut i: usize = 0;
    while i < flights.len()
        invariant
            i <= flights.len(),
            fs == refs_view(flights@),
            first_flight_value(fs, key@) == first_flight_value(fs.skip(i as int), key@),
        decreases flights.len() - i,
    {
        assert(fs.skip(i as int)[0] == flights@[i as int]@);
        assert(fs.skip(i as int).drop_first() =~= fs.skip(i + 1));
        match flights[i].get(key) {
            Some(v) => {
                return v.clone();
            },
            None => {},
        }
        i = i + 1;
    }
    assert(fs.skip(flights.len() as int) =~= Seq::<RowMap>::empty());
    String::new()
}

impl Validator {
    fn build_message(&self, facts: &NumberFacts, rule: &Rule, entity: &Entity<'_>) -> (m: String)
        ensures
            m@ == spec_build_message(facts@, rule@, entity@),
    {
        match &rule.statement {
            Statement::Conditional { condition, constraint } => {
                let field_value = match flight_column(&condition.field) {
                    Some(column) => first_flight_value_of(&entity.flights, column.as_str()),
                    None => get_or_empty(entity.row, condition.field.as_str()),
                };
                let mut m = condition.field.clone();
                push_str(&mut m, "=");
                push_str(&mut m, field_value.as_str());
                push_str(&mut m, " \u{2192} ");
                push_constraint_debug(facts, &mut m, constraint);
                m
            },
            Statement::Always { constraint } => {
                let field = match constraint {
                    Constraint::Comparison { field, .. } => field,
                    Constraint::OutsideRange { field, .. } => field,
                };
                let field_value = get_or_empty(entity.row, field.as_str());
                let mut m = field.clone();
                push_str(&mut m, "=");
                push_str(&mut m, field_value.as_str());
                push_str(&mut m, " \u{2192} ");
                push_constraint_debug(facts, &mut m, constraint);
                m
            },
        }
    }

    /// A validator over the tables read from the CSV texts of pilots,
    /// aircraft and flights (`None` where a file is absent), or the first
    /// error met reading them.
    pub fn new(pilotos: Option<&str>, aeronaves: Option<&str>, vuelos: Option<&str>) -> (r:
        Result<Self, String>)
        ensures
            match (r, spec_load_data(opt_text(pilotos), opt_text(aeronaves), opt_text(vuelos))) {
                (Ok(v), Ok(d)) => v.data() == d,
                (Err(e), Err(d)) => e@ == d,
                _ => false,
            },
    {
        Ok(Self { data: load_data(pilotos, aeronaves, vuelos)? })
    }

    /// Every pair of texts that `validate` may compare as numbers for these
    /// rules and filters (see `spec_number_pairs`); the facts given to
    /// `validate` are read for these pairs only.
    pub fn number_pairs(&self, rules: &RuleSet, only: Option<&str>, severity: Option<Severity>) -> (r:
        Vec<(String, String)>)
        ensures
            pairs_view(r@) == spec_number_pairs(self.data(), rules@, opt_text(only), severity),
    {
        let ghost data = self.data@;
        let ghost rs = rules@;
        let mut out: Vec<(String, String)> = Vec::new();
        let mut ri: usize = 0;
        assert(pairs_view(out@) =~= Seq::<(Seq<char>, Seq<char>)>::empty());
        while ri < rules.rules.len()
            invariant
                ri <= rules.rules.len(),
                data == self.data@,
                rs == rules@,
                rs.len() == rules.rules.len(),
                pairs_view(out@) == spec_number_pairs(
                    data,
                    rs.take(ri as int),
                    opt_text(only),
                    severity,
                ),
            decreases rules.rules.len() - ri,
        {
            let rule = &rules.rules[ri];
            assert(rs[ri as int] == rule@);
            assert(rs.take(ri + 1).drop_last() =~= rs.take(ri as int));
            assert(rs.take(ri + 1).last() == rule@);
            let skip_name = match only {
                Some(name) => !str_eq(name, rule.name.as_str()),
                None => false,
            };
            let skip_severity = match severity {
                Some(s) => s != rule.metadata.severity,
                None => false,
            };
            let ghost before = pairs_view(out@);
            if !(skip_name || skip_severity) {
                let entities = self.entities_for_rule(rule.context);
                let ghost es = entities@.map_values(|e: Entity| e@);
                let mut ei: usize = 0;
                assert(before + entities_pairs(rule@, es.take(0)) =~= before);
                while ei < entities.len()
                    invariant
                        ei <= entities.len(),
                        es == entities@.map_values(|e: Entity| e@),
                        pairs_view(out@) == before + entities_pairs(rule@, es.take(ei as int)),
                    decreases entities.len() - ei,
                {
                    let entity = &entities[ei];
                    assert(es[ei as int] == entity@);
                    assert(es.take(ei + 1).drop_last() =~= es.take(ei as int));
                    assert(es.take(ei + 1).last() == entity@);
                    push_rule_pairs(&mut out, rule, entity);
                    ei = ei + 1;
                    assert(pairs_view(out@) =~= before + entities_pairs(rule@, es.take(ei as int)));
                }
                assert(es.take(entities.len() as int) =~= es);
            } else {
                assert(before + Seq::<(Seq<char>, Seq<char>)>::empty() =~= before);
            }
            ri = ri + 1;
        }
        assert(rs.take(rules.rules.len() as int) =~= rs);
        out
    }

    /// Checks every rule (only the one named `only`, and only those of
    /// severity `severity`, where given) against every entity of its
    /// context, comparing numbers as `facts` says, and reports each entity
    /// that fails a rule; or the first rule that reads a column an entity
    /// lacks, or compares a time with a number.
    pub fn validate(
        &self,
        rules: &RuleSet,
        only: Option<&str>,
        severity: Option<Severity>,
        facts: &NumberFacts,
    ) -> (r: Result<ValidationReport, ValidatorError>)
        ensures
            match (r, spec_validate_checked(facts@, self.data(), rules@, opt_text(only), severity)) {
                (Ok(x), Ok(v)) => x@ == v,
                (Err(e), Err(v)) => e@ == v,
                _ => false,
            },
    {
        let ghost data = self.data@;
        let ghost rs = rules@;
        let mut violations: Vec<Violation> = Vec::new();
        let mut error: Option<ValidatorError> = None;
        let mut ri: usize = 0;
        assert(violations_view(violations@) =~= Seq::<ViolationView>::empty());
        while ri < rules.rules.len()
            invariant
                ri <= rules.rules.len(),
                data == self.data@,
                rs == rules@,
                rs.len() == rules.rules.len(),
                opt_error_view(error) == spec_check(data, rs.take(ri as int), opt_text(only), severity),
                error is None ==> violations_view(violations@) == spec_violations(facts@, 
                    data,
                    rs.take(ri as int),
                    opt_text(only),
                    severity,
                ),
            decreases rules.rules.len() - ri,
        {
            let rule = &rules.rules[ri];
            assert(rs[ri as int] == rule@);
            assert(rs.take(ri + 1).drop_last() =~= rs.take(ri as int));
            assert(rs.take(ri + 1).last() == rule@);
            let skip_name = match only {
                Some(name) => !str_eq(name, rule.name.as_str()),
                None => false,
            };
            let skip_severity = match severity {
                Some(s) => s != rule.metadata.severity,
                None => false,
            };
            let ghost before = violations_view(violations@);
            if error.is_none() && !(skip_name || skip_severity) {
                let entities = self.entities_for_rule(rule.context);
                match check_rule(rule, &entities) {
                    Some(e) => {
                        error = Some(e);
                    },
                    None => {
                        let ghost es = entities@.map_values(|e: Entity| e@);
                        let mut ei: usize = 0;
                        assert(rule_violations(facts@, rule@, es.take(0)) =~= Seq::<ViolationView>::empty());
                        assert(before + Seq::<ViolationView>::empty() =~= before);
                        while ei < entities.len()
                            invariant
                                ei <= entities.len(),
                                es == entities@.map_values(|e: Entity| e@),
                                violations_view(violations@) == before + rule_violations(facts@, 
                                    rule@,
                                    es.take(ei as int),
                                ),
                            decreases entities.len() - ei,
                        {
                            let entity = &entities[ei];
                            assert(es[ei as int] == entity@);
                            assert(es.take(ei + 1).drop_last() =~= es.take(ei as int));
                            assert(es.take(ei + 1).last() == entity@);
                            let ghost prev = violations_view(violations@);
                            if !self.evaluate_rule(facts, rule, entity) {
                                let norm = match &rule.metadata.norm {
                                    Some(n) => Some(n.clone()),
                                    None => None,
                                };
                                let v = Violation {
                                    rule_name: rule.name.clone(),
                                    entity_id: entity.id.clone(),
                                    entity_name: entity.name.clone(),
                                    message: self.build_message(facts, rule, entity),
                                    severity: rule.metadata.severity,
                                    norm,
                                };
                                assert(v@ == violation_of(facts@, rule@, entity@));
                                violations.push(v);
                                assert(violations_view(violations@) =~= prev.push(v@));
                                assert(before + rule_violations(facts@, rule@, es.take(ei + 1)) =~= prev + seq![
                                    v@,
                                ]);
                            } else {
                                assert(before + rule_violations(facts@, rule@, es.take(ei + 1)) =~= prev);
                            }
                            ei = ei + 1;
                        }
                        assert(es.take(entities.len() as int) =~= es);
                    },
                }
            } else {
                assert(before + Seq::<ViolationView>::empty() =~= before);
            }
            ri = ri + 1;
        }
        assert(rs.take(rules.rules.len() as int) =~= rs);
        match error {
            Some(e) => Err(e),
            None => Ok(ValidationReport { valid: violations.len() == 0, violations }),
        }
    }
}

// ------------------------------------------------------------------------
// Laws.
// ------------------------------------------------------------------------
/// A report is valid exactly when it lists no violation.
pub proof fn lemma_valid_iff_no_violations(facts: NumberFactsView, 
    data: DataView,
    rules: Seq<RuleView>,
    only: Option<Seq<char>>,
    severity: Option<Severity>,
)
    ensures
        spec_validate(facts, data, rules, only, severity).valid <==> spec_validate(facts, 
            data,
            rules,
            only,
            severity,
        ).violations.len() == 0,
{
}

proof fn lemma_rule_violations_fields(facts: NumberFactsView, rule: RuleView, es: Seq<EntityView>)
    ensures
        forall|k: int|
            0 <= k < rule_violations(facts, rule, es).len() ==> {
                &&& (#[trigger] rule_violations(facts, rule, es)[k]).rule_name == rule.name
                &&& rule_violations(facts, rule, es)[k].severity == rule.metadata.severity
                &&& rule_violations(facts, rule, es)[k].norm == rule.metadata.norm
            },
    decreases es.len(),
{
    if es.len() > 0 {
        lemma_rule_violations_fields(facts, rule, es.drop_last());
        let a = rule_violations(facts, rule, es.drop_last());
        let all = rule_violations(facts, rule, es);
        assert forall|k: int| 0 <= k < all.len() implies {
            &&& (#[trigger] all[k]).rule_name == rule.name
            &&& all[k].severity == rule.metadata.severity
            &&& all[k].norm == rule.metadata.norm
        } by {
            if k < a.len() {
                assert(all[k] == a[k]);
            }
        }
    }
}

/// Every reported violation names a rule that passes the filters and
/// carries that rule's severity and norm.
pub proof fn lemma_violations_come_from_rules(facts: NumberFactsView, 
    data: DataView,
    rules: Seq<RuleView>,
    only: Option<Seq<char>>,
    severity: Option<Severity>,
)
    ensures
        forall|k: int|
            0 <= k < spec_violations(facts, data, rules, only, severity).len() ==> exists|r: int|
                0 <= r < rules.len() && rule_selected(rules[r], only, severity) && (
                #[trigger] spec_violations(facts, data, rules, only, severity)[k]).rule_name
                    == rules[r].name && spec_violations(facts, data, rules, only, severity)[k].severity
                    == rules[r].metadata.severity && spec_violations(facts, 
                    data,
                    rules,
                    only,
                    severity,
                )[k].norm == rules[r].metadata.norm,
    decreases rules.len(),
{
    if rules.len() > 0 {
        let init = rules.drop_last();
        lemma_violations_come_from_rules(facts, data, init, only, severity);
        let a = spec_violations(facts, data, init, only, severity);
        let all = spec_violations(facts, data, rules, only, severity);
        let last = rules.last();
        lemma_rule_violations_fields(facts, last, spec_entities(data, last.context));
        assert forall|k: int| 0 <= k < all.len() implies exists|r: int|
            0 <= r < rules.len() && rule_selected(rules[r], only, severity) && (
            #[trigger] all[k]).rule_name == rules[r].name && all[k].severity
                == rules[r].metadata.severity && all[k].norm == rules[r].metadata.norm by {
            if k < a.len() {
                assert(all[k] == a[k]);
                let r = choose|r: int|
                    0 <= r < init.len() && rule_selected(init[r], only, severity) && (
                    #[trigger] a[k]).rule_name == init[r].name && a[k].severity
                        == init[r].metadata.severity && a[k].norm == init[r].metadata.norm;
                assert(rules[r] == init[r]);
            } else {
                let rv = rule_violations(facts, last, spec_entities(data, last.context));
                assert(all[k] == rv[k - a.len()]);
                assert(rules[rules.len() - 1] == last);
            }
        }
    }
}

/// The violations among `vs` of the rule named `name`, in order.
pub open spec fn with_rule_name(vs: Seq<ViolationView>, name: Seq<char>) -> Seq<ViolationView>
    decreases vs.len(),
{
    if vs.len() == 0 {
        Seq::empty()
    } else {
        with_rule_name(vs.drop_last(), name) + if vs.last().rule_name == name {
            seq![vs.last()]
        } else {
            Seq::<ViolationView>::empty()
        }
    }
}

/// The violations among `vs` of severity `s`, in order.
pub open spec fn with_severity(vs: Seq<ViolationView>, s: Severity) -> Seq<ViolationView>
    decreases vs.len(),
{
    if vs.len() == 0 {
        Seq::empty()
    } else {
        with_severity(vs.drop_last(), s) + if vs.last().severity == s {
            seq![vs.last()]
        } else {
            Seq::<ViolationView>::empty()
        }
    }
}

proof fn lemma_with_rule_name_append(a: Seq<ViolationView>, b: Seq<ViolationView>, n: Seq<char>)
    ensures
        with_rule_name(a + b, n) == with_rule_name(a, n) + with_rule_name(b, n),
    decreases b.len(),
{
    if b.len() == 0 {
        assert(a + b =~= a);
        assert(with_rule_name(a, n) + Seq::<ViolationView>::empty() =~= with_rule_name(a, n));
    } else {
        assert((a + b).drop_last() =~= a + b.drop_last());
        lemma_with_rule_name_append(a, b.drop_last(), n);
    }
}

proof fn lemma_with_severity_append(a: Seq<ViolationView>, b: Seq<ViolationView>, s: Severity)
    ensures
        with_severity(a + b, s) == with_severity(a, s) + with_severity(b, s),
    decreases b.len(),
{
    if b.len() == 0 {
        assert(a + b =~= a);
        assert(with_severity(a, s) + Seq::<ViolationView>::empty() =~= with_severity(a, s));
    } else {
        assert((a + b).drop_last() =~= a + b.drop_last());
        lemma_with_severity_append(a, b.drop_last(), s);
    }
}

proof fn lemma_with_rule_name_uniform(vs: Seq<ViolationView>, n: Seq<char>, m: Seq<char>)
    requires
        forall|k: int| 0 <= k < vs.len() ==> (#[trigger] vs[k]).rule_name == m,
    ensures
        with_rule_name(vs, n) == if m == n {
            vs
        } else {
            Seq::<ViolationView>::empty()
        },
    decreases vs.len(),
{
    if vs.len() > 0 {
        let init = vs.drop_last();
        assert forall|k: int| 0 <= k < init.len() implies (#[trigger] init[k]).rule_name == m by {
            assert(init[k] == vs[k]);
        }
        lemma_with_rule_name_uniform(init, n, m);
        assert(vs.last() == vs[vs.len() - 1]);
        if m == n {
            assert(init + seq![vs.last()] =~= vs);
        } else {
            assert(Seq::<ViolationView>::empty() + Seq::<ViolationView>::empty() =~= Seq::<ViolationView>::empty());
        }
    }
}

proof fn lemma_with_severity_uniform(vs: Seq<ViolationView>, s: Severity, t: Severity)
    requires
        forall|k: int| 0 <= k < vs.len() ==> (#[trigger] vs[k]).severity == t,
    ensures
        with_severity(vs, s) == if t == s {
            vs
        } else {
            Seq::<ViolationView>::empty()
        },
    decreases vs.len(),
{
    if vs.len() > 0 {
        let init = vs.drop_last();
        assert forall|k: int| 0 <= k < init.len() implies (#[trigger] init[k]).severity == t by {
            assert(init[k] == vs[k]);
        }
        lemma_with_severity_uniform(init, s, t);
        assert(vs.last() == vs[vs.len() - 1]);
        if t == s {
            assert(init + seq![vs.last()] =~= vs);
        } else {
            assert(Seq::<ViolationView>::empty() + Seq::<ViolationView>::empty() =~= Seq::<ViolationView>::empty());
        }
    }
}

/// Asking for the rule named `name` reports exactly the violations of that
/// rule that the report without the name filter holds, in the same order.
pub proof fn lemma_only_keeps_named_rule(facts: NumberFactsView, 
    data: DataView,
    rules: Seq<RuleView>,
    name: Seq<char>,
    severity: Option<Severity>,
)
    ensures
        spec_violations(facts, data, rules, Some(name), severity) == with_rule_name(
            spec_violations(facts, data, rules, None, severity),
            name,
        ),
    decreases rules.len(),
{
    if rules.len() > 0 {
        let init = rules.drop_last();
        let last = rules.last();
        lemma_only_keeps_named_rule(facts, data, init, name, severity);
        let rv = rule_violations(facts, last, spec_entities(data, last.context));
        let tail = if rule_selected(last, None, severity) {
            rv
        } else {
            Seq::<ViolationView>::empty()
        };
        lemma_with_rule_name_append(spec_violations(facts, data, init, None, severity), tail, name);
        lemma_rule_violations_fields(facts, last, spec_entities(data, last.context));
        lemma_with_rule_name_uniform(rv, name, last.name);
        assert(with_rule_name(Seq::<ViolationView>::empty(), name) =~= Seq::<ViolationView>::empty());
    }
}

/// Asking for severity `s` reports exactly the violations of that severity
/// that the report without the severity filter holds, in the same order.
pub proof fn lemma_severity_keeps_level(facts: NumberFactsView, 
    data: DataView,
    rules: Seq<RuleView>,
    only: Option<Seq<char>>,
    s: Severity,
)
    ensures
        spec_violations(facts, data, rules, only, Some(s)) == with_severity(
            spec_violations(facts, data, rules, only, None),
            s,
        ),
    decreases rules.len(),
{
    if rules.len() > 0 {
        let init = rules.drop_last();
        let last = rules.last();
        lemma_severity_keeps_level(facts, data, init, only, s);
        let rv = rule_violations(facts, last, spec_entities(data, last.context));
        let tail = if rule_selected(last, only, None) {
            rv
        } else {
            Seq::<ViolationView>::empty()
        };
        lemma_with_severity_append(spec_violations(facts, data, init, only, None), tail, s);
        lemma_rule_violations_fields(facts, last, spec_entities(data, last.context));
        lemma_with_severity_uniform(rv, s, last.metadata.severity);
        assert(with_severity(Seq::<ViolationView>::empty(), s) =~= Seq::<ViolationView>::empty());
    }
}


/// Two sets of facts agree on every pair of `ps`.
pub open spec fn agree_on_pairs(
    f: NumberFactsView,
    g: NumberFactsView,
    ps: Seq<(Seq<char>, Seq<char>)>,
) -> bool {
    forall|k: int|
        0 <= k < ps.len() ==> pair_fact(f.pairs, ps[k].0, ps[k].1) == pair_fact(
            g.pairs,
            #[trigger] ps[k].0,
            ps[k].1,
        )
}

/// Two sets of facts show every number of `ls` alike.
pub open spec fn agree_on_shown(f: NumberFactsView, g: NumberFactsView, ls: Seq<Seq<char>>) -> bool {
    forall|k: int|
        0 <= k < ls.len() ==> shown_number(f.shown, #[trigger] ls[k]) == shown_number(
            g.shown,
            ls[k],
        )
}

proof fn lemma_agree_pairs_split(
    f: NumberFactsView,
    g: NumberFactsView,
    a: Seq<(Seq<char>, Seq<char>)>,
    b: Seq<(Seq<char>, Seq<char>)>,
)
    requires
        agree_on_pairs(f, g, a + b),
    ensures
        agree_on_pairs(f, g, a),
        agree_on_pairs(f, g, b),
{
    assert forall|k: int| 0 <= k < a.len() implies pair_fact(f.pairs, a[k].0, a[k].1) == pair_fact(
        g.pairs,
        #[trigger] a[k].0,
        a[k].1,
    ) by {
        assert((a + b)[k] == a[k]);
    }
    assert forall|k: int| 0 <= k < b.len() implies pair_fact(f.pairs, b[k].0, b[k].1) == pair_fact(
        g.pairs,
        #[trigger] b[k].0,
        b[k].1,
    ) by {
        assert((a + b)[a.len() + k] == b[k]);
    }
}

proof fn lemma_agree_shown_split(
    f: NumberFactsView,
    g: NumberFactsView,
    a: Seq<Seq<char>>,
    b: Seq<Seq<char>>,
)
    requires
        agree_on_shown(f, g, a + b),
    ensures
        agree_on_shown(f, g, a),
        agree_on_shown(f, g, b),
{
    assert forall|k: int| 0 <= k < a.len() implies shown_number(f.shown, #[trigger] a[k])
        == shown_number(g.shown, a[k]) by {
        assert((a + b)[k] == a[k]);
    }
    assert forall|k: int| 0 <= k < b.len() implies shown_number(f.shown, #[trigger] b[k])
        == shown_number(g.shown, b[k]) by {
        assert((a + b)[a.len() + k] == b[k]);
    }
}

proof fn lemma_compare_field_agrees(
    f: NumberFactsView,
    g: NumberFactsView,
    row: RowMap,
    field: Seq<char>,
    c: Comparator,
    value: OperandView,
)
    requires
        agree_on_pairs(f, g, comparison_pairs(row, field, value)),
    ensures
        spec_compare_field(f, row, field, c, value) == spec_compare_field(g, row, field, c, value),
{
    let ps = comparison_pairs(row, field, value);
    if ps.len() > 0 {
        assert(pair_fact(f.pairs, ps[0].0, ps[0].1) == pair_fact(g.pairs, ps[0].0, ps[0].1));
    }
}

proof fn lemma_flights_agree(
    f: NumberFactsView,
    g: NumberFactsView,
    flights: Seq<RowMap>,
    field: Seq<char>,
    c: Comparator,
    value: OperandView,
)
    requires
        agree_on_pairs(f, g, flights_pairs(flights, field, value)),
    ensures
        forall|i: int|
            0 <= i < flights.len() ==> spec_compare_field(f, #[trigger] flights[i], field, c, value)
                == spec_compare_field(g, flights[i], field, c, value),
    decreases flights.len(),
{
    if flights.len() > 0 {
        let init = flights.drop_last();
        lemma_agree_pairs_split(
            f,
            g,
            flights_pairs(init, field, value),
            comparison_pairs(flights.last(), field, value),
        );
        lemma_flights_agree(f, g, init, field, c, value);
        lemma_compare_field_agrees(f, g, flights.last(), field, c, value);
        assert forall|i: int| 0 <= i < flights.len() implies spec_compare_field(
            f,
            #[trigger] flights[i],
            field,
            c,
            value,
        ) == spec_compare_field(g, flights[i], field, c, value) by {
            if i < init.len() {
                assert(flights[i] == init[i]);
            }
        }
    }
}

proof fn lemma_entity_agrees(f: NumberFactsView, g: NumberFactsView, rule: RuleView, e: EntityView)
    requires
        agree_on_pairs(f, g, rule_pairs(rule, e)),
        agree_on_shown(f, g, rule_literals(rule)),
    ensures
        spec_evaluate_rule(f, rule, e) == spec_evaluate_rule(g, rule, e),
        violation_of(f, rule, e) == violation_of(g, rule, e),
{
    let constraint = match rule.statement {
        StatementView::Conditional { condition, constraint } => {
            lemma_agree_pairs_split(
                f,
                g,
                condition_pairs(condition, e),
                constraint_pairs(constraint, e),
            );
            lemma_agree_shown_split(
                f,
                g,
                operand_literals(condition.value),
                constraint_literals(constraint),
            );
            if is_flight_field(condition.field) {
                lemma_flights_agree(
                    f,
                    g,
                    e.flights,
                    condition.field.skip(6),
                    condition.comparator,
                    condition.value,
                );
            } else {
                lemma_compare_field_agrees(
                    f,
                    g,
                    e.row,
                    condition.field,
                    condition.comparator,
                    condition.value,
                );
            }
            assert(spec_eval_condition(f, condition, e) == spec_eval_condition(g, condition, e));
            constraint
        },
        StatementView::Always { constraint } => constraint,
    };
    match constraint {
        ConstraintView::Comparison { field, comparator, value } => {
            lemma_compare_field_agrees(f, g, e.row, field, comparator, value);
            if let OperandView::Number(n) = value {
                assert(constraint_literals(constraint)[0] == n);
            }
        },
        ConstraintView::OutsideRange { .. } => {},
    }
    assert(constraint_debug(f, constraint) == constraint_debug(g, constraint));
}

proof fn lemma_rule_violations_agree(
    f: NumberFactsView,
    g: NumberFactsView,
    rule: RuleView,
    es: Seq<EntityView>,
)
    requires
        agree_on_pairs(f, g, entities_pairs(rule, es)),
        agree_on_shown(f, g, rule_literals(rule)),
    ensures
        rule_violations(f, rule, es) == rule_violations(g, rule, es),
    decreases es.len(),
{
    if es.len() > 0 {
        lemma_agree_pairs_split(
            f,
            g,
            entities_pairs(rule, es.drop_last()),
            rule_pairs(rule, es.last()),
        );
        lemma_rule_violations_agree(f, g, rule, es.drop_last());
        lemma_entity_agrees(f, g, rule, es.last());
    }
}

proof fn lemma_violations_agree(
    f: NumberFactsView,
    g: NumberFactsView,
    data: DataView,
    rules: Seq<RuleView>,
    only: Option<Seq<char>>,
    severity: Option<Severity>,
)
    requires
        agree_on_pairs(f, g, spec_number_pairs(data, rules, only, severity)),
        agree_on_shown(f, g, spec_number_literals(rules)),
    ensures
        spec_violations(f, data, rules, only, severity) == spec_violations(
            g,
            data,
            rules,
            only,
            severity,
        ),
    decreases rules.len(),
{
    if rules.len() > 0 {
        let init = rules.drop_last();
        let last = rules.last();
        let tail = if rule_selected(last, only, severity) {
            entities_pairs(last, spec_entities(data, last.context))
        } else {
            Seq::empty()
        };
        lemma_agree_pairs_split(f, g, spec_number_pairs(data, init, only, severity), tail);
        lemma_agree_shown_split(f, g, spec_number_literals(init), rule_literals(last));
        lemma_violations_agree(f, g, data, init, only, severity);
        if rule_selected(last, only, severity) {
            lemma_rule_violations_agree(f, g, last, spec_entities(data, last.context));
        }
    }
}

/// Validation reads the facts about numbers only for the pairs that
/// `spec_number_pairs` lists and the numbers that `spec_number_literals`
/// lists: two sets of facts that agree there give the same outcome.
pub proof fn lemma_validation_reads_listed_facts(
    f: NumberFactsView,
    g: NumberFactsView,
    data: DataView,
    rules: Seq<RuleView>,
    only: Option<Seq<char>>,
    severity: Option<Severity>,
)
    requires
        agree_on_pairs(f, g, spec_number_pairs(data, rules, only, severity)),
        agree_on_shown(f, g, spec_number_literals(rules)),
    ensures
        spec_validate_checked(f, data, rules, only, severity) == spec_validate_checked(
            g,
            data,
            rules,
            only,
            severity,
        ),
{
    lemma_violations_agree(f, g, data, rules, only, severity);
}

} // verus!
