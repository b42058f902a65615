use vstd::prelude::*;

use crate::ast::{opt_view, Severity};

verus! {

/// The outcome of validating a rule set: valid exactly when no rule is
/// violated.
#[derive(Debug, Clone, PartialEq, Eq)]
pub struct ValidationReport {
    pub valid: bool,
    pub violations: Vec<Violation>,
}

/// One entity that fails one rule.
#[derive(Debug, Clone, PartialEq, Eq)]
pub struct Violation {
    pub rule_name: String,
    pub entity_id: String,
    pub entity_name: String,
    pub message: String,
    pub severity: Severity,
    pub norm: Option<String>,
}

pub struct ViolationView {
    pub rule_name: Seq<char>,
    pub entity_id: Seq<char>,
    pub entity_name: Seq<char>,
    pub message: Seq<char>,
    pub severity: Severity,
    pub norm: Option<Seq<char>>,
}

pub struct ReportView {
    pub valid: bool,
    pub violations: Seq<ViolationView>,
}

impl View for Violation {
    type V = ViolationView;

    open spec fn view(&self) -> ViolationView {
        ViolationView {
            rule_name: self.rule_name@,
            entity_id: self.entity_id@,
            entity_name: self.entity_name@,
            message: self.message@,
            severity: self.severity,
            norm: opt_view(self.norm),
        }
    }
}

pub open spec fn violations_view(vs: Seq<Violation>) -> Seq<ViolationView> {
    vs.map_values(|v: Violation| v@)
}

impl View for ValidationReport {
    type V = ReportView;

    open spec fn view(&self) -> ReportView {
        ReportView { valid: self.valid, violations: violations_view(self.violations@) }
    }
}

/// What makes a rule impossible to check on the data.
#[derive(Debug, Clone, Copy, PartialEq, Eq, Structural)]
pub enum ValidatorErrorKind {
    /// The rule reads a column that the entity's row does not have.
    MissingField,
    /// The rule compares a time with a number.
    IncompatibleTypes,
}

/// A rule that cannot be checked: the rule, the entity where the problem
/// shows, the field, and the kind of problem.
#[derive(Debug, Clone, PartialEq, Eq)]
pub struct ValidatorError {
    pub rule_name: String,
    pub entity_id: String,
    pub field: String,
    pub kind: ValidatorErrorKind,
}

pub struct ValidatorErrorView {
    pub rule_name: Seq<char>,
    pub entity_id: Seq<char>,
    pub field: Seq<char>,
    pub kind: ValidatorErrorKind,
}

impl View for ValidatorError {
    type V = ValidatorErrorView;

    open spec fn view(&self) -> ValidatorErrorView {
        ValidatorErrorView {
            rule_name: self.rule_name@,
            entity_id: self.entity_id@,
            field: self.field@,
            kind: self.kind,
        }
    }
}

} // verus!
