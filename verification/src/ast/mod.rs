//! The abstract syntax of rule sets.

pub mod decimal;

use vstd::prelude::*;

pub use decimal::{Decimal, DecimalView};

verus! {

/// A parsed rule file: its rules, in order.
#[derive(Debug, Clone, PartialEq)]
pub struct RuleSet {
    pub rules: Vec<Rule>,
}

/// One `RESTRICCION`.
#[derive(Debug, Clone, PartialEq)]
pub struct Rule {
    pub name: String,
    pub context: ContextKind,
    pub statement: Statement,
    pub metadata: Metadata,
}

/// The kind of entity a rule is evaluated on.
#[derive(Debug, Clone, Copy, PartialEq, Eq, Structural)]
pub enum ContextKind {
    Piloto,
    Aeronave,
    Vuelo,
    Aeropuerto,
    Tripulacion,
}

/// The body of a rule: a constraint that holds when a condition does, or
/// always.
#[derive(Debug, Clone, PartialEq)]
pub enum Statement {
    Conditional { condition: Condition, constraint: Constraint },
    Always { constraint: Constraint },
}

/// `field comparator operand`, the guard of a conditional rule.
#[derive(Debug, Clone, PartialEq)]
pub struct Condition {
    pub field: String,
    pub comparator: Comparator,
    pub value: Operand,
}

/// What a rule requires of an entity.
#[derive(Debug, Clone, PartialEq)]
pub enum Constraint {
    Comparison { field: String, comparator: Comparator, value: Operand },
    OutsideRange { field: String, from: String, to: String },
}

/// The right-hand side of a comparison: a number, as the rule writes it,
/// or another field.
#[derive(Debug, Clone, PartialEq)]
pub enum Operand {
    Number(String),
    Field(String),
}

#[derive(Debug, Clone, Copy, PartialEq, Eq, Structural)]
pub enum Comparator {
    Gte,
    Lte,
    Gt,
    Lt,
    Eq,
    Neq,
}

/// The optional unit, the severity and the optional norm of a rule.
#[derive(Debug, Clone, PartialEq, Eq)]
pub struct Metadata {
    pub unit: Option<String>,
    pub severity: Severity,
    pub norm: Option<String>,
}

#[derive(Debug, Clone, Copy, PartialEq, Eq, Structural)]
pub enum Severity {
    Critica,
    Regulatoria,
    Operacional,
}

/// The lower-case name of a severity, as written in rule files.
pub open spec fn severity_name(s: Severity) -> Seq<char> {
    match s {
        Severity::Critica => "critica"@,
        Severity::Regulatoria => "regulatoria"@,
        Severity::Operacional => "operacional"@,
    }
}

impl Severity {
    /// The lower-case name of the severity.
    pub fn as_str(self) -> (r: &'static str)
        ensures
            r@ == severity_name(self),
    {
        match self {
            Severity::Critica => "critica",
            Severity::Regulatoria => "regulatoria",
            Severity::Operacional => "operacional",
        }
    }
}

// ------------------------------------------------------------------------
// Models.
// ------------------------------------------------------------------------
pub enum OperandView {
    Number(Seq<char>),
    Field(Seq<char>),
}

pub struct ConditionView {
    pub field: Seq<char>,
    pub comparator: Comparator,
    pub value: OperandView,
}

pub enum ConstraintView {
    Comparison { field: Seq<char>, comparator: Comparator, value: OperandView },
    OutsideRange { field: Seq<char>, from: Seq<char>, to: Seq<char> },
}

pub enum StatementView {
    Conditional { condition: ConditionView, constraint: ConstraintView },
    Always { constraint: ConstraintView },
}

pub struct MetadataView {
    pub unit: Option<Seq<char>>,
    pub severity: Severity,
    pub norm: Option<Seq<char>>,
}

pub struct RuleView {
    pub name: Seq<char>,
    pub context: ContextKind,
    pub statement: StatementView,
    pub metadata: MetadataView,
}

impl View for Operand {
    type V = OperandView;

    open spec fn view(&self) -> OperandView {
        match self {
            Operand::Number(d) => OperandView::Number(d@),
            Operand::Field(f) => OperandView::Field(f@),
        }
    }
}

impl View for Condition {
    type V = ConditionView;

    open spec fn view(&self) -> ConditionView {
        ConditionView { field: self.field@, comparator: self.comparator, value: self.value@ }
    }
}

impl View for Constraint {
    type V = ConstraintView;

    open spec fn view(&self) -> ConstraintView {
        match self {
            Constraint::Comparison { field, comparator, value } => ConstraintView::Comparison {
                field: field@,
                comparator: *comparator,
                value: value@,
            },
            Constraint::OutsideRange { field, from, to } => ConstraintView::OutsideRange {
                field: field@,
                from: from@,
                to: to@,
            },
        }
    }
}

impl View for Statement {
    type V = StatementView;

    open spec fn view(&self) -> StatementView {
        match self {
            Statement::Conditional { condition, constraint } => StatementView::Conditional {
                condition: condition@,
                constraint: constraint@,
            },
            Statement::Always { constraint } => StatementView::Always { constraint: constraint@ },
        }
    }
}

/// The characters of an optional string.
pub open spec fn opt_view(o: Option<String>) -> Option<Seq<char>> {
    match o {
        Some(s) => Some(s@),
        None => None,
    }
}

impl View for Metadata {
    type V = MetadataView;

    open spec fn view(&self) -> MetadataView {
        MetadataView { unit: opt_view(self.unit), severity: self.severity, norm: opt_view(self.norm) }
    }
}

impl View for Rule {
    type V = RuleView;

    open spec fn view(&self) -> RuleView {
        RuleView {
            name: self.name@,
            context: self.context,
            statement: self.statement@,
            metadata: self.metadata@,
        }
    }
}

impl View for RuleSet {
    type V = Seq<RuleView>;

    open spec fn view(&self) -> Seq<RuleView> {
        self.rules@.map_values(|r: Rule| r@)
    }
}

} // verus!
