//! Loading tabular data and checking rule sets against it.

pub mod data_loader;
pub mod numbers;
pub mod report;
pub mod validator;

pub use data_loader::{load_data, DataSet, DataView, Row, RowMap};
pub use numbers::{NumberFacts, NumberFactsView, NumberRelation};
pub use report::{
    ReportView, ValidationReport, ValidatorError, ValidatorErrorKind, ValidatorErrorView, Violation,
    ViolationView,
};
pub use validator::{compare_fields, is_in_range, number_literals, parse_time_minutes, Validator};
