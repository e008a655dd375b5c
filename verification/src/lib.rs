//! Solver for the "chance" numbers game: given a list of integer operands and
//! a target value, enumerate every expression that combines a subset of the
//! operands, in some order, with the four arithmetic operators so that the
//! expression evaluates to the target.

pub mod dedup;
pub mod expr;
pub mod generate;
pub mod render;
pub mod search;

pub use dedup::process_associative_operation_filter;
pub use dedup::SimilarOperationKey;
pub use expr::Operation;
pub use expr::Operator;
pub use expr::SearchError;
pub use generate::generate_operations;
pub use generate::permutations;
pub use generate::power_set;
pub use render::format_operations;
pub use search::find_operations_for_value;
