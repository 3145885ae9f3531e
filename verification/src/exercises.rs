//! Short exercises, one module per topic: closures, higher-order functions,
//! immutable updates, iterator pipelines, `Option`/`Result`, pattern
//! matching and pure functions.
pub mod closures;
pub mod higher_order_functions;
pub mod immutability;
pub mod iterators;
pub mod option_and_result;
pub mod pattern_matching;
pub mod pure_functions;
