pub mod text;
pub mod seqs;
pub mod numparse;
pub mod basics;
pub mod immutability;
pub mod closures;
pub mod oop_vs_fp;
pub mod monad_transformer;
pub mod lenses;
pub mod effect_system;
pub mod iterators;
pub mod exercises;
pub mod practice;
pub mod project;
pub mod stream;
pub mod free_monad;
pub mod concurrency;
pub mod bst;
pub mod adt;
pub mod error_handling;
pub mod composition;
pub mod traits;
pub mod recursion;
pub mod type_state;
