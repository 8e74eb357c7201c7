//! Detect changed models between two git revisions and describe the change:
//! which models were added, modified or removed, and how their columns differ.

pub mod base;
pub mod classify;
pub mod columns;
pub mod compile;
pub mod compute;
pub mod git;
pub mod models;
pub mod order;
pub mod paths;
pub mod report;
pub mod results;
pub mod seqs;
pub mod string_map;
pub mod text;
