//! What holds across the library: laws that relate results to the inputs they
//! come from, and calls to one another.

pub mod matching;
pub mod tree;
pub mod texts;
pub mod records;
pub mod evtx;
pub mod rules;
pub mod exports;
pub mod values;
pub mod logs;
pub mod store;
pub mod views;
pub mod tables;
pub mod figures;
pub mod states;
pub mod nodes;
pub mod outcomes;
pub mod lists;
