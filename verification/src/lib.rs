//! Sysmon telemetry: reading event logs, indexing events, rebuilding the
//! process tree and running detection rules over it.

pub mod clock;
pub mod event;
pub mod event_store;
pub mod evtx;
pub mod export;
pub mod fxmap;
pub mod guid;
pub mod interner;
pub mod laws;
pub mod lenient;
pub mod loading;
pub mod numbers;
pub mod order;
pub mod overview;
pub mod panels;
pub mod parser;
pub mod process_tree;
pub mod session;
pub mod sets;
pub mod sigma;
pub mod state;
pub mod stats;
pub mod tally;
pub mod text;
pub mod textmap;
pub mod tree_rows;
pub mod tree_view;
pub mod types;
pub mod utf16;
