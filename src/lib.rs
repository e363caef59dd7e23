//! Analysis of captured POWERLINK traffic: a per-frame protocol state machine
//! that records cycle times, response times, protocol violations and state
//! changes, and a metrics store that aggregates them.

pub mod types;
pub mod sort;
pub mod stats;
pub mod database;
pub mod plkan;
pub mod lemmas;
pub mod report;
