//! Reconciliation of shift roster snapshots, upsert bookkeeping for the
//! reconciled schedule, and per-teacher efficiency reports.
//!
//! Every function states its behaviour over sequences of characters and
//! integers. Dates are parsed and printed by `chrono` and delimited text is
//! read by `csv`; these calls, and two of the standard library that have no
//! specification, stand behind small functions whose contracts are assumed
//! rather than proved.

pub mod billing;
pub mod calendar;
pub mod consolidated;
pub mod consolidation;
pub mod efficiency;
pub mod efficiency_csv;
pub mod idempotence;
pub mod lookup;
pub mod ordering;
pub mod partition;
pub mod persist;
pub mod reconcile;
pub mod requests;
pub mod roster;
pub mod schedule;
pub mod sorting;
pub mod steps;
pub mod text;
