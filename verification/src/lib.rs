//! Task, category and setting records with a verified in-memory store,
//! input validation, and snapshot backup and restore.

pub mod backup;
pub mod clock;
pub mod database;
pub mod error;
pub mod invariants;
pub mod laws;
pub mod model;
pub mod models;
pub mod restore;
pub mod round_trip;
mod rows;
pub mod seqs;
pub mod text;
pub mod validation;
