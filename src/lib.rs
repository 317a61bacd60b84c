//! A shared word-frequency registry: a table from keys to occurrence counts,
//! guarded by one lock, fed by manual increments and by periodic generators,
//! and exported as comma-separated records.

pub mod csv_out;
pub mod decimal;
pub mod export;
pub mod generator;
pub mod registry;
pub mod table;
