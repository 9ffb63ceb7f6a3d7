//! Game reference data.

pub mod data_tables;
