//! A verified core for a minimal static-content JSON server.
//!
//! At startup the server scans configured directories, loads every JSON file
//! into an in-memory table keyed by a derived endpoint name, and afterwards
//! answers each GET request by looking the requested path up in that table.
//! This crate holds the table-construction rules, the table itself, and the
//! lookup/response logic; reading files and speaking HTTP stay outside.

pub mod config;
pub mod handler;
pub mod keys;
pub mod laws;
pub mod scanner;
pub mod table;
