//! Self-service role assignment: parsing role commands, reconciling them
//! against a guild's role catalog, and reporting the outcome.

pub mod text;

pub mod config;
pub mod command;
pub mod dedup;
pub mod catalog;
pub mod reconcile;
pub mod reply;
pub mod engine;
