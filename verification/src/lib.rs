//! Migration of container images between two Harbor registries.

pub mod client;
pub mod config;
pub mod discovery;
pub mod image;
pub mod listing;
pub mod migrator;
pub mod registry;
pub mod report;
pub mod run;
pub mod state;
pub mod text;
pub mod transfer;
