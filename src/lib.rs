//! Builds threat-model diagrams from architecture descriptions: partitions
//! diagrams into sub-scopes, maps nodes to cells, resolves flow endpoints,
//! lays cells out on circles and synthesizes trust-boundary boxes.

pub mod ids;
pub mod threat;
pub mod config;
pub mod input;
pub mod process;
pub mod cell_data;
pub mod diagram;
pub mod mapping;
pub mod layout;
pub mod boundary;
pub mod order;
pub mod general;
pub mod laws;
pub mod reports;
