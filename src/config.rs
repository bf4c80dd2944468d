//! Global configuration: metadata, sub-scope declarations, trust boundaries, assets.

use vstd::prelude::*;

verus! {

/// Global configuration: metadata, sub-scope declarations, trust boundaries
/// and assets.
#[derive(Debug, Clone)]
pub struct Config {
    pub threat_dragon_version: String,
    pub title: String,
    pub owner: String,
    pub description: String,
    pub trust_boundaries: Vec<TrustBoundary>,
    pub diagrams: Vec<Diagrams>,
    pub assets: Vec<Asset>,
}

/// Definition of a named trust boundary.
#[derive(Debug, Clone)]
pub struct TrustBoundary {
    pub name: String,
    pub description: String,
    pub limit_of_access: String,
    pub level_of_authorization: String,
}

/// A sub-scope declaration: the child diagram `name` holds the nodes of the
/// diagram titled `parent` whose names are listed in `nodes`.
#[derive(Debug, Clone)]
pub struct Diagrams {
    pub name: String,
    pub parent: String,
    pub nodes: Vec<String>,
}

/// Definition of a named asset carried by flows.
#[derive(Debug, Clone)]
pub struct Asset {
    pub name: String,
    pub description: String,
}

#[derive(Debug, Clone)]
pub enum ConfigError {
    UnknownError(String),
}

/// Takes over settings from a configuration.
pub trait ConfigYaml {
    fn from_config(&mut self, config: &Config) -> Result<(), ConfigError>;
}

} // verus!
