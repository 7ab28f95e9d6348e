//! Gaslite: the verified core of a gas-optimization engine for Solidity.

pub mod text;
pub mod split;
pub mod number;
pub mod order;
pub mod bytes;
pub mod utils;
pub mod unicode;
pub mod solidity;
pub mod constructor;
pub mod gas;
pub mod forge;
pub mod equivalence;
pub mod normalize;
pub mod analyze;
pub mod splice;
pub mod tools;
pub mod orchestrator;
pub mod logging;
pub mod health;
pub mod db;
pub mod json;
pub mod ingest;
pub mod retrieval;
pub mod agent;
pub mod dto;
pub mod state;
pub mod verify;
pub mod optimize;
pub mod pipeline;
