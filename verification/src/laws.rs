//! What the operations are for, stated over their inputs and results.

pub mod caching;
pub mod exporting;
pub mod ignoring;
pub mod instructions;
pub mod keys;
pub mod links;
pub mod names;
pub mod paths;
pub mod planning;
pub mod registries;
pub mod runs;
pub mod transfers;
pub mod trees;
pub mod unpacking;
pub mod variables;
