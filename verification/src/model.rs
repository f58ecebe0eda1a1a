//! The scaler's data: the registry of function descriptors, the idle pool
//! and the directory of busy instances.

pub mod instance;
pub mod meta_data;
pub mod placement;
