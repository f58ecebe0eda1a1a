//! A serverless function-instance scaler: the idle pool, the directory of
//! busy instances and the assign / idle decisions, as a verified state
//! machine that performs no I/O of its own.

pub mod messages;
pub mod model;
pub mod platform_client;
pub mod server;
pub mod table;
