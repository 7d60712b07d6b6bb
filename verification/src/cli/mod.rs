//! What the command-line front end decides: configuration lookups, which
//! snapshot a checkout means, and what a log listing shows.

pub mod checkout;
pub mod commit;
pub mod config;
pub mod create;
pub mod logs;
pub mod remote;
pub mod transport;
