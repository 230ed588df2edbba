//! A static file server's decision logic: request paths, directory listings,
//! response policy, reload filtering and startup addresses.

pub mod text;
pub mod path;
pub mod request;
pub mod reload;
pub mod policy;
pub mod output;
pub mod backend;
pub mod server;
pub mod cli;
pub mod encoding;
pub mod order;
pub mod directory;
pub mod listing;
