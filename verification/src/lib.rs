//! The remote REPL runner: request framing, configuration parsing, the
//! passcode cipher and the decisions that the client and the server take.

pub mod text;
pub mod cypher;
pub mod table;
pub mod config;
pub mod server;
pub mod client;
pub mod utils;
pub mod eres;
pub mod repl;
pub mod repls;
pub mod cli;
