//! Evix: parallel evaluation of Nix attribute trees.
//!
//! The library holds what a master, its workers, a daemon and a command line decide and
//! compute; talking to Nix, to processes and to sockets is left to the program around it.

pub mod cli;
pub mod config;
pub mod connection_limit;
pub mod daemon;
pub mod error;
pub mod eval;
pub mod flake_ref;
pub mod json;
pub mod json_build;
pub mod json_frame;
pub mod layout;
pub mod lines;
pub mod master;
pub mod message_fields;
pub mod messages;
pub mod model;
pub mod ordered_map;
pub mod protocol;
pub mod remote_worker;
pub mod request_json;
pub mod request_line;
pub mod scheduler;
pub mod session;
pub mod session_cache;
pub mod session_key;
pub mod state;
pub mod text;
pub mod unix_path;
pub mod watch;
pub mod wire;
pub mod worker;
pub mod worker_process;
