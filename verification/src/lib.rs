//! Verified core of an `sshpass` replacement: prompt matching, command-line
//! rules, password stores and their file format, and the decisions of the
//! PTY session.

pub mod error;
pub mod text;
pub mod scan;
pub mod order;
pub mod matcher;
pub mod matcher_laws;
pub mod cli;
pub mod cli_laws;
pub mod password;
pub mod string_map;
pub mod keychain;
pub mod backend;
pub mod file_store;
pub mod store_laws;
pub mod store_order;
pub mod json_laws;
pub mod onepassword;
pub mod session;
pub mod signals;
