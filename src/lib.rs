//! A store of named project configurations (a repository URL, an activation
//! flag and the local path of a clone) and the decisions taken when cloning,
//! starting and stopping the active ones.
pub mod config;
pub mod store;
pub mod text;
pub mod network;
pub mod laws;
