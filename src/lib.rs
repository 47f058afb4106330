//! An in-memory key-value and list server core: a keyspace of scalars with
//! expiry and of lists, a command executor, and a registry of blocking pops
//! served in order of registration.

pub mod commands;
pub mod handler;
pub mod lemmas;
pub mod parse;
pub mod rdb;
pub mod redis;
pub mod resp;
