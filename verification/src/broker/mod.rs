//! The broker's own logic: configuration, authentication, topic aliases,
//! the subscription trie, sessions and retained messages.

pub mod keyed;
pub mod config;
pub mod auth;
pub mod topic_alias;
pub mod topic_trie;
pub mod session;
pub mod retained;
pub mod connection;
pub mod engine;
