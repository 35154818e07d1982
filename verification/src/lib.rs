//! Wallet tracking engine: checksum validation of hex wallet addresses,
//! a per-wallet poll/dedup/persist/notify cycle, and the repository
//! semantics those cycles rely on.

pub mod address;
pub mod commands;
pub mod config;
pub mod digits;
pub mod models;
pub mod poller;
pub mod repository;
pub mod supervisor;
