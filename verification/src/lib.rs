//! The SPELbook program registry: identifiers, on-chain records, their byte
//! layout, the instruction handlers and the local search cache.

pub mod ids;
pub mod state;
pub mod codec;
pub mod account;
pub mod register;
pub mod update;
pub mod guest;
pub mod cache;
pub mod storage;
pub mod requests;
