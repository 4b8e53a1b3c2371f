//! slimHub: a ciphertext ring buffer that knows blind identifiers and arrival
//! times, and nothing of what it stores.

pub mod cli;
pub mod clock;
pub mod config;
pub mod document;
pub mod engine;
pub mod history;
pub mod hub;
pub mod ipc;
pub mod keys;
pub mod model;
pub mod reading;
pub mod ring;
pub mod storage;
pub mod topics;
