//! Verified core of an SVM rollup: transfer bundling, delegation
//! instructions, the sequencer's batching decisions and the rollup's
//! in-memory account and transaction store.

pub mod bytes;
pub mod codec;
pub mod types;
pub mod keymap;
pub mod sdk;
pub mod bundler;
pub mod client;
pub mod delegation;
pub mod delegation_service;
pub mod frontend;
pub mod loader;
pub mod rollupdb;
pub mod sequencer;

