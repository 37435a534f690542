//! Core of a terminal client for a line-oriented music-server protocol:
//! decoding server replies, building commands and batches, a hierarchical
//! navigation stack with filtering, and layered key-to-action resolution.

pub mod actions;
pub mod albums;
pub mod client;
pub mod codec;
pub mod config;
pub mod dirstack;
pub mod keys;
pub mod text;
