//! A keystore that keeps sensitive directories encrypted at rest.
//!
//! The library holds the verified core: the text and path rules, hex
//! encoding, the cryptographic envelope around per-file keys, the
//! in-memory tables of the keystore database with their query rules,
//! the policy glob matcher, the keystore lock state, the decisions of the
//! file interceptor and the state machine of the terminal interface.
#![allow(unused_imports)]

pub mod text;
pub mod crypto;
pub mod hex;
pub mod glob;
pub mod db;
pub mod path;
pub mod config;
pub mod daemon;
pub mod interceptor;
pub mod tui;
