//! Keeps a set of DNS records pointed at the host's current public address.
//!
//! The library is the update engine without its network: it resolves nothing
//! and writes nothing itself. It decides when a cycle runs, what an answer of
//! an echo endpoint amounts to, whether an address is new, which requests
//! write it to the provider, and what their answers mean. Whoever drives it
//! performs the requests and the waits and reports how they ended.

pub mod address;
pub mod cli;
pub mod config;
pub mod controller;
pub mod cycle;
pub mod detector;
pub mod ipv4;
pub mod ipv6;
pub mod ipv6_grammar;
pub mod record;
pub mod resolver;
pub mod service;
pub mod text;
pub mod updater;
