//! Core of a peer-to-peer node: XOR routing table, peer discovery, transport
//! bookkeeping, the framed bridge protocol and a round-robin consensus engine.
//!
//! Everything here is sequential and free of I/O: callers feed in clock
//! readings, received bytes and connection outcomes, and get back the new
//! state together with the bytes to send.
//!
//! Foundations
//! - [`text`]: decimal numbers, substring search, comma-separated lists
//! - [`wire`]: the byte layout of numbers, byte strings, texts, identifiers
//! - [`digest`]: BLAKE3 and SHA-256
//! - [`addr`]: peer endpoints and their text `a.b.c.d:port`
//! - [`node_id`]: 256-bit identifiers and the XOR metric
//!
//! Discovery
//! - [`dht`]: buckets and the routing table
//! - [`local_scan`]: candidates on the local host
//! - [`bootstrap`]: seeds and the flat list of known peers
//! - [`discovery`]: the pass that fuses the three sources
//! - [`home_discovery`]: endpoints advertised on the local network
//!
//! Transport and bridge
//! - [`message`]: the envelope between peers
//! - [`network`]: peer records, liveness, what to answer to a frame
//! - [`ipc`]: bridge messages and their frames
//! - [`blockchain_bridge`]: what the transport does for the consensus process
//!
//! Consensus
//! - [`types`]: blocks, votes, consensus messages
//! - [`consensus`]: the engine
//! - [`protocol`]: what the consensus process does on a tick and on a message
//! - [`cli`]: the command line of the consensus process
//!
//! The node
//! - [`config`]: configuration from command line and environment
//! - [`guild_home`]: the node's parts and its periodic tasks
//! - [`logger`]: the log and its ring of recent lines
//! - [`tui`]: what the dashboard computes

pub mod text;
pub mod wire;
pub mod digest;
pub mod addr;
pub mod node_id;

pub mod dht;
pub mod local_scan;
pub mod bootstrap;
pub mod discovery;
pub mod home_discovery;

pub mod message;
pub mod network;
pub mod ipc;
pub mod blockchain_bridge;

pub mod types;
pub mod consensus;
pub mod protocol;
pub mod cli;

pub mod config;
pub mod guild_home;
pub mod logger;
pub mod tui;
