//! Zeta: the core of a decentralised social network.
//!
//! Users publish posts signed with secp256k1 keys; nodes store them,
//! relay them to other nodes and answer synchronisation requests.
//! This crate holds the verified logic: hex encoding, key handling,
//! signing and checking of posts, the node's local tables, and the
//! decisions a node or the hub directory takes on each message.
//! Sockets, timers, the web server and the database file live in the
//! application around it.

pub mod hexcode;
pub mod crypto;
pub mod text;
pub mod p2p;
pub mod post;
pub mod seqs;
pub mod storage;
pub mod addr;
pub mod network;
pub mod hub;
pub mod web;
pub mod display;
