//! The core of a headless client for a block-world game server.
//!
//! The crate holds the rules of the client and proves them; it opens no
//! socket and starts no task. A program around it moves the bytes.
//!
//! - [`protocol`]: variable-length integers, texts and the other fields of
//!   packets, frames, the compressed envelope, the stream cipher, the
//!   connection that puts them together, and the packets of a session.
//! - [`session`]: the life of a connection, from the handshake to the
//!   disconnect, as a machine that takes events and gives actions.
//! - [`driver`]: the session and its connection, kept in step, and what
//!   packets are to the session.
//! - [`account`], [`digest`], [`address`]: who logs in, the hash that names
//!   a login, and where the server is.
//! - [`world`]: chunks of blocks, and what movement asks of them.
//! - [`pathfinder`]: the steps that lead from a block, the search for the
//!   cheapest path, and the walking of it tick by tick.
//! - [`client`], [`disconnect`], [`schedule`]: the store of the clients, the
//!   systems that take a client off the server, and the plans of the
//!   plugins with the clock of the ticks.
//! - [`brigadier`]: builders for the nodes of a command tree.

pub mod account;
pub mod address;
pub mod brigadier;
pub mod client;
pub mod digest;
pub mod disconnect;
pub mod driver;
pub mod pathfinder;
pub mod position;
pub mod protocol;
pub mod schedule;
pub mod session;
pub mod world;
