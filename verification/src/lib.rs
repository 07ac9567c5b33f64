//! A room-based broadcast relay: clients join rooms, talk in them, and the
//! owner of a room drives the progress that the others follow.
//!
//! - [`context`]: the wire format of the frames that go to a client.
//! - [`server`]: the registry, which owns every session and every room and
//!   carries out the commands, one at a time.
//! - [`session`]: the protocol handler of one connection, which turns the
//!   text commands of a client into commands to the registry, and the
//!   answers of the registry into frames.
//! - [`model`]: the registry as a mathematical state, of which the
//!   contracts of [`server`] speak.
//! - [`laws`]: what holds of that state whatever the commands are.
//! - [`text`]: numerals, comparison and scanning of text.
//!
//! The library decides and encodes; it does no input or output. What a
//! command sends comes back as a list of deliveries, and what a session
//! writes goes into an outbox, for the transport to send.

pub mod context;
pub mod laws;
pub mod model;
pub mod server;
pub mod session;
pub mod text;
