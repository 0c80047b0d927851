//! Core logic of a fixed-width framed broadcast chat server: the framing
//! codec, the account store, and the router that tracks connected users,
//! fans chat text out, and dispatches commands.
//!
//! All text is handled as byte strings; callers convert to and from
//! `String` at the process boundary.
pub mod codec;
pub mod command;
pub mod ingest;
pub mod router;
pub mod store;
pub mod text;
