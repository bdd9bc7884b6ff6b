//! A small chat protocol over a stream of bytes, and the server that speaks
//! it.
//!
//! A client sends lines, each ended by a carriage return and a line feed:
//! `NICK olly` to take a nickname, `MSG :hello` to say something to
//! everyone, `QUIT` to leave. The server passes on what is said, with the
//! nickname of the sender in front: `:olly MSG :hello`.
//!
//! - [`codec`] cuts the bytes that arrive into lines and reads a message from
//!   each; [`framing`] states what one call of its decoder does, and
//!   [`chunking`] what follows for an input as a whole.
//! - [`message`] and [`command`] hold the messages, their grammar and the way
//!   they are written; [`text`] holds what the grammar is made of.
//! - [`server`] is the state of the server and its one step; [`connection`]
//!   is the step of the task that serves one client.
//!
//! What is used and not proved stands behind contracts that are taken on
//! trust: the byte buffer in [`buffer`], the reading of bytes as UTF-8 in
//! [`text`], and the lock of [`database`].

pub mod buffer;
pub mod chunking;
pub mod codec;
pub mod command;
pub mod connection;
pub mod database;
pub mod framing;
pub mod message;
pub mod server;
pub mod text;
