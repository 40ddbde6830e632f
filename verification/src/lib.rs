//! Incremental decoding of a Server-Sent-Events text stream into events, for the `from sse`
//! command of Nushell.
//!
//! The stream arrives as chunks of text that may end anywhere, in the middle of a line or of
//! a field. A [`parser::Parser`] takes the chunks one by one and returns each event as soon
//! as the blank line behind it has arrived:
//!
//! - [`lines`] puts the chunks together again and cuts them into lines;
//! - [`parser`] reads the lines into the [`event::Event`] being assembled;
//! - [`commands`] answers each value of the command's input with record values of the host,
//!   built through [`host`];
//! - [`text`] and [`utf8`] hold what the others need to know of characters and bytes;
//! - [`laws`] states what holds on every input, first of all that the cutting of the stream
//!   into chunks never shows in the events.
//!
//! Every function is verified against its contract, except those of [`host`], which call the
//! host's own crate and whose contracts are taken on trust.

pub mod commands;
pub mod event;
pub mod host;
pub mod laws;
pub mod lines;
pub mod parser;
pub mod text;
pub mod utf8;
