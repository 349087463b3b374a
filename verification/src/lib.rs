//! A codec for Open Sound Control messages.
//!
//! A message is an address and one typed value. [`parse`] turns a datagram
//! into a message, [`create_osc_message`] writes one into a buffer, and
//! [`create_osc_bundle`] packs a run of messages behind a time-tagged header,
//! stopping where the buffer is full so that a caller can resume into a fresh
//! one. Every function is total on byte buffers: no input makes it read or
//! write outside the buffer it was given.
//!
//! The wire format is stated once, as functions on byte sequences, in
//! [`wire`] and [`bundle`]; the contracts of the executable functions refer
//! to those, and [`laws`] proves what holds between them. What is taken on
//! trust from the standard library stands in [`trusted`].

pub mod bundle;
pub mod bytes;
pub mod decode;
pub mod encode;
pub mod laws;
pub mod message;
pub mod trusted;
pub mod wire;

pub use bundle::{
    create_osc_bundle, create_osc_bundle_at, create_osc_bundle_with, current_timetag, timetag,
    timetag_since_epoch,
};
pub use decode::{extract_osc_address, extract_osc_value, parse, parse_osc};
pub use encode::{create_osc_message, encoded_len, write_address};
pub use message::{MessageView, OscMessage, OscType, OscValue, ParserError, ValueView};
