//! Client-side engine for a tabular-result wire protocol in the TDS style.
//!
//! The crate is organised bottom-up:
//!
//! * [`bytes`] — little-endian integer fields, signed and unsigned;
//! * [`value`] — the tagged cell values a row may carry, with their
//!   validity rules;
//! * [`codec`] — encoding and decoding of single cells, with the
//!   round-trip proofs;
//! * [`tokens`] — the self-describing units of a response stream
//!   (column metadata, rows, completions, in-band server errors);
//! * [`frame`] — splitting a message into length-prefixed packets and
//!   reassembling it;
//! * [`request`] — turning a statement (batch or parameterised call)
//!   into a request message;
//! * [`handshake`] — the pre-login/login negotiation state machine;
//! * [`session`] — one authenticated channel: at most one request in
//!   flight, idempotent close, incremental decoding of responses.
//!
//! The engine performs no I/O itself: callers hand it the bytes read
//! from a transport and write out the bytes it produces.

pub mod bytes;
pub mod value;
pub mod codec;
pub mod tokens;
pub mod frame;
pub mod request;
pub mod handshake;
pub mod session;
