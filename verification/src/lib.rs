//! Protocol codec and cipher for querying identity information from an
//! Alti-2 dive instrument over a serial line.
//!
//! The device speaks a framed, ASCII-hex-encoded request/response protocol
//! and protects some payloads with a symmetric block cipher whose key is
//! derived from per-device identity bytes. This crate holds the wire
//! framing, the identity-record decoder, and the block cipher; the serial
//! transport itself is left to the caller.

pub mod checksum;
pub mod cipher;
pub mod error;
pub mod frame;
pub mod hexcode;
pub mod identity;
