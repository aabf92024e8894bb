//! A capture/decode/filter library for network frames.
//!
//! The library decodes raw Ethernet frames layer by layer into a
//! [`packet::ParsedPacket`], derives a canonical attribute signature from a
//! decoded packet, matches packets against a small textual filter language
//! ([`filter::Filter`]), and drives the control state machine of a capture
//! session ([`session::CaptureSession`]).  All I/O (the capture source, the
//! channels, the persisted capture file) lives outside this crate; the
//! library works on plain values and is verified.

pub mod addr;
pub mod filter;
pub mod packet;
pub mod session;
pub mod split;
pub mod text;
