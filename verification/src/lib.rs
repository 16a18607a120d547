//! A DNS message codec and iterative resolver core.
//!
//! The codec reads and writes the 512-byte UDP wire format of RFC 1035:
//! the 12-byte header with its packed flag word, length-prefixed domain
//! names with compression pointers, questions, and resource records.
//! The resolver walks a frontier of candidate name servers through a
//! caller-supplied datagram transport until an answer or a terminal
//! failure is reached.

use vstd::prelude::*;

pub mod buffer;
pub mod header;
pub mod packet;
pub mod name;
pub mod resolver;
pub mod roundtrip;

verus! {

/// The failure kinds of the codec and the resolver.
#[derive(Clone, Copy, Debug, PartialEq, Eq, Structural)]
pub enum DnsError {
    /// A read or write would pass the 512-byte window.
    Overflow,
    /// The header's response code is out of range.
    MalformedHeader,
    /// A bad label length, a forward or cyclic compression pointer, a
    /// name over 255 bytes, or label text that is not UTF-8 — the last
    /// a demand of this codec's string-backed names, not of the wire
    /// format.
    MalformedName,
    /// The message is shorter than its section counts require.
    UnexpectedEof,
    /// Sending or receiving a datagram failed.
    NetworkError,
    /// The frontier was exhausted, or the lookup budget ran out,
    /// without an answer.
    NoServersRemaining,
}

} // verus!
