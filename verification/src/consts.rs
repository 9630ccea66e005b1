//! Protocol constants: sizes, defaults and timeouts.
//!
//! Timeouts are plain millisecond counts; the library never reads a clock,
//! callers pass the current time into the state machines.

use vstd::prelude::*;

verus! {

/// Block size used when the peers negotiate nothing else.
pub const DEFAULT_BLOCKSIZE: usize = 512;

/// Window size used when the peers negotiate nothing else.
pub const DEFAULT_WINDOWSIZE: usize = 1;

/// Smallest block size the server accepts in negotiation.
pub const MIN_BLOCKSIZE: usize = 8;

/// Largest block size the server accepts in negotiation.
pub const MAX_BLOCKSIZE: usize = 1024;

/// Length of the 2-byte opcode prefix.
pub const OPCODE_LEN: usize = 2;

/// Exact length of an ACK packet.
pub const ACK_LEN: usize = 4;

/// Offset of the payload inside a DATA packet.
pub const DATA_OFFSET: usize = 4;

/// A DATA frame at the largest accepted block size.
pub const MAX_PACKET_SIZE: usize = MAX_BLOCKSIZE + 4;

/// Receive buffer size: larger than any packet this endpoint accepts.
pub const PACKET_SIZE_MAX: usize = 4096;

/// How many times the sender retransmits before giving up.
pub const RETRY_COUNT: usize = 3;

/// Single receive attempt, in milliseconds.
pub const SEND_RECV_BLOCK_TIMEOUT_MS: u64 = 1000;

/// Sender retransmit trigger, in milliseconds.
pub const RESEND_TIMEOUT_MS: u64 = 2000;

/// Receiver overall inactivity limit, in milliseconds.
pub const RECV_TIMEOUT_MS: u64 = 6500;

/// Receiver lost-ACK retransmit interval, in milliseconds.
pub const RECV_ACK_TIMEOUT_MS: u64 = 2500;

} // verus!
