//! A TFTP endpoint library: the RFC 1350 base protocol with the blksize
//! (RFC 2348) and windowsize (RFC 7440) extensions.
//!
//! The library holds the verified core: the wire codec, the sliding-window
//! send and receive state machines, block-number ring arithmetic, the file
//! lock table, and the per-session decision logic.  All I/O (sockets, files,
//! clocks) stays outside; callers feed datagrams, byte blocks and the current
//! time in, and carry the produced frames out.

pub mod codec;
pub mod consts;
pub mod locks;
pub mod loopback;
pub mod options;
pub mod recv;
pub mod ring;
pub mod send;
pub mod session;
pub mod timer;
pub mod types;
pub mod wire;
