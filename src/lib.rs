//! A framed byte-transformation protocol server's core: the byte codec, the
//! per-connection state machine with its number sub-protocol, the primality test,
//! and the bookkeeping of a fixed-size worker pool.

pub mod connection;
pub mod number;
pub mod pool;
pub mod prime;
pub mod protocol;
pub mod server;
