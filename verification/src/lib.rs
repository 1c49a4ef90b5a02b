//! Forwarding of unauthenticated QUIC traffic to a camouflage upstream.
//!
//! A JLS server hands every datagram of a peer that failed to authenticate to
//! an ordinary QUIC server, and hands the answers back. This crate is the part
//! of that which decides: which peers are forwarded and where to, how many
//! bytes a peer may push through per cycle, how the first buffered datagrams
//! are cut up, and how an upstream name becomes a socket. Sockets themselves
//! are opaque handles, moved around but never touched.
pub mod addr;
pub mod buffer;
pub mod ecn;
pub mod forward;
pub mod laws;
pub mod limiter;
pub mod probe;
pub mod table;
pub mod time;
pub mod transmit;
pub mod upstream;
