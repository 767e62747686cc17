//! The decisions of an mDNS reflector: which packets are repeated to which
//! interfaces, how the sockets are set up, and how the daemon starts and stops.
//!
//! Nothing here performs I/O. Where the reflector alternates system calls and
//! decisions, a function of this library takes what the last call came to and
//! says which call is next.

pub mod addr;
pub mod daemon;
pub mod filter;
pub mod header;
pub mod pidfile;
pub mod reflector;
pub mod sockets;
pub mod unix;
pub mod tasks;
pub mod utils;
