//! A SOCKS5 front end and its relay server: the request codec, the
//! per-connection session machines, the scheduler of stream pairs and the
//! token helpers of the event loop.

pub mod scheduler;
pub mod session;
pub mod socks5;
