//! The decisions of a file server and its client that talk over QUIC on several
//! paths at once: which path carries the next packet, how peers are let in, what a
//! request asks for, how responses are sent piece by piece, and how much is sent
//! at a time. Sockets, clocks and files stay outside.

pub mod addr;
pub mod path;
pub mod scheduler;
pub mod ecf;
pub mod rl;
pub mod latency;
pub mod response;
pub mod serve;
pub mod cid;
pub mod packet;
pub mod token;
pub mod accept;
pub mod request;
pub mod events;
pub mod pacing;
pub mod stats;
pub mod client;
pub mod config;
pub mod qlog;
