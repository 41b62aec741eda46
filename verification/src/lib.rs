//! The logic of `muffin`, a program that sends muffins from one computer to
//! another and measures how fast they arrive.
//!
//! Everything here works on plain values. Sockets, clocks, threads and
//! terminals belong to the program around it, which performs the actions that
//! this library decides on and hands back what came of them.
pub mod addr;
pub mod cli;
pub mod clock;
pub mod dstopts;
pub mod iface;
pub mod meter;
pub mod net_error;
pub mod payload;
pub mod reporter;
pub mod share;
pub mod sockets;
pub mod ssm;
pub mod tcp_client;
pub mod tcp_server;
pub mod tcp_stream;
mod text;
pub mod udp;
pub mod udp_server;
