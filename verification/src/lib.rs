//! Core of a terminal-driven radio client.
//!
//! The client discovers remote radio proxies over UDP, tracks their liveness,
//! lets the user pick one through a telnet-rendered menu, and forwards the
//! active proxy's audio bytes to standard output.  This crate holds the
//! verified heart of that program: the UDP wire codec, the keystroke
//! tokenizer, the screen builder, and the event-driven model state machine.
//! The surrounding process (sockets, threads, channels, logging) drives these
//! functions and performs the effects they return.

pub mod addr;
pub mod cmd;
pub mod events;
pub mod model;
pub mod proxy;
pub mod telnet;
pub mod ui;
