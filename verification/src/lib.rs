//! A one-shot request/response exchange over a local stream socket: the
//! message model, the wire codec on bytes, the reply rule of a connection
//! handler, and the decisions of the server loop and of the command line.

pub mod message;
pub mod codec;
pub mod round_trip;
pub mod stream;
pub mod exchange;
pub mod server;
pub mod command;
