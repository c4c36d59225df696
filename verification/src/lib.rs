//! A small name registry: clients bind a name to an IPv4 address and look
//! names up again. This crate holds the wire codec, the rules of the record
//! store and the decisions of a connection handler; sockets and files belong
//! to the program around it.

pub mod address;
pub mod client;
pub mod handler;
pub mod registration;
pub mod store;
pub mod text;
pub mod wire;
