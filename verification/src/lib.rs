//! A message router for a binary WebSocket protocol: one authoritative
//! server peer and many client peers partitioned into numbered rooms.
//!
//! The verified core consists of the wire codec (`proto`, `message_stream`),
//! the router's topology and routing algorithm (`router`), the per-connection
//! heartbeat and frame-handling decisions (`conn`), and the upgrade policy of
//! the HTTP edge (`edge`). The surrounding process (sockets, timers, HTTP)
//! lives outside the library and drives these functions.

pub mod conn;
pub mod edge;
pub mod message_stream;
pub mod proto;
pub mod router;
