//! The decisions of a WebSocket I/O reactor.
//!
//! The reactor owns two connections to an exchange, one public and one
//! authenticated, the subscriptions on them and their sockets. This crate says what
//! it does on each thing that can happen: a frame or the end of a socket, the wish
//! of a caller, the outcome of an upgrade or of a token refresh, a timer. What it
//! needs of its surroundings it asks through a [`host::Link`], and the contract of
//! each function says which requests it makes for whatever answers it gets.

pub mod classify;
pub mod frame_routing;
pub mod frames;
pub mod gaps;
pub mod host;
pub mod inbound_dispatch;
pub mod json;
pub mod latency_histogram;
pub mod notes;
pub mod reactor;
pub mod request_response;
pub mod route;
pub mod send_ready;
pub mod socket_lifecycle;
pub mod sub_ack;
pub mod subscribe_send;
pub mod text;
pub mod throttle;
pub mod timer;
pub mod types;
