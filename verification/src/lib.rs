//! Pixel placement over ICMPv6: the verified core of a service that turns
//! Echo Requests aimed at a large IPv6 prefix into a shared raster canvas.
//!
//! Everything in this crate is synchronous and free of I/O. The modules are,
//! leaves first: the prefix matcher, the fixed-size ping record, the packet
//! classifier, the canvas with its differ, the ping server state machine,
//! and the three decision procedures (byte pump, canvas task, fan-out hub)
//! that an asynchronous runtime drives from outside.

pub mod canvas;
pub mod classifier;
pub mod events;
pub mod hub;
pub mod ping;
pub mod ping_event;
pub mod prefix;
pub mod pump;
