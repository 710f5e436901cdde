//! A multi-stream frame relay.
//!
//! Producers push the latest frame of a named stream; consumers poll the
//! store and re-emit whatever the latest frame is as one multipart chunk
//! each; an optional per-stream toggle asks for each received frame to be
//! persisted under a monotonically increasing, zero-padded index.
//!
//! The crate holds the relay's state and rules: the three per-name tables
//! (latest frame, persistence toggle, next file index), the persister's
//! path layout, and the byte-exact framing of one MJPEG chunk. Transport,
//! scheduling and disk I/O live with the caller.

pub mod bytes;
pub mod digits;
pub mod mjpeg;
pub mod persist;
pub mod store;
pub mod table;
