//! A concurrent TCP port scanner core: probe-outcome classification, an
//! order-restoring sink that turns unordered probe completions into a
//! strictly increasing, gap-free result sequence, a presentation filter,
//! and line rendering.
//!
//! Network I/O itself (address resolution, connection attempts) lives in
//! the surrounding application; this crate holds the decision logic and
//! the ordering pipeline, with contracts.

pub mod pipeline;
pub mod range;
pub mod render;
pub mod sink;
pub mod status;
