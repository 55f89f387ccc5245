//! An actor runtime's decision core: inboxes, journals, routing, supervision
//! and the batch step, each stated as a verified function over plain values.
//!
//! The library performs no I/O. Tasks, clocks, channels and databases live in
//! the host crate; it reads the world, hands the library plain values, and
//! carries out what the library decides.

pub mod actor;
pub mod builder;
pub mod clock;
pub mod context;
pub mod envelope;
pub mod ids;
pub mod inbox;
pub mod journal;
pub mod journal_daow;
pub mod json;
pub mod kernel;
pub mod named_map;
pub mod observe;
pub mod pool;
pub mod registry;
pub mod reply;
pub mod schema;
pub mod supervision;
pub mod text;
