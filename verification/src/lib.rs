//! Function-level tracing for binaries built with instrumentation sleds.
//!
//! At start-up the tracer rewrites the sleds that the compiler left at
//! every function entry, exit and tail call, so that each traced call
//! records an event into a per-thread buffer that is written to a trace
//! file in whole pieces. Offline, the events are replayed to find the
//! memory that a program does not give back.
//!
//! - [`flags`]: function flags and the packed function identifier.
//! - [`xray`]: the table of sled descriptors of an image.
//! - [`filter`]: the filter map that says which functions to patch.
//! - [`arch`]: the saved registers and the patched instructions of each
//!   target.
//! - [`setup`]: what the one-time setup decides.
//! - [`events`]: the event records and the per-thread recorder.
//! - [`layout`]: the trace file.
//! - [`memory`]: the offline memory analyzer.
//! - [`text`], [`bytes`], [`config`], [`util`]: helpers.

pub mod arch;
pub mod bytes;
pub mod config;
pub mod events;
pub mod filter;
pub mod flags;
pub mod layout;
pub mod memory;
pub mod setup;
pub mod text;
pub mod util;
pub mod xray;
