//! Verified core of a real-time spatial audio pipeline.
//!
//! A listener moves through a scene in which point sources play. Each
//! source's signal is rendered into an ambisonic sound field, the fields
//! are summed, and the sum is decoded for the listener's two ears. The
//! acoustic effects that do the rendering take frames of a fixed length;
//! the host audio graph brings blocks of whatever length it likes.
//!
//! This crate holds the control logic of that pipeline, proved with Verus:
//!
//! - [`adapter`]: the block adapter between host blocks and frames, over
//!   the mathematical model in [`model`];
//! - [`source_node`] and [`decode_node`]: the audio-thread state of the two
//!   kinds of node;
//! - [`params`]: the parameter snapshots that the control thread publishes
//!   and the patches that carry them to the audio thread;
//! - [`driver`]: the table of sources and the steps of a simulation tick;
//! - [`config`], [`ports`], [`layout`], [`silence`]: constants, channel
//!   counts, planar buffers and the host's silence hint;
//! - [`laws`]: what holds of the adapter over whole callbacks.
//!
//! Samples and parameter payloads are type parameters. The logic moves
//! them and never looks inside, so that all arithmetic on samples, which is
//! floating-point arithmetic, stays with the caller.

pub mod config;
pub mod error;
pub mod layout;
pub mod silence;
pub mod ports;
pub mod params;
pub mod model;
pub mod adapter;
pub mod source_node;
pub mod decode_node;
pub mod driver;
pub mod laws;
