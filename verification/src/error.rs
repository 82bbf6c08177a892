//! Error kinds of the pipeline.

use vstd::prelude::*;

verus! {

/// A pipeline object was asked for with a configuration that cannot work.
#[derive(Clone, Copy, Debug, PartialEq, Eq, Structural)]
pub enum ConstructionError {
    /// The frame size is zero.
    ZeroFrameSize,
    /// The host's largest block is zero frames long.
    ZeroBlockSize,
    /// No input channel was asked for.
    NoInputChannels,
    /// No output channel was asked for.
    NoOutputChannels,
    /// A channel count is above what the host graph supports.
    UnsupportedChannelCount,
}

/// A buffer handed over at an effect or host boundary has the wrong shape.
#[derive(Clone, Copy, Debug, PartialEq, Eq, Structural)]
pub enum BufferShapeError {
    /// The number of channels is not the configured one.
    Channels,
    /// A channel is too short or the channels differ in length.
    Frames,
}

/// A rendered frame could not be taken over as it was handed in.
#[derive(Clone, Copy, Debug, PartialEq, Eq, Structural)]
pub enum CycleError {
    /// The accumulators hold no whole frame: no cycle is due.
    NotReady,
    /// The rendered frame has the wrong length: silence was queued in its
    /// place.
    BufferShape,
}

} // verus!
