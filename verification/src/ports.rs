//! The ports that the nodes show to the host graph.

use vstd::prelude::*;
use crate::config::{channels_for_order, ambisonic_channels, BINAURAL_CHANNELS};
use crate::error::ConstructionError;

verus! {

/// The most channels that a node of the host graph can have on one side.
pub const MAX_PORT_CHANNELS: u32 = 64;

/// How many input and output channels a node declares.
#[derive(Clone, Copy, Debug, PartialEq, Eq, Structural)]
pub struct PortLayout {
    pub inputs: u32,
    pub outputs: u32,
}

/// Asks the host library whether it supports a channel count.
///
/// Calls `firewheel::channel_config::ChannelCount::new`, which returns a
/// count for every number up to 64 and nothing above.
#[verifier::external_body]
pub(crate) fn host_supports(count: u32) -> (r: bool)
    ensures
        r == (count <= MAX_PORT_CHANNELS),
{
    firewheel::channel_config::ChannelCount::new(count).is_some()
}

/// The layout of a node with `inputs` input and `outputs` output channels,
/// where the host supports both counts.
pub fn port_layout(inputs: usize, outputs: usize) -> (r: Result<PortLayout, ConstructionError>)
    ensures
        match r {
            Ok(layout) => {
                &&& inputs <= MAX_PORT_CHANNELS
                &&& outputs <= MAX_PORT_CHANNELS
                &&& layout.inputs == inputs
                &&& layout.outputs == outputs
            },
            Err(e) => {
                &&& e == ConstructionError::UnsupportedChannelCount
                &&& (inputs > MAX_PORT_CHANNELS || outputs > MAX_PORT_CHANNELS)
            },
        },
{
    if inputs > u32::MAX as usize || outputs > u32::MAX as usize {
        return Err(ConstructionError::UnsupportedChannelCount);
    }
    let layout = PortLayout { inputs: inputs as u32, outputs: outputs as u32 };
    if host_supports(layout.inputs) && host_supports(layout.outputs) {
        Ok(layout)
    } else {
        Err(ConstructionError::UnsupportedChannelCount)
    }
}

/// The layout of a source node: `inputs` channels in, one ambisonic sound
/// field of order `order` out.
pub fn source_ports(inputs: usize, order: usize) -> (r: Result<PortLayout, ConstructionError>)
    ensures
        match r {
            Ok(layout) => {
                &&& inputs <= MAX_PORT_CHANNELS
                &&& channels_for_order(order as nat) <= MAX_PORT_CHANNELS
                &&& layout.inputs == inputs
                &&& layout.outputs == channels_for_order(order as nat)
            },
            Err(e) => {
                &&& e == ConstructionError::UnsupportedChannelCount
                &&& (inputs > MAX_PORT_CHANNELS || channels_for_order(order as nat)
                    > MAX_PORT_CHANNELS)
            },
        },
{
    match ambisonic_channels(order) {
        Some(channels) => port_layout(inputs, channels),
        None => Err(ConstructionError::UnsupportedChannelCount),
    }
}

/// The layout of the decode node: one ambisonic sound field of order
/// `order` in, two ears out.
pub fn decode_ports(order: usize) -> (r: Result<PortLayout, ConstructionError>)
    ensures
        match r {
            Ok(layout) => {
                &&& channels_for_order(order as nat) <= MAX_PORT_CHANNELS
                &&& layout.inputs == channels_for_order(order as nat)
                &&& layout.outputs == BINAURAL_CHANNELS
            },
            Err(e) => {
                &&& e == ConstructionError::UnsupportedChannelCount
                &&& channels_for_order(order as nat) > MAX_PORT_CHANNELS
            },
        },
{
    match ambisonic_channels(order) {
        Some(channels) => port_layout(channels, BINAURAL_CHANNELS),
        None => Err(ConstructionError::UnsupportedChannelCount),
    }
}

/// The connections that carry a bus of `channels` channels from one node
/// to the next: output port `i` to input port `i`.
pub fn bus_connections(channels: u32) -> (r: Vec<(u32, u32)>)
    ensures
        r@.len() == channels,
        forall|i: int| 0 <= i < channels ==> #[trigger] r@[i] == (i as u32, i as u32),
{
    let mut r: Vec<(u32, u32)> = Vec::new();
    let mut i: u32 = 0;
    while i < channels
        invariant
            i <= channels,
            r@.len() == i,
            forall|k: int| 0 <= k < i ==> #[trigger] r@[k] == (k as u32, k as u32),
        decreases channels - i,
    {
        r.push((i, i));
        i = i + 1;
    }
    r
}

} // verus!
