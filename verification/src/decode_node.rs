//! The ambisonic decode node.
//!
//! One node per output bus takes the summed ambisonic sound field from the
//! host, hands whole frames out to be decoded for the listener's two ears,
//! and delivers the decoded stereo signal to the host.

use vstd::prelude::*;
use crate::adapter::{BlockAdapter, Delivery, Progress};
use crate::model::{AdapterView, Advanced};
use crate::config::{channels_for_order, BINAURAL_CHANNELS};
use crate::error::{BufferShapeError, ConstructionError, CycleError};
use crate::layout::{channels_of, planar, planes, planes_mut, split_planes};
use crate::params::{DecodeParams, DecodePatch, PatchError};
use crate::ports::{decode_ports, PortLayout, MAX_PORT_CHANNELS};
use crate::silence::{all_marked_silent, mask_marks_all};

verus! {

/// The mathematical state of a decode node.
#[verifier::ext_equal]
pub struct DecodeNodeView<S, L> {
    pub params: DecodeParams<L>,
    pub order: nat,
    pub adapter: AdapterView<S>,
}

impl<S, L> DecodeNodeView<S, L> {
    /// The invariant of every decode node: its adapter's, one input
    /// channel for each channel of the sound field, and two output
    /// channels.
    pub open spec fn wf(self) -> bool {
        &&& self.adapter.wf()
        &&& self.adapter.in_channels() == channels_for_order(self.order)
        &&& self.adapter.in_channels() <= MAX_PORT_CHANNELS
        &&& self.adapter.out_channels() == BINAURAL_CHANNELS
    }

    /// The host marks every input channel of the node as silent, so that
    /// the node leaves the block alone.
    pub open spec fn skips(self, mask: u64) -> bool {
        all_marked_silent(mask, self.adapter.in_channels())
    }

    /// Where the node's adapter ends when the node works through `block`
    /// from `start` on: it stops at every full frame.
    pub open spec fn advanced(self, block: Seq<Seq<S>>, start: nat) -> Advanced<S> {
        self.adapter.advanced(block, start, true)
    }
}

/// The audio-thread state of the decoder of one output bus.
pub struct DecodeNode<S, L> {
    params: DecodeParams<L>,
    order: usize,
    adapter: BlockAdapter<S>,
}

impl<S, L> View for DecodeNode<S, L> {
    type V = DecodeNodeView<S, L>;

    closed spec fn view(&self) -> DecodeNodeView<S, L> {
        DecodeNodeView { params: self.params, order: self.order as nat, adapter: self.adapter@ }
    }
}

impl<S: Copy, L> DecodeNode<S, L> {
    /// The node's invariant: the one of its mathematical state.
    pub open spec fn wf(&self) -> bool {
        self@.wf()
    }

    /// The reason for which a configuration is refused, if any.
    pub open spec fn refusal(order: nat, frame_size: nat, max_block: nat) -> Option<
        ConstructionError,
    > {
        if channels_for_order(order) > MAX_PORT_CHANNELS {
            Some(ConstructionError::UnsupportedChannelCount)
        } else if frame_size == 0 {
            Some(ConstructionError::ZeroFrameSize)
        } else if max_block == 0 {
            Some(ConstructionError::ZeroBlockSize)
        } else {
            None
        }
    }

    /// Makes the node that decodes a sound field of order `order` in
    /// frames of `frame_size` samples, for a host whose blocks are at most
    /// `max_block` frames long.
    pub fn new(
        params: DecodeParams<L>,
        order: usize,
        frame_size: usize,
        max_block: usize,
        silence: S,
    ) -> (r: Result<Self, ConstructionError>)
        ensures
            match r {
                Ok(node) => {
                    &&& Self::refusal(order as nat, frame_size as nat, max_block as nat) is None
                    &&& node.wf()
                    &&& node@.params == params
                    &&& node@.order == order
                    &&& node@.adapter == BlockAdapter::<S>::initial(
                        frame_size as nat,
                        channels_for_order(order as nat),
                        BINAURAL_CHANNELS as nat,
                        max_block as nat,
                        silence,
                    )
                },
                Err(e) => Self::refusal(order as nat, frame_size as nat, max_block as nat) == Some(
                    e,
                ),
            },
    {
        let layout = match decode_ports(order) {
            Ok(layout) => layout,
            Err(e) => {
                return Err(e);
            },
        };
        proof {
            assert((order + 1) * (order + 1) >= 1) by (nonlinear_arith)
                requires
                    order >= 0,
            ;
        }
        match BlockAdapter::new(
            frame_size,
            layout.inputs as usize,
            BINAURAL_CHANNELS,
            max_block,
            silence,
        ) {
            Ok(adapter) => {
                let node = DecodeNode { params, order, adapter };
                proof {
                    assert(node@.adapter.pending.len() == channels_for_order(order as nat));
                    assert(node@.adapter.queued.len() == BINAURAL_CHANNELS);
                }
                Ok(node)
            },
            Err(e) => Err(e),
        }
    }

    /// The channels that the node declares to the host.
    pub fn ports(&self) -> (r: PortLayout)
        requires
            self.wf(),
        ensures
            r.inputs == self@.adapter.in_channels(),
            r.outputs == self@.adapter.out_channels(),
    {
        PortLayout {
            inputs: self.adapter.in_channels() as u32,
            outputs: self.adapter.out_channels() as u32,
        }
    }

    /// The order of the sound field that the node decodes.
    pub fn order(&self) -> (r: usize)
        ensures
            r == self@.order,
    {
        self.order
    }

    /// The parameters that the node holds.
    pub fn params(&self) -> (r: &DecodeParams<L>)
        ensures
            *r == self@.params,
    {
        &self.params
    }

    /// The node's block adapter.
    pub fn adapter(&self) -> (r: &BlockAdapter<S>)
        ensures
            r@ == self@.adapter,
    {
        &self.adapter
    }

    /// Applies one patch to the node's parameters.
    pub fn apply(&mut self, patch: DecodePatch<L>)
        ensures
            final(self)@.params == old(self)@.params.patched(patch),
            final(self)@.adapter == old(self)@.adapter,
            final(self)@.order == old(self)@.order,
    {
        self.params.apply(patch);
    }

    /// Applies an event to the node's parameters if it stands for a patch.
    /// An event that does not is dropped: the node stays as it was.
    pub fn apply_event(&mut self, data: L, path: &[u32]) -> (r: Result<(), PatchError>)
        ensures
            final(self)@.adapter == old(self)@.adapter,
            final(self)@.order == old(self)@.order,
            match r {
                Ok(()) => {
                    &&& DecodeParams::decoded(data, path@) is Ok
                    &&& final(self)@.params == old(self)@.params.patched(
                        DecodeParams::decoded(data, path@)->Ok_0,
                    )
                },
                Err(e) => {
                    &&& DecodeParams::decoded(data, path@) == Err::<DecodePatch<L>, PatchError>(e)
                    &&& final(self)@.params == old(self)@.params
                },
            },
    {
        match DecodeParams::patch(data, path) {
            Ok(patch) => {
                self.params.apply(patch);
                Ok(())
            },
            Err(e) => Err(e),
        }
    }

    /// Whether the node leaves a block alone: the host's silence mask
    /// marks every input channel.
    pub fn skips(&self, mask: u64) -> (r: bool)
        ensures
            r == self@.skips(mask),
    {
        mask_marks_all(mask, self.adapter.in_channels())
    }

    /// Works through `inputs` from index `start` on and stops where a
    /// frame is full, for the frame to be decoded, or at the end of the
    /// block. A block of the wrong shape is refused and leaves the node as
    /// it was.
    pub fn advance(&mut self, inputs: &[&[S]], start: usize) -> (r: Result<
        Progress,
        BufferShapeError,
    >)
        requires
            old(self).wf(),
        ensures
            final(self).wf(),
            final(self)@.params == old(self)@.params,
            final(self)@.order == old(self)@.order,
            match r {
                Ok(p) => {
                    &&& old(self)@.adapter.accepts(planes(inputs@), start as nat)
                    &&& final(self)@.adapter == old(self)@.advanced(
                        planes(inputs@),
                        start as nat,
                    ).state
                    &&& p.next == old(self)@.advanced(planes(inputs@), start as nat).next
                    &&& p.step == old(self)@.advanced(planes(inputs@), start as nat).step
                },
                Err(e) => {
                    &&& !old(self)@.adapter.accepts(planes(inputs@), start as nat)
                    &&& final(self)@.adapter == old(self)@.adapter
                    &&& e == if inputs@.len() != old(self)@.adapter.in_channels() {
                        BufferShapeError::Channels
                    } else {
                        BufferShapeError::Frames
                    }
                },
            },
    {
        let r = self.adapter.advance(inputs, start, true);
        proof {
            if r is Ok {
                old(self)@.adapter.lemma_advanced(planes(inputs@), start as nat, true);
            }
        }
        r
    }

    /// The frame that waits to be decoded, one accumulator per ambisonic
    /// channel.
    pub fn frame(&self) -> (r: &Vec<Vec<S>>)
        ensures
            channels_of(r@) == self@.adapter.pending,
    {
        self.adapter.frame()
    }

    /// Writes the frame that waits, channel after channel, into `out` for
    /// the effects to read. Nothing is written where no whole frame waits
    /// or `out` has not exactly the room for it.
    pub fn pack_frame(&self, out: &mut [S]) -> (r: Result<(), BufferShapeError>)
        requires
            self.wf(),
        ensures
            final(out)@.len() == old(out)@.len(),
            match r {
                Ok(()) => {
                    &&& self@.adapter.frame_ready()
                    &&& old(out)@.len() == self@.adapter.in_channels() * self@.adapter.frame_size
                    &&& final(out)@ == planar(self@.adapter.pending, self@.adapter.frame_size)
                },
                Err(e) => {
                    &&& e == BufferShapeError::Frames
                    &&& !(self@.adapter.frame_ready() && old(out)@.len()
                        == self@.adapter.in_channels() * self@.adapter.frame_size)
                    &&& final(out)@ == old(out)@
                },
            },
    {
        self.adapter.pack_frame(out)
    }

    /// Takes over the stereo signal that a cycle decoded, given as planar
    /// data of one frame per ear. Data of another length is replaced by
    /// one frame of silence.
    pub fn complete_cycle(&mut self, rendered: &[S]) -> (r: Result<(), CycleError>)
        requires
            old(self).wf(),
        ensures
            final(self).wf(),
            final(self)@.params == old(self)@.params,
            final(self)@.order == old(self)@.order,
            match r {
                Ok(()) => {
                    &&& old(self)@.adapter.frame_ready()
                    &&& rendered@.len() == old(self)@.adapter.out_channels() * old(
                        self,
                    )@.adapter.frame_size
                    &&& final(self)@.adapter == old(self)@.adapter.completed(
                        split_planes(
                            rendered@,
                            old(self)@.adapter.out_channels(),
                            old(self)@.adapter.frame_size,
                        ),
                    )
                },
                Err(CycleError::NotReady) => {
                    &&& !old(self)@.adapter.frame_ready()
                    &&& final(self)@.adapter == old(self)@.adapter
                },
                Err(CycleError::BufferShape) => {
                    &&& old(self)@.adapter.frame_ready()
                    &&& rendered@.len() != old(self)@.adapter.out_channels() * old(
                        self,
                    )@.adapter.frame_size
                    &&& final(self)@.adapter == old(self)@.adapter.completed(
                        old(self)@.adapter.silent_frame(),
                    )
                },
            },
    {
        self.adapter.complete_cycle(rendered)
    }

    /// Hands the host `frames` frames of the stereo signal on both
    /// channels of `outputs`: silence while the pre-roll builds up and
    /// where the queues run dry. A block of the wrong shape is refused and
    /// nothing changes.
    pub fn drain(&mut self, frames: usize, outputs: &mut [&mut [S]]) -> (r: Result<
        Delivery,
        BufferShapeError,
    >)
        requires
            old(self).wf(),
        ensures
            final(self).wf(),
            final(self)@.params == old(self)@.params,
            final(self)@.order == old(self)@.order,
            final(outputs)@.len() == old(outputs)@.len(),
            match r {
                Ok(d) => {
                    &&& old(self)@.adapter.delivers_into(
                        planes_mut(old(outputs)@),
                        frames as nat,
                    )
                    &&& final(self)@.adapter == old(self)@.adapter.drained(frames as nat)
                    &&& d == if old(self)@.adapter.in_preroll() {
                        Delivery::Silence
                    } else {
                        Delivery::Audio
                    }
                    &&& forall|c: int|
                        0 <= c < old(outputs)@.len() ==> (#[trigger] planes_mut(
                            final(outputs)@,
                        )[c]) == old(self)@.adapter.delivery(
                            frames as nat,
                            c,
                            planes_mut(old(outputs)@)[c],
                        )
                },
                Err(e) => {
                    &&& !old(self)@.adapter.delivers_into(
                        planes_mut(old(outputs)@),
                        frames as nat,
                    )
                    &&& final(self)@.adapter == old(self)@.adapter
                    &&& planes_mut(final(outputs)@) == planes_mut(old(outputs)@)
                    &&& e == if old(outputs)@.len() != old(self)@.adapter.out_channels() {
                        BufferShapeError::Channels
                    } else {
                        BufferShapeError::Frames
                    }
                },
            },
    {
        self.adapter.drain(frames, outputs)
    }
}

} // verus!
