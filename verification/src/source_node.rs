//! The per-source ambisonic node.
//!
//! One node stands for one sounding source. It takes the source's mono or
//! stereo signal from the host, hands whole frames out to be rendered into
//! an ambisonic sound field, and delivers the rendered field to the host.
//! While the simulator has not reported on the source yet, the node
//! renders nothing and delivers silence.

use vstd::prelude::*;
use crate::adapter::{BlockAdapter, Delivery, Progress};
use crate::model::{AdapterView, Advanced};
use crate::config::channels_for_order;
use crate::error::{BufferShapeError, ConstructionError, CycleError};
use crate::layout::{channels_of, planar, planes, planes_mut, split_planes};
use crate::params::{PatchError, SourceData, SourceParams, SourcePatch};
use crate::ports::{source_ports, PortLayout, MAX_PORT_CHANNELS};

verus! {

/// The mathematical state of a source node.
#[verifier::ext_equal]
pub struct SourceNodeView<S, V, D, R> {
    pub params: SourceParams<V, D, R>,
    pub order: nat,
    pub adapter: AdapterView<S>,
}

impl<S, V, D, R> SourceNodeView<S, V, D, R> {
    /// The invariant of every source node: its adapter's, one or two
    /// input channels, and one output channel for each channel of the
    /// sound field.
    pub open spec fn wf(self) -> bool {
        &&& self.adapter.wf()
        &&& 1 <= self.adapter.in_channels() <= 2
        &&& self.adapter.out_channels() == channels_for_order(self.order)
        &&& self.adapter.out_channels() <= MAX_PORT_CHANNELS
    }

    /// The node can render: the simulator has reported on the source and
    /// on the listener's reverb.
    pub open spec fn ready(self) -> bool {
        self.params.complete()
    }

    /// Where the node's adapter ends when the node works through `block`
    /// from `start` on.
    pub open spec fn advanced(self, block: Seq<Seq<S>>, start: nat) -> Advanced<S> {
        self.adapter.advanced(block, start, self.ready())
    }
}

/// The audio-thread state of one sounding source.
pub struct SourceNode<S, V, D, R> {
    params: SourceParams<V, D, R>,
    order: usize,
    adapter: BlockAdapter<S>,
}

impl<S, V, D, R> View for SourceNode<S, V, D, R> {
    type V = SourceNodeView<S, V, D, R>;

    closed spec fn view(&self) -> SourceNodeView<S, V, D, R> {
        SourceNodeView { params: self.params, order: self.order as nat, adapter: self.adapter@ }
    }
}

impl<S: Copy, V, D, R> SourceNode<S, V, D, R> {
    /// The node's invariant: the one of its mathematical state.
    pub open spec fn wf(&self) -> bool {
        self@.wf()
    }

    /// The reason for which a configuration is refused, if any.
    pub open spec fn refusal(inputs: nat, order: nat, frame_size: nat, max_block: nat) -> Option<
        ConstructionError,
    > {
        if inputs == 0 {
            Some(ConstructionError::NoInputChannels)
        } else if inputs > 2 || channels_for_order(order) > MAX_PORT_CHANNELS {
            Some(ConstructionError::UnsupportedChannelCount)
        } else if frame_size == 0 {
            Some(ConstructionError::ZeroFrameSize)
        } else if max_block == 0 {
            Some(ConstructionError::ZeroBlockSize)
        } else {
            None
        }
    }

    /// Makes the node of a source with `inputs` input channels, one or
    /// two, that renders a sound field of order `order` in frames of
    /// `frame_size` samples, for a host whose blocks are at most
    /// `max_block` frames long.
    pub fn new(
        params: SourceParams<V, D, R>,
        inputs: usize,
        order: usize,
        frame_size: usize,
        max_block: usize,
        silence: S,
    ) -> (r: Result<Self, ConstructionError>)
        ensures
            match r {
                Ok(node) => {
                    &&& Self::refusal(
                        inputs as nat,
                        order as nat,
                        frame_size as nat,
                        max_block as nat,
                    ) is None
                    &&& node.wf()
                    &&& node@.params == params
                    &&& node@.order == order
                    &&& node@.adapter == BlockAdapter::<S>::initial(
                        frame_size as nat,
                        inputs as nat,
                        channels_for_order(order as nat),
                        max_block as nat,
                        silence,
                    )
                },
                Err(e) => Self::refusal(
                    inputs as nat,
                    order as nat,
                    frame_size as nat,
                    max_block as nat,
                ) == Some(e),
            },
    {
        if inputs == 0 {
            return Err(ConstructionError::NoInputChannels);
        }
        if inputs > 2 {
            return Err(ConstructionError::UnsupportedChannelCount);
        }
        let layout = match source_ports(inputs, order) {
            Ok(layout) => layout,
            Err(e) => {
                return Err(e);
            },
        };
        proof {
            assert((order + 1) * (order + 1) >= 1) by (nonlinear_arith)
                requires
                    order >= 0,
            ;
        }
        match BlockAdapter::new(frame_size, inputs, layout.outputs as usize, max_block, silence) {
            Ok(adapter) => {
                let node = SourceNode { params, order, adapter };
                proof {
                    assert(node@.adapter.pending.len() == inputs);
                    assert(node@.adapter.queued.len() == channels_for_order(order as nat));
                }
                Ok(node)
            },
            Err(e) => Err(e),
        }
    }

    /// The channels that the node declares to the host.
    pub fn ports(&self) -> (r: PortLayout)
        requires
            self.wf(),
        ensures
            r.inputs == self@.adapter.in_channels(),
            r.outputs == self@.adapter.out_channels(),
    {
        PortLayout {
            inputs: self.adapter.in_channels() as u32,
            outputs: self.adapter.out_channels() as u32,
        }
    }

    /// The order of the sound field that the node renders.
    pub fn order(&self) -> (r: usize)
        ensures
            r == self@.order,
    {
        self.order
    }

    /// The parameters that the node holds.
    pub fn params(&self) -> (r: &SourceParams<V, D, R>)
        ensures
            *r == self@.params,
    {
        &self.params
    }

    /// The node's block adapter.
    pub fn adapter(&self) -> (r: &BlockAdapter<S>)
        ensures
            r@ == self@.adapter,
    {
        &self.adapter
    }

    /// Whether the node can render.
    pub fn is_ready(&self) -> (r: bool)
        ensures
            r == self@.ready(),
    {
        self.params.is_complete()
    }

    /// Applies one patch to the node's parameters. A patch that does not
    /// fit is dropped: the node stays as it was.
    pub fn apply(&mut self, patch: SourcePatch<V, D, R>) -> (r: Result<(), PatchError>)
        ensures
            final(self)@.params == old(self)@.params.patched(patch),
            final(self)@.adapter == old(self)@.adapter,
            final(self)@.order == old(self)@.order,
            match r {
                Ok(()) => old(self)@.params.fits(patch),
                Err(e) => {
                    &&& e == PatchError::Mismatch
                    &&& !old(self)@.params.fits(patch)
                    &&& final(self)@.params == old(self)@.params
                },
            },
    {
        self.params.apply(patch)
    }

    /// Applies the patches of a queue to the node's parameters, first to
    /// last, drops those that do not fit, and returns how many were
    /// dropped.
    pub fn apply_all(&mut self, patches: Vec<SourcePatch<V, D, R>>) -> (dropped: usize)
        ensures
            final(self)@.params == old(self)@.params.patched_all(patches@),
            final(self)@.adapter == old(self)@.adapter,
            final(self)@.order == old(self)@.order,
            dropped == old(self)@.params.dropped(patches@),
    {
        self.params.apply_all(patches)
    }

    /// Applies an event to the node's parameters if it stands for a patch
    /// that fits. Any other event is dropped: the node stays as it was.
    pub fn apply_event(&mut self, data: SourceData<V, D, R>, path: &[u32]) -> (r: Result<
        (),
        PatchError,
    >)
        ensures
            final(self)@.adapter == old(self)@.adapter,
            final(self)@.order == old(self)@.order,
            match r {
                Ok(()) => {
                    &&& old(self)@.params.refused(data, path@) is None
                    &&& final(self)@.params == old(self)@.params.patched(
                        SourceParams::decoded(data, path@)->Ok_0,
                    )
                },
                Err(e) => {
                    &&& old(self)@.params.refused(data, path@) == Some(e)
                    &&& final(self)@.params == old(self)@.params
                },
            },
    {
        self.params.apply_event(data, path)
    }

    /// Works through `inputs` from index `start` on. Where a frame is
    /// full and the node is ready, the run stops for the frame to be
    /// rendered. Where the node is not ready, every full frame is
    /// completed with silence and the run ends with the block. A block of
    /// the wrong shape is refused and leaves the node as it was.
    pub fn advance(&mut self, inputs: &[&[S]], start: usize) -> (r: Result<
        Progress,
        BufferShapeError,
    >)
        requires
            old(self).wf(),
        ensures
            final(self).wf(),
            final(self)@.params == old(self)@.params,
            final(self)@.order == old(self)@.order,
            match r {
                Ok(p) => {
                    &&& old(self)@.adapter.accepts(planes(inputs@), start as nat)
                    &&& final(self)@.adapter == old(self)@.advanced(
                        planes(inputs@),
                        start as nat,
                    ).state
                    &&& p.next == old(self)@.advanced(planes(inputs@), start as nat).next
                    &&& p.step == old(self)@.advanced(planes(inputs@), start as nat).step
                },
                Err(e) => {
                    &&& !old(self)@.adapter.accepts(planes(inputs@), start as nat)
                    &&& final(self)@.adapter == old(self)@.adapter
                    &&& e == if inputs@.len() != old(self)@.adapter.in_channels() {
                        BufferShapeError::Channels
                    } else {
                        BufferShapeError::Frames
                    }
                },
            },
    {
        let ready = self.params.is_complete();
        let r = self.adapter.advance(inputs, start, ready);
        proof {
            if r is Ok {
                old(self)@.adapter.lemma_advanced(planes(inputs@), start as nat, ready);
            }
        }
        r
    }

    /// The frame that waits to be rendered, one accumulator per input
    /// channel.
    pub fn frame(&self) -> (r: &Vec<Vec<S>>)
        ensures
            channels_of(r@) == self@.adapter.pending,
    {
        self.adapter.frame()
    }

    /// Writes the frame that waits, channel after channel, into `out` for
    /// the effects to read. Nothing is written where no whole frame waits
    /// or `out` has not exactly the room for it.
    pub fn pack_frame(&self, out: &mut [S]) -> (r: Result<(), BufferShapeError>)
        requires
            self.wf(),
        ensures
            final(out)@.len() == old(out)@.len(),
            match r {
                Ok(()) => {
                    &&& self@.adapter.frame_ready()
                    &&& old(out)@.len() == self@.adapter.in_channels() * self@.adapter.frame_size
                    &&& final(out)@ == planar(self@.adapter.pending, self@.adapter.frame_size)
                },
                Err(e) => {
                    &&& e == BufferShapeError::Frames
                    &&& !(self@.adapter.frame_ready() && old(out)@.len()
                        == self@.adapter.in_channels() * self@.adapter.frame_size)
                    &&& final(out)@ == old(out)@
                },
            },
    {
        self.adapter.pack_frame(out)
    }

    /// Takes over the sound field that a cycle rendered, given as planar
    /// data of one frame per ambisonic channel. Data of another length is
    /// replaced by one frame of silence.
    pub fn complete_cycle(&mut self, rendered: &[S]) -> (r: Result<(), CycleError>)
        requires
            old(self).wf(),
        ensures
            final(self).wf(),
            final(self)@.params == old(self)@.params,
            final(self)@.order == old(self)@.order,
            match r {
                Ok(()) => {
                    &&& old(self)@.adapter.frame_ready()
                    &&& rendered@.len() == old(self)@.adapter.out_channels() * old(
                        self,
                    )@.adapter.frame_size
                    &&& final(self)@.adapter == old(self)@.adapter.completed(
                        split_planes(
                            rendered@,
                            old(self)@.adapter.out_channels(),
                            old(self)@.adapter.frame_size,
                        ),
                    )
                },
                Err(CycleError::NotReady) => {
                    &&& !old(self)@.adapter.frame_ready()
                    &&& final(self)@.adapter == old(self)@.adapter
                },
                Err(CycleError::BufferShape) => {
                    &&& old(self)@.adapter.frame_ready()
                    &&& rendered@.len() != old(self)@.adapter.out_channels() * old(
                        self,
                    )@.adapter.frame_size
                    &&& final(self)@.adapter == old(self)@.adapter.completed(
                        old(self)@.adapter.silent_frame(),
                    )
                },
            },
    {
        self.adapter.complete_cycle(rendered)
    }

    /// Hands the host `frames` frames of the sound field on every channel
    /// of `outputs`: silence while the pre-roll builds up and where the
    /// queues run dry. A block of the wrong shape is refused and nothing
    /// changes.
    pub fn drain(&mut self, frames: usize, outputs: &mut [&mut [S]]) -> (r: Result<
        Delivery,
        BufferShapeError,
    >)
        requires
            old(self).wf(),
        ensures
            final(self).wf(),
            final(self)@.params == old(self)@.params,
            final(self)@.order == old(self)@.order,
            final(outputs)@.len() == old(outputs)@.len(),
            match r {
                Ok(d) => {
                    &&& old(self)@.adapter.delivers_into(
                        planes_mut(old(outputs)@),
                        frames as nat,
                    )
                    &&& final(self)@.adapter == old(self)@.adapter.drained(frames as nat)
                    &&& d == if old(self)@.adapter.in_preroll() {
                        Delivery::Silence
                    } else {
                        Delivery::Audio
                    }
                    &&& forall|c: int|
                        0 <= c < old(outputs)@.len() ==> (#[trigger] planes_mut(
                            final(outputs)@,
                        )[c]) == old(self)@.adapter.delivery(
                            frames as nat,
                            c,
                            planes_mut(old(outputs)@)[c],
                        )
                },
                Err(e) => {
                    &&& !old(self)@.adapter.delivers_into(
                        planes_mut(old(outputs)@),
                        frames as nat,
                    )
                    &&& final(self)@.adapter == old(self)@.adapter
                    &&& planes_mut(final(outputs)@) == planes_mut(old(outputs)@)
                    &&& e == if old(outputs)@.len() != old(self)@.adapter.out_channels() {
                        BufferShapeError::Channels
                    } else {
                        BufferShapeError::Frames
                    }
                },
            },
    {
        self.adapter.drain(frames, outputs)
    }
}

} // verus!
