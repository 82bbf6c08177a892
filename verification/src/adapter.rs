//! The block adapter.
//!
//! The host audio graph delivers blocks of arbitrary length; the acoustic
//! effects work on frames of a fixed length. The adapter accumulates input
//! samples until one frame is full, takes the rendered frame back, queues
//! it, and hands the queue out in host-sized pieces once enough of it has
//! built up.

use vstd::prelude::*;
use std::collections::VecDeque;
use crate::error::{BufferShapeError, ConstructionError, CycleError};
use crate::layout::{
    channels_of, constant_block, pack_planar, planar, lemma_plane_bounds, lemma_split_planes, planes, planes_mut, split_planes,
    uniform,
};
use crate::model::AdapterView;
pub use crate::model::Step;

verus! {

/// Where `advance` stopped.
#[derive(Clone, Copy, Debug, PartialEq, Eq, Structural)]
pub struct Progress {
    /// The index of the first frame of the block that was not accepted.
    pub next: usize,
    /// What is due now.
    pub step: Step,
}

/// What a delivery handed to the host.
#[derive(Clone, Copy, Debug, PartialEq, Eq, Structural)]
pub enum Delivery {
    /// Silence only: the pre-roll has not built up yet.
    Silence,
    /// Queued audio, followed by silence where the queue ran dry.
    Audio,
}

/// Bridges host blocks of arbitrary length to frames of fixed length.
pub struct BlockAdapter<S> {
    frame_size: usize,
    max_block: usize,
    pending: Vec<Vec<S>>,
    queued: Vec<VecDeque<S>>,
    draining: bool,
    silence: S,
    accepted: Ghost<nat>,
    cycles: Ghost<nat>,
    delivered: Ghost<nat>,
}

impl<S> View for BlockAdapter<S> {
    type V = AdapterView<S>;

    closed spec fn view(&self) -> AdapterView<S> {
        AdapterView {
            frame_size: self.frame_size as nat,
            max_block: self.max_block as nat,
            pending: Seq::new(self.pending@.len(), |c: int| self.pending@[c]@),
            queued: Seq::new(self.queued@.len(), |c: int| self.queued@[c]@),
            draining: self.draining,
            silence: self.silence,
            accepted: self.accepted@,
            cycles: self.cycles@,
            delivered: self.delivered@,
        }
    }
}

impl<S: Copy> BlockAdapter<S> {
    /// The adapter's invariant: the one of its mathematical state.
    pub open spec fn wf(&self) -> bool {
        self@.wf()
    }

    /// The state of a new adapter.
    pub open spec fn initial(
        frame_size: nat,
        in_channels: nat,
        out_channels: nat,
        max_block: nat,
        silence: S,
    ) -> AdapterView<S> {
        AdapterView {
            frame_size,
            max_block,
            pending: Seq::new(in_channels, |c: int| Seq::empty()),
            queued: Seq::new(out_channels, |c: int| Seq::empty()),
            draining: false,
            silence,
            accepted: 0,
            cycles: 0,
            delivered: 0,
        }
    }

    /// The reason for which a configuration is refused, if any. The
    /// conditions are tested in the order of the variants.
    pub open spec fn refusal(
        frame_size: nat,
        in_channels: nat,
        out_channels: nat,
        max_block: nat,
    ) -> Option<ConstructionError> {
        if frame_size == 0 {
            Some(ConstructionError::ZeroFrameSize)
        } else if max_block == 0 {
            Some(ConstructionError::ZeroBlockSize)
        } else if in_channels == 0 {
            Some(ConstructionError::NoInputChannels)
        } else if out_channels == 0 {
            Some(ConstructionError::NoOutputChannels)
        } else {
            None
        }
    }

    /// Makes an adapter with empty accumulators and queues. Room is
    /// reserved for one frame per input channel and, per output channel,
    /// for one frame and three of the host's longest blocks, so that
    /// nothing grows while audio runs.
    pub fn new(
        frame_size: usize,
        in_channels: usize,
        out_channels: usize,
        max_block: usize,
        silence: S,
    ) -> (r: Result<Self, ConstructionError>)
        ensures
            match r {
                Ok(a) => {
                    &&& Self::refusal(
                        frame_size as nat,
                        in_channels as nat,
                        out_channels as nat,
                        max_block as nat,
                    ) is None
                    &&& a.wf()
                    &&& a@ == Self::initial(
                        frame_size as nat,
                        in_channels as nat,
                        out_channels as nat,
                        max_block as nat,
                        silence,
                    )
                },
                Err(e) => Self::refusal(
                    frame_size as nat,
                    in_channels as nat,
                    out_channels as nat,
                    max_block as nat,
                ) == Some(e),
            },
    {
        if frame_size == 0 {
            return Err(ConstructionError::ZeroFrameSize);
        }
        if max_block == 0 {
            return Err(ConstructionError::ZeroBlockSize);
        }
        if in_channels == 0 {
            return Err(ConstructionError::NoInputChannels);
        }
        if out_channels == 0 {
            return Err(ConstructionError::NoOutputChannels);
        }
        let reserve = queue_reserve(frame_size, max_block);
        let mut pending: Vec<Vec<S>> = Vec::with_capacity(in_channels);
        let mut c: usize = 0;
        while c < in_channels
            invariant
                c <= in_channels,
                pending@.len() == c,
                forall|k: int| 0 <= k < c ==> (#[trigger] pending@[k])@ == Seq::<S>::empty(),
            decreases in_channels - c,
        {
            pending.push(Vec::with_capacity(frame_size));
            c = c + 1;
        }
        let mut queued: Vec<VecDeque<S>> = Vec::with_capacity(out_channels);
        let mut c: usize = 0;
        while c < out_channels
            invariant
                c <= out_channels,
                queued@.len() == c,
                forall|k: int| 0 <= k < c ==> (#[trigger] queued@[k])@ == Seq::<S>::empty(),
                pending@.len() == in_channels,
                forall|k: int|
                    0 <= k < in_channels ==> (#[trigger] pending@[k])@ == Seq::<S>::empty(),
            decreases out_channels - c,
        {
            queued.push(VecDeque::with_capacity(reserve));
            c = c + 1;
        }
        let a = BlockAdapter {
            frame_size,
            max_block,
            pending,
            queued,
            draining: false,
            silence,
            accepted: Ghost(0),
            cycles: Ghost(0),
            delivered: Ghost(0),
        };
        proof {
            assert(0 * (frame_size as nat) == 0) by (nonlinear_arith);
            assert(a@.pending[0] == a.pending@[0]@);
            assert(a@.queued[0] == a.queued@[0]@);
            assert(a@ =~= Self::initial(
                frame_size as nat,
                in_channels as nat,
                out_channels as nat,
                max_block as nat,
                silence,
            ));
        }
        Ok(a)
    }

    pub fn frame_size(&self) -> (r: usize)
        ensures
            r == self@.frame_size,
    {
        self.frame_size
    }

    pub fn max_block(&self) -> (r: usize)
        ensures
            r == self@.max_block,
    {
        self.max_block
    }

    pub fn in_channels(&self) -> (r: usize)
        ensures
            r == self@.in_channels(),
    {
        self.pending.len()
    }

    pub fn out_channels(&self) -> (r: usize)
        ensures
            r == self@.out_channels(),
    {
        self.queued.len()
    }

    /// Samples waiting in each input accumulator.
    pub fn pending_len(&self) -> (r: usize)
        requires
            self.wf(),
        ensures
            r == self@.pending_len(),
    {
        self.pending[0].len()
    }

    /// Samples waiting in each output queue.
    pub fn queued_len(&self) -> (r: usize)
        requires
            self.wf(),
        ensures
            r == self@.queued_len(),
    {
        self.queued[0].len()
    }

    /// Whether delivery has begun.
    pub fn started_draining(&self) -> (r: bool)
        ensures
            r == self@.draining,
    {
        self.draining
    }

    /// Whether the accumulators hold one whole frame, so that a cycle is
    /// due.
    pub fn frame_ready(&self) -> (r: bool)
        requires
            self.wf(),
        ensures
            r == self@.frame_ready(),
    {
        self.pending[0].len() == self.frame_size
    }

    /// The accumulators, one per input channel.
    pub fn frame(&self) -> (r: &Vec<Vec<S>>)
        ensures
            channels_of(r@) == self@.pending,
    {
        proof {
            assert(channels_of(self.pending@) =~= self@.pending);
        }
        &self.pending
    }

    /// Writes the frame that waits, channel after channel, into `out` for
    /// the effects to read. Nothing is written where no whole frame waits
    /// or `out` has not exactly the room for it.
    pub fn pack_frame(&self, out: &mut [S]) -> (r: Result<(), BufferShapeError>)
        requires
            self.wf(),
        ensures
            final(out)@.len() == old(out)@.len(),
            match r {
                Ok(()) => {
                    &&& self@.frame_ready()
                    &&& old(out)@.len() == self@.in_channels() * self@.frame_size
                    &&& final(out)@ == planar(self@.pending, self@.frame_size)
                },
                Err(e) => {
                    &&& e == BufferShapeError::Frames
                    &&& !(self@.frame_ready() && old(out)@.len() == self@.in_channels()
                        * self@.frame_size)
                    &&& final(out)@ == old(out)@
                },
            },
    {
        proof {
            assert(channels_of(self.pending@) =~= self@.pending);
            assert(self@.pending[0].len() == self@.pending_len());
        }
        pack_planar(&self.pending, self.frame_size, out)
    }

    /// Tests the shape of a block: one channel per accumulator, all of one
    /// length, and `start` within it. Returns that length.
    fn check_block(&self, inputs: &[&[S]], start: usize) -> (r: Result<usize, BufferShapeError>)
        requires
            self.wf(),
        ensures
            match r {
                Ok(len) => {
                    &&& self@.accepts(planes(inputs@), start as nat)
                    &&& len == planes(inputs@)[0].len()
                },
                Err(e) => {
                    &&& !self@.accepts(planes(inputs@), start as nat)
                    &&& e == if inputs@.len() != self@.in_channels() {
                        BufferShapeError::Channels
                    } else {
                        BufferShapeError::Frames
                    }
                },
            },
    {
        if inputs.len() != self.pending.len() {
            return Err(BufferShapeError::Channels);
        }
        let len = match block_frames(inputs) {
            Some(len) => len,
            None => {
                return Err(BufferShapeError::Frames);
            },
        };
        if start > len {
            return Err(BufferShapeError::Frames);
        }
        Ok(len)
    }

    /// Accepts frames of a block of `len` frames from `start` on, up to one
    /// full frame, and returns the index of the first frame not accepted.
    fn take(&mut self, inputs: &[&[S]], start: usize, len: usize) -> (next: usize)
        requires
            old(self).wf(),
            old(self)@.accepts(planes(inputs@), start as nat),
            len == planes(inputs@)[0].len(),
        ensures
            final(self).wf(),
            next == start + old(self)@.take_count(planes(inputs@), start as nat),
            next <= len,
            final(self)@ == old(self)@.fed(planes(inputs@), start as nat),
    {
        let ghost block = planes(inputs@);
        let room = self.frame_size - self.pending[0].len();
        let left = len - start;
        let n = if room <= left {
            room
        } else {
            left
        };
        proof {
            assert forall|k: int| 0 <= k < inputs@.len() implies start + n <= (
            #[trigger] inputs@[k])@.len() by {
                assert(block[k].len() == len);
            }
        }
        extend_channels(&mut self.pending, inputs, start, n);
        proof {
            self.accepted@ = self.accepted@ + n as nat;
            assert(self@.pending =~= old(self)@.fed(block, start as nat).pending);
            assert(self@ =~= old(self)@.fed(block, start as nat));
            old(self)@.lemma_fed(block, start as nat);
        }
        start + n
    }

    /// Accepts frames of `inputs` from index `start` on until the
    /// accumulators hold one whole frame or the block is used up, and
    /// returns the index of the first frame not accepted. A block of the
    /// wrong shape is refused and leaves the adapter as it was.
    pub fn feed(&mut self, inputs: &[&[S]], start: usize) -> (r: Result<usize, BufferShapeError>)
        requires
            old(self).wf(),
        ensures
            final(self).wf(),
            match r {
                Ok(next) => {
                    &&& old(self)@.accepts(planes(inputs@), start as nat)
                    &&& next == start + old(self)@.take_count(planes(inputs@), start as nat)
                    &&& final(self)@ == old(self)@.fed(planes(inputs@), start as nat)
                },
                Err(e) => {
                    &&& !old(self)@.accepts(planes(inputs@), start as nat)
                    &&& final(self)@ == old(self)@
                    &&& e == if inputs@.len() != old(self)@.in_channels() {
                        BufferShapeError::Channels
                    } else {
                        BufferShapeError::Frames
                    }
                },
            },
    {
        match self.check_block(inputs, start) {
            Ok(len) => Ok(self.take(inputs, start, len)),
            Err(e) => Err(e),
        }
    }

    /// Works through `inputs` from index `start` on: accepts frames, and
    /// whenever a frame is full and `can_render` is false completes the
    /// cycle with silence and goes on. Stops at the first full frame when
    /// `can_render` is true, and else at the end of the block. A block of
    /// the wrong shape is refused and leaves the adapter as it was.
    pub fn advance(&mut self, inputs: &[&[S]], start: usize, can_render: bool) -> (r: Result<
        Progress,
        BufferShapeError,
    >)
        requires
            old(self).wf(),
        ensures
            final(self).wf(),
            match r {
                Ok(p) => {
                    &&& old(self)@.accepts(planes(inputs@), start as nat)
                    &&& final(self)@ == old(self)@.advanced(
                        planes(inputs@),
                        start as nat,
                        can_render,
                    ).state
                    &&& p.next == old(self)@.advanced(
                        planes(inputs@),
                        start as nat,
                        can_render,
                    ).next
                    &&& p.step == old(self)@.advanced(
                        planes(inputs@),
                        start as nat,
                        can_render,
                    ).step
                },
                Err(e) => {
                    &&& !old(self)@.accepts(planes(inputs@), start as nat)
                    &&& final(self)@ == old(self)@
                    &&& e == if inputs@.len() != old(self)@.in_channels() {
                        BufferShapeError::Channels
                    } else {
                        BufferShapeError::Frames
                    }
                },
            },
    {
        let ghost block = planes(inputs@);
        let ghost goal = self@.advanced(block, start as nat, can_render);
        let len = match self.check_block(inputs, start) {
            Ok(len) => len,
            Err(e) => {
                return Err(e);
            },
        };
        let mut at = start;
        loop
            invariant
                self.wf(),
                block == planes(inputs@),
                len == block[0].len(),
                self@.accepts(block, at as nat),
                self@.advanced(block, at as nat, can_render) == goal,
                goal == old(self)@.advanced(block, start as nat, can_render),
                old(self)@.accepts(block, start as nat),
            decreases
                len - at,
                (if self@.frame_ready() {
                    1nat
                } else {
                    0nat
                }),
        {
            if self.pending[0].len() == self.frame_size {
                if can_render {
                    return Ok(Progress { next: at, step: Step::Render });
                }
                proof {
                    self@.lemma_completed(self@.silent_frame());
                }
                let _ = self.complete_silent();
            } else if at >= len {
                return Ok(Progress { next: at, step: Step::Done });
            } else {
                proof {
                    self@.lemma_fed(block, at as nat);
                }
                at = self.take(inputs, at, len);
            }
        }
    }

    /// Takes over the frame that a cycle rendered, given as planar data of
    /// one frame per output channel, and empties the accumulators. Data of
    /// another length is replaced by one frame of silence, so that the
    /// stream keeps its timing.
    pub fn complete_cycle(&mut self, rendered: &[S]) -> (r: Result<(), CycleError>)
        requires
            old(self).wf(),
        ensures
            final(self).wf(),
            match r {
                Ok(()) => {
                    &&& old(self)@.frame_ready()
                    &&& rendered@.len() == old(self)@.out_channels() * old(self)@.frame_size
                    &&& final(self)@ == old(self)@.completed(
                        split_planes(
                            rendered@,
                            old(self)@.out_channels(),
                            old(self)@.frame_size,
                        ),
                    )
                },
                Err(CycleError::NotReady) => {
                    &&& !old(self)@.frame_ready()
                    &&& final(self)@ == old(self)@
                },
                Err(CycleError::BufferShape) => {
                    &&& old(self)@.frame_ready()
                    &&& rendered@.len() != old(self)@.out_channels() * old(self)@.frame_size
                    &&& final(self)@ == old(self)@.completed(old(self)@.silent_frame())
                },
            },
    {
        if self.pending[0].len() != self.frame_size {
            return Err(CycleError::NotReady);
        }
        let frame_size = self.frame_size;
        let channels = self.queued.len();
        let have = rendered.len();
        let fits = match channels.checked_mul(frame_size) {
            Some(total) => have == total,
            None => false,
        };
        if fits {
            queue_planar(&mut self.queued, rendered, frame_size);
        } else {
            queue_constant(&mut self.queued, self.silence, frame_size);
        }
        clear_channels(&mut self.pending);
        proof {
            self.cycles@ = self.cycles@ + 1;
            let before = old(self)@;
            let rendered_planes = if fits {
                split_planes(rendered@, before.out_channels(), before.frame_size)
            } else {
                before.silent_frame()
            };
            if fits {
                lemma_split_planes(rendered@, before.out_channels(), before.frame_size);
            }
            assert(self@.pending =~= before.completed(rendered_planes).pending);
            assert(self@.queued =~= before.completed(rendered_planes).queued) by {
                assert forall|c: int| 0 <= c < self@.queued.len() implies self@.queued[c]
                    =~= before.queued[c] + rendered_planes[c] by {
                    assert(before.queued[c] == old(self).queued@[c]@);
                }
            }
            assert(self@ =~= before.completed(rendered_planes));
            assert((before.cycles + 1) * before.frame_size == before.cycles * before.frame_size
                + before.frame_size) by (nonlinear_arith);
            assert(self@.pending[0] == self.pending@[0]@);
            assert(self@.queued[0] == self.queued@[0]@);
            assert(before.queued[0] == old(self).queued@[0]@);
            assert(rendered_planes[0].len() == before.frame_size);
            assert forall|c: int| 0 <= c < self@.queued.len() implies (
            #[trigger] self@.queued[c]).len() == self@.queued_len() by {
                assert(before.queued[c].len() == before.queued_len());
                assert(rendered_planes[c].len() == before.frame_size);
            }
        }
        if fits {
            Ok(())
        } else {
            Err(CycleError::BufferShape)
        }
    }

    /// Completes a cycle with one frame of silence, for a node that has
    /// nothing to render from.
    pub fn complete_silent(&mut self) -> (r: Result<(), CycleError>)
        requires
            old(self).wf(),
        ensures
            final(self).wf(),
            match r {
                Ok(()) => {
                    &&& old(self)@.frame_ready()
                    &&& final(self)@ == old(self)@.completed(old(self)@.silent_frame())
                },
                Err(e) => {
                    &&& e == CycleError::NotReady
                    &&& !old(self)@.frame_ready()
                    &&& final(self)@ == old(self)@
                },
            },
    {
        if self.pending[0].len() != self.frame_size {
            return Err(CycleError::NotReady);
        }
        let frame_size = self.frame_size;
        queue_constant(&mut self.queued, self.silence, frame_size);
        clear_channels(&mut self.pending);
        proof {
            self.cycles@ = self.cycles@ + 1;
            let before = old(self)@;
            let rendered_planes = before.silent_frame();
            assert(self@.pending =~= before.completed(rendered_planes).pending);
            assert(self@.queued =~= before.completed(rendered_planes).queued) by {
                assert forall|c: int| 0 <= c < self@.queued.len() implies self@.queued[c]
                    =~= before.queued[c] + rendered_planes[c] by {
                    assert(before.queued[c] == old(self).queued@[c]@);
                }
            }
            assert(self@ =~= before.completed(rendered_planes));
            assert((before.cycles + 1) * before.frame_size == before.cycles * before.frame_size
                + before.frame_size) by (nonlinear_arith);
            assert(self@.pending[0] == self.pending@[0]@);
            assert(self@.queued[0] == self.queued@[0]@);
            assert(before.queued[0] == old(self).queued@[0]@);
            assert(rendered_planes[0].len() == before.frame_size);
            assert forall|c: int| 0 <= c < self@.queued.len() implies (
            #[trigger] self@.queued[c]).len() == self@.queued_len() by {
                assert(before.queued[c].len() == before.queued_len());
                assert(rendered_planes[c].len() == before.frame_size);
            }
        }
        Ok(())
    }

    /// Hands the host `frames` frames on every channel of `outputs`. While
    /// the pre-roll builds up, and where the queues run dry, the host gets
    /// silence. Samples of `outputs` behind `frames` stay as they were. A
    /// block of the wrong shape is refused and nothing changes.
    pub fn drain(&mut self, frames: usize, outputs: &mut [&mut [S]]) -> (r: Result<
        Delivery,
        BufferShapeError,
    >)
        requires
            old(self).wf(),
        ensures
            final(self).wf(),
            final(outputs)@.len() == old(outputs)@.len(),
            match r {
                Ok(d) => {
                    &&& old(self)@.delivers_into(planes_mut(old(outputs)@), frames as nat)
                    &&& final(self)@ == old(self)@.drained(frames as nat)
                    &&& d == if old(self)@.in_preroll() {
                        Delivery::Silence
                    } else {
                        Delivery::Audio
                    }
                    &&& forall|c: int|
                        0 <= c < old(outputs)@.len() ==> (#[trigger] planes_mut(
                            final(outputs)@,
                        )[c]) == old(self)@.delivery(
                            frames as nat,
                            c,
                            planes_mut(old(outputs)@)[c],
                        )
                },
                Err(e) => {
                    &&& !old(self)@.delivers_into(planes_mut(old(outputs)@), frames as nat)
                    &&& final(self)@ == old(self)@
                    &&& planes_mut(final(outputs)@) == planes_mut(old(outputs)@)
                    &&& e == if old(outputs)@.len() != old(self)@.out_channels() {
                        BufferShapeError::Channels
                    } else {
                        BufferShapeError::Frames
                    }
                },
            },
    {
        let ghost before = self@;
        let ghost block = planes_mut(outputs@);
        let channels = self.queued.len();
        if outputs.len() != channels {
            return Err(BufferShapeError::Channels);
        }
        let mut c: usize = 0;
        while c < channels
            invariant
                c <= channels,
                channels == outputs@.len(),
                channels == before.out_channels(),
                outputs@.len() == old(outputs)@.len(),
                block == planes_mut(outputs@),
                block == planes_mut(old(outputs)@),
                self@ == before,
                before == old(self)@,
                before.wf(),
                forall|k: int| 0 <= k < c ==> (#[trigger] block[k]).len() >= frames,
            decreases channels - c,
        {
            if outputs[c].len() < frames {
                proof {
                    assert(block[c as int].len() < frames);
                }
                return Err(BufferShapeError::Frames);
            }
            c = c + 1;
        }
        let queued = self.queued[0].len();
        proof {
            assert(before.queued[0] == self.queued@[0]@);
        }
        let preroll = !self.draining && (queued as u128) * 2 < (self.max_block as u128) * 3;
        let take = if preroll {
            0
        } else if frames <= queued {
            frames
        } else {
            queued
        };
        let silence = self.silence;
        let mut c: usize = 0;
        while c < channels
            invariant
                c <= channels,
                channels == outputs@.len(),
                channels == self.queued@.len(),
                outputs@.len() == old(outputs)@.len(),
                self.queued@.len() == old(self).queued@.len(),
                before == old(self)@,
                before.wf(),
                take == before.drain_count(frames as nat),
                take <= frames,
                take <= before.queued_len(),
                silence == before.silence,
                block == planes_mut(old(outputs)@),
                forall|k: int| 0 <= k < channels ==> (#[trigger] block[k]).len() >= frames,
                forall|k: int|
                    0 <= k < c ==> (#[trigger] self.queued@[k])@ == old(self).queued@[k]@.skip(
                        take as int,
                    ),
                forall|k: int|
                    c <= k < channels ==> (#[trigger] self.queued@[k]) == old(self).queued@[k],
                forall|k: int|
                    0 <= k < c ==> (#[trigger] planes_mut(outputs@)[k]) == before.delivery(
                        frames as nat,
                        k,
                        block[k],
                    ),
                forall|k: int|
                    c <= k < channels ==> (#[trigger] planes_mut(outputs@)[k]) == block[k],
                self.frame_size == old(self).frame_size,
                self.max_block == old(self).max_block,
                self.pending == old(self).pending,
                self.draining == old(self).draining,
                self.silence == old(self).silence,
                self.accepted == old(self).accepted,
                self.cycles == old(self).cycles,
                self.delivered == old(self).delivered,
            decreases channels - c,
        {
            proof {
                assert(before.queued[c as int] == old(self).queued@[c as int]@);
                assert(before.queued[c as int].len() == before.queued_len());
            }
            let ghost earlier = planes_mut(outputs@);
            proof {
                assert(earlier[c as int] == block[c as int]);
                assert(block[c as int].len() >= frames);
            }
            drain_channel(&mut self.queued[c], &mut *outputs[c], take, frames, silence);
            proof {
                assert(block[c as int].len() >= frames);
                assert(earlier[c as int] == block[c as int]);
                assert(planes_mut(outputs@)[c as int] =~= before.delivery(
                    frames as nat,
                    c as int,
                    block[c as int],
                ));
                assert forall|k: int| 0 <= k < channels && k != c implies (
                #[trigger] planes_mut(outputs@)[k]) == earlier[k] by {}
            }
            c = c + 1;
        }
        if preroll {
            proof {
                assert forall|k: int| 0 <= k < channels implies (#[trigger] self.queued@[k])@
                    == old(self).queued@[k]@ by {
                    assert(old(self).queued@[k]@.skip(0) =~= old(self).queued@[k]@);
                }
                assert(self@.queued =~= before.queued);
                assert(self@ =~= before);
            }
            Ok(Delivery::Silence)
        } else {
            self.draining = true;
            proof {
                self.delivered@ = self.delivered@ + take as nat;
                assert(self@.queued =~= before.drained(frames as nat).queued) by {
                    assert forall|k: int| 0 <= k < channels implies self@.queued[k]
                        == before.queued[k].skip(take as int) by {
                        assert(before.queued[k] == old(self).queued@[k]@);
                    }
                }
                assert(self@.pending =~= before.pending);
                assert(self@ =~= before.drained(frames as nat));
                assert(self@.queued[0] == before.queued[0].skip(take as int));
                assert forall|k: int| 0 <= k < self@.queued.len() implies (
                #[trigger] self@.queued[k]).len() == self@.queued_len() by {
                    assert(before.queued[k].len() == before.queued_len());
                }
            }
            Ok(Delivery::Audio)
        }
    }
}

/// Moves the first `take` samples of `queue` to the front of `out` and
/// writes `silence` behind them up to `frames`.
fn drain_channel<S: Copy>(
    queue: &mut VecDeque<S>,
    out: &mut [S],
    take: usize,
    frames: usize,
    silence: S,
)
    requires
        take <= old(queue)@.len(),
        take <= frames <= old(out)@.len(),
    ensures
        final(queue)@ == old(queue)@.skip(take as int),
        final(out)@.len() == old(out)@.len(),
        forall|i: int|
            0 <= i < old(out)@.len() ==> (#[trigger] final(out)@[i]) == if i < take {
                old(queue)@[i]
            } else if i < frames {
                silence
            } else {
                old(out)@[i]
            },
{
    let mut i: usize = 0;
    while i < frames
        invariant
            i <= frames,
            take <= frames <= out@.len(),
            out@.len() == old(out)@.len(),
            take <= old(queue)@.len(),
            queue@ == old(queue)@.skip(
                if i < take {
                    i as int
                } else {
                    take as int
                },
            ),
            forall|j: int|
                0 <= j < out@.len() ==> (#[trigger] out@[j]) == if j < i {
                    if j < take {
                        old(queue)@[j]
                    } else {
                        silence
                    }
                } else {
                    old(out)@[j]
                },
        decreases frames - i,
    {
        if i < take {
            let ghost rest = queue@;
            let sample = queue.pop_front();
            proof {
                assert(rest.subrange(1, rest.len() as int) =~= old(queue)@.skip(i + 1));
            }
            match sample {
                Some(x) => {
                    out[i] = x;
                },
                None => {
                    out[i] = silence;
                },
            }
        } else {
            out[i] = silence;
        }
        i = i + 1;
    }
}

/// Appends channel `c` of the planar `data` to queue `c`, for every queue.
fn queue_planar<S: Copy>(queues: &mut Vec<VecDeque<S>>, data: &[S], frames: usize)
    requires
        data@.len() == old(queues)@.len() * frames,
    ensures
        final(queues)@.len() == old(queues)@.len(),
        forall|c: int|
            0 <= c < old(queues)@.len() ==> (#[trigger] final(queues)@[c])@ == old(queues)@[c]@
                + split_planes(data@, old(queues)@.len() as nat, frames as nat)[c],
{
    let channels = queues.len();
    let total = data.len();
    let ghost planes = split_planes(data@, channels as nat, frames as nat);
    let mut c: usize = 0;
    while c < channels
        invariant
            c <= channels,
            channels == old(queues)@.len(),
            queues@.len() == channels,
            data@.len() == channels * frames,
            data@.len() == total,
            planes == split_planes(data@, channels as nat, frames as nat),
            forall|k: int|
                0 <= k < c ==> (#[trigger] queues@[k])@ == old(queues)@[k]@ + planes[k],
            forall|k: int| c <= k < channels ==> (#[trigger] queues@[k]) == old(queues)@[k],
        decreases channels - c,
    {
        proof {
            lemma_plane_bounds(c as int, channels as nat, frames as nat);
        }
        let base = c * frames;
        let mut i: usize = 0;
        while i < frames
            invariant
                i <= frames,
                c < channels,
                channels == old(queues)@.len(),
                queues@.len() == channels,
                data@.len() == channels * frames,
                base == c * frames,
                base + frames <= data@.len() == total,
                planes == split_planes(data@, channels as nat, frames as nat),
                queues@[c as int]@ == old(queues)@[c as int]@ + data@.subrange(
                    base as int,
                    base + i,
                ),
                forall|k: int|
                    0 <= k < c ==> (#[trigger] queues@[k])@ == old(queues)@[k]@ + planes[k],
                forall|k: int| c < k < channels ==> (#[trigger] queues@[k]) == old(queues)@[k],
            decreases frames - i,
        {
            queues[c].push_back(data[base + i]);
            proof {
                assert(data@.subrange(base as int, base + i + 1) =~= data@.subrange(
                    base as int,
                    base + i,
                ).push(data@[base + i]));
                assert(queues@[c as int]@ =~= old(queues)@[c as int]@ + data@.subrange(
                    base as int,
                    base + i + 1,
                ));
            }
            i = i + 1;
        }
        c = c + 1;
    }
}

/// Appends `frames` times `sample` to every queue.
fn queue_constant<S: Copy>(queues: &mut Vec<VecDeque<S>>, sample: S, frames: usize)
    ensures
        final(queues)@.len() == old(queues)@.len(),
        forall|c: int|
            0 <= c < old(queues)@.len() ==> (#[trigger] final(queues)@[c])@ == old(queues)@[c]@
                + constant_block(old(queues)@.len() as nat, frames as nat, sample)[c],
{
    let channels = queues.len();
    let ghost block = constant_block(channels as nat, frames as nat, sample);
    let mut c: usize = 0;
    while c < channels
        invariant
            c <= channels,
            channels == old(queues)@.len(),
            queues@.len() == channels,
            block == constant_block(channels as nat, frames as nat, sample),
            forall|k: int| 0 <= k < c ==> (#[trigger] queues@[k])@ == old(queues)@[k]@ + block[k],
            forall|k: int| c <= k < channels ==> (#[trigger] queues@[k]) == old(queues)@[k],
        decreases channels - c,
    {
        let mut i: usize = 0;
        while i < frames
            invariant
                i <= frames,
                c < channels,
                channels == old(queues)@.len(),
                queues@.len() == channels,
                block == constant_block(channels as nat, frames as nat, sample),
                queues@[c as int]@ == old(queues)@[c as int]@ + Seq::new(
                    i as nat,
                    |j: int| sample,
                ),
                forall|k: int|
                    0 <= k < c ==> (#[trigger] queues@[k])@ == old(queues)@[k]@ + block[k],
                forall|k: int| c < k < channels ==> (#[trigger] queues@[k]) == old(queues)@[k],
            decreases frames - i,
        {
            queues[c].push_back(sample);
            proof {
                assert(Seq::new((i + 1) as nat, |j: int| sample) =~= Seq::new(
                    i as nat,
                    |j: int| sample,
                ).push(sample));
                assert(queues@[c as int]@ =~= old(queues)@[c as int]@ + Seq::new(
                    (i + 1) as nat,
                    |j: int| sample,
                ));
            }
            i = i + 1;
        }
        proof {
            assert(block[c as int] =~= Seq::new(frames as nat, |j: int| sample));
        }
        c = c + 1;
    }
}

/// Empties every accumulator and keeps its storage.
fn clear_channels<S>(pending: &mut Vec<Vec<S>>)
    ensures
        final(pending)@.len() == old(pending)@.len(),
        forall|c: int|
            0 <= c < old(pending)@.len() ==> (#[trigger] final(pending)@[c])@ == Seq::<S>::empty(),
{
    let channels = pending.len();
    let mut c: usize = 0;
    while c < channels
        invariant
            c <= channels,
            pending@.len() == channels,
            channels == old(pending)@.len(),
            forall|k: int| 0 <= k < c ==> (#[trigger] pending@[k])@ == Seq::<S>::empty(),
        decreases channels - c,
    {
        pending[c].clear();
        c = c + 1;
    }
}

/// The common length of the channels of `inputs`, if they have one.
fn block_frames<S>(inputs: &[&[S]]) -> (r: Option<usize>)
    requires
        inputs@.len() >= 1,
    ensures
        match r {
            Some(len) => len == planes(inputs@)[0].len() && uniform(planes(inputs@), len as nat),
            None => !uniform(planes(inputs@), planes(inputs@)[0].len()),
        },
{
    let ghost block = planes(inputs@);
    let len = inputs[0].len();
    let mut c: usize = 1;
    while c < inputs.len()
        invariant
            1 <= c <= inputs@.len(),
            block == planes(inputs@),
            len == block[0].len(),
            forall|k: int| 0 <= k < c ==> (#[trigger] block[k]).len() == len,
        decreases inputs@.len() - c,
    {
        if inputs[c].len() != len {
            proof {
                assert(block[c as int].len() != block[0].len());
            }
            return None;
        }
        c = c + 1;
    }
    Some(len)
}

/// Appends the frames `start .. start + n` of each channel of `inputs` to
/// the accumulator of the same index.
fn extend_channels<S: Copy>(pending: &mut Vec<Vec<S>>, inputs: &[&[S]], start: usize, n: usize)
    requires
        old(pending)@.len() == inputs@.len(),
        forall|k: int| 0 <= k < inputs@.len() ==> start + n <= (#[trigger] inputs@[k])@.len(),
    ensures
        final(pending)@.len() == old(pending)@.len(),
        forall|k: int|
            0 <= k < inputs@.len() ==> (#[trigger] final(pending)@[k])@ == old(pending)@[k]@
                + inputs@[k]@.subrange(start as int, start + n),
{
    let channels = inputs.len();
    let mut c: usize = 0;
    while c < channels
        invariant
            c <= channels,
            channels == inputs@.len(),
            pending@.len() == old(pending)@.len(),
            old(pending)@.len() == inputs@.len(),
            forall|k: int| 0 <= k < inputs@.len() ==> start + n <= (#[trigger] inputs@[k])@.len(),
            forall|k: int|
                0 <= k < c ==> (#[trigger] pending@[k])@ == old(pending)@[k]@
                    + inputs@[k]@.subrange(start as int, start + n),
            forall|k: int| c <= k < channels ==> (#[trigger] pending@[k]) == old(pending)@[k],
        decreases channels - c,
    {
        let source: &[S] = inputs[c];
        let available = source.len();
        let mut i: usize = 0;
        while i < n
            invariant
                i <= n,
                c < channels,
                channels == inputs@.len(),
                pending@.len() == old(pending)@.len(),
                old(pending)@.len() == inputs@.len(),
                start + n <= source@.len() == available,
                source@ == inputs@[c as int]@,
                pending@[c as int]@ == old(pending)@[c as int]@ + source@.subrange(
                    start as int,
                    start + i,
                ),
                forall|k: int|
                    0 <= k < c ==> (#[trigger] pending@[k])@ == old(pending)@[k]@
                        + inputs@[k]@.subrange(start as int, start + n),
                forall|k: int|
                    c < k < channels ==> (#[trigger] pending@[k]) == old(pending)@[k],
            decreases n - i,
        {
            pending[c].push(source[start + i]);
            proof {
                assert(source@.subrange(start as int, start + i + 1) =~= source@.subrange(
                    start as int,
                    start + i,
                ).push(source@[start + i]));
                assert(pending@[c as int]@ =~= old(pending)@[c as int]@ + source@.subrange(
                    start as int,
                    start + i + 1,
                ));
            }
            i = i + 1;
        }
        c = c + 1;
    }
}

/// Room reserved in each output queue: one frame and three host blocks,
/// which is more than a queue holds at any time while the host keeps to
/// its longest block, and at least twice the longer of one frame and one
/// host block. Where the sum is beyond the machine's integers, the longer
/// of the two.
fn queue_reserve(frame_size: usize, max_block: usize) -> (r: usize)
    ensures
        r >= frame_size,
        r >= max_block,
        frame_size + 3 * max_block <= usize::MAX ==> r >= frame_size + 3 * max_block,
        frame_size + 3 * max_block <= usize::MAX && 2 * frame_size <= usize::MAX ==> r >= 2
            * frame_size && r >= 2 * max_block,
{
    let longer = if frame_size >= max_block {
        frame_size
    } else {
        max_block
    };
    let blocks = match max_block.checked_mul(3) {
        Some(blocks) => blocks,
        None => {
            return longer;
        },
    };
    let sum = match frame_size.checked_add(blocks) {
        Some(sum) => sum,
        None => {
            return longer;
        },
    };
    match frame_size.checked_mul(2) {
        Some(twice) => if twice >= sum {
            twice
        } else {
            sum
        },
        None => sum,
    }
}

} // verus!
