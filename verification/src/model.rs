//! The mathematical model of the block adapter: its state, the
//! transitions that the adapter's operations make, and what they keep.

use vstd::prelude::*;
use crate::layout::{constant_block, uniform};

verus! {

/// The mathematical state of a block adapter.
#[verifier::ext_equal]
pub struct AdapterView<S> {
    /// Samples per channel in one frame.
    pub frame_size: nat,
    /// The longest block the host delivers.
    pub max_block: nat,
    /// The input samples accepted since the last cycle, per input channel.
    pub pending: Seq<Seq<S>>,
    /// The rendered samples not yet delivered, per output channel.
    pub queued: Seq<Seq<S>>,
    /// Whether delivery has begun.
    pub draining: bool,
    /// The sample that stands for silence.
    pub silence: S,
    /// Frames accepted from the host since construction.
    pub accepted: nat,
    /// Processing cycles completed since construction.
    pub cycles: nat,
    /// Frames taken out of the queue since construction.
    pub delivered: nat,
}

impl<S> AdapterView<S> {
    pub open spec fn in_channels(self) -> nat {
        self.pending.len()
    }

    pub open spec fn out_channels(self) -> nat {
        self.queued.len()
    }

    /// Samples waiting in each input accumulator.
    pub open spec fn pending_len(self) -> nat {
        self.pending[0].len()
    }

    /// Samples waiting in each output queue.
    pub open spec fn queued_len(self) -> nat {
        self.queued[0].len()
    }

    /// The accumulators hold one whole frame.
    pub open spec fn frame_ready(self) -> bool {
        self.pending_len() == self.frame_size
    }

    /// The invariant of every adapter.
    pub open spec fn wf(self) -> bool {
        &&& self.frame_size >= 1
        &&& self.max_block >= 1
        &&& self.pending.len() >= 1
        &&& self.queued.len() >= 1
        &&& uniform(self.pending, self.pending_len())
        &&& uniform(self.queued, self.queued_len())
        &&& self.pending_len() <= self.frame_size
        &&& self.accepted == self.cycles * self.frame_size + self.pending_len()
        &&& self.cycles * self.frame_size == self.delivered + self.queued_len()
    }

    /// `block` has one channel per accumulator, all of one length, and
    /// `start` lies within it.
    pub open spec fn accepts(self, block: Seq<Seq<S>>, start: nat) -> bool {
        &&& block.len() == self.in_channels()
        &&& uniform(block, block[0].len())
        &&& start <= block[0].len()
    }

    /// How many frames of `block` from `start` on fit into the accumulators.
    pub open spec fn take_count(self, block: Seq<Seq<S>>, start: nat) -> nat {
        let room = self.frame_size - self.pending_len();
        let left = block[0].len() - start;
        if room <= left {
            room as nat
        } else {
            left as nat
        }
    }

    /// The state after accepting frames of `block` from `start` on, up to
    /// one full frame.
    pub open spec fn fed(self, block: Seq<Seq<S>>, start: nat) -> Self {
        let n = self.take_count(block, start);
        AdapterView {
            pending: Seq::new(
                self.pending.len(),
                |c: int| self.pending[c] + block[c].subrange(start as int, (start + n) as int),
            ),
            accepted: self.accepted + n,
            ..self
        }
    }

    /// The state after a cycle that rendered `rendered`: the frame is queued
    /// channel by channel and the accumulators are empty again.
    pub open spec fn completed(self, rendered: Seq<Seq<S>>) -> Self {
        AdapterView {
            pending: Seq::new(self.pending.len(), |c: int| Seq::empty()),
            queued: Seq::new(self.queued.len(), |c: int| self.queued[c] + rendered[c]),
            cycles: self.cycles + 1,
            ..self
        }
    }

    /// One frame of silence on every output channel.
    pub open spec fn silent_frame(self) -> Seq<Seq<S>> {
        constant_block(self.out_channels(), self.frame_size, self.silence)
    }

    /// Delivery has not begun and the queues hold less than one and a half
    /// times the longest host block.
    pub open spec fn in_preroll(self) -> bool {
        !self.draining && 2 * self.queued_len() < 3 * self.max_block
    }

    /// How many queued frames a delivery of `frames` frames takes.
    pub open spec fn drain_count(self, frames: nat) -> nat {
        if self.in_preroll() {
            0
        } else if frames <= self.queued_len() {
            frames
        } else {
            self.queued_len()
        }
    }

    /// The state after the host asked for `frames` frames.
    pub open spec fn drained(self, frames: nat) -> Self {
        if self.in_preroll() {
            self
        } else {
            let n = self.drain_count(frames);
            AdapterView {
                queued: Seq::new(self.queued.len(), |c: int| self.queued[c].skip(n as int)),
                draining: true,
                delivered: self.delivered + n,
                ..self
            }
        }
    }

    /// What channel `c` of the host's block holds after the host asked for
    /// `frames` frames: queued samples as far as they reach, silence after
    /// them and during the pre-roll, and behind `frames` what was there.
    pub open spec fn delivery(self, frames: nat, c: int, before: Seq<S>) -> Seq<S> {
        let n = self.drain_count(frames);
        Seq::new(
            before.len(),
            |i: int|
                if i < n {
                    self.queued[c][i]
                } else if i < frames {
                    self.silence
                } else {
                    before[i]
                },
        )
    }

    /// `block` has one channel per queue, each at least `frames` long.
    pub open spec fn delivers_into(self, block: Seq<Seq<S>>, frames: nat) -> bool {
        &&& block.len() == self.out_channels()
        &&& forall|c: int| 0 <= c < block.len() ==> (#[trigger] block[c]).len() >= frames
    }

    /// `rendered` as a cycle takes it over: itself where it has one frame
    /// per output channel, and one frame of silence where it has not.
    pub open spec fn shaped(self, rendered: Seq<Seq<S>>) -> Seq<Seq<S>> {
        if rendered.len() == self.out_channels() && uniform(rendered, self.frame_size) {
            rendered
        } else {
            self.silent_frame()
        }
    }

    /// The state after the whole of `block` from `start` on went through
    /// the adapter, every full frame rendered by `render`. `render` gets
    /// the number of cycles completed before and the frame; the number
    /// stands for whatever the effects remember of earlier frames.
    pub open spec fn absorbed(
        self,
        block: Seq<Seq<S>>,
        start: nat,
        render: spec_fn(nat, Seq<Seq<S>>) -> Seq<Seq<S>>,
    ) -> Self
        decreases
            block[0].len() - start,
            (if self.frame_ready() {
                1nat
            } else {
                0nat
            }),
        when self.wf() && self.accepts(block, start)
    {
        if self.frame_ready() {
            self.completed(self.shaped(render(self.cycles, self.pending))).absorbed(
                block,
                start,
                render,
            )
        } else if start >= block[0].len() {
            self
        } else {
            self.fed(block, start).absorbed(
                block,
                start + self.take_count(block, start),
                render,
            )
        }
    }

    /// The state after one callback of the host: `block` goes through the
    /// adapter, then the host is handed as many frames as it brought.
    pub open spec fn after_callback(
        self,
        block: Seq<Seq<S>>,
        render: spec_fn(nat, Seq<Seq<S>>) -> Seq<Seq<S>>,
    ) -> Self {
        self.absorbed(block, 0, render).drained(block[0].len())
    }

    /// The state after the callbacks for `blocks`, one after the other.
    pub open spec fn after_callbacks(
        self,
        blocks: Seq<Seq<Seq<S>>>,
        render: spec_fn(nat, Seq<Seq<S>>) -> Seq<Seq<S>>,
    ) -> Self
        decreases blocks.len(),
    {
        if blocks.len() == 0 {
            self
        } else {
            self.after_callback(blocks[0], render).after_callbacks(blocks.drop_first(), render)
        }
    }

    /// Accepting frames keeps the invariant, leaves the block acceptable
    /// from the next index on, and takes at least one frame where a frame
    /// is left and the accumulators have room.
    pub proof fn lemma_fed(self, block: Seq<Seq<S>>, start: nat)
        requires
            self.wf(),
            self.accepts(block, start),
        ensures
            self.fed(block, start).wf(),
            self.fed(block, start).accepts(block, start + self.take_count(block, start)),
            self.fed(block, start).pending_len() == self.pending_len() + self.take_count(
                block,
                start,
            ),
            self.fed(block, start).cycles == self.cycles,
            !self.frame_ready() && start < block[0].len() ==> self.take_count(block, start) >= 1,
    {
        let after = self.fed(block, start);
        let n = self.take_count(block, start);
        assert(block[0].len() == block[0].len());
        assert forall|c: int| 0 <= c < after.pending.len() implies (
        #[trigger] after.pending[c]).len() == self.pending_len() + n by {
            assert(self.pending[c].len() == self.pending_len());
            assert(block[c].len() == block[0].len());
        }
        assert(after.queued == self.queued);
    }

    /// Completing a cycle with a frame of the right shape keeps the
    /// invariant and leaves the accumulators empty.
    pub proof fn lemma_completed(self, rendered: Seq<Seq<S>>)
        requires
            self.wf(),
            self.frame_ready(),
            rendered.len() == self.out_channels(),
            uniform(rendered, self.frame_size),
        ensures
            self.completed(rendered).wf(),
            self.completed(rendered).pending_len() == 0,
            !self.completed(rendered).frame_ready(),
            self.completed(rendered).cycles == self.cycles + 1,
            self.completed(rendered).accepted == self.accepted,
            self.completed(rendered).in_channels() == self.in_channels(),
            self.completed(rendered).queued_len() == self.queued_len() + self.frame_size,
    {
        let after = self.completed(rendered);
        assert((self.cycles + 1) * self.frame_size == self.cycles * self.frame_size
            + self.frame_size) by (nonlinear_arith);
        assert forall|c: int| 0 <= c < after.queued.len() implies (#[trigger] after.queued[c]).len()
            == self.queued_len() + self.frame_size by {
            assert(self.queued[c].len() == self.queued_len());
            assert(rendered[c].len() == self.frame_size);
        }
        assert(after.pending[0].len() == 0);
        assert(after.queued[0].len() == self.queued_len() + self.frame_size);
    }

    /// The state in which `advance` ends, with the index of the first
    /// frame of `block` not accepted and what is due then. Frames are
    /// accepted from `start` on. A full frame ends the run where it can be
    /// rendered, and is completed with silence where it cannot.
    pub open spec fn advanced(self, block: Seq<Seq<S>>, start: nat, can_render: bool) -> Advanced<
        S,
    >
        decreases
            block[0].len() - start,
            (if self.frame_ready() {
                1nat
            } else {
                0nat
            }),
        when self.wf() && self.accepts(block, start)
    {
        if self.frame_ready() {
            if can_render {
                Advanced { state: self, next: start, step: Step::Render }
            } else {
                self.completed(self.silent_frame()).advanced(block, start, can_render)
            }
        } else if start >= block[0].len() {
            Advanced { state: self, next: start, step: Step::Done }
        } else {
            self.fed(block, start).advanced(
                block,
                start + self.take_count(block, start),
                can_render,
            )
        }
    }

    /// Advancing keeps the invariant and the channels, and leaves the
    /// block acceptable from where the run stopped.
    pub proof fn lemma_advanced(self, block: Seq<Seq<S>>, start: nat, can_render: bool)
        requires
            self.wf(),
            self.accepts(block, start),
        ensures
            self.advanced(block, start, can_render).state.wf(),
            self.advanced(block, start, can_render).state.accepts(
                block,
                self.advanced(block, start, can_render).next,
            ),
            self.advanced(block, start, can_render).state.in_channels() == self.in_channels(),
            self.advanced(block, start, can_render).state.out_channels() == self.out_channels(),
            self.advanced(block, start, can_render).state.frame_size == self.frame_size,
            self.advanced(block, start, can_render).state.max_block == self.max_block,
            self.advanced(block, start, can_render).step == Step::Render <==> self.advanced(
                block,
                start,
                can_render,
            ).state.frame_ready(),
            self.advanced(block, start, can_render).step == Step::Done ==> self.advanced(
                block,
                start,
                can_render,
            ).next == block[0].len(),
            !can_render ==> self.advanced(block, start, can_render).step == Step::Done,
        decreases
            block[0].len() - start,
            (if self.frame_ready() {
                1nat
            } else {
                0nat
            }),
    {
        if self.frame_ready() {
            if !can_render {
                self.lemma_completed(self.silent_frame());
                self.completed(self.silent_frame()).lemma_advanced(block, start, can_render);
            }
        } else if start >= block[0].len() {
        } else {
            self.lemma_fed(block, start);
            self.fed(block, start).lemma_advanced(
                block,
                start + self.take_count(block, start),
                can_render,
            );
        }
    }
}

/// What is due after an adapter has advanced through a block.
#[derive(Clone, Copy, Debug, PartialEq, Eq, Structural)]
pub enum Step {
    /// A whole frame waits: render it, hand the result to `complete_cycle`
    /// and advance again from where this run stopped.
    Render,
    /// The block is used up and no frame waits.
    Done,
}

/// The mathematical result of `advance`.
#[verifier::ext_equal]
pub struct Advanced<S> {
    pub state: AdapterView<S>,
    pub next: nat,
    pub step: Step,
}

} // verus!
