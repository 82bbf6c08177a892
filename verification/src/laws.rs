//! What holds of the block adapter over whole callbacks.

use vstd::prelude::*;
use crate::adapter::BlockAdapter;
use crate::config::{channels_for_order, BINAURAL_CHANNELS};
use crate::decode_node::DecodeNodeView;
use crate::layout::uniform;
use crate::model::{AdapterView, Step};
use crate::source_node::SourceNodeView;

verus! {

/// The frames that `blocks` bring, all together.
pub open spec fn total_frames<S>(blocks: Seq<Seq<Seq<S>>>) -> nat
    decreases blocks.len(),
{
    if blocks.len() == 0 {
        0
    } else {
        blocks[0][0].len() + total_frames(blocks.drop_first())
    }
}

/// The silent frame has one frame of samples on every output channel, so
/// that whatever a cycle takes over has that shape.
pub proof fn lemma_shaped<S>(v: AdapterView<S>, rendered: Seq<Seq<S>>)
    ensures
        v.shaped(rendered).len() == v.out_channels(),
        uniform(v.shaped(rendered), v.frame_size),
{
}

/// An adapter in which no frame waits has completed as many cycles as
/// whole frames were accepted: `cycles` is the quotient of `accepted` by the
/// frame size, and the accumulators hold the remainder.
pub proof fn lemma_cycle_count<S>(v: AdapterView<S>)
    requires
        v.wf(),
        !v.frame_ready(),
    ensures
        v.cycles == v.accepted / v.frame_size,
        v.pending_len() == v.accepted % v.frame_size,
{
    let f = v.frame_size as int;
    let c = v.cycles as int;
    let p = v.pending_len() as int;
    assert((c * f + p) / f == c && (c * f + p) % f == p) by (nonlinear_arith)
        requires
            0 <= p < f,
            0 <= c,
    ;
}

/// Where the host has brought exactly `k` frames' worth of samples and no
/// frame waits, exactly `k` cycles have been completed and the
/// accumulators are empty.
pub proof fn lemma_cycles_exact<S>(v: AdapterView<S>, k: nat)
    requires
        v.wf(),
        !v.frame_ready(),
        v.accepted == k * v.frame_size,
    ensures
        v.cycles == k,
        v.pending_len() == 0,
{
    let f = v.frame_size as int;
    let c = v.cycles as int;
    let p = v.pending_len() as int;
    assert(c == k && p == 0) by (nonlinear_arith)
        requires
            0 <= p < f,
            0 <= c,
            0 <= k,
            k * f == c * f + p,
    ;
}

/// A block that went through the adapter leaves the invariant in place
/// and no frame waiting; every frame of the block from `start` on was
/// accepted; nothing was delivered.
pub proof fn lemma_absorbed<S>(
    v: AdapterView<S>,
    block: Seq<Seq<S>>,
    start: nat,
    render: spec_fn(nat, Seq<Seq<S>>) -> Seq<Seq<S>>,
)
    requires
        v.wf(),
        v.accepts(block, start),
    ensures
        v.absorbed(block, start, render).wf(),
        !v.absorbed(block, start, render).frame_ready(),
        v.absorbed(block, start, render).accepted == v.accepted + block[0].len() - start,
        v.absorbed(block, start, render).delivered == v.delivered,
        v.absorbed(block, start, render).draining == v.draining,
        v.absorbed(block, start, render).frame_size == v.frame_size,
        v.absorbed(block, start, render).max_block == v.max_block,
        v.absorbed(block, start, render).silence == v.silence,
        v.absorbed(block, start, render).in_channels() == v.in_channels(),
        v.absorbed(block, start, render).out_channels() == v.out_channels(),
    decreases
        block[0].len() - start,
        (if v.frame_ready() {
            1nat
        } else {
            0nat
        }),
{
    if v.frame_ready() {
        let rendered = v.shaped(render(v.cycles, v.pending));
        lemma_shaped(v, render(v.cycles, v.pending));
        v.lemma_completed(rendered);
        lemma_absorbed(v.completed(rendered), block, start, render);
    } else if start >= block[0].len() {
    } else {
        v.lemma_fed(block, start);
        lemma_absorbed(v.fed(block, start), block, start + v.take_count(block, start), render);
    }
}

/// The steps of `advance` and `complete_cycle`, repeated until the block
/// is used up, take a block through the adapter: where `advance` stops for
/// a frame to be rendered, completing the cycle with what `render` gives
/// and going on from there ends in the same state.
pub proof fn lemma_absorbed_by_steps<S>(
    v: AdapterView<S>,
    block: Seq<Seq<S>>,
    start: nat,
    render: spec_fn(nat, Seq<Seq<S>>) -> Seq<Seq<S>>,
)
    requires
        v.wf(),
        v.accepts(block, start),
    ensures
        ({
            let a = v.advanced(block, start, true);
            &&& a.state.wf()
            &&& a.state.accepts(block, a.next)
            &&& a.step == Step::Render ==> a.state.frame_ready() && v.absorbed(block, start, render)
                == a.state.completed(
                a.state.shaped(render(a.state.cycles, a.state.pending)),
            ).absorbed(block, a.next, render)
            &&& a.step == Step::Done ==> a.next == block[0].len() && v.absorbed(
                block,
                start,
                render,
            ) == a.state
        }),
    decreases
        block[0].len() - start,
        (if v.frame_ready() {
            1nat
        } else {
            0nat
        }),
{
    let a = v.advanced(block, start, true);
    if v.frame_ready() {
        assert(a.state == v && a.next == start && a.step == Step::Render);
        let rendered = v.shaped(render(v.cycles, v.pending));
        lemma_shaped(v, render(v.cycles, v.pending));
        v.lemma_completed(rendered);
        assert(v.completed(rendered).wf());
        assert(v.completed(rendered).accepts(block, start));
        assert(v.absorbed(block, start, render) == v.completed(
            v.shaped(render(v.cycles, v.pending)),
        ).absorbed(block, start, render));
    } else if start >= block[0].len() {
        assert(a.state == v && a.next == start && a.step == Step::Done);
        assert(v.absorbed(block, start, render) == v);
    } else {
        let w = v.fed(block, start);
        let next = start + v.take_count(block, start);
        v.lemma_fed(block, start);
        lemma_absorbed_by_steps(w, block, next, render);
        assert(a == w.advanced(block, next, true));
        assert(v.absorbed(block, start, render) == w.absorbed(block, next, render));
    }
}

/// Every block of `blocks` has one channel per accumulator of `v`, all of
/// one length.
pub open spec fn all_accepted<S>(v: AdapterView<S>, blocks: Seq<Seq<Seq<S>>>) -> bool {
    forall|i: int|
        0 <= i < blocks.len() ==> (#[trigger] blocks[i]).len() == v.in_channels() && uniform(
            blocks[i],
            blocks[i][0].len(),
        )
}

/// A delivery keeps the invariant and touches neither the accumulators
/// nor the count of cycles.
pub proof fn lemma_drained<S>(v: AdapterView<S>, frames: nat)
    requires
        v.wf(),
    ensures
        v.drained(frames).wf(),
        v.drained(frames).pending == v.pending,
        v.drained(frames).accepted == v.accepted,
        v.drained(frames).cycles == v.cycles,
        v.drained(frames).frame_size == v.frame_size,
        v.drained(frames).delivered == v.delivered + v.drain_count(frames),
        v.drained(frames).queued_len() + v.drain_count(frames) == v.queued_len(),
{
    let after = v.drained(frames);
    let n = v.drain_count(frames);
    if !v.in_preroll() {
        assert forall|c: int| 0 <= c < after.queued.len() implies (#[trigger] after.queued[c]).len()
            == v.queued_len() - n by {
            assert(v.queued[c].len() == v.queued_len());
        }
    }
}

/// One callback keeps the invariant, leaves no frame waiting and accepts
/// every frame of its block.
pub proof fn lemma_after_callback<S>(
    v: AdapterView<S>,
    block: Seq<Seq<S>>,
    render: spec_fn(nat, Seq<Seq<S>>) -> Seq<Seq<S>>,
)
    requires
        v.wf(),
        v.accepts(block, 0),
    ensures
        v.after_callback(block, render).wf(),
        !v.after_callback(block, render).frame_ready(),
        v.after_callback(block, render).accepted == v.accepted + block[0].len(),
        v.after_callback(block, render).in_channels() == v.in_channels(),
        v.after_callback(block, render).frame_size == v.frame_size,
{
    lemma_absorbed(v, block, 0, render);
    lemma_drained(v.absorbed(block, 0, render), block[0].len());
}

/// Whatever the sizes of the blocks that the host brings: after their
/// callbacks the adapter has completed one cycle for every whole frame of
/// samples accepted since its construction.
pub proof fn lemma_cycles_of_callbacks<S>(
    v: AdapterView<S>,
    blocks: Seq<Seq<Seq<S>>>,
    render: spec_fn(nat, Seq<Seq<S>>) -> Seq<Seq<S>>,
)
    requires
        v.wf(),
        !v.frame_ready(),
        all_accepted(v, blocks),
    ensures
        v.after_callbacks(blocks, render).wf(),
        !v.after_callbacks(blocks, render).frame_ready(),
        v.after_callbacks(blocks, render).frame_size == v.frame_size,
        v.after_callbacks(blocks, render).accepted == v.accepted + total_frames(blocks),
        v.after_callbacks(blocks, render).cycles == (v.accepted + total_frames(blocks))
            / v.frame_size,
    decreases blocks.len(),
{
    if blocks.len() == 0 {
        lemma_cycle_count(v);
    } else {
        let w = v.after_callback(blocks[0], render);
        let rest = blocks.drop_first();
        assert(blocks[0].len() == v.in_channels());
        assert(v.accepts(blocks[0], 0));
        lemma_after_callback(v, blocks[0], render);
        assert forall|i: int| 0 <= i < rest.len() implies (#[trigger] rest[i]).len()
            == w.in_channels() && uniform(rest[i], rest[i][0].len()) by {
            assert(rest[i] == blocks[i + 1]);
        }
        lemma_cycles_of_callbacks(w, rest, render);
    }
}

/// With host blocks of any sizes that sum to `k` frames' worth of samples,
/// a new adapter has completed exactly `k` cycles after their callbacks.
pub proof fn lemma_k_frames_k_cycles<S>(
    v: AdapterView<S>,
    blocks: Seq<Seq<Seq<S>>>,
    render: spec_fn(nat, Seq<Seq<S>>) -> Seq<Seq<S>>,
    k: nat,
)
    requires
        v.wf(),
        v.accepted == 0,
        all_accepted(v, blocks),
        total_frames(blocks) == k * v.frame_size,
    ensures
        v.after_callbacks(blocks, render).cycles == k,
        v.after_callbacks(blocks, render).pending_len() == 0,
{
    assert(v.cycles == 0 && v.pending_len() == 0) by (nonlinear_arith)
        requires
            v.cycles * v.frame_size + v.pending_len() == 0,
            v.frame_size >= 1,
    ;
    lemma_cycles_of_callbacks(v, blocks, render);
    lemma_cycles_exact(v.after_callbacks(blocks, render), k);
}

/// Every sample that waits in the queues of `v` is silence.
pub open spec fn queues_silent<S>(v: AdapterView<S>) -> bool {
    forall|c: int, i: int|
        0 <= c < v.queued.len() && 0 <= i < v.queued[c].len() ==> #[trigger] v.queued[c][i]
            == v.silence
}

/// A cycle takes exactly one frame of input off every accumulator and
/// puts exactly one frame of output on every queue, whatever was handed
/// in as rendered.
pub proof fn lemma_cycle_moves_one_frame<S>(v: AdapterView<S>, rendered: Seq<Seq<S>>)
    requires
        v.wf(),
        v.frame_ready(),
    ensures
        v.completed(v.shaped(rendered)).wf(),
        v.pending_len() == v.frame_size,
        v.completed(v.shaped(rendered)).pending_len() == 0,
        v.completed(v.shaped(rendered)).queued_len() == v.queued_len() + v.frame_size,
        uniform(v.shaped(rendered), v.frame_size),
{
    lemma_shaped(v, rendered);
    v.lemma_completed(v.shaped(rendered));
}

/// A new adapter's queues hold nothing, so nothing but silence.
pub proof fn lemma_initial_silent<S: Copy>(
    frame_size: nat,
    in_channels: nat,
    out_channels: nat,
    max_block: nat,
    silence: S,
)
    ensures
        queues_silent(
            BlockAdapter::<S>::initial(
                frame_size,
                in_channels,
                out_channels,
                max_block,
                silence,
            ),
        ),
{
}

/// While nothing can be rendered, whatever the host brings, the queues
/// gain nothing but silence, and the whole block is worked through.
pub proof fn lemma_silence_while_unready<S>(v: AdapterView<S>, block: Seq<Seq<S>>, start: nat)
    requires
        v.wf(),
        v.accepts(block, start),
        queues_silent(v),
    ensures
        queues_silent(v.advanced(block, start, false).state),
        v.advanced(block, start, false).step == Step::Done,
        v.advanced(block, start, false).next == block[0].len(),
    decreases
        block[0].len() - start,
        (if v.frame_ready() {
            1nat
        } else {
            0nat
        }),
{
    v.lemma_advanced(block, start, false);
    if v.frame_ready() {
        let w = v.completed(v.silent_frame());
        v.lemma_completed(v.silent_frame());
        assert(queues_silent(w)) by {
            assert forall|c: int, i: int|
                0 <= c < w.queued.len() && 0 <= i < w.queued[c].len() implies #[trigger] w.queued[c][i]
                == w.silence by {
                if i < v.queued[c].len() {
                    assert(v.queued[c][i] == v.silence);
                }
            }
        }
        lemma_silence_while_unready(w, block, start);
    } else if start >= block[0].len() {
    } else {
        v.lemma_fed(block, start);
        lemma_silence_while_unready(
            v.fed(block, start),
            block,
            start + v.take_count(block, start),
        );
    }
}

/// From queues that hold nothing but silence the host gets nothing but
/// silence, and nothing but silence stays behind.
pub proof fn lemma_silent_delivery<S>(v: AdapterView<S>, frames: nat, c: int, before: Seq<S>)
    requires
        v.wf(),
        queues_silent(v),
        0 <= c < v.out_channels(),
        frames <= before.len(),
    ensures
        queues_silent(v.drained(frames)),
        forall|i: int| 0 <= i < frames ==> #[trigger] v.delivery(frames, c, before)[i] == v.silence,
{
    let after = v.drained(frames);
    let n = v.drain_count(frames);
    assert forall|k: int, i: int|
        0 <= k < after.queued.len() && 0 <= i < after.queued[k].len() implies #[trigger] after.queued[k][i]
        == after.silence by {
        if !v.in_preroll() {
            assert(v.queued[k].len() == v.queued_len());
            assert(after.queued[k][i] == v.queued[k][i + n]);
        }
    }
    assert forall|i: int| 0 <= i < frames implies #[trigger] v.delivery(frames, c, before)[i]
        == v.silence by {
        assert(v.queued[c].len() == v.queued_len());
        if i < n {
            assert(v.queued[c][i] == v.silence);
        }
    }
}

/// The frames that the adapter has accepted and not delivered yet: those
/// in the accumulators and those in the queues.
pub open spec fn in_flight<S>(v: AdapterView<S>) -> nat {
    v.pending_len() + v.queued_len()
}

/// The frames in flight stay below one frame plus the pre-roll of one and
/// a half host blocks.
pub open spec fn latency_bounded<S>(v: AdapterView<S>) -> bool {
    2 * in_flight(v) < 2 * v.frame_size + 3 * v.max_block
}

/// Frames are neither lost nor made up: what was accepted and not
/// delivered is in flight.
pub proof fn lemma_conservation<S>(v: AdapterView<S>)
    requires
        v.wf(),
    ensures
        v.accepted == v.delivered + in_flight(v),
{
}

/// The latency bound holds of every new adapter.
pub proof fn lemma_latency_initial<S: Copy>(
    frame_size: nat,
    in_channels: nat,
    out_channels: nat,
    max_block: nat,
    silence: S,
)
    requires
        BlockAdapter::<S>::refusal(
            frame_size,
            in_channels,
            out_channels,
            max_block,
        ) is None,
    ensures
        latency_bounded(
            BlockAdapter::<S>::initial(
                frame_size,
                in_channels,
                out_channels,
                max_block,
                silence,
            ),
        ),
{
}

/// Every callback keeps the latency bound, whatever the size of the
/// host's block: the frames in flight stay below one frame plus the
/// pre-roll.
pub proof fn lemma_latency_bound<S>(
    v: AdapterView<S>,
    block: Seq<Seq<S>>,
    render: spec_fn(nat, Seq<Seq<S>>) -> Seq<Seq<S>>,
)
    requires
        v.wf(),
        v.accepts(block, 0),
        latency_bounded(v),
    ensures
        latency_bounded(v.after_callback(block, render)),
{
    let w = v.absorbed(block, 0, render);
    let n = block[0].len();
    lemma_absorbed(v, block, 0, render);
    lemma_drained(w, n);
    lemma_conservation(v);
    lemma_conservation(w);
    lemma_conservation(w.drained(n));
}

/// While a callback for a block of at most the longest host block runs,
/// no queue grows beyond one frame plus two and a half host blocks.
pub proof fn lemma_queue_bound<S>(
    v: AdapterView<S>,
    block: Seq<Seq<S>>,
    render: spec_fn(nat, Seq<Seq<S>>) -> Seq<Seq<S>>,
)
    requires
        v.wf(),
        v.accepts(block, 0),
        latency_bounded(v),
        block[0].len() <= v.max_block,
    ensures
        2 * v.absorbed(block, 0, render).queued_len() < 2 * v.frame_size + 5 * v.max_block,
{
    let w = v.absorbed(block, 0, render);
    lemma_absorbed(v, block, 0, render);
    lemma_conservation(v);
    lemma_conservation(w);
}

/// Two blocks one after the other: channel by channel, the samples of
/// `a` followed by those of `b`.
pub open spec fn joined<S>(a: Seq<Seq<S>>, b: Seq<Seq<S>>) -> Seq<Seq<S>> {
    Seq::new(a.len(), |c: int| a[c] + b[c])
}

/// Behind the end of `a`, two joined blocks go through the adapter as `b`
/// alone does.
pub proof fn lemma_absorbed_behind<S>(
    v: AdapterView<S>,
    a: Seq<Seq<S>>,
    b: Seq<Seq<S>>,
    t: nat,
    render: spec_fn(nat, Seq<Seq<S>>) -> Seq<Seq<S>>,
)
    requires
        v.wf(),
        a.len() == v.in_channels(),
        uniform(a, a[0].len()),
        v.accepts(b, t),
    ensures
        v.accepts(joined(a, b), a[0].len() + t),
        v.absorbed(joined(a, b), a[0].len() + t, render) == v.absorbed(b, t, render),
    decreases
        b[0].len() - t,
        (if v.frame_ready() {
            1nat
        } else {
            0nat
        }),
{
    let j = joined(a, b);
    let la = a[0].len();
    assert(j[0].len() == la + b[0].len());
    assert forall|c: int| 0 <= c < j.len() implies (#[trigger] j[c]).len() == j[0].len() by {
        assert(a[c].len() == la);
        assert(b[c].len() == b[0].len());
    }
    if v.frame_ready() {
        let rendered = v.shaped(render(v.cycles, v.pending));
        lemma_shaped(v, render(v.cycles, v.pending));
        v.lemma_completed(rendered);
        lemma_absorbed_behind(v.completed(rendered), a, b, t, render);
    } else if t >= b[0].len() {
    } else {
        let n = v.take_count(b, t);
        assert(v.take_count(j, la + t) == n);
        v.lemma_fed(b, t);
        v.lemma_fed(j, la + t);
        assert(v.fed(j, la + t) =~= v.fed(b, t)) by {
            assert forall|c: int| 0 <= c < v.pending.len() implies j[c].subrange(
                (la + t) as int,
                (la + t + n) as int,
            ) =~= b[c].subrange(t as int, (t + n) as int) by {
                assert(a[c].len() == la);
                assert(b[c].len() == b[0].len());
            }
        }
        lemma_absorbed_behind(v.fed(b, t), a, b, t + n, render);
    }
}

/// Block-size resilience: a block that comes in two pieces goes through
/// the adapter as it does in one piece. The same frames are rendered in
/// the same order and the same samples are queued.
pub proof fn lemma_block_split<S>(
    v: AdapterView<S>,
    a: Seq<Seq<S>>,
    b: Seq<Seq<S>>,
    start: nat,
    render: spec_fn(nat, Seq<Seq<S>>) -> Seq<Seq<S>>,
)
    requires
        v.wf(),
        v.accepts(a, start),
        b.len() == v.in_channels(),
        uniform(b, b[0].len()),
    ensures
        v.accepts(joined(a, b), start),
        v.absorbed(a, start, render).accepts(b, 0),
        v.absorbed(joined(a, b), start, render) == v.absorbed(a, start, render).absorbed(
            b,
            0,
            render,
        ),
    decreases
        a[0].len() - start,
        (if v.frame_ready() {
            1nat
        } else {
            0nat
        }),
{
    let j = joined(a, b);
    let la = a[0].len();
    let lb = b[0].len();
    assert(j[0].len() == la + lb);
    assert forall|c: int| 0 <= c < j.len() implies (#[trigger] j[c]).len() == j[0].len() by {
        assert(a[c].len() == la);
        assert(b[c].len() == lb);
    }
    lemma_absorbed(v, a, start, render);
    if v.frame_ready() {
        let rendered = v.shaped(render(v.cycles, v.pending));
        lemma_shaped(v, render(v.cycles, v.pending));
        v.lemma_completed(rendered);
        lemma_block_split(v.completed(rendered), a, b, start, render);
    } else if start >= la {
        lemma_absorbed_behind(v, a, b, 0, render);
    } else {
        let room = (v.frame_size - v.pending_len()) as nat;
        let na = v.take_count(a, start);
        let nj = v.take_count(j, start);
        v.lemma_fed(a, start);
        v.lemma_fed(j, start);
        let w = v.fed(a, start);
        if room <= la - start {
            assert(na == nj);
            assert(v.fed(j, start) =~= w) by {
                assert forall|c: int| 0 <= c < v.pending.len() implies j[c].subrange(
                    start as int,
                    (start + nj) as int,
                ) =~= a[c].subrange(start as int, (start + na) as int) by {
                    assert(a[c].len() == la);
                }
            }
            lemma_block_split(w, a, b, start + na, render);
        } else {
            // The frame is not full at the end of `a`: the rest of it
            // comes from the head of `b`.
            assert(na == la - start);
            assert(!w.frame_ready());
            assert(w.absorbed(a, la, render) == w);
            let t = (nj - na) as nat;
            assert(w.accepts(b, 0));
            assert(w.take_count(b, 0) == t);
            w.lemma_fed(b, 0);
            assert(v.fed(j, start) =~= w.fed(b, 0)) by {
                assert forall|c: int| 0 <= c < v.pending.len() implies v.pending[c] + j[c].subrange(
                    start as int,
                    (start + nj) as int,
                ) =~= (v.pending[c] + a[c].subrange(start as int, (start + na) as int))
                    + b[c].subrange(0, t as int) by {
                    assert(a[c].len() == la);
                    assert(b[c].len() == lb);
                }
            }
            lemma_absorbed_behind(w.fed(b, 0), a, b, t, render);
            if lb == 0 {
                assert(t == 0);
                assert(w.fed(b, 0) =~= w);
            } else {
                assert(w.absorbed(b, 0, render) == w.fed(b, 0).absorbed(b, t, render));
            }
        }
    }
}

/// The adapter is in step with a host whose blocks are one frame long:
/// the accumulators are empty and every queue holds exactly one frame.
pub open spec fn in_step<S>(v: AdapterView<S>) -> bool {
    &&& v.max_block == v.frame_size
    &&& v.pending_len() == 0
    &&& v.queued_len() == v.frame_size
}

/// With host blocks of exactly one frame, the latency is exactly one
/// frame: once in step the adapter stays in step, every callback renders
/// the block that the host brought, and hands the host the whole frame
/// that was rendered one callback earlier. The first callback of a new
/// adapter, which hands out silence, brings it in step.
pub proof fn lemma_frame_sized_blocks<S>(
    v: AdapterView<S>,
    block: Seq<Seq<S>>,
    render: spec_fn(nat, Seq<Seq<S>>) -> Seq<Seq<S>>,
    c: int,
    before: Seq<S>,
)
    requires
        v.wf(),
        v.accepts(block, 0),
        v.max_block == v.frame_size,
        block[0].len() == v.frame_size,
        v.pending_len() == 0,
        v.queued_len() == 0 && !v.draining || in_step(v),
        0 <= c < v.out_channels(),
        before.len() == v.frame_size,
    ensures
        in_step(v.after_callback(block, render)),
        v.fed(block, 0).pending =~= block,
        v.absorbed(block, 0, render) == v.fed(block, 0).completed(
            v.shaped(render(v.cycles, block)),
        ),
        in_step(v) ==> v.after_callback(block, render).draining && v.absorbed(
            block,
            0,
            render,
        ).delivery(v.frame_size, c, before) =~= v.queued[c],
        !in_step(v) ==> !v.after_callback(block, render).draining && v.absorbed(
            block,
            0,
            render,
        ).delivery(v.frame_size, c, before) =~= Seq::new(v.frame_size, |i: int| v.silence),
{
    let f = v.frame_size;
    let w = v.fed(block, 0);
    v.lemma_fed(block, 0);
    assert(w.pending =~= block) by {
        assert forall|k: int| 0 <= k < w.pending.len() implies #[trigger] w.pending[k]
            =~= block[k] by {
            assert(v.pending[k].len() == v.pending_len());
            assert(block[k].len() == block[0].len());
        }
    }
    let rendered = w.shaped(render(w.cycles, w.pending));
    lemma_shaped(w, render(w.cycles, w.pending));
    w.lemma_completed(rendered);
    let x = w.completed(rendered);
    assert(w.frame_ready());
    assert(x.accepts(block, f));
    assert(x.absorbed(block, f, render) == x);
    assert(w.absorbed(block, f, render) == x);
    assert(v.absorbed(block, 0, render) == x);
    lemma_drained(x, f);
    assert(x.queued[c] =~= v.queued[c] + rendered[c]);
    assert(v.queued[c].len() == v.queued_len());
}

/// A cycle of a source node puts exactly one frame on each channel of the
/// ambisonic bus, and the bus has one channel for every channel of the
/// sound field, whatever was handed in as rendered.
pub proof fn lemma_source_cycle<S, V, D, R>(
    node: SourceNodeView<S, V, D, R>,
    rendered: Seq<Seq<S>>,
)
    requires
        node.wf(),
        node.adapter.frame_ready(),
    ensures
        node.adapter.shaped(rendered).len() == channels_for_order(node.order),
        uniform(node.adapter.shaped(rendered), node.adapter.frame_size),
        node.adapter.completed(node.adapter.shaped(rendered)).wf(),
        node.adapter.completed(node.adapter.shaped(rendered)).out_channels() == channels_for_order(
            node.order,
        ),
        node.adapter.completed(node.adapter.shaped(rendered)).queued_len()
            == node.adapter.queued_len() + node.adapter.frame_size,
{
    lemma_cycle_moves_one_frame(node.adapter, rendered);
}

/// A cycle of the decode node puts exactly one frame on each of the two
/// output channels, whatever was handed in as rendered.
pub proof fn lemma_decode_cycle<S, L>(node: DecodeNodeView<S, L>, rendered: Seq<Seq<S>>)
    requires
        node.wf(),
        node.adapter.frame_ready(),
    ensures
        node.adapter.shaped(rendered).len() == BINAURAL_CHANNELS,
        uniform(node.adapter.shaped(rendered), node.adapter.frame_size),
        node.adapter.completed(node.adapter.shaped(rendered)).wf(),
        node.adapter.completed(node.adapter.shaped(rendered)).out_channels() == BINAURAL_CHANNELS,
        node.adapter.completed(node.adapter.shaped(rendered)).queued_len()
            == node.adapter.queued_len() + node.adapter.frame_size,
{
    lemma_cycle_moves_one_frame(node.adapter, rendered);
}

/// A source without its snapshots is silent: whatever audio the host
/// brings, the node works through all of it, renders nothing, and its
/// queues gain nothing but silence.
pub proof fn lemma_unready_source_is_silent<S, V, D, R>(
    node: SourceNodeView<S, V, D, R>,
    block: Seq<Seq<S>>,
    start: nat,
)
    requires
        node.wf(),
        !node.ready(),
        node.adapter.accepts(block, start),
        queues_silent(node.adapter),
    ensures
        node.advanced(block, start).step == Step::Done,
        node.advanced(block, start).next == block[0].len(),
        node.advanced(block, start).state.cycles >= node.adapter.cycles,
        queues_silent(node.advanced(block, start).state),
{
    lemma_silence_while_unready(node.adapter, block, start);
    lemma_advanced_counts(node.adapter, block, start, false);
}

/// Advancing accepts frames and completes cycles but delivers nothing,
/// and neither count goes down.
pub proof fn lemma_advanced_counts<S>(
    v: AdapterView<S>,
    block: Seq<Seq<S>>,
    start: nat,
    can_render: bool,
)
    requires
        v.wf(),
        v.accepts(block, start),
    ensures
        v.advanced(block, start, can_render).state.cycles >= v.cycles,
        v.advanced(block, start, can_render).state.accepted == v.accepted + v.advanced(
            block,
            start,
            can_render,
        ).next - start,
        v.advanced(block, start, can_render).state.delivered == v.delivered,
        v.advanced(block, start, can_render).state.draining == v.draining,
        can_render ==> v.advanced(block, start, can_render).state.cycles == v.cycles,
    decreases
        block[0].len() - start,
        (if v.frame_ready() {
            1nat
        } else {
            0nat
        }),
{
    if v.frame_ready() {
        if !can_render {
            v.lemma_completed(v.silent_frame());
            lemma_advanced_counts(v.completed(v.silent_frame()), block, start, can_render);
        }
    } else if start >= block[0].len() {
    } else {
        v.lemma_fed(block, start);
        lemma_advanced_counts(
            v.fed(block, start),
            block,
            start + v.take_count(block, start),
            can_render,
        );
    }
}

} // verus!
