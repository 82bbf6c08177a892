//! Planar audio blocks and their mathematical models.

use vstd::prelude::*;
use crate::error::BufferShapeError;

verus! {

/// The channels of a borrowed planar block, as sequences of samples.
pub open spec fn planes<S>(block: Seq<&[S]>) -> Seq<Seq<S>> {
    Seq::new(block.len(), |c: int| block[c]@)
}

/// The channels of a writable planar block, as sequences of samples.
pub open spec fn planes_mut<S>(block: Seq<&mut [S]>) -> Seq<Seq<S>> {
    Seq::new(block.len(), |c: int| block[c]@)
}

/// Every channel of `block` holds exactly `frames` samples.
pub open spec fn uniform<S>(block: Seq<Seq<S>>, frames: nat) -> bool {
    forall|c: int| 0 <= c < block.len() ==> (#[trigger] block[c]).len() == frames
}

/// Channel `c` of planar data that holds `frames` samples per channel, one
/// channel after the other.
pub open spec fn plane<S>(data: Seq<S>, c: int, frames: nat) -> Seq<S> {
    data.subrange(c * frames, c * frames + frames)
}

/// The channels of planar data.
pub open spec fn split_planes<S>(data: Seq<S>, channels: nat, frames: nat) -> Seq<Seq<S>> {
    Seq::new(channels, |c: int| plane(data, c, frames))
}

/// Planar data of `channels` channels splits into channels of `frames`
/// samples each, and sample `i` of channel `c` is the one at index
/// `c * frames + i` of the data.
pub proof fn lemma_split_planes<S>(data: Seq<S>, channels: nat, frames: nat)
    requires
        data.len() == channels * frames,
    ensures
        split_planes(data, channels, frames).len() == channels,
        uniform(split_planes(data, channels, frames), frames),
        forall|c: int, i: int|
            0 <= c < channels && 0 <= i < frames ==> (#[trigger] split_planes(
                data,
                channels,
                frames,
            )[c][i]) == data[c * frames + i],
{
    let block = split_planes(data, channels, frames);
    assert forall|c: int| 0 <= c < block.len() implies (#[trigger] block[c]).len() == frames by {
        lemma_plane_bounds(c, channels, frames);
    }
    assert forall|c: int, i: int| 0 <= c < channels && 0 <= i < frames implies (
    #[trigger] split_planes(data, channels, frames)[c][i]) == data[c * frames + i] by {
        lemma_plane_bounds(c, channels, frames);
        assert(split_planes(data, channels, frames)[c] == plane(data, c, frames));
    }
}

/// Channel `c` of `channels` lies within `channels * frames` samples.
pub proof fn lemma_plane_bounds(c: int, channels: nat, frames: nat)
    requires
        0 <= c < channels,
    ensures
        0 <= c * frames,
        c * frames + frames <= channels * frames,
{
    assert(0 <= c * frames && c * frames + frames <= channels * frames) by (nonlinear_arith)
        requires
            0 <= c < channels,
            0 <= frames,
    ;
}

/// A block of `channels` channels that all hold `frames` times `sample`.
pub open spec fn constant_block<S>(channels: nat, frames: nat, sample: S) -> Seq<Seq<S>> {
    Seq::new(channels, |c: int| Seq::new(frames, |i: int| sample))
}

/// The channels of a block that a vector of vectors holds.
pub open spec fn channels_of<S>(block: Seq<Vec<S>>) -> Seq<Seq<S>> {
    Seq::new(block.len(), |c: int| block[c]@)
}

/// The planar data of a block of `frames` samples per channel: the
/// channels one after the other.
pub open spec fn planar<S>(block: Seq<Seq<S>>, frames: nat) -> Seq<S> {
    Seq::new(block.len() * frames, |i: int| block[i / frames as int][i % frames as int])
}

/// Index `c * frames + i` of planar data belongs to sample `i` of channel
/// `c`.
pub proof fn lemma_planar_index(c: int, i: int, frames: nat)
    requires
        0 <= c,
        0 <= i < frames,
    ensures
        (c * frames + i) / frames as int == c,
        (c * frames + i) % frames as int == i,
{
    let f = frames as int;
    assert((c * f + i) / f == c && (c * f + i) % f == i) by (nonlinear_arith)
        requires
            0 <= c,
            0 <= i < f,
    ;
}

/// Planar data splits back into the block it was made from.
pub proof fn lemma_planar_split<S>(block: Seq<Seq<S>>, frames: nat)
    requires
        uniform(block, frames),
    ensures
        planar(block, frames).len() == block.len() * frames,
        split_planes(planar(block, frames), block.len(), frames) == block,
{
    let data = planar(block, frames);
    let back = split_planes(data, block.len(), frames);
    lemma_split_planes(data, block.len(), frames);
    assert forall|c: int| 0 <= c < block.len() implies #[trigger] back[c] =~= block[c] by {
        assert(back[c].len() == frames);
        assert forall|i: int| 0 <= i < frames implies back[c][i] == block[c][i] by {
            lemma_plane_bounds(c, block.len(), frames);
            lemma_planar_index(c, i, frames);
            assert(back[c][i] == data[c * frames + i]);
        }
    }
    assert(back =~= block);
}

/// Writes the channels of `block`, each `frames` samples long, one after
/// the other into `out`, which must have room for exactly that. Where the
/// shapes do not fit, nothing is written.
pub fn pack_planar<S: Copy>(block: &Vec<Vec<S>>, frames: usize, out: &mut [S]) -> (r: Result<
    (),
    BufferShapeError,
>)
    ensures
        final(out)@.len() == old(out)@.len(),
        match r {
            Ok(()) => {
                &&& uniform(channels_of(block@), frames as nat)
                &&& old(out)@.len() == block@.len() * frames
                &&& final(out)@ == planar(channels_of(block@), frames as nat)
            },
            Err(e) => {
                &&& e == BufferShapeError::Frames
                &&& !(uniform(channels_of(block@), frames as nat) && old(out)@.len() == block@.len()
                    * frames)
                &&& final(out)@ == old(out)@
            },
        },
{
    let ghost view = channels_of(block@);
    let channels = block.len();
    let total = out.len();
    let fits = match channels.checked_mul(frames) {
        Some(n) => n == total,
        None => false,
    };
    if !fits {
        return Err(BufferShapeError::Frames);
    }
    let mut c: usize = 0;
    while c < channels
        invariant
            c <= channels,
            channels == block@.len(),
            view == channels_of(block@),
            forall|k: int| 0 <= k < c ==> (#[trigger] view[k]).len() == frames,
        decreases channels - c,
    {
        if block[c].len() != frames {
            proof {
                assert(view[c as int].len() != frames);
            }
            return Err(BufferShapeError::Frames);
        }
        c = c + 1;
    }
    let mut c: usize = 0;
    while c < channels
        invariant
            c <= channels,
            channels == block@.len(),
            view == channels_of(block@),
            uniform(view, frames as nat),
            out@.len() == old(out)@.len(),
            out@.len() == channels * frames,
            out@.len() == total,
            forall|k: int, i: int|
                0 <= k < c && 0 <= i < frames ==> out@[k * frames + i] == (#[trigger] view[k][i]),
        decreases channels - c,
    {
        proof {
            lemma_plane_bounds(c as int, channels as nat, frames as nat);
        }
        let base = c * frames;
        let source = &block[c];
        proof {
            assert(view[c as int] == source@);
        }
        let mut i: usize = 0;
        while i < frames
            invariant
                i <= frames,
                c < channels,
                channels == block@.len(),
                view == channels_of(block@),
                source@ == view[c as int],
                source@.len() == frames,
                base == c * frames,
                base + frames <= out@.len(),
                out@.len() == old(out)@.len(),
                out@.len() == channels * frames,
                out@.len() == total,
                forall|j: int| 0 <= j < i ==> out@[base + j] == #[trigger] source@[j],
                forall|k: int, j: int|
                    0 <= k < c && 0 <= j < frames ==> out@[k * frames + j] == (
                    #[trigger] view[k][j]),
            decreases frames - i,
        {
            let ghost before = out@;
            out[base + i] = source[i];
            proof {
                assert forall|k: int, j: int| 0 <= k < c && 0 <= j < frames implies out@[k
                    * frames + j] == (#[trigger] view[k][j]) by {
                    lemma_plane_bounds(k, c as nat, frames as nat);
                    assert(k * frames + j < base);
                    assert(before[k * frames + j] == view[k][j]);
                }
            }
            i = i + 1;
        }
        proof {
            assert forall|k: int, j: int| 0 <= k < c + 1 && 0 <= j < frames implies out@[k
                * frames + j] == (#[trigger] view[k][j]) by {
                if k == c {
                    assert(out@[base + j] == source@[j]);
                }
            }
        }
        c = c + 1;
    }
    proof {
        let goal = planar(view, frames as nat);
        assert(out@.len() == goal.len());
        assert forall|n: int| 0 <= n < out@.len() implies out@[n] == goal[n] by {
            let f = frames as int;
            assert(f > 0) by {
                if f == 0 {
                    assert(channels * frames == 0) by (nonlinear_arith)
                        requires
                            frames == 0,
                    ;
                }
            }
            let k = n / f;
            let j = n % f;
            assert(n == k * f + j && 0 <= j < f && 0 <= k < channels) by (nonlinear_arith)
                requires
                    0 <= n < channels * f,
                    f > 0,
                    k == n / f,
                    j == n % f,
            ;
            assert(out@[k * frames + j] == view[k][j]);
        }
        assert(out@ =~= goal);
    }
    Ok(())
}

} // verus!
