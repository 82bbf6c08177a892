//! The constants of the pipeline and what follows from them.

use vstd::prelude::*;

verus! {

/// Samples per channel that the acoustic effects take at a time.
pub const FRAME_SIZE: usize = 256;

/// The order of the ambisonic sound field.
pub const AMBISONICS_ORDER: usize = 2;

/// The channels of a sound field of order `AMBISONICS_ORDER`.
pub const AMBISONICS_NUM_CHANNELS: usize = 9;

/// The channels of the binaural output.
pub const BINAURAL_CHANNELS: usize = 2;

/// Occlusion samples that the simulator may take per source.
pub const MAX_OCCLUSION_SAMPLES: usize = 16;

/// Rays traced per reflection pass.
pub const NUM_RAYS: usize = 2048;

/// Bounces followed per ray.
pub const NUM_BOUNCES: usize = 8;

/// Directions sampled at each diffuse bounce.
pub const NUM_DIFFUSE_SAMPLES: usize = 8;

/// Rays traced through occluding geometry per source.
pub const TRANSMISSION_RAYS: usize = 8;

/// Length of the simulated reverb tail, in seconds.
pub const REVERB_DURATION_SECONDS: usize = 2;

/// Sources that the simulator is built for, the listener's own included.
pub const MAX_NUM_SOURCES: usize = 8;

/// Threads that the simulator may use.
pub const SIMULATION_THREADS: usize = 1;

/// The channels of an ambisonic sound field of order `order`.
pub open spec fn channels_for_order(order: nat) -> nat {
    (order + 1) * (order + 1)
}

/// The samples of an impulse response that covers the reverb tail at
/// `sample_rate` samples per second.
pub open spec fn impulse_response_len(sample_rate: nat) -> nat {
    REVERB_DURATION_SECONDS as nat * sample_rate
}

/// The configured number of channels is the one of the configured order.
pub proof fn lemma_configured_channels()
    ensures
        AMBISONICS_NUM_CHANNELS == channels_for_order(AMBISONICS_ORDER as nat),
{
    assert(3 * 3 == 9) by (nonlinear_arith);
}

/// The channels of an ambisonic sound field of order `order`, unless the
/// number is beyond the machine's integers.
pub fn ambisonic_channels(order: usize) -> (r: Option<usize>)
    ensures
        r == if channels_for_order(order as nat) <= usize::MAX {
            Some(channels_for_order(order as nat) as usize)
        } else {
            None::<usize>
        },
{
    match order.checked_add(1) {
        Some(side) => {
            let r = side.checked_mul(side);
            r
        },
        None => {
            proof {
                assert((order + 1) * (order + 1) > usize::MAX) by (nonlinear_arith)
                    requires
                        order + 1 > usize::MAX,
                ;
            }
            None
        },
    }
}

/// The samples of an impulse response that covers the reverb tail at
/// `sample_rate` samples per second, unless the number is beyond the
/// machine's integers.
pub fn impulse_response_size(sample_rate: usize) -> (r: Option<usize>)
    ensures
        r == if impulse_response_len(sample_rate as nat) <= usize::MAX {
            Some(impulse_response_len(sample_rate as nat) as usize)
        } else {
            None::<usize>
        },
{
    REVERB_DURATION_SECONDS.checked_mul(sample_rate)
}

} // verus!
