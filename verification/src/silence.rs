//! The host's hint on silent input channels.

use vstd::prelude::*;

verus! {

/// Bit `channel` of `mask` is set: the host marks that channel as silent.
/// A mask has one bit for each of the first 64 channels.
pub open spec fn marked_silent(mask: u64, channel: nat) -> bool {
    channel < 64 && (mask >> (channel as u64)) & 1 == 1
}

/// The host marks each of the first `channels` channels as silent, as far
/// as the mask has bits for them.
pub open spec fn all_marked_silent(mask: u64, channels: nat) -> bool {
    forall|c: nat| c < channels && c < 64 ==> marked_silent(mask, c)
}

/// Asks the host library whether a silence mask marks all of the first
/// `channels` channels.
///
/// Calls `firewheel::mask::SilenceMask::all_channels_silent`. For fewer
/// than 64 channels that function tests whether the low `channels` bits of
/// the mask are all set; for 64 or more, whether the mask is all ones. The
/// contract states both as one condition on the bits.
#[verifier::external_body]
pub(crate) fn mask_marks_all(mask: u64, channels: usize) -> (r: bool)
    ensures
        r == all_marked_silent(mask, channels as nat),
{
    firewheel::mask::SilenceMask(mask).all_channels_silent(channels)
}

} // verus!
