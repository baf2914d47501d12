//! What a sink decides when the application commits a buffer it filled.
use vstd::prelude::*;

verus! {

/// Number of buffers in a sink's pool.
pub const SINK_QUEUE_SIZE: usize = 128;

/// Whether a sink buffer of `max_num_samples` samples takes a commit of
/// `num_frames` frames of `num_channels` interleaved channels: there must be
/// a channel, and the samples must fit. A refused commit sends nothing.
pub fn commit_fits(num_frames: usize, num_channels: usize, max_num_samples: usize) -> (r: bool)
    requires
        num_channels == 0 || num_frames * num_channels <= usize::MAX,
    ensures
        r == (num_channels != 0 && num_frames * num_channels <= max_num_samples),
{
    !(num_channels == 0 || num_frames * num_channels > max_num_samples)
}

} // verus!
