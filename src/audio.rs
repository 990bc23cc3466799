//! Hand-off between the synthesis worker and the audio device.
use vstd::prelude::*;

verus! {

/// Samples the worker generates per step.
pub const GENERATOR_BUFFER_SIZE: usize = 256;

/// Batches that may wait between the worker and the audio callback.
pub const GENERATOR_CHANNEL_SIZE: usize = 6;

/// Handle of a running audio output; playback lasts while it is held.
pub struct Audio;

/// Spreads a mono signal over two interleaved channels in place. The mono
/// samples sit in the back half of `data`; afterwards frame `i` holds the
/// `i`-th of them on both channels. A trailing odd slot is left as it was.
pub fn interleave_mono<T: Copy>(data: &mut [T])
    ensures
        final(data)@.len() == old(data)@.len(),
        forall|i: int|
            0 <= i < old(data)@.len() / 2 ==> #[trigger] final(data)@[2 * i] == old(data)@[old(
                data,
            )@.len() / 2 + i] && final(data)@[2 * i + 1] == old(data)@[old(data)@.len() / 2 + i],
        forall|i: int|
            2 * (old(data)@.len() / 2) <= i < old(data)@.len() ==> #[trigger] final(data)@[i]
                == old(data)@[i],
{
    let n = data.len();
    let half = n / 2;
    let mut i: usize = 0;
    while i < half
        invariant
            i <= half,
            half == n / 2,
            n == old(data)@.len(),
            data@.len() == n,
            forall|k: int|
                0 <= k < i ==> #[trigger] data@[2 * k] == old(data)@[half + k] && data@[2 * k + 1]
                    == old(data)@[half + k],
            forall|k: int| 2 * i <= k < n ==> #[trigger] data@[k] == old(data)@[k],
        decreases half - i,
    {
        let v = data[half + i];
        data[2 * i] = v;
        data[2 * i + 1] = v;
        i = i + 1;
    }
}

} // verus!
