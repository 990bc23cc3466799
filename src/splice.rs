//! Seamless loops out of a rendered recording.
//!
//! The recording is turned half-way round, so that its start and end both
//! lie deep inside steady-state output, and the seam that this opens in the
//! middle is closed by a short crossfade.
use vstd::arithmetic::div_mod::*;
use vstd::prelude::*;

verus! {

/// Why a recording cannot be made into a loop.
#[derive(Debug, Clone, Copy, PartialEq, Eq, Structural)]
pub enum SpliceError {
    /// The crossfade is not shorter than the recording.
    CrossfadeTooLong,
}

/// The crossfade size actually used: at least one sample.
pub open spec fn crossfade_size(crossfade_samples: nat) -> nat {
    if crossfade_samples < 1 {
        1
    } else {
        crossfade_samples
    }
}

/// Samples the splice removes, and the length of the fade: half the crossfade.
pub open spec fn fade_len(crossfade_samples: nat) -> nat {
    crossfade_size(crossfade_samples) / 2
}

/// The recording turned half-way round: `shifted[i] = s[(|s| / 2 + i) mod |s|]`.
pub open spec fn half_turned<T>(s: Seq<T>) -> Seq<T> {
    Seq::new(s.len(), |i: int| s[(s.len() / 2 + i) % (s.len() as int)])
}

/// Length of the loop made of `len` recorded samples.
pub open spec fn spliced_len(len: nat, crossfade_samples: nat) -> int {
    len - fade_len(crossfade_samples)
}

/// Turns `output` half-way round and splices the two halves back together
/// with a crossfade of `crossfade_samples` (at least one) samples: the first
/// half is kept, the turned recording goes on from `fade` samples past the
/// middle, and the last `fade` samples of the first half become
/// `blend(x, y, k, fade)` of the sample `x` there and the sample `y` that
/// the splice cut out `fade` places later, `k` counting from zero.
/// Fails when the crossfade is not shorter than the recording.
pub fn seamless_loop<T: Copy, F: Fn(T, T, usize, usize) -> T>(
    output: &Vec<T>,
    crossfade_samples: usize,
    blend: F,
) -> (r: Result<Vec<T>, SpliceError>)
    requires
        forall|a: T, b: T, k: usize, n: usize| #[trigger] blend.requires((a, b, k, n)),
    ensures
        r is Err <==> crossfade_size(crossfade_samples as nat) >= output@.len(),
        r is Err ==> r == Err::<Vec<T>, SpliceError>(SpliceError::CrossfadeTooLong),
        r is Ok ==> {
            let v = r->Ok_0@;
            let len = output@.len() as int;
            let half = len / 2;
            let fade = fade_len(crossfade_samples as nat) as int;
            let shifted = half_turned(output@);
            &&& v.len() == spliced_len(output@.len(), crossfade_samples as nat)
            &&& forall|i: int| 0 <= i < half - fade ==> #[trigger] v[i] == shifted[i]
            &&& forall|i: int|
                half - fade <= i < half ==> blend.ensures(
                    (shifted[i], shifted[i + fade], (i - (half - fade)) as usize, fade as usize),
                    #[trigger] v[i],
                )
            &&& forall|i: int| half <= i < len - fade ==> #[trigger] v[i] == shifted[i + fade]
        },
{
    let len = output.len();
    let size = if crossfade_samples < 1 { 1 } else { crossfade_samples };
    if size >= len {
        return Err(SpliceError::CrossfadeTooLong);
    }
    let half = len / 2;
    let fade = size / 2;
    let ghost target = half_turned(output@);
    let mut shifted: Vec<T> = Vec::with_capacity(len);
    let mut i: usize = 0;
    while i < len
        invariant
            i <= len,
            len == output@.len(),
            half == len / 2,
            target == half_turned(output@),
            shifted@ == target.subrange(0, i as int),
        decreases len - i,
    {
        let j = if i < len - half { half + i } else { i - (len - half) };
        proof {
            let x = half + i;
            if x < len {
                lemma_small_mod(x as nat, len as nat);
            } else {
                lemma_mod_add_multiples_vanish(x - len, len as int);
                lemma_small_mod((x - len) as nat, len as nat);
            }
            assert(j == (len / 2 + i) % (len as int));
        }
        shifted.push(output[j]);
        i = i + 1;
        assert(shifted@ =~= target.subrange(0, i as int));
    }
    assert(shifted@ =~= target);
    let mut v: Vec<T> = Vec::with_capacity(len - fade);
    let start = half - fade;
    let mut i: usize = 0;
    while i < start
        invariant
            i <= start,
            start == half - fade,
            shifted@ == target,
            target.len() == len,
            half <= len,
            v@.len() == i,
            forall|k: int| 0 <= k < i ==> #[trigger] v@[k] == target[k],
        decreases start - i,
    {
        v.push(shifted[i]);
        i = i + 1;
    }
    while i < half
        invariant
            start <= i <= half,
            start == half - fade,
            half + fade < len,
            shifted@ == target,
            target.len() == len,
            v@.len() == i,
            forall|a: T, b: T, k: usize, n: usize| #[trigger] blend.requires((a, b, k, n)),
            forall|k: int| 0 <= k < start ==> #[trigger] v@[k] == target[k],
            forall|k: int|
                start <= k < i ==> blend.ensures(
                    (target[k], target[k + fade], (k - start) as usize, fade),
                    #[trigger] v@[k],
                ),
        decreases half - i,
    {
        let x = blend(shifted[i], shifted[i + fade], i - start, fade);
        v.push(x);
        i = i + 1;
    }
    while i < len - fade
        invariant
            half <= i <= len - fade,
            start == half - fade,
            half + fade < len,
            shifted@ == target,
            target.len() == len,
            v@.len() == i,
            forall|k: int| 0 <= k < start ==> #[trigger] v@[k] == target[k],
            forall|k: int|
                start <= k < half ==> blend.ensures(
                    (target[k], target[k + fade], (k - start) as usize, fade),
                    #[trigger] v@[k],
                ),
            forall|k: int| half <= k < i ==> #[trigger] v@[k] == target[k + fade],
        decreases len - fade - i,
    {
        v.push(shifted[i + fade]);
        i = i + 1;
    }
    Ok(v)
}

} // verus!
