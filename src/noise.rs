//! The pseudo-random source behind intake noise and crankshaft jitter.
//!
//! Words come from an XorShift generator. Which words come out depends on
//! the seed alone: two sources seeded alike draw the same sequence.
use rand_core::{RngCore, SeedableRng};
use rand_xorshift::XorShiftRng;
use vstd::prelude::*;

verus! {

/// rand_xorshift's generator, carried through as an opaque value.
#[verifier::external_type_specification]
#[verifier::external_body]
pub struct ExXorShiftRng(XorShiftRng);

/// The word that an XorShift generator seeded with `seed` draws after
/// `index` earlier ones.
pub uninterp spec fn xorshift_word(seed: Seq<u8>, index: nat) -> u32;

/// The `count` words that a generator seeded with `seed` draws after `from` earlier ones.
pub open spec fn words(seed: Seq<u8>, from: nat, count: nat) -> Seq<u32> {
    Seq::new(count, |i: int| xorshift_word(seed, from + i as nat))
}

/// A seeded noise source that counts the words it has drawn.
pub struct Noise {
    inner: XorShiftRng,
    seed: Ghost<Seq<u8>>,
    drawn: Ghost<nat>,
}

/// Relies on rand_xorshift's `XorShiftRng::from_seed`: the generator's
/// state is made from the sixteen seed bytes alone.
#[verifier::external_body]
fn xorshift_seeded(seed: [u8; 16]) -> XorShiftRng {
    XorShiftRng::from_seed(seed)
}

/// Relies on rand_xorshift's `RngCore::next_u32` for `XorShiftRng`: each
/// call steps the state and returns a word, so a generator made by
/// `from_seed(seed)` that has drawn `n` words draws `xorshift_word(seed, n)`.
/// `Noise` hands its generator to nothing else.
#[verifier::external_body]
fn xorshift_next(noise: &mut Noise) -> (r: u32)
    ensures
        r == xorshift_word(old(noise).seed@, old(noise).drawn@),
        final(noise).seed == old(noise).seed,
        final(noise).drawn@ == old(noise).drawn@ + 1,
{
    noise.inner.next_u32()
}

impl Noise {
    /// The seed the source was made from.
    pub closed spec fn seed(&self) -> Seq<u8> {
        self.seed@
    }

    /// How many words the source has drawn.
    pub closed spec fn drawn(&self) -> nat {
        self.drawn@
    }

    /// A source seeded with `seed`.
    pub fn from_seed(seed: [u8; 16]) -> (r: Noise)
        ensures
            r.seed() == seed@,
            r.drawn() == 0,
    {
        Noise { inner: xorshift_seeded(seed), seed: Ghost(seed@), drawn: Ghost(0) }
    }

    /// The next word of the sequence that the seed determines.
    pub fn next_word(&mut self) -> (r: u32)
        ensures
            r == xorshift_word(old(self).seed(), old(self).drawn()),
            final(self).seed() == old(self).seed(),
            final(self).drawn() == old(self).drawn() + 1,
    {
        xorshift_next(self)
    }

    /// The next `count` words of the sequence that the seed determines.
    pub fn next_words(&mut self, count: usize) -> (r: Vec<u32>)
        ensures
            r@ == words(old(self).seed(), old(self).drawn(), count as nat),
            final(self).seed() == old(self).seed(),
            final(self).drawn() == old(self).drawn() + count,
    {
        let mut v: Vec<u32> = Vec::with_capacity(count);
        let mut i: usize = 0;
        while i < count
            invariant
                i <= count,
                self.seed() == old(self).seed(),
                self.drawn() == old(self).drawn() + i,
                v@ == words(old(self).seed(), old(self).drawn(), i as nat),
            decreases count - i,
        {
            let w = self.next_word();
            v.push(w);
            i = i + 1;
            assert(v@ =~= words(old(self).seed(), old(self).drawn(), i as nat));
        }
        v
    }
}

/// Reproducibility: two sources made from one seed that have drawn equally
/// many words draw the same words from then on.
pub proof fn lemma_noise_reproducible(a: &Noise, b: &Noise, count: nat)
    requires
        a.seed() == b.seed(),
        a.drawn() == b.drawn(),
    ensures
        words(a.seed(), a.drawn(), count) == words(b.seed(), b.drawn(), count),
{
}

} // verus!
