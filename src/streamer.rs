//! Exact-size fills out of a stream of variable-length batches.
//!
//! The synthesis worker sends batches of samples of whatever length it
//! produced; the audio callback asks for exactly as many as its device
//! buffer holds. A fill first hands out what the last fill carried over,
//! then places batches one by one as they arrive; the surplus of the last
//! one is carried over. Items leave in the order they arrived, none lost
//! and none repeated.
use vstd::prelude::*;

verus! {

/// Carries the surplus of one fill over to the next.
pub struct ExactStreamer<T> {
    remainder: Vec<T>,
    received: Ghost<Seq<T>>,
    delivered: Ghost<Seq<T>>,
}

impl<T: Copy> ExactStreamer<T> {
    /// Every item accepted so far, in arrival order.
    pub closed spec fn received(&self) -> Seq<T> {
        self.received@
    }

    /// Every item handed out so far, in order.
    pub closed spec fn delivered(&self) -> Seq<T> {
        self.delivered@
    }

    /// Items accepted and not handed out yet.
    pub closed spec fn pending(&self) -> Seq<T> {
        self.remainder@
    }

    /// Nothing accepted is lost or repeated, and order is kept.
    pub open spec fn wf(&self) -> bool {
        self.received() == self.delivered() + self.pending()
    }

    /// A streamer with room reserved for a carried-over tail of
    /// `remainder_buffer_size` items.
    pub fn new(remainder_buffer_size: usize) -> (r: Self)
        ensures
            r.wf(),
            r.received() == Seq::<T>::empty(),
            r.delivered() == Seq::<T>::empty(),
            r.pending() == Seq::<T>::empty(),
    {
        ExactStreamer {
            remainder: Vec::with_capacity(remainder_buffer_size),
            received: Ghost(Seq::empty()),
            delivered: Ghost(Seq::empty()),
        }
    }

    /// Number of items carried over.
    pub fn pending_len(&self) -> (r: usize)
        ensures
            r == self.pending().len(),
    {
        self.remainder.len()
    }

    /// First step of a fill: hands the carried-over items out into the front
    /// of `out`, as many as fit, and returns how many that was.
    pub fn take_pending(&mut self, out: &mut [T]) -> (r: usize)
        requires
            old(self).wf(),
        ensures
            final(self).wf(),
            r == if old(self).pending().len() < old(out)@.len() {
                old(self).pending().len()
            } else {
                old(out)@.len() as nat
            },
            final(out)@ == old(self).pending().subrange(0, r as int) + old(out)@.subrange(
                r as int,
                old(out)@.len() as int,
            ),
            final(self).pending() == old(self).pending().subrange(
                r as int,
                old(self).pending().len() as int,
            ),
            final(self).received() == old(self).received(),
            final(self).delivered() == old(self).delivered() + old(self).pending().subrange(
                0,
                r as int,
            ),
    {
        let n = out.len();
        let held = self.remainder.len();
        let take = if held < n { held } else { n };
        let mut i: usize = 0;
        while i < take
            invariant
                i <= take,
                take <= n,
                take <= held,
                held == self.remainder@.len(),
                self.remainder@ == old(self).remainder@,
                self.received@ == old(self).received@,
                self.delivered@ == old(self).delivered@,
                out@.len() == n,
                n == old(out)@.len(),
                forall|k: int| 0 <= k < i ==> #[trigger] out@[k] == self.remainder@[k],
                forall|k: int| i <= k < n ==> #[trigger] out@[k] == old(out)@[k],
            decreases take - i,
        {
            out[i] = self.remainder[i];
            i = i + 1;
        }
        let mut j: usize = 0;
        while j < held - take
            invariant
                take <= held,
                j <= held - take,
                self.remainder@.len() == held,
                held == old(self).remainder@.len(),
                self.received@ == old(self).received@,
                self.delivered@ == old(self).delivered@,
                forall|k: int|
                    0 <= k < j ==> #[trigger] self.remainder@[k] == old(self).remainder@[k + take],
                forall|k: int| j <= k < held ==> #[trigger] self.remainder@[k] == old(self).remainder@[k],
            decreases held - take - j,
        {
            let v = self.remainder[j + take];
            self.remainder.set(j, v);
            j = j + 1;
        }
        self.remainder.truncate(held - take);
        assert(out@ =~= old(self).remainder@.subrange(0, take as int) + old(out)@.subrange(
            take as int,
            n as int,
        ));
        assert(self.remainder@ =~= old(self).remainder@.subrange(take as int, held as int));
        self.delivered = Ghost(self.delivered@ + old(self).remainder@.subrange(0, take as int));
        assert(self.received@ =~= self.delivered@ + self.remainder@);
        take
    }

    /// Next step of a fill, once `out[..at]` is filled: places a batch that
    /// arrived. With nothing carried over, as much of the batch as fits goes
    /// to `out` from `at` on and the rest is carried over; the new fill
    /// position is returned. Anything already carried over goes out first,
    /// so then the whole batch is carried over behind it.
    pub fn accept(&mut self, out: &mut [T], at: usize, batch: Vec<T>) -> (r: usize)
        requires
            old(self).wf(),
            at <= old(out)@.len(),
        ensures
            final(self).wf(),
            final(self).received() == old(self).received() + batch@,
            final(out)@.len() == old(out)@.len(),
            old(self).pending().len() > 0 ==> {
                &&& r == at
                &&& final(out)@ == old(out)@
                &&& final(self).pending() == old(self).pending() + batch@
                &&& final(self).delivered() == old(self).delivered()
            },
            old(self).pending().len() == 0 ==> {
                let fit = if batch@.len() < old(out)@.len() - at {
                    batch@.len() as int
                } else {
                    old(out)@.len() - at
                };
                &&& r == at + fit
                &&& final(out)@ == old(out)@.subrange(0, at as int) + batch@.subrange(0, fit)
                    + old(out)@.subrange(at + fit, old(out)@.len() as int)
                &&& final(self).pending() == batch@.subrange(fit, batch@.len() as int)
                &&& final(self).delivered() == old(self).delivered() + batch@.subrange(0, fit)
            },
    {
        let n = out.len();
        let g = batch.len();
        if self.remainder.len() > 0 {
            let mut t: usize = 0;
            while t < g
                invariant
                    t <= g,
                    g == batch@.len(),
                    self.remainder@ == old(self).remainder@ + batch@.subrange(0, t as int),
                    self.received@ == old(self).received@,
                    self.delivered@ == old(self).delivered@,
                decreases g - t,
            {
                self.remainder.push(batch[t]);
                t = t + 1;
                assert(self.remainder@ =~= old(self).remainder@ + batch@.subrange(0, t as int));
            }
            assert(batch@ =~= batch@.subrange(0, g as int));
            self.received = Ghost(self.received@ + batch@);
            assert(self.received@ =~= self.delivered@ + self.remainder@);
            return at;
        }
        let room = n - at;
        let fit = if g < room { g } else { room };
        let mut k: usize = 0;
        while k < fit
            invariant
                k <= fit,
                fit <= g,
                g == batch@.len(),
                at + fit <= n,
                n == old(out)@.len(),
                out@.len() == n,
                forall|q: int| 0 <= q < at ==> #[trigger] out@[q] == old(out)@[q],
                forall|q: int| at + k <= q < n ==> #[trigger] out@[q] == old(out)@[q],
                forall|q: int| at <= q < at + k ==> #[trigger] out@[q] == batch@[q - at],
            decreases fit - k,
        {
            out[at + k] = batch[k];
            k = k + 1;
        }
        let mut t: usize = fit;
        while t < g
            invariant
                fit <= t <= g,
                g == batch@.len(),
                self.remainder@ == batch@.subrange(fit as int, t as int),
                self.received@ == old(self).received@,
                self.delivered@ == old(self).delivered@,
            decreases g - t,
        {
            self.remainder.push(batch[t]);
            t = t + 1;
            assert(self.remainder@ =~= batch@.subrange(fit as int, t as int));
        }
        assert(out@ =~= old(out)@.subrange(0, at as int) + batch@.subrange(0, fit as int)
            + old(out)@.subrange((at + fit) as int, n as int));
        assert(batch@ =~= batch@.subrange(0, fit as int) + batch@.subrange(fit as int, g as int));
        assert(old(self).remainder@ =~= Seq::<T>::empty());
        self.received = Ghost(self.received@ + batch@);
        self.delivered = Ghost(self.delivered@ + batch@.subrange(0, fit as int));
        assert(self.received@ =~= self.delivered@ + self.remainder@);
        at + fit
    }
}

} // verus!
