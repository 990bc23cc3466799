//! Ring buffers with vector-padded storage, and the delay lines built on them.
//!
//! Every acoustic element is first popped, its output worked upon, and then
//! new input is pushed; the write cursor advances after the push.
use vstd::arithmetic::div_mod::*;
use vstd::prelude::*;

verus! {

/// Number of storage slots for `len` samples when storage is padded to
/// whole vectors of `width` lanes: `ceil(len / width) * width`.
pub open spec fn padded_len(len: nat, width: nat) -> nat
    recommends
        width >= 1,
{
    (((len + width - 1) as nat) / width) * width
}

/// Abstract state of a ring buffer.
pub struct LoopBufferModel<T> {
    /// Logical length in samples: the delay.
    pub len: nat,
    /// Vector width the storage is padded to.
    pub width: nat,
    /// The storage, padding included.
    pub data: Seq<T>,
    /// Write cursor, reduced modulo `len`.
    pub pos: nat,
    /// The silent sample that fills fresh storage and the padding.
    pub blank: T,
}

impl<T> LoopBufferModel<T> {
    /// At least one sample; storage padded to whole vectors; cursor in
    /// range; padding silent.
    pub open spec fn wf(self) -> bool {
        &&& self.len >= 1
        &&& self.width >= 1
        &&& self.data.len() == padded_len(self.len, self.width)
        &&& self.pos < self.len
        &&& forall|i: int| self.len <= i < self.data.len() ==> #[trigger] self.data[i] == self.blank
    }

    /// A freshly constructed buffer: all storage silent, cursor at zero.
    pub open spec fn fresh(len: nat, width: nat, blank: T) -> Self {
        LoopBufferModel {
            len,
            width,
            data: Seq::new(padded_len(len, width), |i: int| blank),
            pos: 0,
            blank,
        }
    }

    /// The value that `pop` reads: the slot that the next `advance` moves the cursor onto.
    pub open spec fn popped(self) -> T {
        self.data[((self.pos + 1) % self.len) as int]
    }

    /// The state after `push(v)`: the slot under the cursor holds `v`.
    pub open spec fn pushed(self, v: T) -> Self {
        LoopBufferModel {
            len: self.len,
            width: self.width,
            data: self.data.update(self.pos as int, v),
            pos: self.pos,
            blank: self.blank,
        }
    }

    /// The state after `advance`.
    pub open spec fn advanced(self) -> Self {
        LoopBufferModel {
            len: self.len,
            width: self.width,
            data: self.data,
            pos: (self.pos + 1) % self.len,
            blank: self.blank,
        }
    }

    /// The state after `clear`: all storage silent, cursor kept.
    pub open spec fn cleared(self) -> Self {
        LoopBufferModel {
            len: self.len,
            width: self.width,
            data: Seq::new(self.data.len(), |i: int| self.blank),
            pos: self.pos,
            blank: self.blank,
        }
    }

    /// The state after each sample of `vs` in turn was pushed and the cursor advanced.
    pub open spec fn fed(self, vs: Seq<T>) -> Self
        decreases vs.len(),
    {
        if vs.len() == 0 {
            self
        } else {
            self.fed(vs.drop_last()).pushed(vs.last()).advanced()
        }
    }
}

/// A remainder is no larger than what it was taken of.
proof fn lemma_mod_le(x: int, l: int)
    requires
        x >= 0,
        l >= 1,
    ensures
        0 <= x % l <= x,
        x % l < l,
{
    lemma_mod_pos_bound(x, l);
    lemma_fundamental_div_mod(x, l);
    lemma_div_pos_is_pos(x, l);
    assert(l * (x / l) >= 0) by (nonlinear_arith)
        requires l >= 1, x / l >= 0;
}

/// `1 % l` for a ring of `l >= 1` slots.
proof fn lemma_one_mod(l: int)
    requires
        l >= 1,
    ensures
        1int % l == if l == 1 { 0int } else { 1int },
{
    if l == 1 {
        lemma_mod_self_0(1);
    } else {
        lemma_small_mod(1, l as nat);
    }
}

/// Stepping a slot index back by one: unless slot `j` is where sample `m`
/// lands, the distance from `j` back to the latest write grows by one.
proof fn lemma_distance_step(m: int, j: int, l: int)
    requires
        0 <= j < l,
        j < m,
        j != m % l,
    ensures
        (m - j) % l == (m - 1 - j) % l + 1,
{
    lemma_mod_pos_bound(m - 1 - j, l);
    lemma_one_mod(l);
    lemma_add_mod_noop(m - 1 - j, 1, l);
    let r = (m - 1 - j) % l;
    if l == 1 {
        lemma_mod_pos_bound(m, 1);
        assert(false);
    }
    assert((r + 1) % l == (m - j) % l);
    if r + 1 == l {
        lemma_mod_self_0(l);
        lemma_add_mod_noop(m - j, j, l);
        lemma_small_mod(j as nat, l as nat);
        assert(m % l == j);
    } else {
        lemma_small_mod((r + 1) as nat, l as nat);
    }
}

/// The slot that sample `m` lands in is at distance zero from it.
proof fn lemma_distance_zero(m: int, l: int)
    requires
        m >= 0,
        l >= 1,
    ensures
        (m - m % l) % l == 0,
{
    lemma_fundamental_div_mod(m, l);
    assert(m - m % l == (m / l) * l) by (nonlinear_arith)
        requires m == l * (m / l) + m % l;
    lemma_mod_multiples_basic(m / l, l);
}

/// What a fresh buffer holds after `vs` went in: each slot holds the latest
/// sample written to it, or silence if none was.
proof fn lemma_fed_contents<T>(len: nat, width: nat, blank: T, vs: Seq<T>)
    requires
        len >= 1,
        width >= 1,
    ensures
        ({
            let s = LoopBufferModel::fresh(len, width, blank).fed(vs);
            let m = vs.len() as int;
            &&& s.wf()
            &&& s.len == len
            &&& s.width == width
            &&& s.blank == blank
            &&& s.pos == vs.len() % len
            &&& forall|j: int|
                0 <= j < len ==> #[trigger] s.data[j] == if j < m {
                    vs[m - 1 - (m - 1 - j) % (len as int)]
                } else {
                    blank
                }
        }),
    decreases vs.len(),
{
    lemma_padded_len(len, width);
    if vs.len() == 0 {
        lemma_small_mod(0, len);
    } else {
        let pre = vs.drop_last();
        lemma_fed_contents(len, width, blank, pre);
        let s0 = LoopBufferModel::fresh(len, width, blank).fed(pre);
        let s = LoopBufferModel::fresh(len, width, blank).fed(vs);
        let m = pre.len() as int;
        let l = len as int;
        assert(s == s0.pushed(vs.last()).advanced());
        lemma_mod_pos_bound(m, l);
        lemma_next_slot(s0.pos, len);
        lemma_one_mod(l);
        lemma_add_mod_noop(m, 1, l);
        if l == 1 {
            lemma_mod_pos_bound(m + 1, 1);
            lemma_mod_pos_bound(m, 1);
        }
        assert(s.pos == (m + 1) % l);
        assert(s0.data.len() >= len);
        assert(s.data == s0.data.update(s0.pos as int, vs.last()));
        assert forall|j: int| 0 <= j < len implies #[trigger] s.data[j] == if j < m + 1 {
            vs[m - (m - j) % l]
        } else {
            blank
        } by {
            if j == m % l {
                lemma_distance_zero(m, l);
                lemma_mod_le(m, l);
                assert(s.data[j] == vs.last());
                assert(vs[m - (m - j) % l] == vs.last());
            } else if j < m {
                lemma_distance_step(m, j, l);
                lemma_mod_le(m - 1 - j, l);
                assert(s.data[j] == s0.data[j]);
                assert(vs[m - (m - j) % l] == pre[m - 1 - (m - 1 - j) % l]);
            } else {
                lemma_small_mod(m as nat, len);
                assert(j > m);
                assert(s.data[j] == s0.data[j]);
                assert(s0.data[j] == blank);
            }
        }
    }
}

/// Delay law of a ring buffer. A fresh buffer of `len` slots is fed the
/// samples `vs`, each pushed and then the cursor advanced. A following pop
/// returns the sample pushed `len - 1` steps before the next push, that is
/// `vs[|vs| + 1 - len]`, or silence while fewer samples have gone in. A
/// buffer of one slot returns the sample just pushed. Padding never shows.
pub proof fn lemma_delay<T>(len: nat, width: nat, blank: T, vs: Seq<T>)
    requires
        len >= 1,
        width >= 1,
    ensures
        LoopBufferModel::fresh(len, width, blank).fed(vs).wf(),
        LoopBufferModel::fresh(len, width, blank).fed(vs).popped() == if len == 1 {
            if vs.len() == 0 {
                blank
            } else {
                vs.last()
            }
        } else if vs.len() + 1 >= len {
            vs[vs.len() + 1 - len]
        } else {
            blank
        },
{
    lemma_fed_contents(len, width, blank, vs);
    let s = LoopBufferModel::fresh(len, width, blank).fed(vs);
    let m = vs.len() as int;
    let l = len as int;
    lemma_next_slot(s.pos, len);
    lemma_one_mod(l);
    lemma_mod_pos_bound(m, l);
    lemma_add_mod_noop(m, 1, l);
    let j = (m + 1) % l;
    assert(((s.pos + 1) % len) as int == j);
    lemma_mod_pos_bound(m + 1, l);
    if len == 1 {
        lemma_mod_multiples_basic(m + 1, 1);
        if m > 0 {
            lemma_mod_multiples_basic(m - 1, 1);
        }
    } else if m + 1 >= l {
        let q = (m + 1) / l;
        lemma_fundamental_div_mod(m + 1, l);
        assert(q >= 1) by (nonlinear_arith)
            requires m + 1 >= l, l >= 1, q == (m + 1) / l;
        assert(m - 1 - j == l * (q - 1) + (l - 2)) by (nonlinear_arith)
            requires m + 1 == l * q + j;
        lemma_mod_multiples_vanish(q - 1, l - 2, l);
        lemma_small_mod((l - 2) as nat, len);
        assert(j < m) by (nonlinear_arith)
            requires m + 1 == l * q + j, q >= 1, l >= 2, j >= 0;
    } else {
        lemma_small_mod((m + 1) as nat, len);
    }
}

/// Fixed-length ring of samples whose storage is padded with silence to a
/// whole number of vectors, so that vectorised sums may read all of it.
#[derive(Clone)]
pub struct LoopBuffer<T> {
    len: usize,
    width: usize,
    data: Vec<T>,
    pos: usize,
    blank: T,
}

impl<T> View for LoopBuffer<T> {
    type V = LoopBufferModel<T>;

    closed spec fn view(&self) -> LoopBufferModel<T> {
        LoopBufferModel {
            len: self.len as nat,
            width: self.width as nat,
            data: self.data@,
            pos: self.pos as nat,
            blank: self.blank,
        }
    }
}

/// Padding adds fewer than one vector's worth of slots and ends on a vector boundary.
pub proof fn lemma_padded_len(len: nat, width: nat)
    requires
        width >= 1,
    ensures
        len <= padded_len(len, width) < len + width,
        padded_len(len, width) % width == 0,
{
    let a = (len + width - 1) as int;
    let w = width as int;
    let q = a / w;
    assert(q * w <= a) by (nonlinear_arith)
        requires q == a / w, w >= 1, a >= 0;
    assert(q * w > a - w) by (nonlinear_arith)
        requires q == a / w, w >= 1, a >= 0;
    assert((q * w) % w == 0) by (nonlinear_arith)
        requires w >= 1, q >= 0;
}

/// The slot after `pos` in a ring of `len` slots.
proof fn lemma_next_slot(pos: nat, len: nat)
    requires
        pos < len,
    ensures
        (pos + 1) % len == if pos + 1 == len { 0 } else { pos + 1 },
{
    if pos + 1 < len {
        lemma_small_mod((pos + 1) as nat, len);
    } else {
        lemma_mod_self_0(len as int);
    }
}

/// Storage size for `len` samples padded to vectors of `width` lanes.
pub fn padded_size(len: usize, width: usize) -> (r: usize)
    requires
        width >= 1,
        len + width <= usize::MAX,
    ensures
        r == padded_len(len as nat, width as nat),
        r >= len,
        r % width == 0,
        r < len + width,
{
    proof {
        lemma_padded_len(len as nat, width as nat);
    }
    let q = (len + width - 1) / width;
    assert(q * width <= len + width - 1) by (nonlinear_arith)
        requires q == (len + width - 1) / (width as int), width >= 1;
    q * width
}

impl<T: Copy> LoopBuffer<T> {
    /// The buffer's state is well formed.
    pub open spec fn wf(&self) -> bool {
        self@.wf()
    }

    /// A silent buffer of `len` samples, its storage padded to vectors of `width` lanes.
    pub fn new(len: usize, width: usize, blank: T) -> (r: Self)
        requires
            len >= 1,
            width >= 1,
            len + width <= usize::MAX,
        ensures
            r.wf(),
            r@ == LoopBufferModel::fresh(len as nat, width as nat, blank),
    {
        let size = padded_size(len, width);
        let mut data: Vec<T> = Vec::with_capacity(size);
        let mut i: usize = 0;
        while i < size
            invariant
                i <= size,
                data@.len() == i,
                forall|k: int| 0 <= k < i ==> #[trigger] data@[k] == blank,
            decreases size - i,
        {
            data.push(blank);
            i = i + 1;
        }
        let r = LoopBuffer { len, width, data, pos: 0, blank };
        assert(r@.data =~= LoopBufferModel::fresh(len as nat, width as nat, blank).data);
        r
    }

    /// Logical length in samples.
    pub fn len(&self) -> (r: usize)
        ensures
            r == self@.len,
    {
        self.len
    }

    /// Size of the padded storage.
    pub fn storage_len(&self) -> (r: usize)
        ensures
            r == self@.data.len(),
    {
        self.data.len()
    }

    /// Write cursor, reduced modulo the length.
    pub fn pos(&self) -> (r: usize)
        ensures
            r == self@.pos,
    {
        self.pos
    }

    /// The storage, padding included.
    pub fn data(&self) -> (r: &Vec<T>)
        ensures
            r@ == self@.data,
    {
        &self.data
    }

    /// Writes `value` into the slot under the cursor; does not advance.
    pub fn push(&mut self, value: T)
        requires
            old(self).wf(),
        ensures
            final(self).wf(),
            final(self)@ == old(self)@.pushed(value),
    {
        proof {
            lemma_padded_len(self.len as nat, self.width as nat);
        }
        let p = self.pos;
        self.data.set(p, value);
    }

    /// Reads the slot after the cursor: the value that the slot about to be
    /// overwritten once the cursor advances holds.
    pub fn pop(&self) -> (r: T)
        requires
            self.wf(),
        ensures
            r == self@.popped(),
    {
        proof {
            lemma_padded_len(self.len as nat, self.width as nat);
            lemma_next_slot(self.pos as nat, self.len as nat);
        }
        let i = if self.pos + 1 == self.len { 0 } else { self.pos + 1 };
        self.data[i]
    }

    /// Moves the cursor one sample on.
    pub fn advance(&mut self)
        requires
            old(self).wf(),
        ensures
            final(self).wf(),
            final(self)@ == old(self)@.advanced(),
    {
        proof {
            lemma_next_slot(self.pos as nat, self.len as nat);
        }
        self.pos = if self.pos + 1 == self.len { 0 } else { self.pos + 1 };
    }

    /// Silences the whole storage; the cursor and length are kept.
    pub fn clear(&mut self)
        requires
            old(self).wf(),
        ensures
            final(self).wf(),
            final(self)@ == old(self)@.cleared(),
    {
        let n = self.data.len();
        let mut i: usize = 0;
        while i < n
            invariant
                i <= n,
                n == self.data@.len(),
                self.data@.len() == old(self).data@.len(),
                self.len == old(self).len,
                self.width == old(self).width,
                self.pos == old(self).pos,
                self.blank == old(self).blank,
                forall|k: int| 0 <= k < i ==> #[trigger] self.data@[k] == self.blank,
                forall|k: int| i <= k < n ==> #[trigger] self.data@[k] == old(self).data@[k],
            decreases n - i,
        {
            let b = self.blank;
            self.data.set(i, b);
            i = i + 1;
        }
        assert(self@.data =~= old(self)@.cleared().data);
    }
    /// A buffer of `len` samples at the same width that carries this one's
    /// contents over: the first `min(len, self.len)` samples are copied, and
    /// any further ones are filled by `ramp(a, b, k, n)` for `k` in `0..n`,
    /// from the last sample `a` back to the first sample `b`, which softens
    /// the seam when a cavity is resized. The cursor starts at zero.
    pub fn resized<F: Fn(T, T, usize, usize) -> T>(&self, len: usize, ramp: F) -> (r: Self)
        requires
            self.wf(),
            len >= 1,
            len + self@.width <= usize::MAX,
            forall|a: T, b: T, k: usize, n: usize| #[trigger] ramp.requires((a, b, k, n)),
        ensures
            r.wf(),
            r@.len == len,
            r@.width == self@.width,
            r@.blank == self@.blank,
            r@.pos == 0,
            forall|i: int|
                0 <= i < len && i < self@.len ==> #[trigger] r@.data[i] == self@.data[i],
            forall|i: int|
                self@.len <= i < len ==> ramp.ensures(
                    (
                        self@.data[self@.len - 1],
                        self@.data[0],
                        (i - self@.len) as usize,
                        (len - self@.len) as usize,
                    ),
                    #[trigger] r@.data[i],
                ),
    {
        proof {
            lemma_padded_len(self.len as nat, self.width as nat);
            lemma_padded_len(len as nat, self.width as nat);
        }
        let mut r = LoopBuffer::new(len, self.width, self.blank);
        let kept = if len < self.len { len } else { self.len };
        let mut i: usize = 0;
        while i < kept
            invariant
                self.wf(),
                r.wf(),
                self.data@.len() >= self.len,
                r.data@.len() >= len,
                kept <= len,
                kept <= self.len,
                i <= kept,
                r.len == len,
                r.width == self.width,
                r.blank == self.blank,
                r.pos == 0,
                forall|k: int| 0 <= k < i ==> #[trigger] r.data@[k] == self.data@[k],
            decreases kept - i,
        {
            let v = self.data[i];
            r.data.set(i, v);
            i = i + 1;
        }
        let a = self.data[self.len - 1];
        let b = self.data[0];
        while i < len
            invariant
                self.wf(),
                r.wf(),
                self.data@.len() >= self.len,
                r.data@.len() >= len,
                kept <= len,
                kept <= self.len,
                kept <= i <= len,
                kept == len || kept == self.len,
                r.len == len,
                r.width == self.width,
                r.blank == self.blank,
                r.pos == 0,
                a == self.data@[self.len - 1],
                b == self.data@[0],
                forall|a: T, b: T, k: usize, n: usize| #[trigger] ramp.requires((a, b, k, n)),
                forall|k: int| 0 <= k < kept ==> #[trigger] r.data@[k] == self.data@[k],
                forall|k: int|
                    self.len <= k < i ==> ramp.ensures(
                        (a, b, (k - self.len) as usize, (len - self.len) as usize),
                        #[trigger] r.data@[k],
                    ),
            decreases len - i,
        {
            let v = ramp(a, b, i - self.len, len - self.len);
            r.data.set(i, v);
            i = i + 1;
        }
        r
    }
}

/// A delay element: a ring buffer in the role of a cavity's travel time.
#[derive(Clone)]
pub struct DelayLine<T> {
    samples: LoopBuffer<T>,
}

impl<T> View for DelayLine<T> {
    type V = LoopBufferModel<T>;

    closed spec fn view(&self) -> LoopBufferModel<T> {
        self.samples@
    }
}

impl<T: Copy> DelayLine<T> {
    /// The line's state is well formed.
    pub open spec fn wf(&self) -> bool {
        self@.wf()
    }

    /// A silent delay line of `delay` samples, storage padded to vectors of `width` lanes.
    pub fn new(delay: usize, width: usize, blank: T) -> (r: Self)
        requires
            delay >= 1,
            width >= 1,
            delay + width <= usize::MAX,
        ensures
            r.wf(),
            r@ == LoopBufferModel::fresh(delay as nat, width as nat, blank),
    {
        DelayLine { samples: LoopBuffer::new(delay, width, blank) }
    }

    /// The underlying ring buffer.
    pub fn samples(&self) -> (r: &LoopBuffer<T>)
        ensures
            r@ == self@,
    {
        &self.samples
    }

    /// The sample that entered `delay - 1` pushes before the next one.
    pub fn pop(&self) -> (r: T)
        requires
            self.wf(),
        ensures
            r == self@.popped(),
    {
        self.samples.pop()
    }

    /// Enters a sample at the cursor; does not advance.
    pub fn push(&mut self, sample: T)
        requires
            old(self).wf(),
        ensures
            final(self).wf(),
            final(self)@ == old(self)@.pushed(sample),
    {
        self.samples.push(sample);
    }

    /// Moves the cursor one sample on.
    pub fn advance(&mut self)
        requires
            old(self).wf(),
        ensures
            final(self).wf(),
            final(self)@ == old(self)@.advanced(),
    {
        self.samples.advance();
    }

    /// Silences the line; the cursor is kept.
    pub fn clear(&mut self)
        requires
            old(self).wf(),
        ensures
            final(self).wf(),
            final(self)@ == old(self)@.cleared(),
    {
        self.samples.clear();
    }

    /// A line of `delay` samples carrying this one's contents over, as
    /// `LoopBuffer::resized` does.
    pub fn resized<F: Fn(T, T, usize, usize) -> T>(&self, delay: usize, ramp: F) -> (r: Self)
        requires
            self.wf(),
            delay >= 1,
            delay + self@.width <= usize::MAX,
            forall|a: T, b: T, k: usize, n: usize| #[trigger] ramp.requires((a, b, k, n)),
        ensures
            r.wf(),
            r@.len == delay,
            r@.width == self@.width,
            r@.blank == self@.blank,
            r@.pos == 0,
            forall|i: int|
                0 <= i < delay && i < self@.len ==> #[trigger] r@.data[i] == self@.data[i],
            forall|i: int|
                self@.len <= i < delay ==> ramp.ensures(
                    (
                        self@.data[self@.len - 1],
                        self@.data[0],
                        (i - self@.len) as usize,
                        (delay - self@.len) as usize,
                    ),
                    #[trigger] r@.data[i],
                ),
    {
        DelayLine { samples: self.samples.resized(delay, ramp) }
    }
}

} // verus!
