use vstd::prelude::*;

verus! {

/// State used when a generator is seeded with zero, which xorshift cannot leave.
pub const ZERO_SEED_STATE: u64 = 0x9E37_79B9_7F4A_7C15u64;

/// Multiplier of the xorshift64* output function.
pub const OUTPUT_MULTIPLIER: u64 = 0x2545_F491_4F6C_DD1Du64;

/// Number of equally likely outcomes of a fractional draw (2^24).
pub const FRACTION_STEPS: u32 = 0x0100_0000u32;

/// One xorshift step on the generator state.
pub open spec fn xorshift(x: u64) -> u64 {
    let a = x ^ (x >> 12u64);
    let b = a ^ (a << 25u64);
    b ^ (b >> 27u64)
}

/// The value handed out for a state that has just been advanced.
pub open spec fn scramble(x: u64) -> u64 {
    ((x as nat * OUTPUT_MULTIPLIER as nat) % 0x1_0000_0000_0000_0000nat) as u64
}

/// The state after one draw.
pub open spec fn next_state(s: u64) -> u64 {
    xorshift(s)
}

/// The 64-bit value produced by one draw from state `s`.
pub open spec fn next_output(s: u64) -> u64 {
    scramble(xorshift(s))
}

/// The 24 high bits of the value produced by one draw from state `s`.
pub open spec fn next_fraction(s: u64) -> u64 {
    next_output(s) >> 40u64
}

/// A probability in 24-bit fixed point.
///
/// `Never` succeeds without drawing, `Always` succeeds without drawing, and
/// `AtMost(k)` draws a uniform 24-bit value and succeeds when it is at most `k`;
/// a threshold of 2^24 or more is certain and draws nothing.
#[derive(Clone, Copy, Debug, PartialEq, Eq)]
pub enum Probability {
    Never,
    Always,
    AtMost(u32),
}

/// Outcome of a coin flip with chance `p` from state `s`: the result and the new state.
pub open spec fn coin_outcome(s: u64, p: Probability) -> (bool, u64) {
    match p {
        Probability::Never => (false, s),
        Probability::Always => (true, s),
        Probability::AtMost(k) => if k >= FRACTION_STEPS {
            (true, s)
        } else {
            (next_fraction(s) <= k, next_state(s))
        },
    }
}

/// Outcome of drawing from `[start, end)` from state `s`.
pub open spec fn range_outcome(s: u64, start: usize, end: usize) -> (usize, u64) {
    if end <= start {
        (start, s)
    } else {
        let width = (end - start) as usize;
        ((start + ((next_output(s) as usize) % width)) as usize, next_state(s))
    }
}

/// Sum of a sequence of weights.
pub open spec fn weight_total(w: Seq<u32>) -> int
    decreases w.len(),
{
    if w.len() == 0 {
        0
    } else {
        weight_total(w.drop_last()) + w.last()
    }
}

/// The index whose cumulative weight interval holds `cursor`.
pub open spec fn pick_index(w: Seq<u32>, cursor: int) -> int
    decreases w.len(),
{
    if w.len() == 0 {
        0
    } else if cursor < w[0] {
        0
    } else {
        1 + pick_index(w.drop_first(), cursor - w[0])
    }
}

/// Outcome of a weighted pick from state `s`: `None` (and no draw) when all weights are zero.
pub open spec fn weighted_outcome(s: u64, w: Seq<u32>) -> (Option<int>, u64) {
    let total = weight_total(w);
    if total == 0 {
        (None, s)
    } else {
        (Some(pick_index(w, (next_output(s) as int) % total)), next_state(s))
    }
}

pub proof fn lemma_weight_total_take_push(w: Seq<u32>, i: int)
    requires
        0 <= i < w.len(),
    ensures
        weight_total(w.take(i + 1)) == weight_total(w.take(i)) + w[i],
{
    assert(w.take(i + 1).drop_last() =~= w.take(i));
}

pub proof fn lemma_weight_total_nonneg(w: Seq<u32>)
    ensures
        weight_total(w) >= 0,
    decreases w.len(),
{
    if w.len() > 0 {
        lemma_weight_total_nonneg(w.drop_last());
    }
}

pub proof fn lemma_weight_total_first(w: Seq<u32>)
    requires
        w.len() > 0,
    ensures
        weight_total(w) == w[0] + weight_total(w.drop_first()),
    decreases w.len(),
{
    if w.len() > 1 {
        let init = w.drop_last();
        let tail = w.drop_first();
        lemma_weight_total_first(init);
        assert(init.drop_first() =~= tail.drop_last());
        assert(init[0] == w[0]);
        assert(tail.last() == w.last());
        assert(weight_total(w) == weight_total(init) + w.last());
        assert(weight_total(tail) == weight_total(tail.drop_last()) + tail.last());
    } else {
        assert(w.drop_first().len() == 0);
        assert(w.drop_last().len() == 0);
        assert(weight_total(w) == weight_total(w.drop_last()) + w.last());
    }
}

pub proof fn lemma_pick_index_nonneg(w: Seq<u32>, cursor: int)
    ensures
        pick_index(w, cursor) >= 0,
    decreases w.len(),
{
    if w.len() > 0 && cursor >= w[0] {
        lemma_pick_index_nonneg(w.drop_first(), cursor - w[0]);
    }
}

/// Cumulative weights never decrease, and the whole sum bounds every prefix.
pub proof fn lemma_weight_total_prefix_bound(w: Seq<u32>, i: int)
    requires
        0 <= i <= w.len(),
    ensures
        0 <= weight_total(w.take(i)) <= weight_total(w),
    decreases w.len() - i,
{
    lemma_weight_total_nonneg(w.take(i));
    if i < w.len() {
        lemma_weight_total_take_push(w, i);
        lemma_weight_total_prefix_bound(w, i + 1);
    } else {
        assert(w.take(i) =~= w);
    }
}

/// The picked index lies in range, carries a positive weight, and its cumulative
/// interval holds the cursor.
pub proof fn lemma_pick_index(w: Seq<u32>, cursor: int)
    requires
        0 <= cursor < weight_total(w),
    ensures
        0 <= pick_index(w, cursor) < w.len(),
        w[pick_index(w, cursor)] > 0,
        weight_total(w.take(pick_index(w, cursor))) <= cursor,
        cursor < weight_total(w.take(pick_index(w, cursor) + 1)),
    decreases w.len(),
{
    if w.len() == 0 {
    } else {
        lemma_weight_total_first(w);
        assert(w.take(0) =~= Seq::<u32>::empty());
        assert(w.take(1).drop_last() =~= Seq::<u32>::empty());
        if cursor < w[0] {
        } else {
            let rest = w.drop_first();
            lemma_pick_index(rest, cursor - w[0]);
            let j = pick_index(rest, cursor - w[0]);
            lemma_weight_total_first(w.take(j + 1));
            lemma_weight_total_first(w.take(j + 2));
            assert(w.take(j + 1).drop_first() =~= rest.take(j));
            assert(w.take(j + 2).drop_first() =~= rest.take(j + 1));
        }
    }
}

/// A weighted pick lands on an index in range whose weight is positive.
pub proof fn lemma_weighted_outcome_in_range(s: u64, w: Seq<u32>)
    ensures
        weighted_outcome(s, w).0 matches Some(k) ==> 0 <= k < w.len() && w[k] > 0,
{
    lemma_weight_total_nonneg(w);
    let total = weight_total(w);
    if total > 0 {
        lemma_pick_index(w, (next_output(s) as int) % total);
    }
}

/// The state a generator seeded with `seed` starts from: a zero seed, which xorshift
/// could never leave, is replaced by a fixed non-zero state.
pub open spec fn seeded_state(seed: u64) -> u64 {
    if seed == 0 {
        ZERO_SEED_STATE
    } else {
        seed
    }
}

/// The state after `n` draws from state `s`.
pub open spec fn state_after(s: u64, n: nat) -> u64
    decreases n,
{
    if n == 0 {
        s
    } else {
        next_state(state_after(s, (n - 1) as nat))
    }
}

/// The value of the draw after `n` earlier draws from state `s`.
pub open spec fn nth_draw(s: u64, n: nat) -> u64 {
    next_output(state_after(s, n))
}

/// Modular inverse of the output multiplier modulo 2^64.
pub open spec fn output_multiplier_inverse() -> int {
    0x59071d96d81ecd35
}

/// xorshift maps a non-zero state to a non-zero state.
pub proof fn lemma_xorshift_nonzero(x: u64)
    requires
        x != 0,
    ensures
        xorshift(x) != 0,
{
    let a = x ^ (x >> 12u64);
    assert(x != 0 ==> (x ^ (x >> 12u64)) != 0) by (bit_vector);
    let b = a ^ (a << 25u64);
    assert(a != 0 ==> (a ^ (a << 25u64)) != 0) by (bit_vector);
    assert(b != 0 ==> (b ^ (b >> 27u64)) != 0) by (bit_vector);
}

/// The output function maps a non-zero state to a non-zero value: the multiplier is odd,
/// so multiplying by it is invertible modulo 2^64.
pub proof fn lemma_scramble_nonzero(x: u64)
    requires
        x != 0,
    ensures
        scramble(x) != 0,
{
    let n: int = 0x1_0000_0000_0000_0000;
    let m: int = OUTPUT_MULTIPLIER as int;
    let inv: int = output_multiplier_inverse();
    let k: int = 934034299265436267;
    let p: int = x as int * m;
    assert(m * inv == 1 + n * k);
    if p % n == 0 {
        vstd::arithmetic::div_mod::lemma_fundamental_div_mod(p, n);
        let q = p / n;
        assert(p == n * q);
        let xi = x as int;
        assert(xi * (m * inv) == (xi * m) * inv) by (nonlinear_arith);
        assert(xi * (1 + n * k) == xi + n * (xi * k)) by (nonlinear_arith);
        assert((n * q) * inv == n * (q * inv)) by (nonlinear_arith);
        let d = q * inv - xi * k;
        assert(xi == n * d) by (nonlinear_arith)
            requires
                xi * (m * inv) == p * inv,
                m * inv == 1 + n * k,
                xi * (1 + n * k) == xi + n * (xi * k),
                p == n * q,
                (n * q) * inv == n * (q * inv),
                d == q * inv - xi * k,
        ;
        assert(false) by (nonlinear_arith)
            requires
                xi == n * d,
                0 < xi < n,
                n > 0,
        ;
    }
}

/// Pseudo-random generator (xorshift64*), deterministic for a given seed.
#[derive(Debug)]
pub struct Random {
    state: u64,
}

impl Clone for Random {
    /// A generator in the same state, which will draw the same values.
    fn clone(&self) -> (r: Self)
        ensures
            r@ == self@,
    {
        proof {
            use_type_invariant(self);
        }
        Random { state: self.state }
    }
}

impl Random {
    /// A generator's state is never zero.
    #[verifier::type_invariant]
    spec fn nonzero_state(&self) -> bool {
        self.state != 0
    }
}

impl View for Random {
    type V = u64;

    closed spec fn view(&self) -> u64 {
        self.state
    }
}

impl Random {
    /// A generator seeded with `seed`; a zero seed is replaced by a fixed non-zero state.
    pub fn new(seed: u64) -> (r: Self)
        ensures
            r@ == seeded_state(seed),
            r@ != 0,
    {
        let state = if seed == 0 {
            ZERO_SEED_STATE
        } else {
            seed
        };
        Random { state }
    }

    /// Advances the state and returns the next 64-bit value.
    pub fn next_u64(&mut self) -> (r: u64)
        ensures
            r == next_output(old(self)@),
            final(self)@ == next_state(old(self)@),
            r != 0,
            final(self)@ != 0,
    {
        proof {
            use_type_invariant(&*self);
            lemma_xorshift_nonzero(self.state);
            lemma_scramble_nonzero(xorshift(self.state));
        }
        let mut x = self.state;
        x ^= x >> 12u64;
        x ^= x << 25u64;
        x ^= x >> 27u64;
        self.state = x;
        x.wrapping_mul(OUTPUT_MULTIPLIER)
    }

    /// Advances the state and returns the 24 high bits of the next value.
    pub fn next_fraction_bits(&mut self) -> (r: u32)
        ensures
            r == next_fraction(old(self)@),
            r < FRACTION_STEPS,
            final(self)@ == next_state(old(self)@),
    {
        let raw = self.next_u64();
        let value = raw >> 40u64;
        assert(raw >> 40u64 < 0x0100_0000u64) by (bit_vector);
        value as u32
    }

    /// Flips a coin that lands `true` with chance `probability`; only a
    /// threshold strictly between certain outcomes consumes a draw.
    pub fn coin(&mut self, probability: Probability) -> (r: bool)
        ensures
            (r, final(self)@) == coin_outcome(old(self)@, probability),
    {
        match probability {
            Probability::Never => false,
            Probability::Always => true,
            Probability::AtMost(threshold) => {
                if threshold >= FRACTION_STEPS {
                    true
                } else {
                    self.next_fraction_bits() <= threshold
                }
            },
        }
    }

    /// Draws a value in `range`; an empty range yields its start without drawing.
    pub fn range_usize(&mut self, range: std::ops::Range<usize>) -> (r: usize)
        ensures
            (r, final(self)@) == range_outcome(old(self)@, range.start, range.end),
            range.start < range.end ==> range.start <= r < range.end,
    {
        let width = range.end.saturating_sub(range.start);
        if width == 0 {
            return range.start;
        }
        let draw = self.next_u64() as usize;
        range.start + (draw % width)
    }

    /// Picks an index with chance proportional to its weight; `None` (without
    /// drawing) when every weight is zero.
    pub fn weighted_index(&mut self, weights: &[u32]) -> (r: Option<usize>)
        requires
            weight_total(weights@) <= u32::MAX,
        ensures
            (match r {
                Some(i) => Some(i as int),
                None => None::<int>,
            }, final(self)@) == weighted_outcome(old(self)@, weights@),
            r matches Some(i) ==> i < weights@.len() && weights@[i as int] > 0,
    {
        let mut total: u32 = 0;
        let mut k: usize = 0;
        while k < weights.len()
            invariant
                0 <= k <= weights@.len(),
                total == weight_total(weights@.take(k as int)),
                weight_total(weights@) <= u32::MAX,
            decreases weights@.len() - k,
        {
            proof {
                lemma_weight_total_take_push(weights@, k as int);
                lemma_weight_total_prefix_bound(weights@, k as int + 1);
            }
            total = total + weights[k];
            k = k + 1;
        }
        assert(weights@.take(weights@.len() as int) =~= weights@);
        if total == 0 {
            return None;
        }
        let ghost start = self@;
        let mut cursor = (self.next_u64() % (total as u64)) as u32;
        let ghost c0 = cursor as int;
        proof {
            lemma_pick_index(weights@, c0);
        }
        let mut index: usize = 0;
        while index < weights.len()
            invariant
                0 <= index <= weights@.len(),
                0 <= c0 < weight_total(weights@),
                cursor as int == c0 - weight_total(weights@.take(index as int)),
                pick_index(weights@, c0) >= index,
                pick_index(weights@.skip(index as int), cursor as int) + index == pick_index(weights@, c0),
                weight_total(weights@.take(index as int)) <= c0,
                self@ == next_state(start),
                start == old(self)@,
                c0 == (next_output(start) as int) % weight_total(weights@),
                0 <= pick_index(weights@, c0) < weights@.len(),
                weights@[pick_index(weights@, c0)] > 0,
            decreases weights@.len() - index,
        {
            let ghost rest = weights@.skip(index as int);
            assert(rest.len() > 0 && rest[0] == weights@[index as int]);
            if cursor < weights[index] {
                assert(pick_index(rest, cursor as int) == 0);
                return Some(index);
            }
            proof {
                lemma_weight_total_take_push(weights@, index as int);
                assert(rest.drop_first() =~= weights@.skip(index as int + 1));
                assert(pick_index(rest, cursor as int) == 1 + pick_index(rest.drop_first(),
                    cursor - weights@[index as int]));
                lemma_pick_index_nonneg(rest.drop_first(), cursor - weights@[index as int]);
            }
            cursor = cursor - weights[index];
            index = index + 1;
        }
        None
    }
}

/// Seeding with zero is seeding with the fixed replacement state: both generators draw
/// the same values forever.
pub proof fn law_zero_seed_is_replaced(n: nat)
    ensures
        seeded_state(0) == seeded_state(ZERO_SEED_STATE),
        nth_draw(seeded_state(0), n) == nth_draw(seeded_state(ZERO_SEED_STATE), n),
{
}

/// A generator never reaches the zero state and never draws zero.
pub proof fn law_draws_never_zero(seed: u64, n: nat)
    ensures
        state_after(seeded_state(seed), n) != 0,
        nth_draw(seeded_state(seed), n) != 0,
    decreases n,
{
    if n > 0 {
        law_draws_never_zero(seed, (n - 1) as nat);
        lemma_xorshift_nonzero(state_after(seeded_state(seed), (n - 1) as nat));
    }
    lemma_xorshift_nonzero(state_after(seeded_state(seed), n));
    lemma_scramble_nonzero(xorshift(state_after(seeded_state(seed), n)));
}

} // verus!
