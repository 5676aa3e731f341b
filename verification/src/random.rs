//! Range reduction over raw entropy words.
//!
//! The device reads 32-bit entropy words from a peripheral; this module holds
//! the arithmetic that folds those words into a caller-chosen range.  A
//! [`Random`] carries a caller-supplied store of raw words (the shell fills
//! it from the peripheral, a test fills it with chosen values) and consumes
//! them from the back.  An empty store takes the place of the peripheral
//! fault the device build unwrapped; the draws on which the device build
//! halted outright are reported as [`RngError::Unmappable`].

use vstd::prelude::*;

verus! {

/// Why a draw could not be served.
#[derive(Clone, Copy, PartialEq, Eq, Structural, Debug)]
pub enum RngError {
    /// The store of raw entropy words is used up.
    Exhausted,
    /// The range arithmetic has no slot for the drawn word.
    Unmappable,
}

/// How one drawn word `v` is folded toward `[from, to)`: kept if already
/// inside, shifted up by `from` if below it, shifted down by `to` if above
/// it.  A word exactly equal to `to` has no slot.  The shifted results may
/// still fall outside the range; the retrying caller deals with those.
pub open spec fn spec_shift(v: u32, from: u32, to: u32) -> Result<u32, RngError> {
    if from <= v && v < to {
        Ok(v)
    } else if v < from {
        Ok((v + from) as u32)
    } else if v > to {
        Ok((v - to) as u32)
    } else {
        Err(RngError::Unmappable)
    }
}

/// The smallest exponent `u` in `1 ..= 31` with `m <= 2^u`, found the way
/// the reduction searches for it: upward from 1.
pub open spec fn spec_u_rec(m: u32, u: u32) -> u32
    decreases 31 - u,
{
    if u >= 31 {
        31
    } else if m <= (1u32 << u) {
        u
    } else {
        spec_u_rec(m, (u + 1) as u32)
    }
}

/// The exponent the reduction masks with for a span `m`.
pub open spec fn spec_u(m: u32) -> u32 {
    spec_u_rec(m, 1)
}

/// The low `u` bits of `v`, written as the double shift the reduction uses.
pub open spec fn spec_mask(v: u32, u: u32) -> u32
    recommends
        1 <= u <= 31,
{
    (v << (32 - u) as u32) >> (32 - u) as u32
}

/// How many words, counted from the back of the store, the masked draw
/// rejects before one with `spec_mask(v, u) <= m` appears.
pub open spec fn spec_reject_count(pool: Seq<u32>, m: u32, u: u32) -> int
    decreases pool.len(),
{
    if pool.len() == 0 {
        0
    } else if spec_mask(pool.last(), u) > m {
        1 + spec_reject_count(pool.drop_last(), m, u)
    } else {
        0
    }
}

/// One attempt of the reduction: which result it yields on a given store
/// and which words are left.  A span of the whole word range passes the
/// draw through; a span above half the range shifts the draw; a span of
/// exactly half the range shifts the halved draw; any smaller span masks
/// draws down to `spec_u` bits and rejects masked words above the span.
pub open spec fn spec_joke(pool: Seq<u32>, from: u32, to: u32) -> (Result<u32, RngError>, Seq<
    u32,
>)
    recommends
        from < to,
{
    let m = (to - from) as u32;
    if pool.len() == 0 {
        (Err(RngError::Exhausted), pool)
    } else if m == u32::MAX {
        (Ok(pool.last()), pool.drop_last())
    } else if m > 0x8000_0000u32 {
        (spec_shift(pool.last(), from, to), pool.drop_last())
    } else if m == 0x8000_0000u32 {
        (spec_shift(pool.last() >> 1u32, from, to), pool.drop_last())
    } else {
        let u = spec_u(m);
        let k = spec_reject_count(pool, m, u);
        if k == pool.len() {
            (Err(RngError::Exhausted), Seq::empty())
        } else {
            (
                spec_shift(spec_mask(pool[pool.len() - 1 - k], u), from, to),
                pool.take(pool.len() - k - 1),
            )
        }
    }
}

/// The reject count is a count: at least zero, at most the store.
pub proof fn lemma_reject_count_bounds(pool: Seq<u32>, m: u32, u: u32)
    ensures
        0 <= spec_reject_count(pool, m, u) <= pool.len(),
    decreases pool.len(),
{
    if pool.len() > 0 && spec_mask(pool.last(), u) > m {
        lemma_reject_count_bounds(pool.drop_last(), m, u);
    }
}

/// An attempt that yields a value consumes at least one word.
pub proof fn lemma_joke_consumes(pool: Seq<u32>, from: u32, to: u32)
    requires
        from < to,
        spec_joke(pool, from, to).0 is Ok,
    ensures
        spec_joke(pool, from, to).1.len() < pool.len(),
{
    let m = (to - from) as u32;
    if pool.len() > 0 && !(m == u32::MAX) && !(m > 0x8000_0000u32) && !(m == 0x8000_0000u32) {
        lemma_reject_count_bounds(pool, m, spec_u(m));
    }
}

/// The whole retry loop: attempts are made until one yields a value inside
/// `[from, to)` or fails; the pair is that outcome and the words left.
pub open spec fn spec_random_range(pool: Seq<u32>, from: u32, to: u32) -> (Result<u32, RngError>, Seq<u32>)
    recommends
        from < to,
    decreases pool.len(),
    when from < to
    via spec_random_range_decreases
{
    let step = spec_joke(pool, from, to);
    match step.0 {
        Result::Err(e) => (Err(e), step.1),
        Result::Ok(v) => if from <= v && v < to {
            (Ok(v), step.1)
        } else {
            spec_random_range(step.1, from, to)
        },
    }
}

#[via_fn]
proof fn spec_random_range_decreases(pool: Seq<u32>, from: u32, to: u32) {
    if spec_joke(pool, from, to).0 is Ok {
        lemma_joke_consumes(pool, from, to);
    }
}

/// One attempt never fabricates entropy: what it leaves is a front part of
/// what was there.
pub proof fn lemma_joke_prefix(pool: Seq<u32>, from: u32, to: u32)
    requires
        from < to,
    ensures
        spec_joke(pool, from, to).1.len() <= pool.len(),
        spec_joke(pool, from, to).1 == pool.take(spec_joke(pool, from, to).1.len() as int),
{
    let m = (to - from) as u32;
    lemma_reject_count_bounds(pool, m, spec_u(m));
    let rest = spec_joke(pool, from, to).1;
    assert(rest =~= pool.take(rest.len() as int));
}

/// The retry loop never fabricates entropy either.
pub proof fn lemma_random_range_prefix(pool: Seq<u32>, from: u32, to: u32)
    requires
        from < to,
    ensures
        spec_random_range(pool, from, to).1.len() <= pool.len(),
        spec_random_range(pool, from, to).1 == pool.take(
            spec_random_range(pool, from, to).1.len() as int,
        ),
    decreases pool.len(),
{
    lemma_joke_prefix(pool, from, to);
    let step = spec_joke(pool, from, to);
    match step.0 {
        Result::Err(_) => {},
        Result::Ok(v) => {
            lemma_joke_consumes(pool, from, to);
            if !(from <= v && v < to) {
                lemma_random_range_prefix(step.1, from, to);
                let rest = spec_random_range(pool, from, to).1;
                assert(rest =~= pool.take(rest.len() as int));
            }
        },
    }
}

/// A front part of a front part is a front part.
proof fn lemma_take_prefix_trans(a: Seq<u32>, b: Seq<u32>, c: Seq<u32>)
    requires
        b.len() <= a.len(),
        c.len() <= b.len(),
        b == a.take(b.len() as int),
        c == b.take(c.len() as int),
    ensures
        c == a.take(c.len() as int),
{
    assert(c =~= a.take(c.len() as int));
}

/// The retry loop never fabricates entropy: what is left is never more than
/// what was there.
pub proof fn lemma_random_range_shrinks(pool: Seq<u32>, from: u32, to: u32)
    requires
        from < to,
    ensures
        spec_random_range(pool, from, to).1.len() <= pool.len(),
    decreases pool.len(),
{
    let m = (to - from) as u32;
    lemma_reject_count_bounds(pool, m, spec_u(m));
    let step = spec_joke(pool, from, to);
    match step.0 {
        Result::Err(_) => {},
        Result::Ok(v) => {
            lemma_joke_consumes(pool, from, to);
            if !(from <= v && v < to) {
                lemma_random_range_shrinks(step.1, from, to);
            }
        },
    }
}

/// A generator over a finite store of raw entropy words.
pub struct Random {
    pool: Vec<u32>,
}

/// Folds `v` toward `[from, to)` as `spec_shift` describes.
fn shift_into_range(v: u32, from: u32, to: u32) -> (r: Result<u32, RngError>)
    requires
        from < to,
        v < from ==> v + from <= u32::MAX,
    ensures
        r == spec_shift(v, from, to),
{
    if from <= v && v < to {
        Ok(v)
    } else if v < from {
        Ok(v + from)
    } else if v > to {
        Ok(v - to)
    } else {
        Err(RngError::Unmappable)
    }
}

/// Finds the masking exponent by searching upward from 1, as `spec_u`
/// describes.
fn smallest_pow2_exponent(m: u32) -> (u: u32)
    requires
        1 <= m,
        m < 0x8000_0000,
    ensures
        u == spec_u(m),
        1 <= u <= 31,
{
    let mut u: u32 = 1;
    while (1u32 << u) < m
        invariant
            1 <= u <= 31,
            spec_u(m) == spec_u_rec(m, u),
            m < 0x8000_0000,
        decreases 31 - u,
    {
        proof {
            assert((1u32 << 31u32) == 0x8000_0000u32) by (bit_vector);
        }
        u = u + 1;
    }
    u
}

impl Random {
    /// The raw entropy words still unread; draws consume from the back.
    pub closed spec fn entropy(&self) -> Seq<u32> {
        self.pool@
    }

    /// Wraps a store of raw entropy words.
    pub fn new(pool: Vec<u32>) -> (r: Random)
        ensures
            r.entropy() == pool@,
    {
        Random { pool }
    }

    /// Draws the next raw word, or reports the store exhausted.
    pub fn random_u32(&mut self) -> (r: Result<u32, RngError>)
        ensures
            old(self).entropy().len() > 0 ==> r == Ok::<u32, RngError>(old(self).entropy().last()),
            old(self).entropy().len() > 0 ==> final(self).entropy() == old(
                self,
            ).entropy().drop_last(),
            old(self).entropy().len() == 0 ==> r == Err::<u32, RngError>(RngError::Exhausted),
            old(self).entropy().len() == 0 ==> final(self).entropy() == old(self).entropy(),
    {
        match self.pool.pop() {
            Some(v) => Ok(v),
            None => Err(RngError::Exhausted),
        }
    }

    /// One attempt at a draw in `[from, to)`: consumes words as `spec_joke`
    /// describes and hands back its result, which may still lie outside the
    /// range.
    fn random_range_joke(&mut self, from: u32, to: u32) -> (r: Result<u32, RngError>)
        requires
            from < to,
        ensures
            r == spec_joke(old(self).entropy(), from, to).0,
            final(self).entropy() == spec_joke(old(self).entropy(), from, to).1,
    {
        let m = to - from;
        if m == u32::MAX {
            return self.random_u32();
        }
        if m > 0x8000_0000 {
            let raw = match self.random_u32() {
                Ok(v) => v,
                Err(e) => { return Err(e) },
            };
            return shift_into_range(raw, from, to);
        }
        if m == 0x8000_0000 {
            let raw = match self.random_u32() {
                Ok(v) => v,
                Err(e) => { return Err(e) },
            };
            let half = raw >> 1;
            proof {
                assert(raw >> 1u32 < 0x8000_0000u32) by (bit_vector);
            }
            return shift_into_range(half, from, to);
        }
        let u = smallest_pow2_exponent(m);
        let ghost pool0 = old(self).entropy();
        proof {
            assert(pool0.take(pool0.len() as int) =~= pool0);
        }
        loop
            invariant
                from < to,
                m == to - from,
                1 <= m < 0x8000_0000,
                1 <= u <= 31,
                u == spec_u(m),
                pool0 == old(self).entropy(),
                self.entropy().len() <= pool0.len(),
                self.entropy() == pool0.take(self.entropy().len() as int),
                spec_reject_count(pool0, m, u) == pool0.len() - self.entropy().len()
                    + spec_reject_count(self.entropy(), m, u),
            decreases self.entropy().len(),
        {
            let ghost prev = self.entropy();
            let raw = match self.random_u32() {
                Ok(v) => v,
                Err(e) => {
                    proof {
                        lemma_reject_count_bounds(pool0, m, u);
                        assert(spec_reject_count(prev, m, u) == 0);
                        assert(spec_reject_count(pool0, m, u) == pool0.len());
                        assert(self.entropy() =~= Seq::<u32>::empty());
                        if pool0.len() == 0 {
                            assert(self.entropy() =~= pool0);
                        }
                    }
                    return Err(e)
                },
            };
            let masked = (raw << (32 - u)) >> (32 - u);
            proof {
                assert(masked == spec_mask(raw, u));
            }
            if masked <= m {
                proof {
                    lemma_reject_count_bounds(pool0, m, u);
                    let k = spec_reject_count(pool0, m, u);
                    assert(spec_reject_count(prev, m, u) == 0);
                    assert(k == pool0.len() - prev.len());
                    assert(prev[prev.len() - 1] == pool0[pool0.len() - 1 - k]);
                    assert(prev.drop_last() =~= pool0.take(pool0.len() - k - 1));
                }
                return shift_into_range(masked, from, to);
            }
            proof {
                assert(spec_reject_count(prev, m, u) == 1 + spec_reject_count(
                    prev.drop_last(),
                    m,
                    u,
                ));
                assert(prev.drop_last() =~= pool0.take(self.entropy().len() as int));
            }
        }
    }

    /// Draws a value uniformly reduced into `[from, to)`, retrying attempts
    /// whose shifted result falls outside the range, until the store runs
    /// out.  The outcome and the words consumed are exactly those of
    /// `spec_random_range`; a value is in range, and the store is only ever
    /// exhausted by reporting it.
    pub fn random_range(&mut self, from: u32, to: u32) -> (r: Result<u32, RngError>)
        requires
            from < to,
        ensures
            r == spec_random_range(old(self).entropy(), from, to).0,
            final(self).entropy() == spec_random_range(old(self).entropy(), from, to).1,
            (r matches Ok(v) ==> from <= v && v < to),
            r == Err::<u32, RngError>(RngError::Exhausted) ==> final(self).entropy().len() == 0,
            final(self).entropy() == old(self).entropy().take(final(self).entropy().len() as int),
    {
        proof {
            lemma_random_range_prefix(old(self).entropy(), from, to);
        }
        loop
            invariant
                from < to,
                spec_random_range(old(self).entropy(), from, to) == spec_random_range(
                    self.entropy(),
                    from,
                    to,
                ),
                spec_random_range(old(self).entropy(), from, to).1 == old(self).entropy().take(
                    spec_random_range(old(self).entropy(), from, to).1.len() as int,
                ),
            decreases self.entropy().len(),
        {
            let ghost pool_before = self.entropy();
            let step = self.random_range_joke(from, to);
            match step {
                Err(e) => {
                    proof {
                        if e == RngError::Exhausted {
                            assert(spec_joke(pool_before, from, to).1.len() == 0);
                        }
                    }
                    return Err(e);
                },
                Ok(v) => {
                    if from <= v && v < to {
                        return Ok(v);
                    }
                    proof {
                        lemma_joke_consumes(pool_before, from, to);
                    }
                },
            }
        }
    }

    /// Exercises the generator: a fixed ladder of ranges followed by
    /// `iterations` draws over ranges that are themselves drawn.  Every
    /// value a draw yields is proved to lie inside its range, which is what
    /// the device build checked at run time; when the store runs out the
    /// generator is handed back early.  What comes back holds a front part
    /// of the words that went in: entropy is consumed, never invented.
    #[verifier::loop_isolation(false)]
    pub fn test_me(random_gen: Random, iterations: usize) -> (r: Random)
        ensures
            r.entropy().len() <= random_gen.entropy().len(),
            r.entropy() == random_gen.entropy().take(r.entropy().len() as int),
    {
        let ghost e0 = random_gen.entropy();
        proof {
            assert(e0.take(e0.len() as int) =~= e0);
        }
        let mut random_gen = random_gen;
        let mut from: u32 = 0;
        let mut to: u32 = u32::MAX;
        let ghost p0 = random_gen.entropy();
        let step0 = random_gen.random_range(from, to);
        proof {
            lemma_random_range_shrinks(p0, from, to);
            lemma_take_prefix_trans(e0, p0, random_gen.entropy());
        }
        match step0 {
            Err(_) => { return random_gen },
            Ok(v) => {
                assert(from <= v && v < to);
            },
        }
        from = 1;
        to = u32::MAX;
        let ghost p1 = random_gen.entropy();
        let step1 = random_gen.random_range(from, to);
        proof {
            lemma_random_range_shrinks(p1, from, to);
            lemma_take_prefix_trans(e0, p1, random_gen.entropy());
        }
        match step1 {
            Err(_) => { return random_gen },
            Ok(v) => {
                assert(from <= v && v < to);
            },
        }
        from = 10;
        to = u32::MAX - 1;
        let ghost p2 = random_gen.entropy();
        let step2 = random_gen.random_range(from, to);
        proof {
            lemma_random_range_shrinks(p2, from, to);
            lemma_take_prefix_trans(e0, p2, random_gen.entropy());
        }
        match step2 {
            Err(_) => { return random_gen },
            Ok(v) => {
                assert(from <= v && v < to);
            },
        }
        from = 1;
        to = 3;
        let ghost p3 = random_gen.entropy();
        let step3 = random_gen.random_range(from, to);
        proof {
            lemma_random_range_shrinks(p3, from, to);
            lemma_take_prefix_trans(e0, p3, random_gen.entropy());
        }
        match step3 {
            Err(_) => { return random_gen },
            Ok(v) => {
                assert(from <= v && v < to);
            },
        }
        from = 100;
        to = 102;
        let mut i: usize = 0;
        while i < iterations
            invariant
                from < to,
                random_gen.entropy().len() <= e0.len(),
                random_gen.entropy() == e0.take(random_gen.entropy().len() as int),
            decreases iterations - i,
        {
            let ghost p = random_gen.entropy();
            let step = random_gen.random_range(from, to);
            proof {
                lemma_random_range_shrinks(p, from, to);
                lemma_take_prefix_trans(e0, p, random_gen.entropy());
            }
            match step {
                Err(_) => { return random_gen },
                Ok(v) => {
                    assert(from <= v && v < to);
                },
            }
            let ghost q0 = random_gen.entropy();
            let next_from = match random_gen.random_u32() {
                Ok(v) => v,
                Err(_) => { return random_gen },
            };
            proof {
                assert(random_gen.entropy() =~= q0.take(random_gen.entropy().len() as int));
                lemma_take_prefix_trans(e0, q0, random_gen.entropy());
            }
            let ghost q1 = random_gen.entropy();
            let next_to = match random_gen.random_u32() {
                Ok(v) => v,
                Err(_) => { return random_gen },
            };
            proof {
                assert(random_gen.entropy() =~= q1.take(random_gen.entropy().len() as int));
                lemma_take_prefix_trans(e0, q1, random_gen.entropy());
            }
            from = next_from;
            to = next_to;
            while !(from < to)
                invariant
                    random_gen.entropy().len() <= e0.len(),
                    random_gen.entropy() == e0.take(random_gen.entropy().len() as int),
                decreases random_gen.entropy().len(),
            {
                let ghost q2 = random_gen.entropy();
                from = match random_gen.random_u32() {
                    Ok(v) => v,
                    Err(_) => { return random_gen },
                };
                proof {
                    assert(random_gen.entropy() =~= q2.take(random_gen.entropy().len() as int));
                    lemma_take_prefix_trans(e0, q2, random_gen.entropy());
                }
                let ghost q3 = random_gen.entropy();
                to = match random_gen.random_u32() {
                    Ok(v) => v,
                    Err(_) => { return random_gen },
                };
                proof {
                    assert(random_gen.entropy() =~= q3.take(random_gen.entropy().len() as int));
                    lemma_take_prefix_trans(e0, q3, random_gen.entropy());
                }
            }
            i = i + 1;
        }
        random_gen
    }

    /// How many raw entropy words are still unread.
    pub fn entropy_len(&self) -> (n: usize)
        ensures
            n == self.entropy().len(),
    {
        self.pool.len()
    }

    /// Releases the generator.  On the device, switching the peripheral off
    /// also takes a bus clock down; that is the shell's concern, so here
    /// the generator is simply consumed.
    pub fn disable(self) {
    }
}

} // verus!
