//! Seeded random number generation and the integer draws made from it.

use rand::rngs::StdRng;
use rand::Rng;
use rand::SeedableRng;
use vstd::prelude::*;

verus! {

/// The standard seedable generator of `rand`; values of it are opaque here.
#[verifier::external_type_specification]
#[verifier::external_body]
pub struct ExStdRng(StdRng);

/// Creates the generator for `seed` with `rand::SeedableRng::seed_from_u64`.
/// Nothing is claimed of the generator that comes back.
#[verifier::external_body]
pub fn rng_from_seed(seed: u64) -> StdRng {
    StdRng::seed_from_u64(seed)
}

/// One uniform draw from `0..n` made by `rand::Rng::gen_range` on `usize`.
/// Claimed: the value lies in `0..n` (the range is not empty, so the call does
/// not panic). Which value comes out depends on the generator's state.
#[verifier::external_body]
pub(crate) fn gen_usize_below(rng: &mut StdRng, n: usize) -> (r: usize)
    requires
        n > 0,
    ensures
        r < n,
{
    rng.gen_range(0..n)
}

/// One uniform draw from `0..hi` made by `rand::Rng::gen_range` on `i32`.
/// Claimed: the value lies in `0..hi`.
#[verifier::external_body]
pub(crate) fn gen_i32_below(rng: &mut StdRng, hi: i32) -> (r: i32)
    requires
        hi > 0,
    ensures
        0 <= r < hi,
{
    rng.gen_range(0..hi)
}

/// One integer draw, by the range handed to the generator: a `usize` from
/// `0..n`, or an `i32` from `0..hi`.
#[derive(Clone, Copy, Debug, PartialEq, Eq, Structural)]
pub enum Draw {
    Index(usize),
    Int(i32),
}

/// `k` draws of the same range.
pub open spec fn repeat_draw(d: Draw, k: nat) -> Seq<Draw> {
    Seq::new(k, |_i: int| d)
}

/// A generator seeded from a `u64`, together with the seed and the record of
/// the integer draws made through this library, in order: the range of each
/// draw and the value it gave.
pub struct SeededRng {
    inner: StdRng,
    seed: Ghost<u64>,
    drawn: Ghost<Seq<Draw>>,
    values: Ghost<Seq<int>>,
}

impl SeededRng {
    /// The seed the generator was made from.
    pub closed spec fn seed(&self) -> u64 {
        self.seed@
    }

    /// The integer draws made so far through this library, oldest first.
    pub closed spec fn drawn(&self) -> Seq<Draw> {
        self.drawn@
    }

    /// The values those draws gave, oldest first: entry `k` is the value of
    /// the draw recorded at `drawn()[k]`.
    pub closed spec fn values(&self) -> Seq<int> {
        self.values@
    }

    /// The generator for `seed`, with no draws made yet.
    pub fn from_seed(seed: u64) -> (g: SeededRng)
        ensures
            g.seed() == seed,
            g.drawn() == Seq::<Draw>::empty(),
            g.values() == Seq::<int>::empty(),
    {
        SeededRng {
            inner: rng_from_seed(seed),
            seed: Ghost(seed),
            drawn: Ghost(Seq::empty()),
            values: Ghost(Seq::empty()),
        }
    }

    /// The underlying generator, for draws of other kinds (such as floating-point
    /// draws), which are not recorded; the seed and the record stay as they are.
    pub fn inner_mut(&mut self) -> (r: &mut StdRng)
        ensures
            final(self).seed() == old(self).seed(),
            final(self).drawn() == old(self).drawn(),
            final(self).values() == old(self).values(),
    {
        &mut self.inner
    }
}

/// A uniform index in `0..n`, recorded as a draw from `0..n`.
pub fn draw_index(rng: &mut SeededRng, n: usize) -> (r: usize)
    requires
        n > 0,
    ensures
        r < n,
        final(rng).seed() == old(rng).seed(),
        final(rng).drawn() == old(rng).drawn().push(Draw::Index(n)),
        final(rng).values() == old(rng).values().push(r as int),
{
    let r = gen_usize_below(&mut rng.inner, n);
    proof {
        rng.drawn@ = rng.drawn@.push(Draw::Index(n));
        rng.values@ = rng.values@.push(r as int);
    }
    r
}

/// A uniform `i32` in `0..hi`, recorded as a draw from `0..hi`.
pub fn draw_int(rng: &mut SeededRng, hi: i32) -> (r: i32)
    requires
        hi > 0,
    ensures
        0 <= r < hi,
        final(rng).seed() == old(rng).seed(),
        final(rng).drawn() == old(rng).drawn().push(Draw::Int(hi)),
        final(rng).values() == old(rng).values().push(r as int),
{
    let r = gen_i32_below(&mut rng.inner, hi);
    proof {
        rng.drawn@ = rng.drawn@.push(Draw::Int(hi));
        rng.values@ = rng.values@.push(r as int);
    }
    r
}

/// `count` successive uniform indices in `0..n`, in the order they are drawn:
/// entry `k` is the value of the `k`-th draw.
pub fn draw_indices(rng: &mut SeededRng, count: usize, n: usize) -> (out: Vec<usize>)
    requires
        n > 0,
    ensures
        out.len() == count,
        forall|k: int| 0 <= k < count ==> #[trigger] out@[k] < n,
        final(rng).seed() == old(rng).seed(),
        final(rng).drawn() == old(rng).drawn() + repeat_draw(Draw::Index(n), count as nat),
        final(rng).values() == old(rng).values() + out@.map_values(|v: usize| v as int),
{
    let mut out: Vec<usize> = Vec::new();
    let mut k: usize = 0;
    while k < count
        invariant
            n > 0,
            k <= count,
            out.len() == k,
            forall|j: int| 0 <= j < k ==> #[trigger] out@[j] < n,
            rng.seed() == old(rng).seed(),
            rng.drawn() == old(rng).drawn() + repeat_draw(Draw::Index(n), k as nat),
            rng.values() == old(rng).values() + out@.map_values(|v: usize| v as int),
        decreases count - k,
    {
        let v = draw_index(rng, n);
        out.push(v);
        k = k + 1;
        assert(rng.drawn() =~= old(rng).drawn() + repeat_draw(Draw::Index(n), k as nat));
        assert(rng.values() =~= old(rng).values() + out@.map_values(|v: usize| v as int));
    }
    out
}

/// Whether every entry of a rock configuration is 0 (bad) or 1 (good).
pub open spec fn is_rock_bits(bits: [i32; 4]) -> bool {
    forall|i: int| 0 <= i < 4 ==> #[trigger] bits[i] == 0 || bits[i] == 1
}

/// Four successive fair 0/1 draws, one per rock, rock 0 first.
pub fn draw_rock_bits(rng: &mut SeededRng) -> (bits: [i32; 4])
    ensures
        is_rock_bits(bits),
        final(rng).seed() == old(rng).seed(),
        final(rng).drawn() == old(rng).drawn() + repeat_draw(Draw::Int(2), 4),
        final(rng).values() == old(rng).values() + bits@.map_values(|b: i32| b as int),
{
    let b0 = draw_int(rng, 2);
    let b1 = draw_int(rng, 2);
    let b2 = draw_int(rng, 2);
    let b3 = draw_int(rng, 2);
    let bits = [b0, b1, b2, b3];
    assert(rng.drawn() =~= old(rng).drawn() + repeat_draw(Draw::Int(2), 4));
    assert(rng.values() =~= old(rng).values() + bits@.map_values(|b: i32| b as int));
    bits
}

} // verus!
