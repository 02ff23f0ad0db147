//! Particle beliefs over the four rocks: each particle is one guess of the
//! rock qualities (1 good, 0 bad).

use crate::rng::{draw_rock_bits, is_rock_bits, repeat_draw, Draw, SeededRng};
use crate::rocksample::KROCK;
use vstd::prelude::*;

verus! {

/// Every particle holds only 0s and 1s.
pub open spec fn particles_wf(ps: Seq<[i32; 4]>) -> bool {
    forall|k: int| 0 <= k < ps.len() ==> is_rock_bits(#[trigger] ps[k])
}

/// The sum, over the particles, of their entry for rock `i`: the number of
/// particles that consider rock `i` good.
pub open spec fn good_count_spec(ps: Seq<[i32; 4]>, i: int) -> int
    decreases ps.len(),
{
    if ps.len() == 0 {
        0
    } else {
        good_count_spec(ps.drop_last(), i) + ps.last()[i]
    }
}

/// `n` particles, each made of four fair draws (rock 0 first), particle 0
/// first.
pub fn draw_particles(rng: &mut SeededRng, n: usize) -> (ps: Vec<[i32; 4]>)
    ensures
        ps.len() == n,
        particles_wf(ps@),
        final(rng).seed() == old(rng).seed(),
        final(rng).drawn() == old(rng).drawn() + repeat_draw(Draw::Int(2), 4 * n as nat),
        final(rng).values().len() == old(rng).values().len() + 4 * n,
        final(rng).values().subrange(0, old(rng).values().len() as int) == old(rng).values(),
        forall|k: int, j: int|
            #![trigger ps@[k]@[j]]
            0 <= k < n && 0 <= j < 4 ==> ps@[k]@[j] as int == final(rng).values()[old(rng).values().len()
                + 4 * k + j],
{
    let mut ps: Vec<[i32; 4]> = Vec::new();
    let mut k: usize = 0;
    while k < n
        invariant
            k <= n,
            ps.len() == k,
            particles_wf(ps@),
            rng.seed() == old(rng).seed(),
            rng.drawn() == old(rng).drawn() + repeat_draw(Draw::Int(2), 4 * k as nat),
            rng.values().len() == old(rng).values().len() + 4 * k,
            rng.values().subrange(0, old(rng).values().len() as int) == old(rng).values(),
            forall|l: int, j: int|
                #![trigger ps@[l]@[j]]
                0 <= l < k && 0 <= j < 4 ==> ps@[l]@[j] as int == rng.values()[old(rng).values().len()
                    + 4 * l + j],
        decreases n - k,
    {
        let ghost before = rng.values();
        let ghost ps_before = ps@;
        let pt = draw_rock_bits(rng);
        ps.push(pt);
        proof {
            let base = old(rng).values().len();
            assert(rng.values() == before + pt@.map_values(|b: i32| b as int));
            assert forall|l: int, j: int|
                #![trigger ps@[l]@[j]]
                0 <= l < k + 1 && 0 <= j < 4 implies ps@[l]@[j] as int == rng.values()[base + 4 * l
                    + j] by {
                if l < k {
                    assert(ps@[l] == ps_before[l]);
                    assert(ps_before[l]@[j] as int == before[base + 4 * l + j]);
                    assert(base + 4 * l + j < before.len());
                } else {
                    assert(l == k);
                    assert(ps@[l] == pt);
                }
            }
            assert(rng.values().subrange(0, base as int) =~= old(rng).values());
        }
        k = k + 1;
        assert(rng.drawn() =~= old(rng).drawn() + repeat_draw(Draw::Int(2), 4 * k as nat));
    }
    ps
}

proof fn lemma_good_count_bounds(ps: Seq<[i32; 4]>, i: int)
    requires
        particles_wf(ps),
        0 <= i < KROCK,
    ensures
        0 <= good_count_spec(ps, i) <= ps.len(),
    decreases ps.len(),
{
    if ps.len() > 0 {
        assert(is_rock_bits(ps[ps.len() - 1]));
        assert(particles_wf(ps.drop_last()));
        lemma_good_count_bounds(ps.drop_last(), i);
    }
}

/// The number of particles that consider rock `i` good.
pub fn count_good(ps: &Vec<[i32; 4]>, i: usize) -> (c: i32)
    requires
        particles_wf(ps@),
        i < KROCK,
        ps.len() <= i32::MAX,
    ensures
        c == good_count_spec(ps@, i as int),
{
    let n = ps.len();
    let mut c: i32 = 0;
    let mut k: usize = 0;
    while k < n
        invariant
            n == ps@.len(),
            n <= i32::MAX,
            i < KROCK,
            particles_wf(ps@),
            k <= n,
            c == good_count_spec(ps@.subrange(0, k as int), i as int),
        decreases n - k,
    {
        proof {
            assert(ps@.subrange(0, k + 1).drop_last() =~= ps@.subrange(0, k as int));
            assert(particles_wf(ps@.subrange(0, k as int)));
            lemma_good_count_bounds(ps@.subrange(0, k as int), i as int);
            assert(is_rock_bits(ps@[k as int]));
        }
        let pt = ps[k];
        c = c + pt[i];
        k = k + 1;
    }
    assert(ps@.subrange(0, n as int) =~= ps@);
    c
}

/// The particles at the given indices, in the order of the indices.
pub fn resample(ps: &Vec<[i32; 4]>, idx: &Vec<usize>) -> (out: Vec<[i32; 4]>)
    requires
        forall|j: int| 0 <= j < idx.len() ==> #[trigger] idx@[j] < ps.len(),
    ensures
        out.len() == idx.len(),
        forall|j: int| 0 <= j < idx.len() ==> #[trigger] out@[j] == ps@[idx@[j] as int],
{
    let mut out: Vec<[i32; 4]> = Vec::new();
    let mut j: usize = 0;
    while j < idx.len()
        invariant
            forall|j: int| 0 <= j < idx.len() ==> #[trigger] idx@[j] < ps.len(),
            j <= idx.len(),
            out.len() == j,
            forall|l: int| 0 <= l < j ==> #[trigger] out@[l] == ps@[idx@[l] as int],
        decreases idx.len() - j,
    {
        out.push(ps[idx[j]]);
        j = j + 1;
    }
    out
}

/// Marks rock `i` bad in every particle, leaving the other rocks as they were.
pub fn clear_rock(ps: &mut Vec<[i32; 4]>, i: usize)
    requires
        i < KROCK,
    ensures
        final(ps).len() == old(ps).len(),
        forall|k: int| 0 <= k < old(ps).len() ==> (#[trigger] final(ps)@[k])@ == old(ps)@[k]@.update(i as int, 0),
{
    let n = ps.len();
    let mut k: usize = 0;
    while k < n
        invariant
            i < KROCK,
            n == old(ps).len(),
            ps.len() == n,
            k <= n,
            forall|l: int| 0 <= l < k ==> (#[trigger] ps@[l])@ == old(ps)@[l]@.update(i as int, 0),
            forall|l: int| k <= l < n ==> #[trigger] ps@[l] == old(ps)@[l],
        decreases n - k,
    {
        let mut pt = ps[k];
        pt[i] = 0;
        ps.set(k, pt);
        k = k + 1;
    }
}

/// Whether particle `pt` agrees with the reading `o` of rock `i`.
pub fn agrees(pt: [i32; 4], i: usize, o: usize) -> (b: bool)
    requires
        is_rock_bits(pt),
        i < KROCK,
    ensures
        b == (pt[i as int] == o),
{
    pt[i] as usize == o
}

/// Between none and all of the particles consider a rock good.
pub proof fn lemma_count_within_population(ps: Seq<[i32; 4]>, i: int)
    requires
        particles_wf(ps),
        0 <= i < KROCK,
    ensures
        0 <= good_count_spec(ps, i) <= ps.len(),
{
    lemma_good_count_bounds(ps, i);
}

/// Resampling well-formed particles yields well-formed particles.
pub proof fn lemma_resample_keeps_wf(ps: Seq<[i32; 4]>, idx: Seq<usize>, out: Seq<[i32; 4]>)
    requires
        particles_wf(ps),
        forall|j: int| 0 <= j < idx.len() ==> #[trigger] idx[j] < ps.len(),
        out.len() == idx.len(),
        forall|j: int| 0 <= j < idx.len() ==> #[trigger] out[j] == ps[idx[j] as int],
    ensures
        particles_wf(out),
{
    assert forall|j: int| 0 <= j < out.len() implies is_rock_bits(#[trigger] out[j]) by {
        assert(out[j] == ps[idx[j] as int]);
    }
}

/// After a rock is cleared in every particle, no particle considers it good,
/// and the particles stay well formed.
pub proof fn lemma_cleared_count_is_zero(before: Seq<[i32; 4]>, after: Seq<[i32; 4]>, i: int)
    requires
        particles_wf(before),
        0 <= i < KROCK,
        after.len() == before.len(),
        forall|k: int| 0 <= k < before.len() ==> (#[trigger] after[k])@ == before[k]@.update(i, 0),
    ensures
        particles_wf(after),
        good_count_spec(after, i) == 0,
    decreases before.len(),
{
    assert forall|k: int| 0 <= k < after.len() implies is_rock_bits(#[trigger] after[k]) by {
        assert(after[k]@ == before[k]@.update(i, 0));
        assert(is_rock_bits(before[k]));
        assert forall|r: int| 0 <= r < 4 implies #[trigger] after[k][r] == 0 || after[k][r] == 1 by {
            assert(after[k][r] == after[k]@[r]);
            assert(before[k][r] == before[k]@[r]);
        }
    }
    if before.len() > 0 {
        let n = before.len() - 1;
        assert(after[n]@ == before[n]@.update(i, 0));
        assert(after[n][i] == after[n]@[i]);
        assert forall|k: int| 0 <= k < before.drop_last().len() implies (#[trigger] after.drop_last()[k])@ == before.drop_last()[k]@.update(i, 0) by {
            assert(after.drop_last()[k] == after[k]);
            assert(before.drop_last()[k] == before[k]);
        }
        assert(particles_wf(before.drop_last()));
        lemma_cleared_count_is_zero(before.drop_last(), after.drop_last(), i);
    }
}

} // verus!
