//! The class of observation-history-conditioned policies of horizon `H` over
//! binary actions and binary observations. A policy is a code whose bits are
//! the actions at the nodes of a complete binary decision tree: the node of
//! step `t` after observation history `hbits` (the observations read as a
//! binary number, oldest first) is bit `2^t - 1 + hbits`.

use vstd::arithmetic::div_mod::*;
use vstd::arithmetic::power2::*;
use vstd::bits::*;
use vstd::prelude::*;

verus! {

/// The horizon.
pub const H: usize = 3;

/// The tree node of step `t` after history `hbits`.
pub open spec fn node_index(t: nat, hbits: nat) -> nat {
    (pow2(t) - 1 + hbits) as nat
}

/// Bit `k` of `code`.
pub open spec fn bit(code: nat, k: nat) -> nat {
    (code / pow2(k)) % 2
}

/// The number of policies: one per assignment of an action to each of the
/// `2^H - 1` nodes.
pub open spec fn npol_spec() -> nat {
    pow2((pow2(H as nat) - 1) as nat)
}

/// The history after `hbits` followed by observation `x`.
pub open spec fn extend_spec(hbits: int, x: int) -> int {
    2 * hbits + x
}

/// Every history in `hs`, in order, extended by observation 0 and then by 1.
pub open spec fn expand(hs: Seq<int>) -> Seq<int>
    decreases hs.len(),
{
    if hs.len() == 0 {
        Seq::empty()
    } else {
        expand(hs.drop_last()) + seq![extend_spec(hs.last(), 0), extend_spec(hs.last(), 1)]
    }
}

/// The histories of the branches after `t` observations, starting from the
/// empty history 0 and expanding once per observation.
pub open spec fn histories(t: nat) -> Seq<int>
    decreases t,
{
    if t == 0 {
        seq![0]
    } else {
        expand(histories((t - 1) as nat))
    }
}

/// The number of policies of horizon `H`.
pub fn npol() -> (n: usize)
    ensures
        n == npol_spec(),
        n == 128,
{
    proof {
        lemma2_to64();
        lemma_usize_shl_is_mul(1, 3);
        lemma_usize_shl_is_mul(1, 7);
    }
    let nodes = (1usize << H) - 1;
    1usize << nodes
}

/// The action (0 or 1) that policy `code` takes at step `t` after history
/// `hbits`: bit `2^t - 1 + hbits` of the code.
pub fn policy_action(code: usize, t: usize, hbits: usize) -> (a: usize)
    requires
        node_index(t as nat, hbits as nat) < usize::BITS,
    ensures
        a == bit(code as nat, node_index(t as nat, hbits as nat)),
        a < 2,
{
    proof {
        lemma2_to64();
        if t >= 7 {
            if t > 7 {
                lemma_pow2_strictly_increases(7, t as nat);
            }
            assert(false);
        }
        lemma_usize_pow2_no_overflow(t as nat);
        lemma_usize_shl_is_mul(1, t);
    }
    let p = 1usize << t;
    let idx = p - 1 + hbits;
    let y = code >> idx;
    proof {
        lemma_usize_shr_is_div(code, idx);
        assert(y & 1 == y % 2) by (bit_vector);
    }
    y & 1
}

/// The history after `hbits` followed by observation `x`, as the bits of
/// `hbits` shifted left once with `x` in the lowest bit.
pub fn extend_history(hbits: usize, x: usize) -> (h: usize)
    ensures
        h == (hbits << 1usize) | x,
        hbits <= usize::MAX / 2 && x < 2 ==> h == extend_spec(hbits as int, x as int),
{
    let y = hbits << 1usize;
    let h = y | x;
    proof {
        assert(y & 1usize == 0usize) by (bit_vector)
            requires
                y == hbits << 1usize,
        ;
        if hbits <= usize::MAX / 2 && x < 2 {
            lemma2_to64();
            lemma_usize_shl_is_mul(hbits, 1);
            assert(y | x == y + x) by (bit_vector)
                requires
                    y & 1usize == 0usize,
                    x < 2usize,
            ;
        }
    }
    h
}

/// The nodes of a horizon-`H` tree are exactly `0 .. 2^H - 1`: the node of
/// every step `t < H` and history `hbits < 2^t` lies in that range, at or
/// after the first node of step `t`.
pub proof fn lemma_node_in_tree(t: nat, hbits: nat)
    requires
        t < H,
        hbits < pow2(t),
    ensures
        pow2(t) - 1 <= node_index(t, hbits) < pow2(H as nat) - 1,
        node_index(t, hbits) < usize::BITS,
{
    lemma2_to64();
    lemma_pow2_adds(t, 1);
    if t + 1 < H {
        lemma_pow2_strictly_increases(t + 1, H as nat);
    }
}

/// Distinct (step, history) pairs have distinct nodes, so a policy code gives
/// every decision point its own bit.
pub proof fn lemma_node_index_injective(t1: nat, h1: nat, t2: nat, h2: nat)
    requires
        h1 < pow2(t1),
        h2 < pow2(t2),
        node_index(t1, h1) == node_index(t2, h2),
    ensures
        t1 == t2,
        h1 == h2,
{
    lemma_pow2_pos(t1);
    lemma_pow2_pos(t2);
    if t1 < t2 {
        lemma_pow2_adds(t1, 1);
        lemma2_to64();
        if t1 + 1 < t2 {
            lemma_pow2_strictly_increases(t1 + 1, t2);
        }
        assert(false);
    } else if t2 < t1 {
        lemma_pow2_adds(t2, 1);
        lemma2_to64();
        if t2 + 1 < t1 {
            lemma_pow2_strictly_increases(t2 + 1, t1);
        }
        assert(false);
    }
}

proof fn lemma_bit_is_shift(c: u64, k: u64)
    requires
        k < 64,
    ensures
        bit(c as nat, k as nat) == (c >> k) & 1,
{
    lemma_u64_shr_is_div(c, k);
    let y = c >> k;
    assert(y & 1 == y % 2) by (bit_vector);
}

/// Two codes below `npol` that choose the same action at every decision
/// point are the same code: the codes `0 .. npol` are pairwise distinct
/// policies, one for each of the `2^(2^H - 1)` assignments of actions to nodes.
pub proof fn lemma_codes_are_distinct_policies(c1: nat, c2: nat)
    requires
        c1 < npol_spec(),
        c2 < npol_spec(),
        forall|t: nat, h: nat|
            t < H && h < pow2(t) ==> #[trigger] bit(c1, node_index(t, h)) == bit(c2, node_index(t, h)),
    ensures
        c1 == c2,
{
    lemma2_to64();
    assert(npol_spec() == 128);
    assert(bit(c1, node_index(0, 0)) == bit(c2, node_index(0, 0)));
    assert(bit(c1, node_index(1, 0)) == bit(c2, node_index(1, 0)));
    assert(bit(c1, node_index(1, 1)) == bit(c2, node_index(1, 1)));
    assert(bit(c1, node_index(2, 0)) == bit(c2, node_index(2, 0)));
    assert(bit(c1, node_index(2, 1)) == bit(c2, node_index(2, 1)));
    assert(bit(c1, node_index(2, 2)) == bit(c2, node_index(2, 2)));
    assert(bit(c1, node_index(2, 3)) == bit(c2, node_index(2, 3)));
    let a = c1 as u64;
    let b = c2 as u64;
    lemma_bit_is_shift(a, 0);
    lemma_bit_is_shift(b, 0);
    lemma_bit_is_shift(a, 1);
    lemma_bit_is_shift(b, 1);
    lemma_bit_is_shift(a, 2);
    lemma_bit_is_shift(b, 2);
    lemma_bit_is_shift(a, 3);
    lemma_bit_is_shift(b, 3);
    lemma_bit_is_shift(a, 4);
    lemma_bit_is_shift(b, 4);
    lemma_bit_is_shift(a, 5);
    lemma_bit_is_shift(b, 5);
    lemma_bit_is_shift(a, 6);
    lemma_bit_is_shift(b, 6);
    assert(a == b) by (bit_vector)
        requires
            a < 128,
            b < 128,
            (a >> 0u64) & 1 == (b >> 0u64) & 1,
            (a >> 1u64) & 1 == (b >> 1u64) & 1,
            (a >> 2u64) & 1 == (b >> 2u64) & 1,
            (a >> 3u64) & 1 == (b >> 3u64) & 1,
            (a >> 4u64) & 1 == (b >> 4u64) & 1,
            (a >> 5u64) & 1 == (b >> 5u64) & 1,
            (a >> 6u64) & 1 == (b >> 6u64) & 1,
    ;
}

/// Extending histories is one-to-one, and a history of `t` observations
/// extends to a history of `t + 1` observations.
pub proof fn lemma_extend_unique(h1: int, x1: int, h2: int, x2: int, t: nat)
    requires
        0 <= x1 < 2,
        0 <= x2 < 2,
        0 <= h1 < pow2(t),
        extend_spec(h1, x1) == extend_spec(h2, x2),
    ensures
        h1 == h2,
        x1 == x2,
        0 <= extend_spec(h1, x1) < pow2(t + 1),
{
    lemma_pow2_adds(t, 1);
    lemma2_to64();
}

proof fn lemma_expand_range(n: nat)
    ensures
        expand(Seq::new(n, |i: int| i)) =~= Seq::new(2 * n, |i: int| i),
    decreases n,
{
    if n > 0 {
        let s = Seq::new(n, |i: int| i);
        assert(s.drop_last() =~= Seq::new((n - 1) as nat, |i: int| i));
        lemma_expand_range((n - 1) as nat);
    }
}

/// Expanding the branches once per observation, starting from the empty
/// history, yields after `t` observations every history `0 .. 2^t` exactly
/// once and in increasing order: the branch at position `k` has history `k`.
pub proof fn lemma_histories_enumerate(t: nat)
    ensures
        histories(t) =~= Seq::new(pow2(t), |i: int| i),
    decreases t,
{
    if t == 0 {
        lemma2_to64();
    } else {
        lemma_histories_enumerate((t - 1) as nat);
        lemma_expand_range(pow2((t - 1) as nat));
        lemma_pow2_adds((t - 1) as nat, 1);
        lemma2_to64();
    }
}

/// Position `2k` of the expansion holds history `k` extended by 0, and
/// position `2k + 1` holds it extended by 1.
pub proof fn lemma_expand_index(hs: Seq<int>)
    ensures
        expand(hs).len() == 2 * hs.len(),
        forall|k: int|
            0 <= k < hs.len() ==> #[trigger] expand(hs)[2 * k] == extend_spec(hs[k], 0)
                && expand(hs)[2 * k + 1] == extend_spec(hs[k], 1),
    decreases hs.len(),
{
    if hs.len() > 0 {
        lemma_expand_index(hs.drop_last());
        let e = expand(hs.drop_last());
        assert forall|k: int| 0 <= k < hs.len() implies #[trigger] expand(hs)[2 * k] == extend_spec(hs[k], 0)
            && expand(hs)[2 * k + 1] == extend_spec(hs[k], 1) by {
            if k < hs.len() - 1 {
                assert(hs.drop_last()[k] == hs[k]);
                assert(e[2 * k] == extend_spec(hs[k], 0));
            }
        }
    }
}

proof fn lemma_expand_pointwise(hs: Seq<usize>, out: Seq<usize>)
    requires
        out.len() == 2 * hs.len(),
        forall|k: int| 0 <= k < hs.len() ==> #[trigger] hs[k] <= usize::MAX / 2,
        forall|i: int| 0 <= i < out.len() ==> #[trigger] out[i] == 2 * hs[i / 2] + i % 2,
    ensures
        out.map_values(|h: usize| h as int) == expand(hs.map_values(|h: usize| h as int)),
{
    let ins = hs.map_values(|h: usize| h as int);
    let outs = out.map_values(|h: usize| h as int);
    lemma_expand_index(ins);
    assert forall|i: int| 0 <= i < outs.len() implies #[trigger] outs[i] == expand(ins)[i] by {
        let k = i / 2;
        assert(0 <= k < hs.len());
        assert(hs[k] <= usize::MAX / 2);
        assert(ins[k] == hs[k] as int);
        assert(out[i] == 2 * hs[i / 2] + i % 2);
        assert(expand(ins)[2 * k] == extend_spec(ins[k], 0));
        if i % 2 == 0 {
            assert(i == 2 * k);
        } else {
            assert(i == 2 * k + 1);
        }
    }
    assert(outs =~= expand(ins));
}

/// Every history of `hs`, in order, extended by observation 0 and then by 1:
/// one expansion of the branches per observation.
pub fn expand_histories(hs: &Vec<usize>) -> (out: Vec<usize>)
    requires
        2 * hs.len() <= usize::MAX,
    ensures
        out.len() == 2 * hs.len(),
        forall|k: int|
            0 <= k < hs.len() ==> #[trigger] out@[2 * k] == (hs@[k] << 1usize) | 0usize
                && out@[2 * k + 1] == (hs@[k] << 1usize) | 1usize,
        (forall|k: int| 0 <= k < hs.len() ==> #[trigger] hs@[k] <= usize::MAX / 2) ==> out@.map_values(
            |h: usize| h as int,
        ) == expand(hs@.map_values(|h: usize| h as int)),
{
    let mut out: Vec<usize> = Vec::new();
    let mut j: usize = 0;
    while j < hs.len()
        invariant
            2 * hs.len() <= usize::MAX,
            j <= hs.len(),
            out.len() == 2 * j,
            forall|k: int|
                0 <= k < j ==> #[trigger] out@[2 * k] == (hs@[k] << 1usize) | 0usize
                    && out@[2 * k + 1] == (hs@[k] << 1usize) | 1usize,
            forall|i: int|
                0 <= i < 2 * j && hs@[i / 2] <= usize::MAX / 2 ==> #[trigger] out@[i] == 2 * hs@[i / 2] + i % 2,
        decreases hs.len() - j,
    {
        let h = hs[j];
        let a = extend_history(h, 0);
        let b = extend_history(h, 1);
        out.push(a);
        out.push(b);
        assert forall|k: int| 0 <= k < j + 1 implies #[trigger] out@[2 * k] == (hs@[k] << 1usize) | 0usize
            && out@[2 * k + 1] == (hs@[k] << 1usize) | 1usize by {
            if k < j {
            }
        }
        assert forall|i: int| 0 <= i < 2 * (j + 1) && hs@[i / 2] <= usize::MAX / 2 implies #[trigger] out@[i]
            == 2 * hs@[i / 2] + i % 2 by {
            if i < 2 * j {
            } else if i == 2 * j {
            } else {
                assert(i == 2 * j + 1);
            }
        }
        j = j + 1;
    }
    proof {
        if forall|k: int| 0 <= k < hs.len() ==> #[trigger] hs@[k] <= usize::MAX / 2 {
            assert forall|i: int| 0 <= i < out.len() implies #[trigger] out@[i] == 2 * hs@[i / 2] + i % 2 by {
                assert(hs@[i / 2] <= usize::MAX / 2);
            }
            lemma_expand_pointwise(hs@, out@);
        }
    }
    out
}

} // verus!
