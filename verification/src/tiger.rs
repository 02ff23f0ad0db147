//! The Tiger problem: a tiger hides behind the left door (side 0) or the
//! right door (side 1). Action 0 listens, action 1 opens the left door and
//! action 2 (or any larger action) opens the right door.

use crate::rng::{draw_index, Draw, SeededRng};
use vstd::prelude::*;

verus! {

/// The reward of action `a` when the tiger is on side `s`: listening costs 1,
/// opening the tiger's door costs 100, opening the other door pays 10. Any
/// side other than 0 counts as the right door.
pub open spec fn tiger_reward_spec(s: int, a: int) -> int {
    if a == 0 {
        -1
    } else if a == 1 {
        if s == 0 { -100 } else { 10 }
    } else {
        if s == 0 { 10 } else { -100 }
    }
}

/// The reward of action `a` with the tiger on side `s`.
pub fn tiger_reward(s: usize, a: usize) -> (r: i32)
    ensures
        r == tiger_reward_spec(s as int, a as int),
{
    if a == 0 {
        -1
    } else if a == 1 {
        if s == 0 { -100 } else { 10 }
    } else {
        if s == 0 { 10 } else { -100 }
    }
}

/// The side heard when listening: the tiger's side if the hearing was correct,
/// the other side otherwise.
pub fn heard_side(s: usize, correct: bool) -> (o: usize)
    requires
        s < 2,
    ensures
        o < 2,
        correct <==> o == s,
{
    if correct {
        s
    } else {
        1 - s
    }
}

/// A fresh side for the tiger, drawn uniformly from the two doors.
pub fn draw_side(rng: &mut SeededRng) -> (s: usize)
    ensures
        s < 2,
        final(rng).seed() == old(rng).seed(),
        final(rng).drawn() == old(rng).drawn().push(Draw::Index(2)),
        final(rng).values() == old(rng).values().push(s as int),
{
    draw_index(rng, 2)
}

/// The tiger's side after action `a`: listening (action 0) leaves it where it
/// is and draws nothing; opening a door (any other action) resets the problem
/// with a fresh side drawn from the two doors.
pub fn next_side(rng: &mut SeededRng, s: usize, a: usize) -> (s2: usize)
    requires
        s < 2,
    ensures
        s2 < 2,
        final(rng).seed() == old(rng).seed(),
        a == 0 ==> s2 == s && final(rng).drawn() == old(rng).drawn() && final(rng).values() == old(
            rng,
        ).values(),
        a != 0 ==> final(rng).drawn() == old(rng).drawn().push(Draw::Index(2)) && final(rng).values()
            == old(rng).values().push(s2 as int),
{
    if a == 0 {
        s
    } else {
        draw_side(rng)
    }
}

/// Whatever the tiger's side, exactly one door pays 10 and the other costs
/// 100; listening always costs 1.
pub proof fn lemma_one_safe_door(s: int)
    ensures
        tiger_reward_spec(s, 0) == -1,
        tiger_reward_spec(s, 1) + tiger_reward_spec(s, 2) == -90,
        (tiger_reward_spec(s, 1) == 10) != (tiger_reward_spec(s, 2) == 10),
        tiger_reward_spec(s, 1) == 10 <==> s != 0,
{
}

/// After opening a door the tiger's side is the fresh draw, whatever side it
/// was on before: the side after an action is determined by the action, the
/// old side and the recorded draw, and for a door by the draw alone.
pub proof fn lemma_side_after_door_is_the_draw(
    s_a: usize,
    s_b: usize,
    a: usize,
    s2_a: usize,
    s2_b: usize,
    before: Seq<int>,
    after_a: Seq<int>,
    after_b: Seq<int>,
)
    requires
        a != 0,
        after_a == before.push(s2_a as int),
        after_b == before.push(s2_b as int),
        after_a == after_b,
    ensures
        s2_a == s2_b,
{
    assert(after_a.last() == s2_a as int);
    assert(after_b.last() == s2_b as int);
}

} // verus!
