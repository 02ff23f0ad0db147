//! The RockSample(4,4) world: a rover on a 4x4 grid with four rocks, each
//! good or bad, and the integer parts of the heuristic rover policy.

use crate::rng::{draw_rock_bits, is_rock_bits, repeat_draw, Draw, SeededRng};
use vstd::prelude::*;

verus! {

/// Side length of the grid.
pub const SIZE: i32 = 4;

/// Number of rocks.
pub const KROCK: usize = 4;

/// The grid cell of rock `i`: rocks 0..4 lie at (0,1), (1,3), (2,0), (3,2).
pub open spec fn rock_pos(i: int) -> (int, int) {
    if i == 0 {
        (0, 1)
    } else if i == 1 {
        (1, 3)
    } else if i == 2 {
        (2, 0)
    } else {
        (3, 2)
    }
}

/// Whether a cell lies on the grid.
pub open spec fn in_grid(x: int, y: int) -> bool {
    0 <= x < SIZE && 0 <= y < SIZE
}

/// The displacement of a move: 'N' is +y, 'S' is -y, 'E' is +x and every other
/// letter is -x (west).
pub open spec fn move_delta(dir: char) -> (int, int) {
    if dir == 'N' {
        (0, 1)
    } else if dir == 'S' {
        (0, -1)
    } else if dir == 'E' {
        (1, 0)
    } else {
        (-1, 0)
    }
}

/// Manhattan distance from a cell to rock `i`.
pub open spec fn manhattan_spec(x: int, y: int, i: int) -> int {
    let dx = x - rock_pos(i).0;
    let dy = y - rock_pos(i).1;
    (if dx < 0 { -dx } else { dx }) + (if dy < 0 { -dy } else { dy })
}

/// An action of the rover.
#[derive(Clone, Copy, Debug, PartialEq, Eq, Structural)]
pub enum Act {
    Move(char),
    Sample(usize),
    Check(usize),
}

/// What one step of the world yields: the reward, whether the episode ended
/// (the rover left the grid to the east), and whether a rock was sampled.
#[derive(Clone, Copy, Debug, PartialEq, Eq, Structural)]
pub struct StepOutcome {
    pub reward: i32,
    pub done: bool,
    pub sampled: bool,
}

/// The state of the world as mathematics: the rover's cell, the quality of
/// each rock (1 good, 0 bad), and which rocks were sampled.
pub struct RockWorldModel {
    pub x: int,
    pub y: int,
    pub good: Seq<i32>,
    pub sampled: Seq<bool>,
}

/// Whether an action names a rock that exists.
pub open spec fn act_in_range(act: Act) -> bool {
    match act {
        Act::Move(_) => true,
        Act::Sample(i) => i < KROCK,
        Act::Check(i) => i < KROCK,
    }
}

/// The outcome of a step that yields nothing.
pub open spec fn quiet() -> StepOutcome {
    StepOutcome { reward: 0, done: false, sampled: false }
}

/// One step of the world. Moving east off the last column ends the episode
/// with reward 10; any other move off the grid leaves the rover where it is.
/// Sampling an unsampled rock under the rover pays 10 if it is good and -10 if
/// it is bad, and makes it a sampled bad rock; any other sample does nothing.
/// Checking changes nothing.
pub open spec fn step_model(m: RockWorldModel, act: Act) -> (RockWorldModel, StepOutcome) {
    match act {
        Act::Move(d) => {
            let nx = m.x + move_delta(d).0;
            let ny = m.y + move_delta(d).1;
            if d == 'E' && nx >= SIZE {
                (m, StepOutcome { reward: 10, done: true, sampled: false })
            } else if in_grid(nx, ny) {
                (RockWorldModel { x: nx, y: ny, good: m.good, sampled: m.sampled }, quiet())
            } else {
                (m, quiet())
            }
        },
        Act::Sample(i) => {
            if (m.x, m.y) == rock_pos(i as int) && !m.sampled[i as int] {
                let r: i32 = if m.good[i as int] != 0 { 10i32 } else { -10i32 };
                (
                    RockWorldModel {
                        x: m.x,
                        y: m.y,
                        good: m.good.update(i as int, 0),
                        sampled: m.sampled.update(i as int, true),
                    },
                    StepOutcome { reward: r, done: false, sampled: true },
                )
            } else {
                (m, quiet())
            }
        },
        Act::Check(_) => (m, quiet()),
    }
}

/// Well-formedness of a model: the rover is on the grid, there are four rocks,
/// each is 0 or 1, and a sampled rock is bad.
pub open spec fn model_wf(m: RockWorldModel) -> bool {
    &&& in_grid(m.x, m.y)
    &&& m.good.len() == KROCK
    &&& m.sampled.len() == KROCK
    &&& forall|i: int| 0 <= i < KROCK ==> #[trigger] m.good[i] == 0 || m.good[i] == 1
    &&& forall|i: int| 0 <= i < KROCK ==> #[trigger] m.sampled[i] ==> m.good[i] == 0
}

/// The world: the rover's cell, the true rock qualities and the sampled flags.
pub struct RockWorld {
    pos: (i32, i32),
    good: Vec<i32>,
    sampled: Vec<bool>,
}

impl View for RockWorld {
    type V = RockWorldModel;

    closed spec fn view(&self) -> RockWorldModel {
        RockWorldModel {
            x: self.pos.0 as int,
            y: self.pos.1 as int,
            good: self.good@,
            sampled: self.sampled@,
        }
    }
}

/// The cell of rock `i`.
pub fn rock_at(i: usize) -> (p: (i32, i32))
    requires
        i < KROCK,
    ensures
        p.0 == rock_pos(i as int).0,
        p.1 == rock_pos(i as int).1,
{
    if i == 0 {
        (0, 1)
    } else if i == 1 {
        (1, 3)
    } else if i == 2 {
        (2, 0)
    } else {
        (3, 2)
    }
}

/// The displacement of a move in direction `dir`.
pub fn moves(dir: char) -> (d: (i32, i32))
    ensures
        d.0 == move_delta(dir).0,
        d.1 == move_delta(dir).1,
{
    if dir == 'N' {
        (0, 1)
    } else if dir == 'S' {
        (0, -1)
    } else if dir == 'E' {
        (1, 0)
    } else {
        (-1, 0)
    }
}

impl RockWorld {
    /// Well-formedness: the model of the world is well formed.
    pub open spec fn wf(&self) -> bool {
        model_wf(self@)
    }

    /// A world with the rover at (0,0), nothing sampled, and the given rock
    /// qualities (one entry per rock, each 0 or 1).
    pub fn from_rocks(rocks: [i32; 4]) -> (w: RockWorld)
        requires
            is_rock_bits(rocks),
        ensures
            w.wf(),
            w@.x == 0,
            w@.y == 0,
            w@.good == rocks@,
            w@.sampled == seq![false, false, false, false],
    {
        let good: Vec<i32> = vec![rocks[0], rocks[1], rocks[2], rocks[3]];
        let sampled: Vec<bool> = vec![false, false, false, false];
        let w = RockWorld { pos: (0, 0), good, sampled };
        assert(w@.good =~= rocks@);
        assert(w@.sampled =~= seq![false, false, false, false]);
        w
    }

    /// A fresh world whose rock qualities are four fair draws, rock 0 first.
    pub fn new(rng: &mut SeededRng) -> (w: RockWorld)
        ensures
            w.wf(),
            final(rng).seed() == old(rng).seed(),
            final(rng).drawn() == old(rng).drawn() + repeat_draw(Draw::Int(2), 4),
            final(rng).values() == old(rng).values() + w@.good.map_values(|b: i32| b as int),
            w@.x == 0,
            w@.y == 0,
            w@.sampled == seq![false, false, false, false],
    {
        let rocks = draw_rock_bits(rng);
        RockWorld::from_rocks(rocks)
    }

    /// The rover's cell.
    pub fn pos(&self) -> (p: (i32, i32))
        ensures
            p.0 == self@.x,
            p.1 == self@.y,
    {
        self.pos
    }

    /// Whether rock `i` is good (1) or bad (0).
    pub fn rock(&self, i: usize) -> (g: i32)
        requires
            self.wf(),
            i < KROCK,
        ensures
            g == self@.good[i as int],
    {
        self.good[i]
    }

    /// Whether rock `i` was sampled.
    pub fn is_sampled(&self, i: usize) -> (s: bool)
        requires
            self.wf(),
            i < KROCK,
        ensures
            s == self@.sampled[i as int],
    {
        self.sampled[i]
    }

    /// The sampled flags of all rocks.
    pub fn sampled_flags(&self) -> (f: [bool; 4])
        requires
            self.wf(),
        ensures
            f@ == self@.sampled,
    {
        let f = [self.sampled[0], self.sampled[1], self.sampled[2], self.sampled[3]];
        assert(f@ =~= self@.sampled);
        f
    }

    /// The sensor reading of rock `i`: its true quality when the reading is
    /// correct, the other quality otherwise.
    pub fn check_reading(&self, i: usize, correct: bool) -> (o: usize)
        requires
            self.wf(),
            i < KROCK,
        ensures
            o < 2,
            correct ==> o == self@.good[i as int],
            !correct ==> o == 1 - self@.good[i as int],
    {
        let g = self.good[i];
        assert(g == 0 || g == 1);
        if correct {
            g as usize
        } else {
            1 - (g as usize)
        }
    }

    /// Performs one step of the world (see `step_model`).
    pub fn step(&mut self, act: Act) -> (out: StepOutcome)
        requires
            old(self).wf(),
            act_in_range(act),
        ensures
            final(self).wf(),
            final(self)@ == step_model(old(self)@, act).0,
            out == step_model(old(self)@, act).1,
    {
        match act {
            Act::Move(d) => {
                let (dx, dy) = moves(d);
                let nx = self.pos.0 + dx;
                let ny = self.pos.1 + dy;
                if d == 'E' && nx >= SIZE {
                    StepOutcome { reward: 10, done: true, sampled: false }
                } else {
                    if nx >= 0 && nx < SIZE && ny >= 0 && ny < SIZE {
                        self.pos = (nx, ny);
                    }
                    StepOutcome { reward: 0, done: false, sampled: false }
                }
            },
            Act::Sample(i) => {
                let (rx, ry) = rock_at(i);
                if self.pos.0 == rx && self.pos.1 == ry && !self.sampled[i] {
                    let r: i32 = if self.good[i] != 0 { 10 } else { -10 };
                    self.good.set(i, 0);
                    self.sampled.set(i, true);
                    assert(self@.good =~= old(self)@.good.update(i as int, 0));
                    assert(self@.sampled =~= old(self)@.sampled.update(i as int, true));
                    StepOutcome { reward: r, done: false, sampled: true }
                } else {
                    StepOutcome { reward: 0, done: false, sampled: false }
                }
            },
            Act::Check(_) => StepOutcome { reward: 0, done: false, sampled: false },
        }
    }
}


/// Whether rock `i` may be sampled by the rover at (x, y): it lies under the
/// rover, it was not sampled, and the policy considers it worth sampling.
pub open spec fn sample_eligible(x: int, y: int, sampled: Seq<bool>, worth: Seq<bool>, i: int) -> bool {
    (x, y) == rock_pos(i) && !sampled[i] && worth[i]
}

/// The first rock, in index order, that may be sampled at (x, y).
pub fn sample_here(pos: (i32, i32), sampled: [bool; 4], worth: [bool; 4]) -> (r: Option<usize>)
    ensures
        match r {
            Some(i) => i < KROCK && sample_eligible(pos.0 as int, pos.1 as int, sampled@, worth@, i as int)
                && forall|j: int| 0 <= j < i ==> !sample_eligible(pos.0 as int, pos.1 as int, sampled@, worth@, j),
            None => forall|j: int| 0 <= j < KROCK ==> !sample_eligible(pos.0 as int, pos.1 as int, sampled@, worth@, j),
        },
{
    let mut i: usize = 0;
    while i < KROCK
        invariant
            i <= KROCK,
            forall|j: int| 0 <= j < i ==> !sample_eligible(pos.0 as int, pos.1 as int, sampled@, worth@, j),
        decreases KROCK - i,
    {
        let (rx, ry) = rock_at(i);
        if pos.0 == rx && pos.1 == ry && !sampled[i] && worth[i] {
            return Some(i);
        }
        i = i + 1;
    }
    None
}

/// At most one rock lies under the rover, so at most one rock is ever eligible.
pub proof fn lemma_eligible_unique(x: int, y: int, sampled: Seq<bool>, worth: Seq<bool>, i: int, j: int)
    requires
        0 <= i < KROCK,
        0 <= j < KROCK,
        sample_eligible(x, y, sampled, worth, i),
        sample_eligible(x, y, sampled, worth, j),
    ensures
        i == j,
{
}

/// Manhattan distance from `pos` to rock `i`.
pub fn manhattan(pos: (i32, i32), i: usize) -> (d: i32)
    requires
        i < KROCK,
        i32::MIN < pos.0 - rock_pos(i as int).0 <= i32::MAX,
        i32::MIN < pos.1 - rock_pos(i as int).1 <= i32::MAX,
        manhattan_spec(pos.0 as int, pos.1 as int, i as int) <= i32::MAX,
    ensures
        d == manhattan_spec(pos.0 as int, pos.1 as int, i as int),
{
    let (rx, ry) = rock_at(i);
    let dx = pos.0 - rx;
    let dy = pos.1 - ry;
    let ax = if dx < 0 { -dx } else { dx };
    let ay = if dy < 0 { -dy } else { dy };
    ax + ay
}

/// The move that brings the rover one cell closer to rock `i`: first along x
/// (east or west), then along y (north or south); at the rock, sample it.
pub open spec fn approach_spec(x: int, y: int, i: usize) -> Act {
    let (tx, ty) = rock_pos(i as int);
    if x < tx {
        Act::Move('E')
    } else if x > tx {
        Act::Move('W')
    } else if y < ty {
        Act::Move('N')
    } else if y > ty {
        Act::Move('S')
    } else {
        Act::Sample(i)
    }
}

/// The action that heads for rock `i` from `pos`.
pub fn approach(pos: (i32, i32), i: usize) -> (a: Act)
    requires
        i < KROCK,
    ensures
        a == approach_spec(pos.0 as int, pos.1 as int, i),
{
    let (tx, ty) = rock_at(i);
    let (x, y) = pos;
    if x < tx {
        Act::Move('E')
    } else if x > tx {
        Act::Move('W')
    } else if y < ty {
        Act::Move('N')
    } else if y > ty {
        Act::Move('S')
    } else {
        Act::Sample(i)
    }
}

/// Heading for a rock samples it exactly when the rover stands on it.
pub proof fn lemma_approach_samples_at_target(x: int, y: int, i: usize)
    requires
        i < KROCK,
    ensures
        (approach_spec(x, y, i) == Act::Sample(i)) <==> (x, y) == rock_pos(i as int),
        approach_spec(x, y, i) is Move <==> (x, y) != rock_pos(i as int),
{
}

/// From any cell of the grid other than rock `i`, the move that heads for
/// rock `i` keeps the rover on the grid, does not end the episode, pays
/// nothing, and shortens the Manhattan distance to the rock by exactly one.
/// So the rover reaches the rock after as many moves as the distance.
pub proof fn lemma_approach_progress(m: RockWorldModel, i: usize)
    requires
        model_wf(m),
        i < KROCK,
        (m.x, m.y) != rock_pos(i as int),
    ensures
        ({
            let (m2, out) = step_model(m, approach_spec(m.x, m.y, i));
            &&& model_wf(m2)
            &&& out == quiet()
            &&& m2.good == m.good
            &&& m2.sampled == m.sampled
            &&& manhattan_spec(m2.x, m2.y, i as int) == manhattan_spec(m.x, m.y, i as int) - 1
        }),
{
}

/// Every step keeps the world well formed: the rover stays on the grid and a
/// sampled rock stays bad.
pub proof fn lemma_step_keeps_wf(m: RockWorldModel, act: Act)
    requires
        model_wf(m),
        act_in_range(act),
    ensures
        model_wf(step_model(m, act).0),
{
    let m2 = step_model(m, act).0;
    if let Act::Sample(i) = act {
        assert forall|j: int| 0 <= j < KROCK implies #[trigger] m2.good[j] == 0 || m2.good[j] == 1 by {
            if j != i as int {
                assert(m2.good[j] == m.good[j]);
            }
        }
        assert forall|j: int| 0 <= j < KROCK && #[trigger] m2.sampled[j] implies m2.good[j] == 0 by {
            if j != i as int {
                assert(m2.good[j] == m.good[j]);
            }
        }
    }
}

/// The world after playing the actions `acts` in order from `m` (the steps
/// after the end of an episode included).
pub open spec fn run_model(m: RockWorldModel, acts: Seq<Act>) -> RockWorldModel
    decreases acts.len(),
{
    if acts.len() == 0 {
        m
    } else {
        step_model(run_model(m, acts.drop_last()), acts.last()).0
    }
}

/// A sampled flag never turns off: after any step (of an action that names an
/// existing rock, if any) a sampled rock is still sampled, and the flags keep
/// their number.
pub proof fn lemma_sampled_stays(m: RockWorldModel, act: Act, i: int)
    requires
        act_in_range(act),
        m.sampled.len() == KROCK,
        0 <= i < KROCK,
        m.sampled[i],
    ensures
        step_model(m, act).0.sampled.len() == KROCK,
        step_model(m, act).0.sampled[i],
{
}

/// Sampling an already sampled rock pays nothing and changes nothing, from
/// any state.
pub proof fn lemma_sampled_rock_is_quiet(m: RockWorldModel, i: usize)
    requires
        i < KROCK,
        m.sampled[i as int],
    ensures
        step_model(m, Act::Sample(i)) == (m, quiet()),
{
}

/// A rock pays at most once: once a sample of rock `i` has paid, rock `i` stays
/// sampled in every later state, whatever actions (naming existing rocks)
/// follow, and every later sample of it pays nothing and changes nothing.
pub proof fn lemma_sample_pays_once(m: RockWorldModel, i: usize, later: Seq<Act>)
    requires
        model_wf(m),
        i < KROCK,
        step_model(m, Act::Sample(i)).1.sampled,
        forall|k: int| 0 <= k < later.len() ==> act_in_range(#[trigger] later[k]),
    ensures
        run_model(step_model(m, Act::Sample(i)).0, later).sampled[i as int],
        ({
            let m2 = run_model(step_model(m, Act::Sample(i)).0, later);
            step_model(m2, Act::Sample(i)) == (m2, quiet())
        }),
{
    let m1 = step_model(m, Act::Sample(i)).0;
    lemma_sampled_stays_along(m1, later, i as int);
    lemma_sampled_rock_is_quiet(run_model(m1, later), i);
}

/// Along any sequence of actions that name existing rocks, a sampled rock
/// stays sampled.
pub proof fn lemma_sampled_stays_along(m: RockWorldModel, acts: Seq<Act>, i: int)
    requires
        forall|k: int| 0 <= k < acts.len() ==> act_in_range(#[trigger] acts[k]),
        m.sampled.len() == KROCK,
        0 <= i < KROCK,
        m.sampled[i],
    ensures
        run_model(m, acts).sampled.len() == KROCK,
        run_model(m, acts).sampled[i],
    decreases acts.len(),
{
    if acts.len() > 0 {
        assert forall|k: int| 0 <= k < acts.drop_last().len() implies act_in_range(
            #[trigger] acts.drop_last()[k],
        ) by {
            assert(acts.drop_last()[k] == acts[k]);
        }
        assert(act_in_range(acts[acts.len() - 1]));
        lemma_sampled_stays_along(m, acts.drop_last(), i);
        lemma_sampled_stays(run_model(m, acts.drop_last()), acts.last(), i);
    }
}

/// The episode ends only by moving east from the last column, and that move
/// pays 10.
pub proof fn lemma_done_only_leaving_east(m: RockWorldModel, act: Act)
    requires
        model_wf(m),
        step_model(m, act).1.done,
    ensures
        act == Act::Move('E'),
        m.x == SIZE - 1,
        step_model(m, act).1.reward == 10,
{
}

/// Sampling happens only at the rock's own cell: from any other cell a sample
/// of rock `i` pays nothing and changes nothing; a sample marks the rock
/// exactly when the rover stands on it and it was not sampled, and then pays
/// 10 for a good rock and -10 for a bad one.
pub proof fn lemma_sample_only_at_rock(m: RockWorldModel, i: usize)
    requires
        i < KROCK,
    ensures
        (m.x, m.y) != rock_pos(i as int) ==> step_model(m, Act::Sample(i)) == (m, quiet()),
        step_model(m, Act::Sample(i)).1.sampled <==> ((m.x, m.y) == rock_pos(i as int)
            && !m.sampled[i as int]),
        step_model(m, Act::Sample(i)).1.sampled ==> (step_model(m, Act::Sample(i)).1.reward == 10
            <==> m.good[i as int] != 0),
        step_model(m, Act::Sample(i)).1.sampled ==> (step_model(m, Act::Sample(i)).1.reward == -10
            <==> m.good[i as int] == 0),
{
}

/// Only a sample marks a rock or changes a rock's quality: moves and checks
/// leave the rocks and the sampled flags as they are.
pub proof fn lemma_only_sampling_touches_rocks(m: RockWorldModel, act: Act)
    requires
        !(act is Sample),
    ensures
        step_model(m, act).0.good == m.good,
        step_model(m, act).0.sampled == m.sampled,
        !step_model(m, act).1.sampled,
{
}

/// The rover heads for a rock along x first: while its x differs from the
/// rock's it moves east (rock to the east) or west (rock to the west), and
/// only once the columns agree does it move north or south, towards the rock.
pub proof fn lemma_approach_x_first(x: int, y: int, i: usize)
    requires
        i < KROCK,
    ensures
        x < rock_pos(i as int).0 ==> approach_spec(x, y, i) == Act::Move('E'),
        x > rock_pos(i as int).0 ==> approach_spec(x, y, i) == Act::Move('W'),
        x == rock_pos(i as int).0 && y < rock_pos(i as int).1 ==> approach_spec(x, y, i) == Act::Move('N'),
        x == rock_pos(i as int).0 && y > rock_pos(i as int).1 ==> approach_spec(x, y, i) == Act::Move('S'),
{
}

/// While the rover's column differs from the rock's, a heading step keeps its
/// row and brings its column one closer to the rock's; once the columns agree,
/// a heading step keeps the column and brings the row one closer.
pub proof fn lemma_approach_closes_x_then_y(m: RockWorldModel, i: usize)
    requires
        model_wf(m),
        i < KROCK,
    ensures
        ({
            let (tx, ty) = rock_pos(i as int);
            let m2 = step_model(m, approach_spec(m.x, m.y, i)).0;
            &&& m.x < tx ==> m2.x == m.x + 1 && m2.y == m.y
            &&& m.x > tx ==> m2.x == m.x - 1 && m2.y == m.y
            &&& m.x == tx && m.y < ty ==> m2.x == m.x && m2.y == m.y + 1
            &&& m.x == tx && m.y > ty ==> m2.x == m.x && m2.y == m.y - 1
        }),
{
}

} // verus!
