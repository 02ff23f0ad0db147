use common::rocksample::{approach, manhattan, moves, rock_at, sample_here, Act, RockWorld, StepOutcome};
use common::tiger::{heard_side, tiger_reward};
use common::window::{last_window, window_start};

#[test]
fn window_keeps_the_newest_entries() {
    let h = [1usize, 2, 3, 4, 5];
    assert_eq!(last_window(&h, 2), vec![4, 5]);
    assert_eq!(last_window(&h, 1), vec![5]);
    assert_eq!(window_start(5, 2), 3);
}

#[test]
fn window_edge_cases() {
    let h = [7usize, 8];
    assert_eq!(last_window(&h, 0), Vec::<usize>::new());
    assert_eq!(last_window(&h, 2), vec![7, 8]);
    assert_eq!(last_window(&h, 10), vec![7, 8]);
    let empty: [usize; 0] = [];
    assert_eq!(last_window(&empty, 3), Vec::<usize>::new());
    assert_eq!(window_start(1, 4), 0);
}

#[test]
fn window_of_records_slides() {
    let mut recs: Vec<(usize, usize, bool)> = Vec::new();
    for k in 0..4 {
        recs.push((k, k + 1, k % 2 == 0));
    }
    assert_eq!(last_window(&recs, 2), vec![(2, 3, true), (3, 4, false)]);
    recs.push((9, 9, true));
    assert_eq!(last_window(&recs, 2), vec![(3, 4, false), (9, 9, true)]);
}

#[test]
fn tiger_reward_table() {
    assert_eq!(tiger_reward(0, 0), -1);
    assert_eq!(tiger_reward(1, 0), -1);
    assert_eq!(tiger_reward(0, 1), -100);
    assert_eq!(tiger_reward(1, 1), 10);
    assert_eq!(tiger_reward(0, 2), 10);
    assert_eq!(tiger_reward(1, 2), -100);
    // one door is safe whatever the side
    for s in 0..2 {
        assert_eq!(tiger_reward(s, 1) + tiger_reward(s, 2), -90);
    }
}

#[test]
fn tiger_hearing() {
    assert_eq!(heard_side(0, true), 0);
    assert_eq!(heard_side(1, true), 1);
    assert_eq!(heard_side(0, false), 1);
    assert_eq!(heard_side(1, false), 0);
}

#[test]
fn rock_cells_and_moves() {
    assert_eq!(rock_at(0), (0, 1));
    assert_eq!(rock_at(1), (1, 3));
    assert_eq!(rock_at(2), (2, 0));
    assert_eq!(rock_at(3), (3, 2));
    assert_eq!(moves('N'), (0, 1));
    assert_eq!(moves('S'), (0, -1));
    assert_eq!(moves('E'), (1, 0));
    assert_eq!(moves('W'), (-1, 0));
    assert_eq!(moves('x'), (-1, 0));
}

#[test]
fn manhattan_distances() {
    assert_eq!(manhattan((0, 0), 0), 1);
    assert_eq!(manhattan((0, 0), 1), 4);
    assert_eq!(manhattan((3, 3), 2), 4);
    assert_eq!(manhattan((3, 2), 3), 0);
}

#[test]
fn approach_heads_x_first_then_y() {
    assert_eq!(approach((0, 0), 1), Act::Move('E'));
    assert_eq!(approach((3, 0), 1), Act::Move('W'));
    assert_eq!(approach((1, 0), 1), Act::Move('N'));
    assert_eq!(approach((1, 3), 0), Act::Move('W'));
    assert_eq!(approach((0, 3), 0), Act::Move('S'));
    assert_eq!(approach((0, 1), 0), Act::Sample(0));
}

#[test]
fn approach_reaches_the_rock() {
    for target in 0..4usize {
        let mut w = RockWorld::from_rocks([1, 1, 0, 0]);
        let start = manhattan(w.pos(), target);
        let mut steps = 0;
        loop {
            let a = approach(w.pos(), target);
            if a == Act::Sample(target) {
                break;
            }
            let before = manhattan(w.pos(), target);
            let out = w.step(a);
            assert_eq!(out, StepOutcome { reward: 0, done: false, sampled: false });
            assert_eq!(manhattan(w.pos(), target), before - 1);
            steps += 1;
        }
        assert_eq!(steps, start);
        assert_eq!(w.pos(), rock_at(target));
    }
}

#[test]
fn sample_here_picks_only_the_rock_under_the_rover() {
    let none = [false; 4];
    assert_eq!(sample_here((0, 1), none, [true; 4]), Some(0));
    assert_eq!(sample_here((0, 1), none, [false, true, true, true]), None);
    assert_eq!(sample_here((0, 1), [true, false, false, false], [true; 4]), None);
    assert_eq!(sample_here((0, 0), none, [true; 4]), None);
    assert_eq!(sample_here((3, 2), none, [true; 4]), Some(3));
}

#[test]
fn sampling_pays_once() {
    let mut w = RockWorld::from_rocks([1, 0, 1, 0]);
    assert_eq!(w.step(Act::Move('N')), StepOutcome { reward: 0, done: false, sampled: false });
    assert_eq!(w.pos(), (0, 1));
    assert_eq!(w.step(Act::Sample(0)), StepOutcome { reward: 10, done: false, sampled: true });
    assert!(w.is_sampled(0));
    assert_eq!(w.rock(0), 0);
    assert_eq!(w.step(Act::Sample(0)), StepOutcome { reward: 0, done: false, sampled: false });
    // a rock elsewhere cannot be sampled
    assert_eq!(w.step(Act::Sample(1)), StepOutcome { reward: 0, done: false, sampled: false });
    assert_eq!(w.sampled_flags(), [true, false, false, false]);
    // however the rover wanders, rock 0 stays sampled and never pays again
    for d in ['E', 'N', 'W', 'S', 'N', 'S'] {
        w.step(Act::Move(d));
    }
    assert_eq!(w.pos(), (0, 1));
    assert_eq!(w.step(Act::Sample(0)), StepOutcome { reward: 0, done: false, sampled: false });
    assert!(w.is_sampled(0));
}

#[test]
fn sampling_a_bad_rock_costs() {
    let mut w = RockWorld::from_rocks([1, 0, 1, 0]);
    for d in ['E', 'E', 'E', 'N', 'N'] {
        w.step(Act::Move(d));
    }
    assert_eq!(w.pos(), (3, 2));
    assert_eq!(w.step(Act::Sample(3)), StepOutcome { reward: -10, done: false, sampled: true });
    assert_eq!(w.rock(3), 0);
}

#[test]
fn walls_and_exit() {
    let mut w = RockWorld::from_rocks([0, 0, 0, 0]);
    assert_eq!(w.step(Act::Move('W')), StepOutcome { reward: 0, done: false, sampled: false });
    assert_eq!(w.step(Act::Move('S')), StepOutcome { reward: 0, done: false, sampled: false });
    assert_eq!(w.pos(), (0, 0));
    for _ in 0..3 {
        w.step(Act::Move('E'));
    }
    for _ in 0..5 {
        w.step(Act::Move('N'));
    }
    assert_eq!(w.pos(), (3, 3));
    assert_eq!(w.step(Act::Move('E')), StepOutcome { reward: 10, done: true, sampled: false });
    assert_eq!(w.pos(), (3, 3));
}

#[test]
fn check_changes_nothing_and_reads_the_sensor() {
    let mut w = RockWorld::from_rocks([1, 0, 1, 0]);
    assert_eq!(w.step(Act::Check(2)), StepOutcome { reward: 0, done: false, sampled: false });
    assert_eq!(w.check_reading(0, true), 1);
    assert_eq!(w.check_reading(0, false), 0);
    assert_eq!(w.check_reading(1, true), 0);
    assert_eq!(w.check_reading(1, false), 1);
    assert_eq!(w.pos(), (0, 0));
}
