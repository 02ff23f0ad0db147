use common::particles::{agrees, clear_rock, count_good, draw_particles, resample};
use common::rng::{draw_index, draw_indices, draw_rock_bits, SeededRng};
use common::rocksample::RockWorld;
use common::tiger::{draw_side, next_side};

#[test]
fn seeded_draws_repeat() {
    let mut a = SeededRng::from_seed(7000);
    let mut b = SeededRng::from_seed(7000);
    let xs = draw_indices(&mut a, 50, 6);
    let ys = draw_indices(&mut b, 50, 6);
    assert_eq!(xs, ys);
    assert_eq!(xs.len(), 50);
    assert!(xs.iter().all(|&x| x < 6));
    assert!(xs.iter().any(|&x| x != xs[0]));
}

#[test]
fn draws_stay_in_range() {
    let mut r = SeededRng::from_seed(1);
    for n in 1..20 {
        assert!(draw_index(&mut r, n) < n);
    }
    for _ in 0..20 {
        assert!(draw_side(&mut r) < 2);
        let bits = draw_rock_bits(&mut r);
        assert!(bits.iter().all(|&b| b == 0 || b == 1));
    }
    assert_eq!(draw_indices(&mut r, 0, 3), Vec::<usize>::new());
}

#[test]
fn world_from_seed() {
    let mut a = SeededRng::from_seed(42);
    let w = RockWorld::new(&mut a);
    let mut b = SeededRng::from_seed(42);
    let bits = draw_rock_bits(&mut b);
    for i in 0..4 {
        assert_eq!(w.rock(i), bits[i]);
        assert!(!w.is_sampled(i));
    }
    assert_eq!(w.pos(), (0, 0));
}

#[test]
fn particles_count_resample_clear() {
    let ps: Vec<[i32; 4]> = vec![[1, 0, 1, 0], [1, 1, 0, 0], [0, 1, 1, 0]];
    assert_eq!(count_good(&ps, 0), 2);
    assert_eq!(count_good(&ps, 1), 2);
    assert_eq!(count_good(&ps, 2), 2);
    assert_eq!(count_good(&ps, 3), 0);
    let r = resample(&ps, &vec![2, 2, 0, 1]);
    assert_eq!(r, vec![[0, 1, 1, 0], [0, 1, 1, 0], [1, 0, 1, 0], [1, 1, 0, 0]]);
    assert_eq!(resample(&ps, &vec![]), Vec::<[i32; 4]>::new());
    let mut c = ps.clone();
    clear_rock(&mut c, 2);
    assert_eq!(c, vec![[1, 0, 0, 0], [1, 1, 0, 0], [0, 1, 0, 0]]);
    assert_eq!(count_good(&c, 2), 0);
    assert!(agrees([1, 0, 1, 0], 0, 1));
    assert!(!agrees([1, 0, 1, 0], 1, 1));
    assert!(agrees([1, 0, 1, 0], 1, 0));
}

#[test]
fn drawn_particles() {
    let mut r = SeededRng::from_seed(9);
    let ps = draw_particles(&mut r, 64);
    assert_eq!(ps.len(), 64);
    assert!(ps.iter().all(|p| p.iter().all(|&b| b == 0 || b == 1)));
    for i in 0..4 {
        let c = count_good(&ps, i);
        assert!(c >= 0 && c <= 64);
    }
}

#[test]
fn tiger_side_after_actions() {
    let mut a = SeededRng::from_seed(3);
    let mut b = SeededRng::from_seed(3);
    // listening keeps the side and draws nothing
    assert_eq!(next_side(&mut a, 1, 0), 1);
    assert_eq!(next_side(&mut a, 0, 0), 0);
    // opening a door draws a fresh side, the same draw a plain side draw makes
    let s = next_side(&mut a, 0, 2);
    assert!(s < 2);
    assert_eq!(s, draw_side(&mut b));
    assert_eq!(draw_indices(&mut a, 10, 7), draw_indices(&mut b, 10, 7));
}

#[test]
fn draws_use_the_full_range() {
    let mut r = SeededRng::from_seed(11);
    let xs = draw_indices(&mut r, 400, 4);
    for v in 0..4 {
        assert!(xs.contains(&v));
    }
    let mut seen = [false; 2];
    for _ in 0..50 {
        for b in draw_rock_bits(&mut r) {
            seen[b as usize] = true;
        }
    }
    assert_eq!(seen, [true, true]);
}
