use common::methods::{
    method_is_valid, parse_method, parse_rock_planner, parse_routing_mode, parse_tiger_planner,
    parse_usize_from, starts_with, str_equal, Kind, RockPlanner, RoutingMode, TigerPlanner, NGRID,
};
use common::policy_tree::{expand_histories, extend_history, npol, policy_action, H};

#[test]
fn number_of_policies() {
    assert_eq!(H, 3);
    assert_eq!(npol(), 128);
}

#[test]
fn policy_action_reads_the_node_bit() {
    // code with bits 0, 2, 4, 6 set
    let code = 0b1010101usize;
    assert_eq!(policy_action(code, 0, 0), 1);
    assert_eq!(policy_action(code, 1, 0), 0);
    assert_eq!(policy_action(code, 1, 1), 1);
    assert_eq!(policy_action(code, 2, 0), 0);
    assert_eq!(policy_action(code, 2, 1), 1);
    assert_eq!(policy_action(code, 2, 2), 0);
    assert_eq!(policy_action(code, 2, 3), 1);
    assert_eq!(policy_action(0, 2, 3), 0);
    assert_eq!(policy_action(127, 1, 1), 1);
}

#[test]
fn every_code_is_a_distinct_policy() {
    let mut seen = std::collections::HashSet::new();
    for code in 0..npol() {
        let mut actions = Vec::new();
        for t in 0..H {
            for h in 0..(1usize << t) {
                actions.push(policy_action(code, t, h));
            }
        }
        assert!(seen.insert(actions));
    }
    assert_eq!(seen.len(), 128);
}

#[test]
fn histories_extend_in_order() {
    assert_eq!(extend_history(0, 0), 0);
    assert_eq!(extend_history(0, 1), 1);
    assert_eq!(extend_history(3, 1), 7);
    assert_eq!(extend_history(2, 0), 4);
    let mut hs = vec![0usize];
    for _ in 0..3 {
        let mut next = Vec::new();
        for &h in hs.iter() {
            for x in 0..2 {
                next.push(extend_history(h, x));
            }
        }
        hs = next;
    }
    assert_eq!(hs, (0..8).collect::<Vec<usize>>());
    let mut ks = vec![0usize];
    for t in 1..5 {
        ks = expand_histories(&ks);
        assert_eq!(ks, (0..(1usize << t)).collect::<Vec<usize>>());
    }
    assert_eq!(expand_histories(&vec![5, 1]), vec![10, 11, 2, 3]);
    assert_eq!(expand_histories(&vec![]), Vec::<usize>::new());
}

#[test]
fn method_names() {
    assert_eq!(parse_method("PF-64"), Kind::PF(64));
    assert_eq!(parse_method("PF-32768"), Kind::PF(32768));
    assert_eq!(parse_method("PF-+7"), Kind::PF(7));
    assert_eq!(parse_method("EKF"), Kind::Ekf);
    assert_eq!(parse_method("Exact grid"), Kind::ExactGrid);
    assert_eq!(parse_method("ekf"), Kind::ExactGrid);
    assert_eq!(parse_method("PF"), Kind::ExactGrid);
    for n in [32usize, 64, 128, 256, 512, 1024, 2048, 4096, 8192, 16384, 32768] {
        assert_eq!(parse_method(&format!("PF-{}", n)), Kind::PF(n));
    }
}

#[test]
fn method_validity() {
    assert!(method_is_valid("PF-1"));
    assert!(method_is_valid("EKF"));
    assert!(method_is_valid("anything"));
    assert!(!method_is_valid("PF-"));
    assert!(!method_is_valid("PF-+"));
    assert!(!method_is_valid("PF--3"));
    assert!(!method_is_valid("PF-12a"));
    assert!(!method_is_valid("PF-99999999999999999999999"));
}

#[test]
fn numerals() {
    assert_eq!(parse_usize_from("abc123", 3), Some(123));
    assert_eq!(parse_usize_from("0", 0), Some(0));
    assert_eq!(parse_usize_from("007", 0), Some(7));
    assert_eq!(parse_usize_from("", 0), None);
    assert_eq!(parse_usize_from("12 ", 0), None);
    assert_eq!(parse_usize_from("x+5", 1), Some(5));
    assert_eq!(parse_usize_from("18446744073709551615", 0), Some(usize::MAX));
    assert_eq!(parse_usize_from("18446744073709551616", 0), None);
    assert_eq!("42".parse::<usize>().ok(), parse_usize_from("42", 0));
    assert_eq!("+42".parse::<usize>().ok(), parse_usize_from("+42", 0));
    assert_eq!("-0".parse::<usize>().ok(), parse_usize_from("-0", 0));
}

#[test]
fn string_helpers() {
    assert!(str_equal("EKF", "EKF"));
    assert!(!str_equal("EKF", "EKFs"));
    assert!(!str_equal("EKF", "EKG"));
    assert!(starts_with("Particle N=64", "Particle"));
    assert!(!starts_with("Part", "Particle"));
    assert!(starts_with("x", ""));
}

#[test]
fn filter_bookkeeping() {
    assert_eq!(Kind::PF(64).retained_scalars(), 64);
    assert_eq!(Kind::Ekf.retained_scalars(), 2);
    assert_eq!(Kind::ExactGrid.retained_scalars(), NGRID);
    assert_eq!(NGRID, 301);
    assert_eq!(Kind::PF(64).particle_count(), 64);
    assert_eq!(Kind::Ekf.particle_count(), 0);
    assert_eq!(Kind::PF(32).filter_seed(5000), 105032);
    assert_eq!(Kind::ExactGrid.filter_seed(5029), 105029);
}

#[test]
fn routing_modes() {
    assert_eq!(parse_routing_mode("BSD-categorical"), Some(RoutingMode::Persistent));
    assert_eq!(parse_routing_mode("window-2"), Some(RoutingMode::Window(2)));
    assert_eq!(parse_routing_mode("window-1"), Some(RoutingMode::Window(1)));
    assert_eq!(parse_routing_mode("memoryless-current-cue"), Some(RoutingMode::Memoryless));
    assert_eq!(parse_routing_mode("window-3"), None);
}

#[test]
fn planners() {
    assert_eq!(parse_tiger_planner("BSD (exact-belief family)"), Some(TigerPlanner::Exact));
    assert_eq!(parse_tiger_planner("Finite window W=2"), Some(TigerPlanner::Window(2)));
    assert_eq!(parse_tiger_planner("Finite window W=1"), Some(TigerPlanner::Window(1)));
    assert_eq!(parse_tiger_planner("QMDP"), Some(TigerPlanner::Qmdp));
    assert_eq!(parse_tiger_planner("QMDP-style no-check"), None);
    assert_eq!(parse_rock_planner("BSD"), RockPlanner::Exact);
    assert_eq!(parse_rock_planner("Particle N=64"), RockPlanner::Particle);
    assert_eq!(parse_rock_planner("Finite window W=2"), RockPlanner::Window);
    assert_eq!(parse_rock_planner("Finite window W=1"), RockPlanner::Window);
    assert_eq!(parse_rock_planner("QMDP"), RockPlanner::Qmdp);
}
