use rounds_core::game_state::bullet::bullet_hit;
use rounds_core::game_state::player::{
    clear_fixed_timestep_flag, did_fixed_timestep_run_this_frame, set_fixed_time_step_flag,
    DidFixedTimestepRunThisFrame,
};
use rounds_core::game_state::setup_match::{choose_map, first_map, first_spawn_points, move_players};
use rounds_core::shared::Bounces;

#[test]
fn bullet_survives_its_bounces() {
    let mut bounces = Bounces(2);
    assert!(!bullet_hit(&mut bounces));
    assert_eq!(bounces, Bounces(1));
    assert!(!bullet_hit(&mut bounces));
    assert_eq!(bounces, Bounces(0));
    assert!(bullet_hit(&mut bounces));
    assert!(bullet_hit(&mut bounces));
    assert_eq!(bounces, Bounces(0));
}

#[test]
fn fixed_timestep_flag() {
    let mut flag = DidFixedTimestepRunThisFrame::default();
    assert!(!did_fixed_timestep_run_this_frame(&flag));
    set_fixed_time_step_flag(&mut flag);
    assert!(did_fixed_timestep_run_this_frame(&flag));
    clear_fixed_timestep_flag(&mut flag);
    assert!(!did_fixed_timestep_run_this_frame(&flag));
    for _ in 0..3 {
        set_fixed_time_step_flag(&mut flag);
    }
    assert!(did_fixed_timestep_run_this_frame(&flag));
    assert!(did_fixed_timestep_run_this_frame(&flag));
}

#[test]
fn map_choice_is_in_range() {
    assert_eq!(choose_map(1), 0);
    for _ in 0..20 {
        assert!(choose_map(3) < 3);
    }
}

#[test]
fn spawn_points_are_distinct() {
    for _ in 0..20 {
        let order = move_players(3, 5);
        assert_eq!(order.len(), 3);
        for (i, a) in order.iter().enumerate() {
            assert!(*a < 5);
            for b in &order[i + 1..] {
                assert_ne!(a, b);
            }
        }
    }
    let all = move_players(4, 4);
    let mut sorted = all.clone();
    sorted.sort();
    assert_eq!(sorted, vec![0, 1, 2, 3]);
    assert!(move_players(0, 0).is_empty());
}

#[test]
fn first_of_a_shuffled_order() {
    assert_eq!(first_map(&vec![2, 0, 1]), 2);
    assert_eq!(first_spawn_points(vec![3, 1, 4, 0, 2], 3), vec![3, 1, 4]);
    assert_eq!(first_spawn_points(vec![1, 0], 0), Vec::<usize>::new());
}

#[test]
fn spawn_order_is_shuffled() {
    // Fifty shuffles of five points all coming out in order has odds of 1 in 120^50.
    let shuffled = (0..50).any(|_| move_players(5, 5) != vec![0, 1, 2, 3, 4]);
    assert!(shuffled);
}
