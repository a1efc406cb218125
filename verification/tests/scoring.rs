use rounds_core::game_state::try_end_match;
use rounds_core::player::PlayerIdGen;
use rounds_core::scoring::{update_leaderboard, Leaderboard, PartialPoints};
use rounds_core::AppState;

fn partial(n: u8) -> PartialPoints {
    let mut p = PartialPoints::default();
    for _ in 0..n {
        p.increment();
    }
    p
}

#[test]
fn full_point_needs_two_partial_points() {
    let leaderboard = Leaderboard::new(2);
    assert!(!leaderboard.full_point(partial(0)));
    assert!(!leaderboard.full_point(partial(1)));
    assert!(leaderboard.full_point(partial(2)));
    assert!(leaderboard.full_point(partial(5)));
    let mut p = partial(7);
    p.reset();
    assert!(!leaderboard.full_point(p));
}

#[test]
fn new_leaderboard_is_zeroed() {
    let leaderboard = Leaderboard::new(4);
    assert_eq!(leaderboard.full_points(), &[0, 0, 0, 0]);
    assert_eq!(leaderboard.max_cards_awarded(), 0);
}

#[test]
fn leaderboard_adds_full_points_and_awards_cards() {
    let mut gen = PlayerIdGen::new();
    let (a, b, c) = (gen.next().unwrap(), gen.next().unwrap(), gen.next().unwrap());
    let mut leaderboard = Leaderboard::new(3);
    update_leaderboard(&[(a, partial(4)), (b, partial(1)), (c, partial(3))], &mut leaderboard);
    assert_eq!(leaderboard.full_points(), &[2, 0, 1]);
    assert_eq!(leaderboard.max_cards_awarded(), 2);
    assert_eq!(leaderboard.num_cards_to_take(partial(4)), 0);
    assert_eq!(leaderboard.num_cards_to_take(partial(3)), 1);
    assert_eq!(leaderboard.num_cards_to_take(partial(1)), 2);
    // Fewer points never means fewer cards.
    assert!(leaderboard.num_cards_to_take(partial(0)) >= leaderboard.num_cards_to_take(partial(2)));

    update_leaderboard(&[(a, partial(2)), (b, partial(3)), (c, partial(2))], &mut leaderboard);
    assert_eq!(leaderboard.full_points(), &[3, 1, 2]);
    // Everyone made the same number of points: one card each.
    assert_eq!(leaderboard.max_cards_awarded(), 1);
    assert_eq!(leaderboard.num_cards_to_take(partial(2)), 1);
    assert_eq!(leaderboard.num_cards_to_take(partial(3)), 1);
}

#[test]
fn equal_points_give_one_card_each() {
    let mut gen = PlayerIdGen::new();
    let (a, b) = (gen.next().unwrap(), gen.next().unwrap());
    let mut leaderboard = Leaderboard::new(2);
    update_leaderboard(&[(a, partial(5)), (b, partial(4))], &mut leaderboard);
    assert_eq!(leaderboard.full_points(), &[2, 2]);
    assert_eq!(leaderboard.num_cards_to_take(partial(5)), 1);
    assert_eq!(leaderboard.num_cards_to_take(partial(4)), 1);
}

#[test]
fn leaderboard_with_no_players_awards_no_cards() {
    let mut leaderboard = Leaderboard::new(2);
    update_leaderboard(&[], &mut leaderboard);
    assert_eq!(leaderboard.full_points(), &[0, 0]);
    assert_eq!(leaderboard.max_cards_awarded(), 0);
}

#[test]
fn match_goes_on_while_two_are_alive() {
    let leaderboard = Leaderboard::new(3);
    let players = [(true, partial(5)), (false, partial(0)), (true, partial(0))];
    assert_eq!(try_end_match(&leaderboard, &players), None);
}

#[test]
fn match_ends_with_one_survivor() {
    let leaderboard = Leaderboard::new(3);
    let players = [(false, partial(1)), (true, partial(1)), (false, partial(0))];
    assert_eq!(try_end_match(&leaderboard, &players), Some(AppState::Match));
    let players = [(false, partial(1)), (true, partial(0)), (false, partial(2))];
    assert_eq!(try_end_match(&leaderboard, &players), Some(AppState::CardSelection));
}

#[test]
fn match_ends_with_no_survivor() {
    let leaderboard = Leaderboard::new(2);
    assert_eq!(try_end_match(&leaderboard, &[(false, partial(0)), (false, partial(0))]), Some(AppState::Match));
    assert_eq!(try_end_match(&leaderboard, &[]), Some(AppState::Match));
}
