use rounds_core::ability::{Abilities, Ability, State};

#[test]
fn players_start_without_jump_stock() {
    let mut abilities = Abilities::default();
    assert_eq!(abilities.tick(true, false), (false, false));
    abilities.refill_jump();
    assert_eq!(abilities.tick(true, false), (true, false));
}

#[test]
fn jump_use_window_then_cooldown() {
    let mut abilities = Abilities::default();
    abilities.refill_jump();
    // Activation, then four more ticks of use, then the last tick of use.
    for _ in 0..6 {
        assert_eq!(abilities.tick(true, false), (true, false));
    }
    // Twenty ticks of cooldown.
    for _ in 0..20 {
        assert_eq!(abilities.tick(true, false), (false, false));
    }
    // Ready again, but the only jump was spent.
    assert_eq!(abilities.tick(true, false), (false, false));
    abilities.refill_jump();
    assert_eq!(abilities.tick(true, false), (true, false));
}

#[test]
fn releasing_jump_ends_use_early() {
    let mut abilities = Abilities::default();
    abilities.refill_jump();
    assert_eq!(abilities.tick(true, false), (true, false));
    assert_eq!(abilities.tick(false, false), (false, false));
    // Now cooling down for 20 ticks.
    for _ in 0..19 {
        assert_eq!(abilities.tick(true, false), (false, false));
    }
    assert_eq!(abilities.tick(true, false), (false, false));
}

#[test]
fn shoot_cooldown_is_sixty_ticks() {
    let mut abilities = Abilities::default();
    assert_eq!(abilities.tick(false, true), (false, true));
    for _ in 0..60 {
        assert_eq!(abilities.tick(false, true), (false, false));
    }
    assert_eq!(abilities.tick(false, true), (false, true));
}

#[test]
fn add_jump_allows_a_second_jump() {
    let mut abilities = Abilities::default();
    assert_eq!(abilities.jump_max_stock(), 1);
    abilities.add_jump(1);
    assert_eq!(abilities.jump_max_stock(), 2);
    abilities.refill_jump();
    assert_eq!(abilities.tick(true, false).0, true);
    for _ in 0..25 {
        abilities.tick(false, false);
    }
    assert_eq!(abilities.tick(true, false).0, true);
    for _ in 0..25 {
        abilities.tick(false, false);
    }
    assert_eq!(abilities.tick(true, false).0, false);
}

#[test]
fn ability_tick_table() {
    let base = Ability { state: State::Ready, stock: 1, max_stock: 1, use_time: 0, cooldown_time: 0 };
    let mut a = base;
    assert!(a.tick(true));
    assert_eq!(a.state, State::Ready);
    assert_eq!(a.stock, 0);
    assert!(!a.tick(true));

    let mut b = Ability { state: State::InUse(0), ..base };
    assert!(!b.tick(false));
    assert_eq!(b.state, State::Ready);

    let mut c = Ability { state: State::Cooldown(0), cooldown_time: 3, ..base };
    assert!(!c.tick(true));
    assert_eq!(c.state, State::Ready);
    assert_eq!(c.stock, 1);
}

#[test]
fn cooldown_recovers_after_t_plus_one_ticks() {
    let mut a = Ability { state: State::Cooldown(4), stock: 3, max_stock: 3, use_time: 2, cooldown_time: 5 };
    for _ in 0..5 {
        assert!(!a.tick(true));
    }
    assert_eq!(a.state, State::Ready);
}

#[test]
fn activations_bounded_by_stock() {
    let mut a = Ability { state: State::Ready, stock: 2, max_stock: 2, use_time: 0, cooldown_time: 0 };
    let mut activations = 0;
    for _ in 0..10 {
        if a.tick(true) {
            activations += 1;
        }
    }
    assert_eq!(activations, 2);
    assert_eq!(a.stock, 0);
}

#[test]
fn add_jump_adds_exactly_one() {
    let mut abilities = Abilities::default();
    abilities.add_jump(3);
    assert_eq!(abilities.jump_max_stock(), 2);
    abilities.add_jump(1);
    assert_eq!(abilities.jump_max_stock(), 3);
}

#[test]
fn cooldown_keeps_stock() {
    let mut a = Ability { state: State::Cooldown(2), stock: 1, max_stock: 3, use_time: 0, cooldown_time: 3 };
    assert!(!a.tick(true));
    assert_eq!(a.state, State::Cooldown(1));
    assert!(!a.tick(true));
    assert_eq!(a.state, State::Cooldown(0));
    assert!(!a.tick(true));
    assert_eq!(a.state, State::Ready);
    assert_eq!(a.stock, 1);
}
