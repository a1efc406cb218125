use rounds_core::player::{PlayerIdGen, MAX_PLAYERS};
use rounds_core::shared::{Bounces, Source};

#[test]
fn ids_count_up_from_one() {
    let mut gen = PlayerIdGen::new();
    let ids: Vec<u8> = (0..3).map(|_| gen.next().unwrap().value()).collect();
    assert_eq!(ids, vec![1, 2, 3]);
}

#[test]
fn reinserted_id_comes_back_first() {
    let mut gen = PlayerIdGen::default();
    let one = gen.next().unwrap();
    let two = gen.next().unwrap();
    let three = gen.next().unwrap();
    gen.reinsert(two);
    assert_eq!(gen.next().unwrap().value(), 2);
    gen.reinsert(three);
    gen.reinsert(one);
    // The most recently handed-back id is at the front of the queue.
    assert_eq!(gen.next().unwrap().value(), 1);
    assert_eq!(gen.next().unwrap().value(), 3);
    assert_eq!(gen.next().unwrap().value(), 4);
}

#[test]
fn handed_back_id_is_served_next() {
    let mut gen = PlayerIdGen::new();
    let ids: Vec<_> = (0..5).map(|_| gen.next().unwrap()).collect();
    gen.reinsert(ids[4]);
    gen.reinsert(ids[2]);
    assert_eq!(gen.next().unwrap().value(), 3);
    assert_eq!(gen.next().unwrap().value(), 5);
    assert_eq!(gen.next().unwrap().value(), 6);
}

#[test]
fn generator_runs_out_after_255_ids() {
    let mut gen = PlayerIdGen::new();
    for expected in 1..=MAX_PLAYERS {
        assert_eq!(gen.next().unwrap().value(), expected);
    }
    assert!(gen.next().is_none());
    assert!(gen.next().is_none());
}

#[test]
fn ids_in_use_are_never_handed_out_again() {
    let mut gen = PlayerIdGen::new();
    let mut out: Vec<u8> = Vec::new();
    let mut held = Vec::new();
    for round in 0..20u8 {
        let id = gen.next().unwrap();
        assert!(!out.contains(&id.value()));
        out.push(id.value());
        held.push(id);
        if round % 3 == 2 {
            let back = held.remove(0);
            out.retain(|&v| v != back.value());
            gen.reinsert(back);
        }
    }
}

#[test]
fn player_source_is_never_the_world() {
    let mut gen = PlayerIdGen::new();
    let id = gen.next().unwrap();
    assert_eq!(id.into_source(), Source(1));
    assert_ne!(id.into_source(), Source::world());
    assert_eq!(Source::world(), Source(0));
    assert_eq!(Bounces::default(), Bounces(0));
    let mut bounces = Bounces(4);
    bounces.add_bounce();
    assert_eq!(bounces, Bounces(5));
}
