use rounds_core::card_selection_state::{select_left, select_right, CardSelectionAction, CardSelectionData};
use rounds_core::lobby_state::{
    can_handle_lobby_frame, lobby_events, update_lobby, update_lobby_frame, LobbyAction, LobbyData, LobbyEvent,
    LobbyPlayer,
};
use rounds_core::player::{Input, PlayerIdGen};

#[test]
fn selection_wraps_around() {
    assert_eq!(select_left(None, 5), 4);
    assert_eq!(select_left(Some(0), 5), 4);
    assert_eq!(select_left(Some(3), 5), 2);
    assert_eq!(select_right(None, 5), 0);
    assert_eq!(select_right(Some(4), 5), 0);
    assert_eq!(select_right(Some(1), 5), 2);
    for n in 0..5 {
        assert_eq!(select_right(Some(select_left(Some(n), 5)), 5), n);
        assert_eq!(select_left(Some(select_right(Some(n), 5)), 5), n);
        let mut s = n;
        for _ in 0..5 {
            s = select_right(Some(s), 5);
        }
        assert_eq!(s, n);
    }
    assert_eq!(select_right(Some(0), 1), 0);
    assert_eq!(select_left(Some(0), 1), 0);
}

#[test]
fn players_take_cards_in_turn() {
    let mut data = CardSelectionData::new(vec![10, 20], 5);
    assert_eq!(data.current_player(), 20);
    assert_eq!(data.update_card_selection(false, false, true), CardSelectionAction::Highlight { selected: Some(0) });
    assert_eq!(data.update_card_selection(false, true, false), CardSelectionAction::Highlight { selected: Some(4) });
    assert_eq!(data.update_card_selection(false, true, true), CardSelectionAction::Highlight { selected: Some(4) });
    assert_eq!(data.update_card_selection(false, false, false), CardSelectionAction::Highlight { selected: Some(4) });
    assert_eq!(
        data.update_card_selection(true, false, false),
        CardSelectionAction::Take { player: 20, card: 4, done: false }
    );
    assert_eq!(data.selected_card(), None);
    assert_eq!(data.current_player(), 10);
    data.update_card_selection(false, false, true);
    data.update_card_selection(false, false, true);
    assert_eq!(
        data.update_card_selection(true, true, true),
        CardSelectionAction::Take { player: 10, card: 1, done: true }
    );
}

#[test]
fn lobby_colors_are_taken_in_order() {
    let mut lobby = LobbyData::new(3);
    assert!(lobby.has_free_color());
    assert_eq!(lobby.next_player_color(), 0);
    assert_eq!(lobby.next_player_color(), 1);
    lobby.reinsert_player_color(0);
    assert_eq!(lobby.next_player_color(), 0);
    assert_eq!(lobby.next_player_color(), 2);
    assert!(!lobby.has_free_color());
    assert!(!LobbyData::new(0).has_free_color());
}

#[test]
fn lobby_events_follow_press_order() {
    let events = lobby_events(true, true, true, &[(7, true, false), (8, true, true), (9, false, true)]);
    assert_eq!(
        events,
        vec![
            LobbyEvent::Leave(Input::Keyboard),
            LobbyEvent::Join(Input::Keyboard),
            LobbyEvent::Leave(Input::Gamepad(7)),
            LobbyEvent::Leave(Input::Gamepad(8)),
            LobbyEvent::Join(Input::Gamepad(8)),
            LobbyEvent::Join(Input::Gamepad(9)),
            LobbyEvent::Start,
        ]
    );
    assert!(lobby_events(false, false, false, &[]).is_empty());
}

#[test]
fn joining_and_leaving_the_lobby() {
    let mut gen = PlayerIdGen::new();
    let mut lobby = LobbyData::new(6);
    let mut players: Vec<LobbyPlayer> = Vec::new();

    let action = update_lobby(&mut gen, &mut lobby, &players, LobbyEvent::Join(Input::Keyboard));
    let (input, color, id) = match action {
        LobbyAction::Spawn { input, color, id } => (input, color, id),
        other => panic!("expected a spawn, got {:?}", other),
    };
    assert_eq!(input, Input::Keyboard);
    assert_eq!(color, 0);
    assert_eq!(id.value(), 1);
    players.push(LobbyPlayer { entity: 100, input, id, color });

    // A second join with the same device does nothing.
    assert!(matches!(
        update_lobby(&mut gen, &mut lobby, &players, LobbyEvent::Join(Input::Keyboard)),
        LobbyAction::Nothing
    ));

    match update_lobby(&mut gen, &mut lobby, &players, LobbyEvent::Join(Input::Gamepad(5))) {
        LobbyAction::Spawn { input, color, id } => {
            assert_eq!(input, Input::Gamepad(5));
            assert_eq!(color, 1);
            assert_eq!(id.value(), 2);
            players.push(LobbyPlayer { entity: 101, input, id, color });
        }
        other => panic!("expected a spawn, got {:?}", other),
    }

    // The keyboard player leaves: its color and id come back.
    assert!(matches!(
        update_lobby(&mut gen, &mut lobby, &players, LobbyEvent::Leave(Input::Keyboard)),
        LobbyAction::Despawn(100)
    ));
    players.remove(0);
    assert!(matches!(
        update_lobby(&mut gen, &mut lobby, &players, LobbyEvent::Leave(Input::Keyboard)),
        LobbyAction::Nothing
    ));
    match update_lobby(&mut gen, &mut lobby, &players, LobbyEvent::Join(Input::Gamepad(6))) {
        LobbyAction::Spawn { color, id, .. } => {
            assert_eq!(color, 0);
            assert_eq!(id.value(), 1);
        }
        other => panic!("expected a spawn, got {:?}", other),
    }
    assert!(matches!(
        update_lobby(&mut gen, &mut lobby, &players, LobbyEvent::Start),
        LobbyAction::StartGame
    ));
}

#[test]
fn a_frame_of_lobby_events() {
    let mut gen = PlayerIdGen::new();
    let mut lobby = LobbyData::new(6);
    // Frame one: the keyboard and gamepad 7 join.
    let events = lobby_events(false, true, false, &[(7, false, true)]);
    assert!(can_handle_lobby_frame(&gen, &lobby, &[], &events));
    let actions = update_lobby_frame(&mut gen, &mut lobby, &[], &events);
    assert_eq!(actions.len(), 2);
    let mut players = Vec::new();
    for (entity, action) in actions.into_iter().enumerate() {
        match action {
            LobbyAction::Spawn { input, color, id } => {
                assert_eq!(color, entity);
                assert_eq!(id.value() as usize, entity + 1);
                players.push(LobbyPlayer { entity: 100 + entity as u64, input, id, color });
            }
            other => panic!("expected a spawn, got {:?}", other),
        }
    }
    // Frame two: the keyboard leaves and presses join again (its player is still in this
    // frame's snapshot, so the join does nothing); gamepad 8 joins and takes the freed color
    // and id; then the game starts.
    let events = lobby_events(true, true, true, &[(8, false, true)]);
    assert!(can_handle_lobby_frame(&gen, &lobby, &players, &events));
    let actions = update_lobby_frame(&mut gen, &mut lobby, &players, &events);
    assert!(matches!(actions[0], LobbyAction::Despawn(100)));
    assert!(matches!(actions[1], LobbyAction::Nothing));
    match actions[2] {
        LobbyAction::Spawn { input, color, id } => {
            assert_eq!(input, Input::Gamepad(8));
            assert_eq!(color, 0);
            assert_eq!(id.value(), 1);
        }
        other => panic!("expected a spawn, got {:?}", other),
    }
    assert!(matches!(actions[3], LobbyAction::StartGame));
}

#[test]
fn a_frame_that_runs_out_of_colors_cannot_be_handled() {
    let gen = PlayerIdGen::new();
    let lobby = LobbyData::new(1);
    let events = lobby_events(false, true, false, &[(7, false, true)]);
    assert!(!can_handle_lobby_frame(&gen, &lobby, &[], &events));
}
