use std::collections::HashMap;
use capture_the_flag::protocol::Message;
use capture_the_flag::server::{
    discovery_reply, join_decision, name_or_default, reader_event, sort_ids, validate_join, CountdownStep, Proximity,
    ReaderEvent, ServerCommand, ServerSession,
};
use capture_the_flag::types::{Direction, FlagStatus, GameConfig, GameOverReason, GameState, JoinRejectReason};

fn session() -> ServerSession {
    ServerSession::new(&GameConfig::default())
}

#[test]
fn joins_are_validated_in_order() {
    assert_eq!(validate_join("  bob  ", GameState::Waiting, 0, 10), Ok("bob".to_string()));
    assert_eq!(validate_join("   ", GameState::Waiting, 0, 10), Err(JoinRejectReason::InvalidName));
    assert_eq!(
        validate_join("abcdefghijklmnopqrstu", GameState::Waiting, 0, 10),
        Err(JoinRejectReason::InvalidName)
    );
    assert_eq!(validate_join("abcdefghijklmnopqrst", GameState::Waiting, 0, 10), Ok("abcdefghijklmnopqrst".to_string()));
    assert_eq!(validate_join("bob", GameState::Running, 0, 10), Err(JoinRejectReason::GameAlreadyStarted));
    assert_eq!(validate_join("bob", GameState::Waiting, 10, 10), Err(JoinRejectReason::GameFull));
    assert_eq!(validate_join("", GameState::Running, 10, 10), Err(JoinRejectReason::InvalidName));
    assert_eq!(join_decision("ééééééééééé", GameState::Waiting, 0, 10), Err(JoinRejectReason::InvalidName));
    assert_eq!(join_decision("éééééééééé", GameState::Waiting, 0, 10), Ok(()));
}

#[test]
fn discovery_requests_are_answered_while_waiting() {
    let name = "Arena".to_string();
    let reply = discovery_reply(&[0x01, 3], GameState::Waiting, 7, &name, 5000, 2, 8);
    assert_eq!(
        reply,
        Some(Message::DiscoverResponse {
            game_id: 7,
            server_name: "Arena".to_string(),
            tcp_port: 5000,
            state: GameState::Waiting,
            player_count: 2,
            maximum_players: 8,
        })
    );
    assert_eq!(discovery_reply(&[0x01, 3], GameState::Running, 7, &name, 5000, 2, 8), None);
    assert_eq!(discovery_reply(&[0x01, 2], GameState::Waiting, 7, &name, 5000, 2, 8), None);
    assert_eq!(discovery_reply(&[0x02, 3], GameState::Waiting, 7, &name, 5000, 2, 8), None);
    assert_eq!(discovery_reply(&[0x01], GameState::Waiting, 7, &name, 5000, 2, 8), None);
}

#[test]
fn new_session_waits_and_logs_its_ports() {
    let s = session();
    assert_eq!(s.state, GameState::Waiting);
    assert_eq!(s.next_player_id, 1);
    assert_eq!(s.countdown_sec, 5);
    assert_eq!(s.flag_status, FlagStatus::Available);
    assert_eq!(s.logs, vec!["Server running on port TCP 5000 / UDP 5001".to_string()]);
}

#[test]
fn countdown_runs_after_its_seconds() {
    let mut s = session();
    assert_eq!(s.start_countdown(3), Some(Message::GameCountdown { seconds_remaining: 3 }));
    assert_eq!(s.state, GameState::Starting);
    assert_eq!(s.logs.last().unwrap(), "Countdown started (3 seconds)...");
    assert_eq!(s.start_countdown(3), None);
    match s.countdown_second() {
        CountdownStep::Counted(m) => assert_eq!(m, Message::GameCountdown { seconds_remaining: 2 }),
        other => panic!("unexpected step {:?}", other),
    }
    match s.countdown_second() {
        CountdownStep::Counted(m) => assert_eq!(m, Message::GameCountdown { seconds_remaining: 1 }),
        other => panic!("unexpected step {:?}", other),
    }
    assert!(matches!(s.countdown_second(), CountdownStep::Started));
    assert_eq!(s.state, GameState::Running);
    assert_eq!(s.tick, 0);
    assert_eq!(s.logs.last().unwrap(), "Game STARTED!");
    assert!(matches!(s.countdown_second(), CountdownStep::Idle));
}

#[test]
fn players_join_and_leave() {
    let mut s = session();
    assert_eq!(s.assign_player_id(), 1);
    assert_eq!(s.assign_player_id(), 2);
    assert_eq!(s.next_player_id, 3);
    s.record_join("ann", 1);
    assert_eq!(s.logs.last().unwrap(), "Player 'ann' (ID 1) joined.");
    s.flag_status = FlagStatus::Carried;
    s.flag_carrier_id = 1;
    assert!(!s.remove_player(2, "bob"));
    assert_eq!(s.flag_status, FlagStatus::Carried);
    assert!(s.remove_player(1, "ann"));
    assert_eq!(s.flag_status, FlagStatus::Dropped);
    assert_eq!(s.flag_carrier_id, 0);
    assert_eq!(s.logs.last().unwrap(), "Player 'ann' (ID 1) disconnected.");
}

fn proximity(ids: Vec<u16>, near_flag: Vec<bool>, near: Vec<Vec<bool>>) -> Proximity {
    Proximity { ids, near_flag, near }
}

#[test]
fn interactions_pick_up_then_steal_in_id_order() {
    let mut s = session();
    s.state = GameState::Running;
    s.tick = 12;
    let prox = proximity(
        vec![3, 1, 2],
        vec![false, true, true],
        vec![vec![true, false, false], vec![false, true, true], vec![false, true, true]],
    );
    let out = s.resolve_interactions(&vec![2, 1], &prox);
    assert_eq!(out.flag_at, Some(2));
    assert_eq!(out.flag_bits, vec![(1, true), (1, false), (2, true)]);
    assert_eq!(
        out.events,
        vec![
            Message::FlagPickedUp { tick: 12, player_id: 1 },
            Message::FlagStolen { tick: 12, previous_carrier_id: 1, new_carrier_id: 2 },
        ]
    );
    assert_eq!(s.flag_status, FlagStatus::Carried);
    assert_eq!(s.flag_carrier_id, 2);
    let n = s.logs.len();
    assert_eq!(s.logs[n - 2], "Player ID 1 picked up the flag!");
    assert_eq!(s.logs[n - 1], "Player ID 2 stole flag from ID 1!");
}

#[test]
fn only_one_steal_per_tick() {
    let mut s = session();
    s.flag_status = FlagStatus::Carried;
    s.flag_carrier_id = 3;
    let prox = proximity(
        vec![1, 2, 3],
        vec![false, false, false],
        vec![vec![true, true, true], vec![true, true, true], vec![true, true, true]],
    );
    let out = s.resolve_interactions(&vec![2, 1], &prox);
    assert_eq!(out.events, vec![Message::FlagStolen { tick: 0, previous_carrier_id: 3, new_carrier_id: 1 }]);
    assert_eq!(s.flag_carrier_id, 1);
}

#[test]
fn absent_or_distant_players_do_nothing() {
    let mut s = session();
    let prox = proximity(vec![1], vec![false], vec![vec![true]]);
    let out = s.resolve_interactions(&vec![1, 9], &prox);
    assert_eq!(out.flag_at, None);
    assert!(out.events.is_empty());
    assert!(out.flag_bits.is_empty());
    assert_eq!(s.flag_status, FlagStatus::Available);
}

#[test]
fn carrier_outside_the_circle_wins() {
    let mut s = session();
    s.state = GameState::Running;
    s.flag_status = FlagStatus::Carried;
    s.flag_carrier_id = 2;
    assert_eq!(s.check_victory(Some("bob".to_string()), false), None);
    assert_eq!(s.state, GameState::Running);
    assert_eq!(
        s.check_victory(Some("bob".to_string()), true),
        Some(Message::GameOver {
            winner_id: 2,
            winner_name: "bob".to_string(),
            reason: GameOverReason::ExitedCircleWithFlag
        })
    );
    assert_eq!(s.state, GameState::Finished);
    assert_eq!(s.flag_status, FlagStatus::Outside);
    assert_eq!(s.winner_id, Some(2));
    assert_eq!(s.winner_name, "bob");
    assert_eq!(s.logs.last().unwrap(), "GAME OVER! Winner: bob (ID 2)");
}

#[test]
fn ticks_count_up() {
    let mut s = session();
    s.begin_tick();
    s.begin_tick();
    assert_eq!(s.tick, 2);
}

#[test]
fn ids_sort_ascending() {
    assert_eq!(sort_ids(&vec![5, 1, 3, 1]), vec![1, 1, 3, 5]);
    assert_eq!(sort_ids(&vec![]), Vec::<u16>::new());
}

#[test]
fn reader_events_follow_frames() {
    assert_eq!(
        reader_event(4, Some(Message::Input { player_id: 4, direction: Direction::Down })),
        (Some(ReaderEvent::Input { player_id: 4, direction: Direction::Down }), true)
    );
    assert_eq!(
        reader_event(4, Some(Message::Interact { player_id: 4 })),
        (Some(ReaderEvent::Interact { player_id: 4 }), true)
    );
    assert_eq!(reader_event(4, Some(Message::Leave { player_id: 4 })), (Some(ReaderEvent::Leave { player_id: 4 }), false));
    assert_eq!(reader_event(4, Some(Message::Join { name: "x".to_string() })), (None, true));
    assert_eq!(reader_event(4, Some(Message::Input { player_id: 5, direction: Direction::Up })), (None, true));
    assert_eq!(reader_event(4, Some(Message::Interact { player_id: 5 })), (None, true));
    assert_eq!(reader_event(4, Some(Message::Leave { player_id: 5 })), (None, true));
    assert_eq!(reader_event(4, None), (Some(ReaderEvent::Disconnected { player_id: 4 }), false));
}

#[test]
fn server_commands_compare() {
    assert_ne!(ServerCommand::StartCountdown, ServerCommand::StopServer);
}

#[test]
fn flag_bits_follow_the_carrier() {
    let mut s = session();
    let prox = proximity(
        vec![3, 1, 2],
        vec![false, true, true],
        vec![vec![true, false, false], vec![false, true, true], vec![false, true, true]],
    );
    let mut held: HashMap<u16, bool> = [(1, false), (2, false), (3, false)].into_iter().collect();
    let out = s.resolve_interactions(&vec![2, 1], &prox);
    for (id, bit) in out.flag_bits {
        if let Some(b) = held.get_mut(&id) {
            *b = bit;
        }
    }
    for (id, bit) in &held {
        assert_eq!(*bit, s.flag_status == FlagStatus::Carried && *id == s.flag_carrier_id);
    }
}

#[test]
fn a_blank_launcher_name_falls_back() {
    assert_eq!(name_or_default("  ann \t", "RustPlayer"), "ann");
    assert_eq!(name_or_default(" \n ", "RustPlayer"), "RustPlayer");
    assert_eq!(name_or_default("", "RustPlayer"), "RustPlayer");
    assert_eq!(name_or_default("\u{3000}bo b\u{2028}", "x"), "bo b");
    assert_eq!(validate_join("\u{a0}eve\u{85}", GameState::Waiting, 0, 10), Ok("eve".to_string()));
}

#[test]
fn a_tick_that_ends_the_game_keeps_the_flag_with_its_carrier() {
    let mut s = session();
    s.state = GameState::Running;
    s.flag_status = FlagStatus::Carried;
    s.flag_carrier_id = 1;
    let prox = proximity(vec![1, 2], vec![false, false], vec![vec![true, true], vec![true, true]]);
    let mut held: HashMap<u16, bool> = [(1, true), (2, false)].into_iter().collect();
    let out = s.resolve_interactions(&vec![2], &prox);
    for (id, bit) in out.flag_bits {
        if let Some(b) = held.get_mut(&id) {
            *b = bit;
        }
    }
    assert!(s.check_victory(Some("bea".to_string()), true).is_some());
    assert_eq!(s.flag_status, FlagStatus::Outside);
    assert_eq!(s.flag_carrier_id, 2);
    for (id, bit) in &held {
        assert_eq!(*bit, *id == 2);
    }
}
