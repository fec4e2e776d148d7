use capture_the_flag::client::{command_message, direction_command, ClientCommand, ClientStateSnapshot};
use capture_the_flag::protocol::Message;
use capture_the_flag::types::{
    Direction, ErrorCode, FlagStatus, GameConfig, GameOverReason, GameState, JoinRejectReason,
    LobbyPlayer, PlayerState,
};

fn player(id: u16, name: &str, x: i32, y: i32) -> PlayerState {
    PlayerState { player_id: id, name: name.to_string(), x, y, direction: Direction::Idle, has_flag: false }
}

fn joined() -> ClientStateSnapshot {
    let mut s = ClientStateSnapshot::new("127.0.0.1", 5000, "Arena".to_string());
    assert!(s.apply_join_response(Message::JoinAccepted { player_id: 4, game_id: 1 }));
    s
}

#[test]
fn new_snapshot_is_connecting() {
    let s = ClientStateSnapshot::new("127.0.0.1", 5000, "Arena".to_string());
    assert!(!s.connected);
    assert_eq!(s.server_ip, "127.0.0.1:5000");
    assert_eq!(s.server_name, "Arena");
    assert_eq!(s.logs, vec!["Connecting to 127.0.0.1:5000...".to_string()]);
    assert_eq!(s.game_state, GameState::Waiting);
    assert_eq!(s.config, GameConfig::default());
    assert_eq!(s.tick, 0);
    assert!(s.players.is_empty());
    assert!(s.error_msg.is_none());
}

#[test]
fn join_accepted_connects() {
    let s = joined();
    assert!(s.connected);
    assert_eq!(s.player_id, 4);
    assert_eq!(s.game_id, 1);
    assert_eq!(s.logs.last().unwrap(), "Joined server successfully! ID: 4");
}

#[test]
fn join_rejected_records_reason() {
    let mut s = ClientStateSnapshot::new("10.0.0.2", 7, "X".to_string());
    assert!(!s.apply_join_response(Message::JoinRejected { reason: JoinRejectReason::GameFull }));
    assert!(!s.connected);
    assert_eq!(s.error_msg.as_deref(), Some("Join rejected by server: GameFull"));
    let mut t = ClientStateSnapshot::new("10.0.0.2", 7, "X".to_string());
    assert!(!t.apply_join_response(Message::GameCountdown { seconds_remaining: 1 }));
    assert_eq!(t.error_msg.as_deref(), Some("Unexpected initial server response"));
}

#[test]
fn lobby_and_countdown_update_the_snapshot() {
    let mut s = joined();
    s.apply_server_message(Message::LobbyState {
        state: GameState::Waiting,
        players: vec![
            LobbyPlayer { player_id: 4, name: "ann".to_string() },
            LobbyPlayer { player_id: 5, name: "bob".to_string() },
        ],
    });
    assert_eq!(s.lobby_players.len(), 2);
    assert_eq!(s.player_names.get(&5).map(|n| n.as_str()), Some("bob"));
    s.apply_server_message(Message::GameCountdown { seconds_remaining: 3 });
    assert_eq!(s.game_state, GameState::Starting);
    assert_eq!(s.countdown_seconds, 3);
    assert_eq!(s.logs.last().unwrap(), "Countdown: 3");
}

#[test]
fn game_state_updates_fill_in_names_and_ignore_stale_ticks() {
    let mut s = joined();
    s.apply_server_message(Message::GameStarted {
        config: GameConfig::default(),
        flag_status: FlagStatus::Available,
        flag_carrier_id: 0,
        flag_x: 0,
        flag_y: 0,
        players: vec![player(4, "ann", 100, 0), player(5, "bob", -100, 0)],
    });
    assert_eq!(s.game_state, GameState::Running);
    assert_eq!(s.logs.last().unwrap(), "Match started!");
    s.apply_server_message(Message::GameStateMsg {
        tick: 10,
        flag_status: FlagStatus::Carried,
        flag_carrier_id: 5,
        flag_x: 3,
        flag_y: 4,
        players: vec![player(4, "", 1, 2), player(9, "", 0, 0)],
    });
    assert_eq!(s.tick, 10);
    assert_eq!(s.flag_status, FlagStatus::Carried);
    assert_eq!(s.flag_carrier_id, 5);
    assert_eq!((s.flag_x, s.flag_y), (3, 4));
    assert_eq!(s.players[0].name, "ann");
    assert_eq!(s.players[0].x, 1);
    assert_eq!(s.players[1].name, "");
    s.apply_server_message(Message::GameStateMsg {
        tick: 9,
        flag_status: FlagStatus::Available,
        flag_carrier_id: 0,
        flag_x: 0,
        flag_y: 0,
        players: vec![],
    });
    assert_eq!(s.tick, 10);
    assert_eq!(s.players.len(), 2);
}

#[test]
fn events_are_logged_with_names() {
    let mut s = joined();
    s.apply_server_message(Message::LobbyState {
        state: GameState::Waiting,
        players: vec![LobbyPlayer { player_id: 5, name: "bob".to_string() }],
    });
    s.apply_server_message(Message::FlagPickedUp { tick: 1, player_id: 5 });
    assert_eq!(s.logs.last().unwrap(), "Flag picked up by bob!");
    s.apply_server_message(Message::FlagStolen { tick: 2, previous_carrier_id: 5, new_carrier_id: 7 });
    assert_eq!(s.logs.last().unwrap(), "Flag stolen by ID 7 from bob!");
    s.apply_server_message(Message::ErrorMsg { code: ErrorCode::UnknownPlayer, description: "who".to_string() });
    assert_eq!(s.logs.last().unwrap(), "Server Error (UnknownPlayer): who");
}

#[test]
fn disconnect_forgets_the_player() {
    let mut s = joined();
    s.apply_server_message(Message::LobbyState {
        state: GameState::Waiting,
        players: vec![
            LobbyPlayer { player_id: 4, name: "ann".to_string() },
            LobbyPlayer { player_id: 5, name: "bob".to_string() },
        ],
    });
    s.apply_server_message(Message::PlayerDisconnected { player_id: 5 });
    assert_eq!(s.logs.last().unwrap(), "Player bob disconnected.");
    assert!(s.player_names.get(&5).is_none());
    assert_eq!(s.lobby_players.len(), 1);
    assert_eq!(s.lobby_players[0].player_id, 4);
}

#[test]
fn game_over_records_the_winner() {
    let mut s = joined();
    s.apply_server_message(Message::GameOver {
        winner_id: 5,
        winner_name: "bob".to_string(),
        reason: GameOverReason::ExitedCircleWithFlag,
    });
    assert_eq!(s.game_state, GameState::Finished);
    assert_eq!(s.winner_id, Some(5));
    assert_eq!(s.winner_name, "bob");
    assert_eq!(s.logs.last().unwrap(), "WINNER: bob!");
}

#[test]
fn leaving_and_losing_the_connection() {
    let mut s = joined();
    s.mark_left();
    assert!(!s.connected);
    assert_eq!(s.logs.last().unwrap(), "Left game.");
    let mut t = joined();
    t.mark_connection_lost();
    assert!(!t.connected);
    assert_eq!(t.error_msg.as_deref(), Some("Connection lost to server"));
    let mut u = joined();
    u.record_error("first".to_string());
    u.record_error("second".to_string());
    assert_eq!(u.error_msg.as_deref(), Some("first"));
    assert!(!u.connected);
}

#[test]
fn commands_become_messages() {
    assert_eq!(
        command_message(ClientCommand::SendInput(Direction::Up), 3),
        Message::Input { player_id: 3, direction: Direction::Up }
    );
    assert_eq!(command_message(ClientCommand::SendInteract, 3), Message::Interact { player_id: 3 });
    assert_eq!(command_message(ClientCommand::Leave, 3), Message::Leave { player_id: 3 });
    assert_eq!(direction_command(Direction::Up, Direction::Up), None);
    assert_eq!(
        direction_command(Direction::Up, Direction::Left),
        Some(ClientCommand::SendInput(Direction::Left))
    );
}
