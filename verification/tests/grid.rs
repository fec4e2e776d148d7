use capture_the_flag::grid::{
    accepts_connections, advance_grid_game, calculate_movements_and_collisions, initial_players, place_obstacle, start_grid_game, cleanup_disconnected_clients, client_closed,
    client_lost, client_reaction, incoming_lines, json_line, message_lines, player_tag_text,
    split_at_newlines, Board, ClientMessage, Flag, GameState, GridClient, Obstacle, PlayerState,
    ServerMessage,
};

fn player(id: &str, row: i32, column: i32, direction: &str, inside: bool) -> PlayerState {
    PlayerState {
        player_id: id.to_string(),
        name: id.to_lowercase(),
        row,
        column,
        direction: direction.to_string(),
        inside_board: inside,
        has_flag: false,
        protected: false,
    }
}

fn flag() -> Flag {
    Flag { row: 1, column: 2, status: "AVAILABLE".to_string(), carrier_id: None }
}

#[test]
fn players_step_unless_blocked() {
    let mut board = Board {
        rows: 3,
        columns: 3,
        obstacles: vec![Obstacle { row: 2, column: 1 }],
        flag: flag(),
        players: vec![
            player("P01", 1, 1, "UP", true),
            player("P02", -1, 1, "DOWN", false),
            player("P03", 2, 0, "LEFT", true),
            player("P04", 1, 1, "DOWN", true),
            player("P05", -1, 5, "DOWN", false),
            player("P06", 0, 0, "JUMP", true),
            player("P07", 0, 2, "RIGHT", true),
        ],
    };
    calculate_movements_and_collisions(&mut board);
    let cells: Vec<(i32, i32, bool)> =
        board.players.iter().map(|p| (p.row, p.column, p.inside_board)).collect();
    assert_eq!(
        cells,
        vec![
            (0, 1, true),
            (0, 1, true),
            (2, 0, true),
            (1, 1, true),
            (0, 5, false),
            (0, 0, true),
            (0, 2, true),
        ]
    );
    assert_eq!(board.players[1].name, "p02");
    assert_eq!(board.obstacles.len(), 1);
    assert_eq!(board.flag.row, 1);
}

#[test]
fn cleanup_removes_exactly_the_listed_clients() {
    let mut v = vec![10, 20, 30];
    cleanup_disconnected_clients(&mut v, vec![0, 2]);
    assert_eq!(v, vec![20]);
    let mut w = vec![10, 11, 12];
    cleanup_disconnected_clients(&mut w, vec![1, 1]);
    assert_eq!(w, vec![10, 12]);
    let mut x = vec![10, 20, 30];
    cleanup_disconnected_clients(&mut x, vec![5, 0]);
    assert_eq!(x, vec![20, 30]);
    let mut z = vec![1, 2, 3, 4];
    cleanup_disconnected_clients(&mut z, vec![3, 1, 3]);
    assert_eq!(z, vec![1, 3]);
    let mut y: Vec<u8> = vec![];
    cleanup_disconnected_clients(&mut y, vec![0]);
    assert!(y.is_empty());
}

#[test]
fn generated_board_keeps_its_rules() {
    let board = Board::generate(20, 20, 40, 7, 7);
    assert_eq!((board.rows, board.columns), (20, 20));
    assert!(board.players.is_empty());
    assert_eq!(board.flag.status, "AVAILABLE");
    assert!(board.flag.carrier_id.is_none());
    assert!((7..13).contains(&board.flag.row));
    assert!((7..13).contains(&board.flag.column));
    assert_eq!(board.obstacles.len(), 40);
    for (i, o) in board.obstacles.iter().enumerate() {
        assert!((0..20).contains(&o.row) && (0..20).contains(&o.column));
        assert!(!(o.row == board.flag.row && o.column == board.flag.column));
        for p in &board.obstacles[i + 1..] {
            assert!(!(p.row == o.row && p.column == o.column));
        }
    }
}

#[test]
fn a_drawn_cell_or_the_next_free_one_takes_the_obstacle() {
    let mut obstacles = vec![Obstacle { row: 0, column: 1 }];
    place_obstacle(&mut obstacles, 2, 2, 0, 0, 0, 1);
    assert_eq!(obstacles, vec![Obstacle { row: 0, column: 1 }, Obstacle { row: 1, column: 0 }]);
    let mut free = vec![Obstacle { row: 0, column: 1 }];
    place_obstacle(&mut free, 2, 2, 0, 0, 1, 1);
    assert_eq!(free, vec![Obstacle { row: 0, column: 1 }, Obstacle { row: 1, column: 1 }]);
    let mut round = vec![Obstacle { row: 1, column: 1 }];
    place_obstacle(&mut round, 2, 2, 0, 0, 1, 1);
    assert_eq!(round, vec![Obstacle { row: 1, column: 1 }, Obstacle { row: 0, column: 1 }]);
}

#[test]
fn every_obstacle_asked_for_is_placed_on_a_crowded_board() {
    let board = Board::generate(3, 3, 8, 1, 1);
    assert_eq!((board.flag.row, board.flag.column), (1, 1));
    assert_eq!(board.obstacles.len(), 8);
    for (i, o) in board.obstacles.iter().enumerate() {
        assert!(!(o.row == 1 && o.column == 1));
        for p in &board.obstacles[i + 1..] {
            assert!(!(p.row == o.row && p.column == o.column));
        }
    }
}

#[test]
fn tiny_board_has_its_flag_in_the_only_cell() {
    let board = Board::generate(1, 1, 0, 0, 0);
    assert_eq!((board.flag.row, board.flag.column), (0, 0));
    assert!(board.obstacles.is_empty());
    let full_centre = Board::generate(4, 4, 8, 2, 2);
    assert_eq!((full_centre.flag.row, full_centre.flag.column), (2, 2));
    assert_eq!(full_centre.obstacles.len(), 8);
}

#[test]
fn client_messages_carry_the_protocol_version() {
    match ClientMessage::join("bob") {
        ClientMessage::Join { protocol_version, name } => {
            assert_eq!(protocol_version, "1.0");
            assert_eq!(name, "bob");
        }
        other => panic!("unexpected {:?}", other),
    }
    match ClientMessage::change_direction("GAME-001", "P01", "UP") {
        ClientMessage::ChangeDirection { protocol_version, game_id, player_id, direction } => {
            assert_eq!((protocol_version.as_str(), game_id.as_str(), player_id.as_str(), direction.as_str()), ("1.0", "GAME-001", "P01", "UP"));
        }
        other => panic!("unexpected {:?}", other),
    }
    match ClientMessage::leave("GAME-001", "P01") {
        ClientMessage::Leave { protocol_version, game_id, player_id } => {
            assert_eq!((protocol_version.as_str(), game_id.as_str(), player_id.as_str()), ("1.0", "GAME-001", "P01"));
        }
        other => panic!("unexpected {:?}", other),
    }
}

#[test]
fn server_messages_carry_their_fields() {
    match ServerMessage::flag_stolen("G", 4, "P01", "P02", 3000) {
        ServerMessage::FlagStolen { protocol_version, game_id, tick, previous_carrier_id, new_carrier_id, protection_time_ms } => {
            assert_eq!(protocol_version, "1.0");
            assert_eq!(game_id, "G");
            assert_eq!(tick, 4);
            assert_eq!((previous_carrier_id.as_str(), new_carrier_id.as_str()), ("P01", "P02"));
            assert_eq!(protection_time_ms, 3000);
        }
        other => panic!("unexpected {:?}", other),
    }
    match ServerMessage::game_started("G", 20, 30, 200, 3000, vec![Obstacle { row: 1, column: 1 }], flag(), vec![]) {
        ServerMessage::GameStarted { rows, columns, movement_interval_ms, obstacles, flag, players, .. } => {
            assert_eq!((rows, columns, movement_interval_ms), (20, 30, 200));
            assert_eq!(obstacles, vec![Obstacle { row: 1, column: 1 }]);
            assert_eq!(flag.status, "AVAILABLE");
            assert!(players.is_empty());
        }
        other => panic!("unexpected {:?}", other),
    }
    assert!(matches!(ServerMessage::error("E1", "bad"), ServerMessage::Error { code, description, .. } if code == "E1" && description == "bad"));
    assert!(matches!(ServerMessage::game_over("G", "P01", "ann", "FLAG"), ServerMessage::GameOver { winner_name, reason, .. } if winner_name == "ann" && reason == "FLAG"));
    assert!(matches!(ServerMessage::player_disconnected("G", "P02"), ServerMessage::PlayerDisconnected { player_id, .. } if player_id == "P02"));
    assert!(matches!(ServerMessage::flag_picked_up("G", 9, "P02"), ServerMessage::FlagPickedUp { tick: 9, player_id, .. } if player_id == "P02"));
    assert!(matches!(ServerMessage::game_state("G", 3, vec![], flag()), ServerMessage::GameState { tick: 3, .. }));
}

#[test]
fn json_lines_end_with_a_newline() {
    assert_eq!(json_line("{\"type\":\"LEAVE\"}"), "{\"type\":\"LEAVE\"}\n");
    assert_eq!(json_line(""), "\n");
}

#[test]
fn text_is_split_into_trimmed_lines() {
    assert_eq!(split_at_newlines("a\n\nb\n"), vec!["a", "", "b", ""]);
    assert_eq!(split_at_newlines(""), vec![""]);
    assert_eq!(message_lines("a\r\n\n  b  \nc"), vec!["a", "b", "c"]);
    assert_eq!(message_lines(" \n\t\n"), Vec::<String>::new());
    assert_eq!(incoming_lines(b"x\ny"), vec!["x", "y"]);
    assert_eq!(incoming_lines(&[0xFF, b'\n', b'a']), vec!["\u{FFFD}", "a"]);
}

#[test]
fn player_ids_have_two_digits() {
    assert_eq!(player_tag_text(0), "P00");
    assert_eq!(player_tag_text(3), "P03");
    assert_eq!(player_tag_text(12), "P12");
    assert_eq!(player_tag_text(100), "P100");
}

#[test]
fn server_reacts_to_client_lines() {
    let r = client_reaction(0, Ok(ClientMessage::join("bob")), GameState::Waiting);
    assert_eq!(r.log.as_deref(), Some("[INFO] JOIN from: bob"));
    assert!(!r.disconnect);
    match r.reply {
        Some(ServerMessage::JoinAccepted { protocol_version, player_id, game_id }) => {
            assert_eq!((protocol_version.as_str(), player_id.as_str(), game_id.as_str()), ("1.0", "P01", "GAME-001"));
        }
        other => panic!("unexpected {:?}", other),
    }
    let r = client_reaction(0, Ok(ClientMessage::join("bob")), GameState::Running);
    assert!(r.log.is_none());
    assert!(matches!(r.reply, Some(ServerMessage::JoinRejected { reason, .. }) if reason == "GAME_ALREADY_STARTED"));
    let r = client_reaction(1, Ok(ClientMessage::change_direction("G", "P02", "UP")), GameState::Running);
    assert_eq!(r.log.as_deref(), Some("[INFO] Direction change: UP"));
    assert!(r.reply.is_none() && !r.disconnect);
    let r = client_reaction(2, Ok(ClientMessage::leave("G", "P03")), GameState::Running);
    assert_eq!(r.log.as_deref(), Some("[INFO] Client 3 sent LEAVE."));
    assert!(r.reply.is_none() && r.disconnect);
    let r = client_reaction(0, Err("expected value".to_string()), GameState::Waiting);
    assert_eq!(r.log.as_deref(), Some("[WARN] Unrecognized message: expected value"));
    assert!(r.reply.is_none() && !r.disconnect);
}

#[test]
fn server_reacts_to_lost_clients() {
    let r = client_closed(0);
    assert_eq!(r.log.as_deref(), Some("[INFO] Client 1 disconnected."));
    assert!(r.disconnect);
    let r = client_lost("reset");
    assert_eq!(r.log.as_deref(), Some("[ERROR] Lost client connection: reset"));
    assert!(r.disconnect);
    assert!(accepts_connections(GameState::Waiting));
    assert!(!accepts_connections(GameState::Running));
}

#[test]
fn client_reads_lines_and_sends_its_first_direction() {
    let mut c = GridClient::new();
    assert!(c.initial_direction().is_none());
    c.receive_bytes(b"{\"a\":1}\n{\"b\"");
    assert_eq!(c.next_line().as_deref(), Some("{\"a\":1}"));
    assert_eq!(c.next_line(), None);
    assert_eq!(c.buffer, "{\"b\"");
    c.receive_bytes(b":2}\n");
    assert_eq!(c.next_line().as_deref(), Some("{\"b\":2}"));
    assert_eq!(c.buffer, "");
    c.handle_reply(Ok(ServerMessage::join_accepted("P01", "GAME-001")));
    assert_eq!(c.player_id, "P01");
    assert_eq!(c.game_id, "GAME-001");
    assert_eq!(c.logs.last().unwrap(), "[SUCCESS] 3. Received JOIN_ACCEPTED message.");
    match c.initial_direction() {
        Some(ClientMessage::ChangeDirection { game_id, player_id, direction, .. }) => {
            assert_eq!((game_id.as_str(), player_id.as_str(), direction.as_str()), ("GAME-001", "P01", "RIGHT"));
        }
        other => panic!("unexpected {:?}", other),
    }
    assert!(c.direction_sent);
    assert_eq!(c.logs.last().unwrap(), "[SUCCESS] 4. Sent CHANGE_DIRECTION message.");
    assert!(c.initial_direction().is_none());
}

#[test]
fn client_logs_other_replies() {
    let mut c = GridClient::new();
    c.handle_reply(Ok(ServerMessage::game_state("G", 1, vec![], flag())));
    assert_eq!(c.logs.last().unwrap(), "[SUCCESS] 5. Received GAME_STATE message.");
    c.handle_reply(Ok(ServerMessage::error("E", "d")));
    assert_eq!(c.logs.last().unwrap(), "[SUCCESS] Received other message type.");
    c.handle_reply(Err("EOF while parsing".to_string()));
    assert_eq!(c.logs.last().unwrap(), "[WARN] Failed to parse message: EOF while parsing");
    c.connection_closed();
    assert_eq!(c.logs.last().unwrap(), "[SUCCESS] Server closed the connection.");
    c.read_failed("timed out");
    assert_eq!(c.logs.last().unwrap(), "[ERROR] timed out");
    assert_eq!(c.logs.len(), 5);
    assert!(c.player_id.is_empty());
}

#[test]
fn new_players_start_above_the_board() {
    let players = initial_players(3, 10);
    assert_eq!(players.len(), 3);
    for (k, p) in players.iter().enumerate() {
        assert_eq!(p.player_id, format!("P{:02}", k + 1));
        assert_eq!(p.name, format!("Player {}", k + 1));
        assert_eq!(p.row, -1);
        assert!((0..10).contains(&p.column));
        assert_eq!(p.direction, "DOWN");
        assert!(!p.inside_board && !p.has_flag && !p.protected);
    }
    assert!(initial_players(0, 10).is_empty());
    assert_eq!(initial_players(1, 0)[0].column, 0);
}

#[test]
fn starting_a_grid_game_sends_the_board() {
    let mut state = GameState::Waiting;
    let mut logs = vec!["before".to_string()];
    let (board, message) = start_grid_game(&mut state, &mut logs, 2, 12, 12, 7, 4, 4, 200, 3000).unwrap();
    assert_eq!(state, GameState::Running);
    assert_eq!(logs, vec!["before", "[INFO] Starting game sequence...", "[SUCCESS] GAME_STARTED broadcast sent!"]);
    assert_eq!(board.players.len(), 2);
    assert_eq!(board.obstacles.len(), 7);
    match message {
        ServerMessage::GameStarted { protocol_version, game_id, rows, columns, movement_interval_ms, protection_time_ms, obstacles, flag, players } => {
            assert_eq!((protocol_version.as_str(), game_id.as_str()), ("1.0", "GAME-001"));
            assert_eq!((rows, columns, movement_interval_ms, protection_time_ms), (12, 12, 200, 3000));
            assert_eq!(obstacles, board.obstacles);
            assert_eq!((flag.row, flag.column), (board.flag.row, board.flag.column));
            assert_eq!(players.len(), 2);
            assert_eq!(players[1].player_id, "P02");
            assert_eq!(players[1].column, board.players[1].column);
        }
        other => panic!("unexpected {:?}", other),
    }
    let mut again = GameState::Running;
    let mut none_logs: Vec<String> = vec![];
    assert!(start_grid_game(&mut again, &mut none_logs, 2, 12, 12, 7, 4, 4, 200, 3000).is_none());
    assert_eq!(again, GameState::Running);
    assert!(none_logs.is_empty());
}

#[test]
fn a_tick_moves_players_and_reports_the_state() {
    let mut board = Board { rows: 3, columns: 3, obstacles: vec![], flag: flag(), players: vec![player("P01", -1, 1, "DOWN", false)] };
    let mut tick = 41;
    let message = advance_grid_game(&mut board, &mut tick);
    assert_eq!(tick, 42);
    assert_eq!((board.players[0].row, board.players[0].inside_board), (0, true));
    match message {
        ServerMessage::GameState { tick, players, flag, game_id, .. } => {
            assert_eq!(tick, 42);
            assert_eq!(game_id, "GAME-001");
            assert_eq!(players[0].row, 0);
            assert_eq!(flag.status, "AVAILABLE");
        }
        other => panic!("unexpected {:?}", other),
    }
}
