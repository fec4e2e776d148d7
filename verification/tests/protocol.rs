use capture_the_flag::codec::{DecodeError, Field};
use capture_the_flag::protocol::{Message, PROTOCOL_VERSION};
use capture_the_flag::types::{
    Direction, ErrorCode, FlagStatus, GameConfig, GameOverReason, GameState, JoinRejectReason,
    LobbyPlayer, PlayerState,
};

fn roundtrip(m: Message) {
    let bytes = m.serialize();
    assert_eq!(Message::deserialize(&bytes), Ok(m));
}

#[test]
fn protocol_version_is_three() {
    assert_eq!(PROTOCOL_VERSION, 3);
}

#[test]
fn serializes_discovery_messages() {
    assert_eq!(Message::DiscoverRequest.serialize(), vec![0x01, 3]);
    let m = Message::DiscoverResponse {
        game_id: 0x0102,
        server_name: "srv".to_string(),
        tcp_port: 5000,
        state: GameState::Waiting,
        player_count: 2,
        maximum_players: 100,
    };
    assert_eq!(
        m.serialize(),
        vec![0x02, 3, 0x01, 0x02, 3, b's', b'r', b'v', 0x13, 0x88, 0x01, 0, 2, 0, 100]
    );
}

#[test]
fn serializes_client_messages() {
    assert_eq!(Message::Join { name: "bob".to_string() }.serialize(), vec![0x10, 3, 3, b'b', b'o', b'b']);
    assert_eq!(
        Message::Input { player_id: 0x0102, direction: Direction::Left }.serialize(),
        vec![0x11, 3, 1, 2, 3]
    );
    assert_eq!(Message::Interact { player_id: 1 }.serialize(), vec![0x12, 3, 0, 1]);
    assert_eq!(Message::Leave { player_id: 1 }.serialize(), vec![0x13, 3, 0, 1]);
}

#[test]
fn serializes_lobby_messages() {
    assert_eq!(
        Message::JoinAccepted { player_id: 7, game_id: 0x0A0B }.serialize(),
        vec![0x20, 3, 0, 7, 0x0A, 0x0B]
    );
    assert_eq!(
        Message::JoinRejected { reason: JoinRejectReason::GameFull }.serialize(),
        vec![0x21, 3, 2]
    );
    let lobby = Message::LobbyState {
        state: GameState::Waiting,
        players: vec![
            LobbyPlayer { player_id: 1, name: "a".to_string() },
            LobbyPlayer { player_id: 2, name: "bc".to_string() },
        ],
    };
    assert_eq!(lobby.serialize(), vec![0x22, 3, 1, 2, 0, 1, 1, b'a', 0, 2, 2, b'b', b'c']);
    assert_eq!(Message::GameCountdown { seconds_remaining: 3 }.serialize(), vec![0x23, 3, 3]);
}

#[test]
fn serializes_game_started_with_carried_config_fields() {
    let m = Message::GameStarted {
        config: GameConfig::default(),
        flag_status: FlagStatus::Available,
        flag_carrier_id: 0,
        flag_x: 0,
        flag_y: 0,
        players: vec![PlayerState {
            player_id: 1,
            name: "a".to_string(),
            x: 150,
            y: -250,
            direction: Direction::Right,
            has_flag: false,
        }],
    };
    assert_eq!(
        m.serialize(),
        vec![
            0x24, 3, //
            0x00, 0x03, 0x0D, 0x40, // map size
            0x00, 0x00, 0xC3, 0x50, // circle radius
            0x00, 0x00, 0x05, 0xDC, // player radius
            0x00, 0x00, 0x55, 0xF0, // player speed
            0x00, 0x00, 0x17, 0x70, // interaction radius
            0x00, 0x32, // tick interval
            0x01, 0x00, 0x00, // flag status and carrier
            0, 0, 0, 0, 0, 0, 0, 0, // flag position
            1, 0, 1, 1, b'a', 0, 0, 0, 0x96, 0xFF, 0xFF, 0xFF, 0x06, 4, 0,
        ]
    );
    roundtrip(m);
}

#[test]
fn serializes_game_state_without_names() {
    let m = Message::GameStateMsg {
        tick: 7,
        flag_status: FlagStatus::Carried,
        flag_carrier_id: 1,
        flag_x: 150,
        flag_y: -250,
        players: vec![PlayerState {
            player_id: 1,
            name: String::new(),
            x: 150,
            y: -250,
            direction: Direction::Right,
            has_flag: true,
        }],
    };
    assert_eq!(
        m.serialize(),
        vec![
            0x25, 3, 0, 0, 0, 7, 2, 0, 1, 0, 0, 0, 0x96, 0xFF, 0xFF, 0xFF, 0x06, //
            1, 0, 1, 0, 0, 0, 0x96, 0xFF, 0xFF, 0xFF, 0x06, 4, 1,
        ]
    );
    roundtrip(m);
}

#[test]
fn serializes_game_events() {
    assert_eq!(
        Message::FlagPickedUp { tick: 0x0102_0304, player_id: 5 }.serialize(),
        vec![0x26, 3, 1, 2, 3, 4, 0, 5]
    );
    assert_eq!(
        Message::FlagStolen { tick: 1, previous_carrier_id: 2, new_carrier_id: 3 }.serialize(),
        vec![0x27, 3, 0, 0, 0, 1, 0, 2, 0, 3]
    );
    assert_eq!(Message::PlayerDisconnected { player_id: 9 }.serialize(), vec![0x28, 3, 0, 9]);
    assert_eq!(
        Message::GameOver {
            winner_id: 3,
            winner_name: "bob".to_string(),
            reason: GameOverReason::ExitedCircleWithFlag
        }
        .serialize(),
        vec![0x29, 3, 0, 3, 3, b'b', b'o', b'b', 1]
    );
    assert_eq!(
        Message::ErrorMsg { code: ErrorCode::InvalidInput, description: "x".to_string() }.serialize(),
        vec![0x2A, 3, 3, 1, b'x']
    );
}

#[test]
fn messages_survive_a_roundtrip() {
    roundtrip(Message::DiscoverRequest);
    roundtrip(Message::DiscoverResponse {
        game_id: 9,
        server_name: "Arena".to_string(),
        tcp_port: 5000,
        state: GameState::Running,
        player_count: 3,
        maximum_players: 8,
    });
    roundtrip(Message::Join { name: "Zoë".to_string() });
    roundtrip(Message::Input { player_id: 4, direction: Direction::Idle });
    roundtrip(Message::Interact { player_id: 4 });
    roundtrip(Message::Leave { player_id: 4 });
    roundtrip(Message::JoinAccepted { player_id: 4, game_id: 1 });
    roundtrip(Message::JoinRejected { reason: JoinRejectReason::UnsupportedProtocolVersion });
    roundtrip(Message::LobbyState {
        state: GameState::Starting,
        players: vec![LobbyPlayer { player_id: 2, name: "x".to_string() }],
    });
    roundtrip(Message::GameCountdown { seconds_remaining: 0 });
    roundtrip(Message::FlagPickedUp { tick: u32::MAX, player_id: 1 });
    roundtrip(Message::FlagStolen { tick: 5, previous_carrier_id: 1, new_carrier_id: 2 });
    roundtrip(Message::PlayerDisconnected { player_id: 65535 });
    roundtrip(Message::GameOver {
        winner_id: 1,
        winner_name: "w".to_string(),
        reason: GameOverReason::ExitedCircleWithFlag,
    });
    roundtrip(Message::ErrorMsg { code: ErrorCode::GameFinished, description: "done".to_string() });
}

#[test]
fn game_started_fills_uncarried_config_fields_with_defaults() {
    let mut config = GameConfig::default();
    config.spawn_margin = 1;
    config.countdown_seconds = 9;
    config.maximum_players = 2;
    config.server_port = 1;
    config.discovery_port = 2;
    config.map_size = 1000;
    let m = Message::GameStarted {
        config,
        flag_status: FlagStatus::Dropped,
        flag_carrier_id: 0,
        flag_x: -1,
        flag_y: 1,
        players: vec![],
    };
    let back = Message::deserialize(&m.serialize()).unwrap();
    let mut expected = GameConfig::default();
    expected.map_size = 1000;
    match back {
        Message::GameStarted { config, flag_status, flag_x, flag_y, .. } => {
            assert_eq!(config, expected);
            assert_eq!(flag_status, FlagStatus::Dropped);
            assert_eq!((flag_x, flag_y), (-1, 1));
        }
        other => panic!("unexpected message {:?}", other),
    }
}

#[test]
fn deserialize_reports_each_error() {
    assert_eq!(Message::deserialize(&[]), Err(DecodeError::UnexpectedEof(Field::U8)));
    assert_eq!(Message::deserialize(&[0x01]), Err(DecodeError::UnexpectedEof(Field::U8)));
    assert_eq!(Message::deserialize(&[0x01, 2]), Err(DecodeError::UnsupportedVersion(2)));
    assert_eq!(Message::deserialize(&[0x55, 2]), Err(DecodeError::UnsupportedVersion(2)));
    assert_eq!(Message::deserialize(&[0x55, 3]), Err(DecodeError::UnknownMessageType(0x55)));
    assert_eq!(
        Message::deserialize(&[0x02, 3, 0, 1, 0, 0x13, 0x88, 9, 0, 0, 0, 0]),
        Err(DecodeError::InvalidGameState)
    );
    assert_eq!(Message::deserialize(&[0x11, 3, 0, 1, 9]), Err(DecodeError::InvalidDirection));
    assert_eq!(Message::deserialize(&[0x21, 3, 9]), Err(DecodeError::InvalidJoinRejectReason));
    assert_eq!(Message::deserialize(&[0x29, 3, 0, 1, 0, 7]), Err(DecodeError::InvalidGameOverReason));
    assert_eq!(Message::deserialize(&[0x2A, 3, 9, 0]), Err(DecodeError::InvalidErrorCode));
    assert_eq!(
        Message::deserialize(&[0x25, 3, 0, 0, 0, 1, 9, 0, 0, 0, 0, 0, 0, 0, 0, 0, 0, 0]),
        Err(DecodeError::InvalidFlagStatus)
    );
    assert_eq!(Message::deserialize(&[0x10, 3, 5, b'a']), Err(DecodeError::UnexpectedEof(Field::Str)));
    assert_eq!(Message::deserialize(&[0x10, 3, 1, 0xFF]), Err(DecodeError::InvalidUtf8));
    assert_eq!(Message::deserialize(&[0x26, 3, 0, 0, 0]), Err(DecodeError::UnexpectedEof(Field::U32)));
    assert_eq!(Message::deserialize(&[0x12, 3, 0]), Err(DecodeError::UnexpectedEof(Field::U16)));
    assert_eq!(Message::deserialize(&[0x24, 3, 0, 0]), Err(DecodeError::UnexpectedEof(Field::I32)));
}

#[test]
fn deserialize_ignores_trailing_bytes() {
    assert_eq!(Message::deserialize(&[0x01, 3, 9, 9]), Ok(Message::DiscoverRequest));
}

#[test]
fn message_tags() {
    assert_eq!(Message::DiscoverRequest.tag(), 0x01);
    assert_eq!(Message::Leave { player_id: 0 }.tag(), 0x13);
    assert_eq!(Message::ErrorMsg { code: ErrorCode::InvalidMessage, description: String::new() }.tag(), 0x2A);
}
