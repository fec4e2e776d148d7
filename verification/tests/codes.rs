use capture_the_flag::text::{decimal_string, decimal_string_u64, error_lines, port_or_default, wrap_words};
use capture_the_flag::types::{
    Direction, ErrorCode, FlagStatus, GameConfig, GameOverReason, GameState, JoinRejectReason,
};

#[test]
fn direction_codes_decode() {
    assert_eq!(Direction::from_u8(0x00), Some(Direction::Idle));
    assert_eq!(Direction::from_u8(0x01), Some(Direction::Up));
    assert_eq!(Direction::from_u8(0x02), Some(Direction::Down));
    assert_eq!(Direction::from_u8(0x03), Some(Direction::Left));
    assert_eq!(Direction::from_u8(0x04), Some(Direction::Right));
    assert_eq!(Direction::from_u8(0x05), None);
    assert_eq!(Direction::from_u8(0xFF), None);
}

#[test]
fn direction_codes_roundtrip() {
    for d in [Direction::Idle, Direction::Up, Direction::Down, Direction::Left, Direction::Right] {
        assert_eq!(Direction::from_u8(d.to_u8()), Some(d));
    }
    for b in 0u8..=255 {
        if let Some(d) = Direction::from_u8(b) {
            assert_eq!(d.to_u8(), b);
        }
    }
}

#[test]
fn flag_status_codes() {
    assert_eq!(FlagStatus::from_u8(0x00), None);
    assert_eq!(FlagStatus::from_u8(0x01), Some(FlagStatus::Available));
    assert_eq!(FlagStatus::from_u8(0x02), Some(FlagStatus::Carried));
    assert_eq!(FlagStatus::from_u8(0x03), Some(FlagStatus::Dropped));
    assert_eq!(FlagStatus::from_u8(0x04), Some(FlagStatus::Outside));
    assert_eq!(FlagStatus::from_u8(0x05), None);
    for s in [FlagStatus::Available, FlagStatus::Carried, FlagStatus::Dropped, FlagStatus::Outside] {
        assert_eq!(FlagStatus::from_u8(s.to_u8()), Some(s));
    }
}

#[test]
fn game_state_codes() {
    assert_eq!(GameState::from_u8(0x00), None);
    assert_eq!(GameState::from_u8(0x01), Some(GameState::Waiting));
    assert_eq!(GameState::from_u8(0x02), Some(GameState::Starting));
    assert_eq!(GameState::from_u8(0x03), Some(GameState::Running));
    assert_eq!(GameState::from_u8(0x04), Some(GameState::Finished));
    assert_eq!(GameState::from_u8(0x05), Some(GameState::Cancelled));
    assert_eq!(GameState::from_u8(0x06), None);
    for s in [GameState::Waiting, GameState::Starting, GameState::Running, GameState::Finished, GameState::Cancelled] {
        assert_eq!(GameState::from_u8(s.to_u8()), Some(s));
    }
}

#[test]
fn join_reject_reason_codes() {
    assert_eq!(JoinRejectReason::from_u8(0x00), None);
    assert_eq!(JoinRejectReason::from_u8(0x01), Some(JoinRejectReason::GameAlreadyStarted));
    assert_eq!(JoinRejectReason::from_u8(0x02), Some(JoinRejectReason::GameFull));
    assert_eq!(JoinRejectReason::from_u8(0x03), Some(JoinRejectReason::InvalidName));
    assert_eq!(JoinRejectReason::from_u8(0x04), Some(JoinRejectReason::UnsupportedProtocolVersion));
    assert_eq!(JoinRejectReason::from_u8(0x05), None);
    for r in [
        JoinRejectReason::GameAlreadyStarted,
        JoinRejectReason::GameFull,
        JoinRejectReason::InvalidName,
        JoinRejectReason::UnsupportedProtocolVersion,
    ] {
        assert_eq!(JoinRejectReason::from_u8(r.to_u8()), Some(r));
    }
}

#[test]
fn game_over_reason_codes() {
    assert_eq!(GameOverReason::from_u8(0x00), None);
    assert_eq!(GameOverReason::from_u8(0x01), Some(GameOverReason::ExitedCircleWithFlag));
    assert_eq!(GameOverReason::from_u8(0x02), None);
    assert_eq!(GameOverReason::ExitedCircleWithFlag.to_u8(), 0x01);
}

#[test]
fn error_code_codes() {
    let all = [
        ErrorCode::InvalidMessage,
        ErrorCode::InvalidEncoding,
        ErrorCode::InvalidInput,
        ErrorCode::UnknownPlayer,
        ErrorCode::GameNotStarted,
        ErrorCode::GameAlreadyStarted,
        ErrorCode::GameFinished,
        ErrorCode::UnsupportedProtocolVersion,
    ];
    for (i, c) in all.iter().enumerate() {
        assert_eq!(c.to_u8(), (i + 1) as u8);
        assert_eq!(ErrorCode::from_u8((i + 1) as u8), Some(*c));
    }
    assert_eq!(ErrorCode::from_u8(0x00), None);
    assert_eq!(ErrorCode::from_u8(0x09), None);
}

#[test]
fn default_config_values() {
    let c = GameConfig::default();
    assert_eq!(c.map_size, 200000);
    assert_eq!(c.circle_radius, 50000);
    assert_eq!(c.player_radius, 1500);
    assert_eq!(c.spawn_margin, 8000);
    assert_eq!(c.player_speed, 22000);
    assert_eq!(c.interaction_radius, 6000);
    assert_eq!(c.tick_interval_ms, 50);
    assert_eq!(c.countdown_seconds, 5);
    assert_eq!(c.maximum_players, 100);
    assert_eq!(c.server_port, 5000);
    assert_eq!(c.discovery_port, 5001);
}

#[test]
fn error_messages_wrap_at_42_bytes() {
    assert_eq!(error_lines("Join rejected by server: GameFull"), vec!["Join rejected by server: GameFull "]);
    assert_eq!(
        error_lines("Connection refused (os error 111) while connecting to the host at 10.0.0.2"),
        vec!["Connection refused (os error 111) while ", "connecting to the host at 10.0.0.2 "]
    );
    assert_eq!(error_lines("   "), Vec::<String>::new());
    assert_eq!(wrap_words(&vec!["aaaa".to_string()], 3), vec!["", "aaaa "]);
    assert_eq!(wrap_words(&vec!["ab".to_string(), "cd".to_string()], 5), vec!["ab cd "]);
    assert_eq!(wrap_words(&vec!["ab".to_string(), "cd".to_string()], 4), vec!["ab ", "cd "]);
}

#[test]
fn numbers_are_written_in_decimal() {
    assert_eq!(decimal_string(0), "0");
    assert_eq!(decimal_string(7), "7");
    assert_eq!(decimal_string(10), "10");
    assert_eq!(decimal_string(4_294_967_295), "4294967295");
    assert_eq!(decimal_string_u64(18_446_744_073_709_551_615), "18446744073709551615");
    assert_eq!(decimal_string_u64(1200), "1200");
}

#[test]
fn port_fields_read_like_u16_from_str() {
    assert_eq!(port_or_default("8080", 5000), 8080);
    assert_eq!(port_or_default("+42", 5000), 42);
    assert_eq!(port_or_default("0", 5000), 0);
    assert_eq!(port_or_default("65535", 5000), 65535);
    assert_eq!(port_or_default("65536", 5000), 5000);
    assert_eq!(port_or_default("000000000000080", 5000), 80);
    assert_eq!(port_or_default("", 5000), 5000);
    assert_eq!(port_or_default("+", 5000), 5000);
    assert_eq!(port_or_default(" 80", 5000), 5000);
    assert_eq!(port_or_default("-1", 5000), 5000);
    assert_eq!(port_or_default("8o", 5000), 5000);
    for text in ["1", "99999999999", "+-3", "12a", "4000"] {
        assert_eq!(port_or_default(text, 7), text.parse::<u16>().unwrap_or(7));
    }
}

#[test]
fn error_words_split_at_every_kind_of_white_space() {
    assert_eq!(error_lines("a\u{2003}b\u{3000}\u{85}c  "), vec!["a b c "]);
    assert_eq!(error_lines(" \t\n"), Vec::<String>::new());
}
