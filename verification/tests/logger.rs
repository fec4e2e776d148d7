use std::collections::HashMap;
use capture_the_flag::logger::{
    current_timestamp, format_message_line, format_timestamp, init_logger, is_client_side, log_file_name,
    message_line, message_type_name, LogDirection, LoggerHandle, NameStore, LOG_DIRECTORY,
    MAX_LOG_LINES_PER_FILE,
};
use capture_the_flag::protocol::Message;
use capture_the_flag::types::{Direction, FlagStatus, GameConfig, GameState, LobbyPlayer, PlayerState};

#[test]
fn message_lines_have_a_fixed_layout() {
    assert_eq!(
        message_line(LogDirection::Sent, "12/03/2024 10:00:00", "1.2.3.4:5000", "client", "Join", "name=bob"),
        "> [12/03/2024 10:00:00] <client> 1.2.3.4:5000 Join: name=bob"
    );
    assert_eq!(
        message_line(LogDirection::Received, "t", "a", "server", "Leave", "player_id=1"),
        "< [t] <server> a Leave: player_id=1"
    );
}

#[test]
fn stamped_lines_carry_the_local_time() {
    let line = format_message_line(LogDirection::Received, "addr", "server", "Leave", "player_id=2");
    assert!(line.starts_with("< ["));
    assert!(line.ends_with("] <server> addr Leave: player_id=2"));
    assert_eq!(line.len(), "< [".len() + 19 + "] <server> addr Leave: player_id=2".len());
}

#[test]
fn timestamps_have_their_formats() {
    let t = current_timestamp();
    assert!(!t.is_empty());
    assert!(t.chars().all(|c| c.is_ascii_digit()));
    assert!(t.parse::<u64>().unwrap() > 1_600_000_000);
    let f = format_timestamp();
    let b = f.as_bytes();
    assert_eq!(b.len(), 19);
    assert_eq!((b[2], b[5], b[10], b[13], b[16]), (b'/', b'/', b' ', b':', b':'));
}

#[test]
fn message_type_names() {
    assert_eq!(message_type_name(&Message::DiscoverRequest), "DiscoverRequest");
    assert_eq!(message_type_name(&Message::Join { name: String::new() }), "Join");
    assert_eq!(message_type_name(&Message::GameCountdown { seconds_remaining: 1 }), "GameCountdown");
    assert_eq!(message_type_name(&Message::PlayerDisconnected { player_id: 1 }), "PlayerDisconnected");
}

#[test]
fn log_files_are_named_by_side_and_time() {
    assert_eq!(log_file_name("client", "1700000000"), "client-1700000000.log");
    assert_eq!(LOG_DIRECTORY, "logs");
    assert_eq!(MAX_LOG_LINES_PER_FILE, 2000);
    assert!(is_client_side("client"));
    assert!(!is_client_side("server"));
    assert!(!is_client_side("Client"));
}

fn write(h: &mut LoggerHandle, side: &str, timestamp: &str) -> capture_the_flag::logger::AppendPlan {
    let plan = h.plan_append(side, timestamp);
    h.append(&plan);
    plan
}

#[test]
fn append_starts_a_file_then_reuses_it() {
    let mut h = init_logger();
    let p = write(&mut h, "client", "100");
    assert!(p.client_side);
    assert_eq!(p.create.as_deref(), Some("client-100.log"));
    assert_eq!(p.write_to, "client-100.log");
    assert_eq!(h.client_lines, 1);
    let q = write(&mut h, "client", "101");
    assert_eq!(q.create, None);
    assert_eq!(q.write_to, "client-100.log");
    assert_eq!(h.client_lines, 2);
    assert_eq!(h.server_file, None);
    assert_eq!(h.server_lines, 0);
}

#[test]
fn planning_changes_nothing_until_the_line_is_recorded() {
    let h = LoggerHandle::new();
    let p = h.plan_append("client", "7");
    assert_eq!(p.lines_after, 1);
    assert_eq!(h.client_file, None);
    assert_eq!(h.client_lines, 0);
}

#[test]
fn append_rotates_a_full_file() {
    let mut h = LoggerHandle::new();
    write(&mut h, "server", "1");
    h.server_lines = 2000;
    let p = write(&mut h, "server", "2");
    assert_eq!(p.create.as_deref(), Some("server-2.log"));
    assert_eq!(p.write_to, "server-2.log");
    assert_eq!(h.server_file.as_deref(), Some("server-2.log"));
    assert_eq!(h.server_lines, 1);
    let q = write(&mut h, "server", "3");
    assert_eq!(q.create, None);
    assert_eq!(q.write_to, "server-2.log");
    assert_eq!(h.server_lines, 2);
}

#[test]
fn rotation_in_the_same_second_starts_a_different_file() {
    let mut h = LoggerHandle::new();
    write(&mut h, "client", "9");
    h.client_lines = 2000;
    let p = write(&mut h, "client", "9");
    assert_eq!(p.create.as_deref(), Some("client-9-1.log"));
    assert_eq!(h.client_lines, 1);
}

#[test]
fn any_other_side_logs_as_the_server() {
    let mut h = LoggerHandle::new();
    let p = write(&mut h, "debug", "5");
    assert!(!p.client_side);
    assert_eq!(p.write_to, "debug-5.log");
    assert_eq!(h.server_file.as_deref(), Some("debug-5.log"));
    assert_eq!(h.client_file, None);
}

#[test]
fn names_are_remembered_per_side() {
    let mut store = NameStore::new();
    assert_eq!(store.resolve_player_name("client", 1), None);
    store.remember_player_names(
        "client",
        &Message::LobbyState {
            state: GameState::Waiting,
            players: vec![
                LobbyPlayer { player_id: 1, name: "ann".to_string() },
                LobbyPlayer { player_id: 2, name: "bob".to_string() },
            ],
        },
    );
    assert_eq!(store.resolve_player_name("client", 1).as_deref(), Some("ann"));
    assert_eq!(store.resolve_player_name("server", 1), None);
    store.remember_player_names(
        "client",
        &Message::GameStarted {
            config: GameConfig::default(),
            flag_status: FlagStatus::Available,
            flag_carrier_id: 0,
            flag_x: 0,
            flag_y: 0,
            players: vec![PlayerState {
                player_id: 1,
                name: "anna".to_string(),
                x: 0,
                y: 0,
                direction: Direction::Idle,
                has_flag: false,
            }],
        },
    );
    assert_eq!(store.resolve_player_name("client", 1).as_deref(), Some("anna"));
    assert_eq!(store.resolve_player_name("client", 2).as_deref(), Some("bob"));
    store.remember_player_names("client", &Message::PlayerDisconnected { player_id: 2 });
    assert_eq!(store.resolve_player_name("client", 2).as_deref(), Some("bob"));
    assert_eq!(store.resolve_player_name("client", 3), None);
}

#[test]
fn a_long_run_keeps_every_line_in_files_of_at_most_2000() {
    let mut h = init_logger();
    let mut started: Vec<String> = Vec::new();
    let mut files: HashMap<String, Vec<String>> = HashMap::new();
    let mut written: Vec<String> = Vec::new();
    for i in 0..4500u32 {
        let timestamp = (1000 + i / 1000).to_string();
        let line = format!("line {}", i);
        let plan = h.plan_append("client", &timestamp);
        if let Some(name) = &plan.create {
            assert!(!started.contains(name));
            started.push(name.clone());
        }
        files.entry(plan.write_to.clone()).or_default().push(line.clone());
        written.push(line);
        h.append(&plan);
    }
    assert_eq!(started, vec!["client-1000.log", "client-1002.log", "client-1004.log"]);
    let mut joined: Vec<String> = Vec::new();
    for name in &started {
        assert!(files[name].len() <= MAX_LOG_LINES_PER_FILE);
        joined.extend(files[name].iter().cloned());
    }
    assert_eq!(files.len(), started.len());
    assert_eq!(joined, written);
    assert_eq!(h.client_lines, 500);
}
