use capture_the_flag::discovery::{
    discovered_server, name_in_order, server_key, sort_by_name, ServerRegistry, STALE_AFTER_MS,
};
use capture_the_flag::protocol::Message;
use capture_the_flag::types::{DiscoveredServer, GameState};

fn server(ip: &str, name: &str, port: u16, seen: u64) -> DiscoveredServer {
    DiscoveredServer {
        ip: ip.to_string(),
        game_id: 1,
        server_name: name.to_string(),
        tcp_port: port,
        state: GameState::Waiting,
        player_count: 0,
        max_players: 4,
        last_seen_ms: seen,
    }
}

fn names(list: &[DiscoveredServer]) -> Vec<&str> {
    list.iter().map(|s| s.server_name.as_str()).collect()
}

#[test]
fn names_compare_character_by_character() {
    assert!(name_in_order("ab", "b"));
    assert!(!name_in_order("b", "ab"));
    assert!(name_in_order("", "x"));
    assert!(!name_in_order("x", ""));
    assert!(name_in_order("same", "same"));
    assert!(name_in_order("Zed", "apple"));
    assert!(name_in_order("arena", "arena 2"));
    assert!(!name_in_order("ß", "z"));
}

#[test]
fn sorting_orders_by_name() {
    let list = vec![
        server("1", "delta", 1, 0),
        server("2", "alpha", 1, 0),
        server("3", "charlie", 1, 0),
        server("4", "alpha", 2, 0),
    ];
    let sorted = sort_by_name(&list);
    assert_eq!(names(&sorted), vec!["alpha", "alpha", "charlie", "delta"]);
    assert_eq!(sorted[0].ip, "2");
    assert_eq!(sorted[1].ip, "4");
}

#[test]
fn keys_join_address_and_port() {
    assert_eq!(server_key("192.168.1.2", 5000), "192.168.1.2:5000");
    assert_eq!(server_key("::1", 0), "::1:0");
}

#[test]
fn only_discovery_answers_become_entries() {
    let answer = Message::DiscoverResponse {
        game_id: 9,
        server_name: "Arena".to_string(),
        tcp_port: 5000,
        state: GameState::Waiting,
        player_count: 2,
        maximum_players: 8,
    }
    .serialize();
    let (key, s) = discovered_server("10.0.0.3", &answer, 1234).unwrap();
    assert_eq!(key, "10.0.0.3:5000");
    assert_eq!(s.ip, "10.0.0.3");
    assert_eq!(s.game_id, 9);
    assert_eq!(s.server_name, "Arena");
    assert_eq!(s.tcp_port, 5000);
    assert_eq!(s.state, GameState::Waiting);
    assert_eq!((s.player_count, s.max_players), (2, 8));
    assert_eq!(s.last_seen_ms, 1234);
    assert!(discovered_server("10.0.0.3", &Message::DiscoverRequest.serialize(), 1).is_none());
    assert!(discovered_server("10.0.0.3", &[0xFF, 0x00], 1).is_none());
}

#[test]
fn registry_replaces_by_key_and_drops_stale_servers() {
    let mut t = ServerRegistry::new();
    t.record(server_key("a", 1), server("a", "zulu", 1, 1000));
    t.record(server_key("b", 1), server("b", "mike", 1, 1000));
    t.record(server_key("c", 1), server("c", "alpha", 1, 100));
    t.record(server_key("a", 1), server("a", "yankee", 1, 3000));
    assert_eq!(t.entries.len(), 3);
    let list = t.get_servers(5500);
    assert_eq!(names(&list), vec!["mike", "yankee"]);
    assert_eq!(t.entries.len(), 2);
    let later = t.get_servers(6000);
    assert_eq!(names(&later), vec!["yankee"]);
    assert_eq!(STALE_AFTER_MS, 5000);
}

#[test]
fn answers_from_the_future_count_as_fresh() {
    let mut t = ServerRegistry::new();
    t.record(server_key("a", 1), server("a", "x", 1, 9000));
    assert_eq!(names(&t.get_servers(100)), vec!["x"]);
}
