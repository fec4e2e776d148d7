//! Messages of the binary protocol (version 3) and their encoding.
//!
//! Every message starts with its type byte and the protocol version byte;
//! its fields follow in the order of the variant, encoded as in [`crate::codec`].
//! Positions and lengths travel as signed 32-bit hundredths of a world unit.
use vstd::prelude::*;
use vstd::utf8::*;
use vstd::seq_lib::lemma_concat_associative;
use crate::codec::{
    lemma_take_bool, lemma_take_i32, lemma_take_str, lemma_take_u16, lemma_take_u32, lemma_take_u8, str_fits,
    be_u16, be_u32, be_i32, bool_byte, str_field, str_kept_len, take_u8, take_u16, take_u32, take_i32,
    take_bool, take_str, u16_of, u32_of, ByteReader, ByteWriter, DecodeError, Field,
};
use crate::types::{
    direction_code, direction_of_code, error_code_code, error_code_of_code, flag_status_code,
    flag_status_of_code, game_over_reason_code, game_over_reason_of_code, game_state_code,
    game_state_of_code, join_reject_reason_code, join_reject_reason_of_code, default_config,
    Direction, ErrorCode, FlagStatus, GameConfig, GameOverReason, GameState, JoinRejectReason,
    LobbyPlayer, LobbyPlayerView, PlayerState, PlayerStateView,
};

verus! {



/// Version of the protocol spoken by this library.
pub const PROTOCOL_VERSION: u8 = 3;

/// A protocol message.
#[derive(Debug, Clone, PartialEq)]
pub enum Message {
    DiscoverRequest,
    DiscoverResponse {
        game_id: u16,
        server_name: String,
        tcp_port: u16,
        state: GameState,
        player_count: u16,
        maximum_players: u16,
    },
    Join { name: String },
    Input { player_id: u16, direction: Direction },
    Interact { player_id: u16 },
    Leave { player_id: u16 },
    JoinAccepted { player_id: u16, game_id: u16 },
    JoinRejected { reason: JoinRejectReason },
    LobbyState { state: GameState, players: Vec<LobbyPlayer> },
    GameCountdown { seconds_remaining: u8 },
    GameStarted {
        config: GameConfig,
        flag_status: FlagStatus,
        flag_carrier_id: u16,
        flag_x: i32,
        flag_y: i32,
        players: Vec<PlayerState>,
    },
    GameStateMsg {
        tick: u32,
        flag_status: FlagStatus,
        flag_carrier_id: u16,
        flag_x: i32,
        flag_y: i32,
        players: Vec<PlayerState>,
    },
    FlagPickedUp { tick: u32, player_id: u16 },
    FlagStolen { tick: u32, previous_carrier_id: u16, new_carrier_id: u16 },
    PlayerDisconnected { player_id: u16 },
    GameOver { winner_id: u16, winner_name: String, reason: GameOverReason },
    ErrorMsg { code: ErrorCode, description: String },
}

/// Abstract value of a message: strings as character sequences, lists as
/// sequences of record views.
#[allow(inconsistent_fields)]
pub enum MessageView {
    DiscoverRequest,
    DiscoverResponse {
        game_id: u16,
        server_name: Seq<char>,
        tcp_port: u16,
        state: GameState,
        player_count: u16,
        maximum_players: u16,
    },
    Join { name: Seq<char> },
    Input { player_id: u16, direction: Direction },
    Interact { player_id: u16 },
    Leave { player_id: u16 },
    JoinAccepted { player_id: u16, game_id: u16 },
    JoinRejected { reason: JoinRejectReason },
    LobbyState { state: GameState, players: Seq<LobbyPlayerView> },
    GameCountdown { seconds_remaining: u8 },
    GameStarted {
        config: GameConfig,
        flag_status: FlagStatus,
        flag_carrier_id: u16,
        flag_x: i32,
        flag_y: i32,
        players: Seq<PlayerStateView>,
    },
    GameStateMsg {
        tick: u32,
        flag_status: FlagStatus,
        flag_carrier_id: u16,
        flag_x: i32,
        flag_y: i32,
        players: Seq<PlayerStateView>,
    },
    FlagPickedUp { tick: u32, player_id: u16 },
    FlagStolen { tick: u32, previous_carrier_id: u16, new_carrier_id: u16 },
    PlayerDisconnected { player_id: u16 },
    GameOver { winner_id: u16, winner_name: Seq<char>, reason: GameOverReason },
    ErrorMsg { code: ErrorCode, description: Seq<char> },
}

pub open spec fn lobby_views(ps: Seq<LobbyPlayer>) -> Seq<LobbyPlayerView> {
    ps.map_values(|p: LobbyPlayer| p@)
}

pub open spec fn player_views(ps: Seq<PlayerState>) -> Seq<PlayerStateView> {
    ps.map_values(|p: PlayerState| p@)
}

impl View for Message {
    type V = MessageView;

    open spec fn view(&self) -> MessageView {
        match self {
            Message::DiscoverRequest => MessageView::DiscoverRequest,
            Message::DiscoverResponse { game_id, server_name, tcp_port, state, player_count, maximum_players } =>
                MessageView::DiscoverResponse {
                    game_id: *game_id,
                    server_name: server_name@,
                    tcp_port: *tcp_port,
                    state: *state,
                    player_count: *player_count,
                    maximum_players: *maximum_players,
                },
            Message::Join { name } => MessageView::Join { name: name@ },
            Message::Input { player_id, direction } => MessageView::Input { player_id: *player_id, direction: *direction },
            Message::Interact { player_id } => MessageView::Interact { player_id: *player_id },
            Message::Leave { player_id } => MessageView::Leave { player_id: *player_id },
            Message::JoinAccepted { player_id, game_id } => MessageView::JoinAccepted { player_id: *player_id, game_id: *game_id },
            Message::JoinRejected { reason } => MessageView::JoinRejected { reason: *reason },
            Message::LobbyState { state, players } => MessageView::LobbyState { state: *state, players: lobby_views(players@) },
            Message::GameCountdown { seconds_remaining } => MessageView::GameCountdown { seconds_remaining: *seconds_remaining },
            Message::GameStarted { config, flag_status, flag_carrier_id, flag_x, flag_y, players } =>
                MessageView::GameStarted {
                    config: *config,
                    flag_status: *flag_status,
                    flag_carrier_id: *flag_carrier_id,
                    flag_x: *flag_x,
                    flag_y: *flag_y,
                    players: player_views(players@),
                },
            Message::GameStateMsg { tick, flag_status, flag_carrier_id, flag_x, flag_y, players } =>
                MessageView::GameStateMsg {
                    tick: *tick,
                    flag_status: *flag_status,
                    flag_carrier_id: *flag_carrier_id,
                    flag_x: *flag_x,
                    flag_y: *flag_y,
                    players: player_views(players@),
                },
            Message::FlagPickedUp { tick, player_id } => MessageView::FlagPickedUp { tick: *tick, player_id: *player_id },
            Message::FlagStolen { tick, previous_carrier_id, new_carrier_id } =>
                MessageView::FlagStolen { tick: *tick, previous_carrier_id: *previous_carrier_id, new_carrier_id: *new_carrier_id },
            Message::PlayerDisconnected { player_id } => MessageView::PlayerDisconnected { player_id: *player_id },
            Message::GameOver { winner_id, winner_name, reason } =>
                MessageView::GameOver { winner_id: *winner_id, winner_name: winner_name@, reason: *reason },
            Message::ErrorMsg { code, description } => MessageView::ErrorMsg { code: *code, description: description@ },
        }
    }
}

// ---------------------------------------------------------------------------
// Encoding
// ---------------------------------------------------------------------------

/// Type byte of a message.
pub open spec fn message_tag(m: MessageView) -> u8 {
    match m {
        MessageView::DiscoverRequest => 0x01,
        MessageView::DiscoverResponse { .. } => 0x02,
        MessageView::Join { .. } => 0x10,
        MessageView::Input { .. } => 0x11,
        MessageView::Interact { .. } => 0x12,
        MessageView::Leave { .. } => 0x13,
        MessageView::JoinAccepted { .. } => 0x20,
        MessageView::JoinRejected { .. } => 0x21,
        MessageView::LobbyState { .. } => 0x22,
        MessageView::GameCountdown { .. } => 0x23,
        MessageView::GameStarted { .. } => 0x24,
        MessageView::GameStateMsg { .. } => 0x25,
        MessageView::FlagPickedUp { .. } => 0x26,
        MessageView::FlagStolen { .. } => 0x27,
        MessageView::PlayerDisconnected { .. } => 0x28,
        MessageView::GameOver { .. } => 0x29,
        MessageView::ErrorMsg { .. } => 0x2A,
    }
}

/// A lobby entry: id, then name.
pub open spec fn lobby_player_bytes(p: LobbyPlayerView) -> Seq<u8> {
    be_u16(p.player_id) + str_field(p.name)
}

/// Lobby entries one after another.
pub open spec fn lobby_players_bytes(ps: Seq<LobbyPlayerView>) -> Seq<u8>
    decreases ps.len(),
{
    if ps.len() == 0 {
        Seq::empty()
    } else {
        lobby_players_bytes(ps.drop_last()) + lobby_player_bytes(ps.last())
    }
}

/// A player of the start message: id, name, x, y, direction, flag bit.
pub open spec fn started_player_bytes(p: PlayerStateView) -> Seq<u8> {
    be_u16(p.player_id) + str_field(p.name) + be_i32(p.x) + be_i32(p.y) + seq![direction_code(p.direction)]
        + seq![bool_byte(p.has_flag)]
}

pub open spec fn started_players_bytes(ps: Seq<PlayerStateView>) -> Seq<u8>
    decreases ps.len(),
{
    if ps.len() == 0 {
        Seq::empty()
    } else {
        started_players_bytes(ps.drop_last()) + started_player_bytes(ps.last())
    }
}

/// A player of a state update: id, x, y, direction, flag bit (no name).
pub open spec fn tick_player_bytes(p: PlayerStateView) -> Seq<u8> {
    be_u16(p.player_id) + be_i32(p.x) + be_i32(p.y) + seq![direction_code(p.direction)] + seq![bool_byte(p.has_flag)]
}

pub open spec fn tick_players_bytes(ps: Seq<PlayerStateView>) -> Seq<u8>
    decreases ps.len(),
{
    if ps.len() == 0 {
        Seq::empty()
    } else {
        tick_players_bytes(ps.drop_last()) + tick_player_bytes(ps.last())
    }
}

/// The configuration fields that a start message carries.
pub open spec fn config_bytes(c: GameConfig) -> Seq<u8> {
    be_i32(c.map_size) + be_i32(c.circle_radius) + be_i32(c.player_radius) + be_i32(c.player_speed)
        + be_i32(c.interaction_radius) + be_u16(c.tick_interval_ms)
}

/// The flag fields: status, carrier, x, y.
pub open spec fn flag_bytes(status: FlagStatus, carrier: u16, x: i32, y: i32) -> Seq<u8> {
    seq![flag_status_code(status)] + be_u16(carrier) + be_i32(x) + be_i32(y)
}

/// The fields of a message after its two header bytes.
pub open spec fn body_bytes(m: MessageView) -> Seq<u8> {
    match m {
        MessageView::DiscoverRequest => Seq::empty(),
        MessageView::DiscoverResponse { game_id, server_name, tcp_port, state, player_count, maximum_players } =>
            be_u16(game_id) + str_field(server_name) + be_u16(tcp_port) + seq![game_state_code(state)]
                + be_u16(player_count) + be_u16(maximum_players),
        MessageView::Join { name } => str_field(name),
        MessageView::Input { player_id, direction } => be_u16(player_id) + seq![direction_code(direction)],
        MessageView::Interact { player_id } => be_u16(player_id),
        MessageView::Leave { player_id } => be_u16(player_id),
        MessageView::JoinAccepted { player_id, game_id } => be_u16(player_id) + be_u16(game_id),
        MessageView::JoinRejected { reason } => seq![join_reject_reason_code(reason)],
        MessageView::LobbyState { state, players } =>
            seq![game_state_code(state)] + seq![players.len() as u8] + lobby_players_bytes(players),
        MessageView::GameCountdown { seconds_remaining } => seq![seconds_remaining],
        MessageView::GameStarted { config, flag_status, flag_carrier_id, flag_x, flag_y, players } =>
            config_bytes(config) + flag_bytes(flag_status, flag_carrier_id, flag_x, flag_y)
                + seq![players.len() as u8] + started_players_bytes(players),
        MessageView::GameStateMsg { tick, flag_status, flag_carrier_id, flag_x, flag_y, players } =>
            be_u32(tick) + flag_bytes(flag_status, flag_carrier_id, flag_x, flag_y)
                + seq![players.len() as u8] + tick_players_bytes(players),
        MessageView::FlagPickedUp { tick, player_id } => be_u32(tick) + be_u16(player_id),
        MessageView::FlagStolen { tick, previous_carrier_id, new_carrier_id } =>
            be_u32(tick) + be_u16(previous_carrier_id) + be_u16(new_carrier_id),
        MessageView::PlayerDisconnected { player_id } => be_u16(player_id),
        MessageView::GameOver { winner_id, winner_name, reason } =>
            be_u16(winner_id) + str_field(winner_name) + seq![game_over_reason_code(reason)],
        MessageView::ErrorMsg { code, description } => seq![error_code_code(code)] + str_field(description),
    }
}

/// The encoding of a message: type byte, version byte, fields.
pub open spec fn message_bytes(m: MessageView) -> Seq<u8> {
    seq![message_tag(m), PROTOCOL_VERSION] + body_bytes(m)
}


fn write_lobby_players(w: &mut ByteWriter, players: &Vec<LobbyPlayer>)
    ensures
        final(w)@ == old(w)@ + lobby_players_bytes(lobby_views(players@)),
{
    let ghost start = w@;
    let mut i: usize = 0;
    while i < players.len()
        invariant
            i <= players@.len(),
            w@ == start + lobby_players_bytes(lobby_views(players@).take(i as int)),
        decreases players@.len() - i,
    {
        let ghost before = w@;
        w.write_u16(players[i].player_id);
        w.write_str(players[i].name.as_str());
        proof {
            let vs = lobby_views(players@);
            assert(vs.take(i + 1).drop_last() =~= vs.take(i as int));
            assert(w@ =~= before + lobby_player_bytes(vs[i as int]));
        }
        i = i + 1;
    }
    proof {
        assert(lobby_views(players@).take(players@.len() as int) =~= lobby_views(players@));
    }
}

fn write_started_players(w: &mut ByteWriter, players: &Vec<PlayerState>)
    ensures
        final(w)@ == old(w)@ + started_players_bytes(player_views(players@)),
{
    let ghost start = w@;
    let mut i: usize = 0;
    while i < players.len()
        invariant
            i <= players@.len(),
            w@ == start + started_players_bytes(player_views(players@).take(i as int)),
        decreases players@.len() - i,
    {
        let ghost before = w@;
        let p = &players[i];
        w.write_u16(p.player_id);
        w.write_str(p.name.as_str());
        w.write_i32(p.x);
        w.write_i32(p.y);
        w.write_u8(p.direction.to_u8());
        w.write_bool(p.has_flag);
        proof {
            let vs = player_views(players@);
            assert(vs.take(i + 1).drop_last() =~= vs.take(i as int));
            assert(w@ =~= before + started_player_bytes(vs[i as int]));
        }
        i = i + 1;
    }
    proof {
        assert(player_views(players@).take(players@.len() as int) =~= player_views(players@));
    }
}

fn write_tick_players(w: &mut ByteWriter, players: &Vec<PlayerState>)
    ensures
        final(w)@ == old(w)@ + tick_players_bytes(player_views(players@)),
{
    let ghost start = w@;
    let mut i: usize = 0;
    while i < players.len()
        invariant
            i <= players@.len(),
            w@ == start + tick_players_bytes(player_views(players@).take(i as int)),
        decreases players@.len() - i,
    {
        let ghost before = w@;
        let p = &players[i];
        w.write_u16(p.player_id);
        w.write_i32(p.x);
        w.write_i32(p.y);
        w.write_u8(p.direction.to_u8());
        w.write_bool(p.has_flag);
        proof {
            let vs = player_views(players@);
            assert(vs.take(i + 1).drop_last() =~= vs.take(i as int));
            assert(w@ =~= before + tick_player_bytes(vs[i as int]));
        }
        i = i + 1;
    }
    proof {
        assert(player_views(players@).take(players@.len() as int) =~= player_views(players@));
    }
}

impl Message {
    /// Type byte of the message.
    pub fn tag(&self) -> (t: u8)
        ensures
            t == message_tag(self@),
    {
        match self {
            Message::DiscoverRequest => 0x01,
            Message::DiscoverResponse { .. } => 0x02,
            Message::Join { .. } => 0x10,
            Message::Input { .. } => 0x11,
            Message::Interact { .. } => 0x12,
            Message::Leave { .. } => 0x13,
            Message::JoinAccepted { .. } => 0x20,
            Message::JoinRejected { .. } => 0x21,
            Message::LobbyState { .. } => 0x22,
            Message::GameCountdown { .. } => 0x23,
            Message::GameStarted { .. } => 0x24,
            Message::GameStateMsg { .. } => 0x25,
            Message::FlagPickedUp { .. } => 0x26,
            Message::FlagStolen { .. } => 0x27,
            Message::PlayerDisconnected { .. } => 0x28,
            Message::GameOver { .. } => 0x29,
            Message::ErrorMsg { .. } => 0x2A,
        }
    }

    /// Encodes the message into bytes for the network.
    pub fn serialize(&self) -> (r: Vec<u8>)
        ensures
            r@ == message_bytes(self@),
    {
        let mut w = ByteWriter::new();
        w.write_u8(self.tag());
        w.write_u8(PROTOCOL_VERSION);
        self.write_body(&mut w);
        let r = w.into_bytes();
        proof {
            assert(r@ =~= message_bytes(self@));
        }
        r
    }

    /// Appends the fields of the message after its header.
    fn write_body(&self, w: &mut ByteWriter)
        ensures
            final(w)@ == old(w)@ + body_bytes(self@),
    {
        match self {
            Message::DiscoverRequest => {
                proof { assert(w@ =~= old(w)@ + body_bytes(self@)); }
            },
            Message::DiscoverResponse { game_id, server_name, tcp_port, state, player_count, maximum_players } => {
                w.write_u16(*game_id);
                let ghost prev = w@;
                w.write_str(server_name.as_str());
                proof { lemma_concat_associative(old(w)@, be_u16(*game_id), str_field(server_name@)); }
                let ghost prev = w@;
                w.write_u16(*tcp_port);
                proof { lemma_concat_associative(old(w)@, be_u16(*game_id) + str_field(server_name@), be_u16(*tcp_port)); }
                let ghost prev = w@;
                w.write_u8(state.to_u8());
                proof { lemma_concat_associative(old(w)@, be_u16(*game_id) + str_field(server_name@) + be_u16(*tcp_port), seq![game_state_code(*state)]); }
                let ghost prev = w@;
                w.write_u16(*player_count);
                proof { lemma_concat_associative(old(w)@, be_u16(*game_id) + str_field(server_name@) + be_u16(*tcp_port) + seq![game_state_code(*state)], be_u16(*player_count)); }
                let ghost prev = w@;
                w.write_u16(*maximum_players);
                proof { lemma_concat_associative(old(w)@, be_u16(*game_id) + str_field(server_name@) + be_u16(*tcp_port) + seq![game_state_code(*state)] + be_u16(*player_count), be_u16(*maximum_players)); }
            },
            Message::Join { name } => {
                w.write_str(name.as_str());
            },
            Message::Input { player_id, direction } => {
                w.write_u16(*player_id);
                let ghost prev = w@;
                w.write_u8(direction.to_u8());
                proof { lemma_concat_associative(old(w)@, be_u16(*player_id), seq![direction_code(*direction)]); }
            },
            Message::Interact { player_id } => {
                w.write_u16(*player_id);
            },
            Message::Leave { player_id } => {
                w.write_u16(*player_id);
            },
            Message::JoinAccepted { player_id, game_id } => {
                w.write_u16(*player_id);
                let ghost prev = w@;
                w.write_u16(*game_id);
                proof { lemma_concat_associative(old(w)@, be_u16(*player_id), be_u16(*game_id)); }
            },
            Message::JoinRejected { reason } => {
                w.write_u8(reason.to_u8());
            },
            Message::LobbyState { state, players } => {
                w.write_u8(state.to_u8());
                let ghost prev = w@;
                w.write_u8(players.len() as u8);
                proof { lemma_concat_associative(old(w)@, seq![game_state_code(*state)], seq![players@.len() as u8]); }
                let ghost prev = w@;
                write_lobby_players(w, players);
                proof { lemma_concat_associative(old(w)@, seq![game_state_code(*state)] + seq![players@.len() as u8], lobby_players_bytes(lobby_views(players@))); }
            },
            Message::GameCountdown { seconds_remaining } => {
                w.write_u8(*seconds_remaining);
            },
            Message::GameStarted { config, flag_status, flag_carrier_id, flag_x, flag_y, players } => {
                write_config(w, config);
                let ghost prev = w@;
                write_flag(w, *flag_status, *flag_carrier_id, *flag_x, *flag_y);
                proof { lemma_concat_associative(old(w)@, config_bytes(*config), flag_bytes(*flag_status, *flag_carrier_id, *flag_x, *flag_y)); }
                let ghost prev = w@;
                w.write_u8(players.len() as u8);
                proof { lemma_concat_associative(old(w)@, config_bytes(*config) + flag_bytes(*flag_status, *flag_carrier_id, *flag_x, *flag_y), seq![players@.len() as u8]); }
                let ghost prev = w@;
                write_started_players(w, players);
                proof { lemma_concat_associative(old(w)@, config_bytes(*config) + flag_bytes(*flag_status, *flag_carrier_id, *flag_x, *flag_y) + seq![players@.len() as u8], started_players_bytes(player_views(players@))); }
            },
            Message::GameStateMsg { tick, flag_status, flag_carrier_id, flag_x, flag_y, players } => {
                w.write_u32(*tick);
                let ghost prev = w@;
                write_flag(w, *flag_status, *flag_carrier_id, *flag_x, *flag_y);
                proof { lemma_concat_associative(old(w)@, be_u32(*tick), flag_bytes(*flag_status, *flag_carrier_id, *flag_x, *flag_y)); }
                let ghost prev = w@;
                w.write_u8(players.len() as u8);
                proof { lemma_concat_associative(old(w)@, be_u32(*tick) + flag_bytes(*flag_status, *flag_carrier_id, *flag_x, *flag_y), seq![players@.len() as u8]); }
                let ghost prev = w@;
                write_tick_players(w, players);
                proof { lemma_concat_associative(old(w)@, be_u32(*tick) + flag_bytes(*flag_status, *flag_carrier_id, *flag_x, *flag_y) + seq![players@.len() as u8], tick_players_bytes(player_views(players@))); }
            },
            Message::FlagPickedUp { tick, player_id } => {
                w.write_u32(*tick);
                let ghost prev = w@;
                w.write_u16(*player_id);
                proof { lemma_concat_associative(old(w)@, be_u32(*tick), be_u16(*player_id)); }
            },
            Message::FlagStolen { tick, previous_carrier_id, new_carrier_id } => {
                w.write_u32(*tick);
                let ghost prev = w@;
                w.write_u16(*previous_carrier_id);
                proof { lemma_concat_associative(old(w)@, be_u32(*tick), be_u16(*previous_carrier_id)); }
                let ghost prev = w@;
                w.write_u16(*new_carrier_id);
                proof { lemma_concat_associative(old(w)@, be_u32(*tick) + be_u16(*previous_carrier_id), be_u16(*new_carrier_id)); }
            },
            Message::PlayerDisconnected { player_id } => {
                w.write_u16(*player_id);
            },
            Message::GameOver { winner_id, winner_name, reason } => {
                w.write_u16(*winner_id);
                let ghost prev = w@;
                w.write_str(winner_name.as_str());
                proof { lemma_concat_associative(old(w)@, be_u16(*winner_id), str_field(winner_name@)); }
                let ghost prev = w@;
                w.write_u8(reason.to_u8());
                proof { lemma_concat_associative(old(w)@, be_u16(*winner_id) + str_field(winner_name@), seq![game_over_reason_code(*reason)]); }
            },
            Message::ErrorMsg { code, description } => {
                w.write_u8(code.to_u8());
                let ghost prev = w@;
                w.write_str(description.as_str());
                proof { lemma_concat_associative(old(w)@, seq![error_code_code(*code)], str_field(description@)); }
            },
        }
    }
}

/// Appends the configuration fields of a start message.
fn write_config(w: &mut ByteWriter, config: &GameConfig)
    ensures
        final(w)@ == old(w)@ + config_bytes(*config),
{
    let ghost o = w@;
    w.write_i32(config.map_size);
    w.write_i32(config.circle_radius);
    w.write_i32(config.player_radius);
    w.write_i32(config.player_speed);
    w.write_i32(config.interaction_radius);
    w.write_u16(config.tick_interval_ms);
    assert(w@ =~= o + config_bytes(*config));
}

/// Appends the flag fields: status, carrier, position.
fn write_flag(w: &mut ByteWriter, status: FlagStatus, carrier: u16, x: i32, y: i32)
    ensures
        final(w)@ == old(w)@ + flag_bytes(status, carrier, x, y),
{
    let ghost o = w@;
    w.write_u8(status.to_u8());
    w.write_u16(carrier);
    w.write_i32(x);
    w.write_i32(y);
    assert(w@ =~= o + flag_bytes(status, carrier, x, y));
}


// ---------------------------------------------------------------------------
// Decoding
// ---------------------------------------------------------------------------

/// The configuration of a received start message: the carried fields, and
/// the default values of those that the message does not carry.
pub open spec fn received_config(
    map_size: i32,
    circle_radius: i32,
    player_radius: i32,
    player_speed: i32,
    interaction_radius: i32,
    tick_interval_ms: u16,
) -> GameConfig {
    GameConfig {
        map_size,
        circle_radius,
        player_radius,
        spawn_margin: 8000,
        player_speed,
        interaction_radius,
        tick_interval_ms,
        countdown_seconds: 5,
        maximum_players: 100,
        server_port: 5000,
        discovery_port: 5001,
    }
}

pub open spec fn parse_lobby_player(b: Seq<u8>, p: int) -> Result<(LobbyPlayerView, int), DecodeError> {
    match take_u16(b, p) {
        Err(e) => Err(e),
        Ok((player_id, p)) =>
        match take_str(b, p) {
            Err(e) => Err(e),
            Ok((name, p)) =>
            Ok((LobbyPlayerView { player_id, name }, p))
        }
    }
}

/// Reads `n` lobby entries starting at `pos`.
pub open spec fn parse_lobby_players(b: Seq<u8>, pos: int, n: nat) -> Result<(Seq<LobbyPlayerView>, int), DecodeError>
    decreases n,
{
    if n == 0 {
        Ok((Seq::empty(), pos))
    } else {
        match parse_lobby_players(b, pos, (n - 1) as nat) {
            Err(e) => Err(e),
            Ok((ps, p)) => match parse_lobby_player(b, p) {
                Err(e) => Err(e),
                Ok((x, p)) => Ok((ps.push(x), p)),
            },
        }
    }
}

pub open spec fn parse_started_player(b: Seq<u8>, p: int) -> Result<(PlayerStateView, int), DecodeError> {
    match take_u16(b, p) {
        Err(e) => Err(e),
        Ok((player_id, p)) =>
        match take_str(b, p) {
            Err(e) => Err(e),
            Ok((name, p)) =>
            match take_i32(b, p) {
                Err(e) => Err(e),
                Ok((x, p)) =>
                match take_i32(b, p) {
                    Err(e) => Err(e),
                    Ok((y, p)) =>
                    match take_u8(b, p) {
                        Err(e) => Err(e),
                        Ok((dv, p)) =>
                        match direction_of_code(dv) {
                            None => Err(DecodeError::InvalidDirection),
                            Some(direction) =>
                            match take_bool(b, p) {
                                Err(e) => Err(e),
                                Ok((has_flag, p)) =>
                                Ok((PlayerStateView { player_id, name, x, y, direction, has_flag }, p))
                            }
                        }
                    }
                }
            }
        }
    }
}

/// Reads `n` players of a start message starting at `pos`.
pub open spec fn parse_started_players(b: Seq<u8>, pos: int, n: nat) -> Result<(Seq<PlayerStateView>, int), DecodeError>
    decreases n,
{
    if n == 0 {
        Ok((Seq::empty(), pos))
    } else {
        match parse_started_players(b, pos, (n - 1) as nat) {
            Err(e) => Err(e),
            Ok((ps, p)) => match parse_started_player(b, p) {
                Err(e) => Err(e),
                Ok((x, p)) => Ok((ps.push(x), p)),
            },
        }
    }
}

/// A player of a state update; the update carries no name, so it is empty.
pub open spec fn parse_tick_player(b: Seq<u8>, p: int) -> Result<(PlayerStateView, int), DecodeError> {
    match take_u16(b, p) {
        Err(e) => Err(e),
        Ok((player_id, p)) =>
        match take_i32(b, p) {
            Err(e) => Err(e),
            Ok((x, p)) =>
            match take_i32(b, p) {
                Err(e) => Err(e),
                Ok((y, p)) =>
                match take_u8(b, p) {
                    Err(e) => Err(e),
                    Ok((dv, p)) =>
                    match direction_of_code(dv) {
                        None => Err(DecodeError::InvalidDirection),
                        Some(direction) =>
                        match take_bool(b, p) {
                            Err(e) => Err(e),
                            Ok((has_flag, p)) =>
                            Ok((PlayerStateView { player_id, name: Seq::empty(), x, y, direction, has_flag }, p))
                        }
                    }
                }
            }
        }
    }
}

/// Reads `n` players of a state update starting at `pos`.
pub open spec fn parse_tick_players(b: Seq<u8>, pos: int, n: nat) -> Result<(Seq<PlayerStateView>, int), DecodeError>
    decreases n,
{
    if n == 0 {
        Ok((Seq::empty(), pos))
    } else {
        match parse_tick_players(b, pos, (n - 1) as nat) {
            Err(e) => Err(e),
            Ok((ps, p)) => match parse_tick_player(b, p) {
                Err(e) => Err(e),
                Ok((x, p)) => Ok((ps.push(x), p)),
            },
        }
    }
}

pub open spec fn parse_discover_response(b: Seq<u8>, p: int) -> Result<MessageView, DecodeError> {
    match take_u16(b, p) {
        Err(e) => Err(e),
        Ok((game_id, p)) =>
        match take_str(b, p) {
            Err(e) => Err(e),
            Ok((server_name, p)) =>
            match take_u16(b, p) {
                Err(e) => Err(e),
                Ok((tcp_port, p)) =>
                match take_u8(b, p) {
                    Err(e) => Err(e),
                    Ok((sv, p)) =>
                    match game_state_of_code(sv) {
                        None => Err(DecodeError::InvalidGameState),
                        Some(state) =>
                        match take_u16(b, p) {
                            Err(e) => Err(e),
                            Ok((player_count, p)) =>
                            match take_u16(b, p) {
                                Err(e) => Err(e),
                                Ok((maximum_players, p)) =>
                                Ok(MessageView::DiscoverResponse { game_id, server_name, tcp_port, state, player_count, maximum_players })
                            }
                        }
                    }
                }
            }
        }
    }
}

pub open spec fn parse_join(b: Seq<u8>, p: int) -> Result<MessageView, DecodeError> {
    match take_str(b, p) {
        Err(e) => Err(e),
        Ok((name, p)) =>
        Ok(MessageView::Join { name })
    }
}

pub open spec fn parse_input(b: Seq<u8>, p: int) -> Result<MessageView, DecodeError> {
    match take_u16(b, p) {
        Err(e) => Err(e),
        Ok((player_id, p)) =>
        match take_u8(b, p) {
            Err(e) => Err(e),
            Ok((dv, p)) =>
            match direction_of_code(dv) {
                None => Err(DecodeError::InvalidDirection),
                Some(direction) =>
                Ok(MessageView::Input { player_id, direction })
            }
        }
    }
}

pub open spec fn parse_interact(b: Seq<u8>, p: int) -> Result<MessageView, DecodeError> {
    match take_u16(b, p) {
        Err(e) => Err(e),
        Ok((player_id, p)) =>
        Ok(MessageView::Interact { player_id })
    }
}

pub open spec fn parse_leave(b: Seq<u8>, p: int) -> Result<MessageView, DecodeError> {
    match take_u16(b, p) {
        Err(e) => Err(e),
        Ok((player_id, p)) =>
        Ok(MessageView::Leave { player_id })
    }
}

pub open spec fn parse_join_accepted(b: Seq<u8>, p: int) -> Result<MessageView, DecodeError> {
    match take_u16(b, p) {
        Err(e) => Err(e),
        Ok((player_id, p)) =>
        match take_u16(b, p) {
            Err(e) => Err(e),
            Ok((game_id, p)) =>
            Ok(MessageView::JoinAccepted { player_id, game_id })
        }
    }
}

pub open spec fn parse_join_rejected(b: Seq<u8>, p: int) -> Result<MessageView, DecodeError> {
    match take_u8(b, p) {
        Err(e) => Err(e),
        Ok((rv, p)) =>
        match join_reject_reason_of_code(rv) {
            None => Err(DecodeError::InvalidJoinRejectReason),
            Some(reason) =>
            Ok(MessageView::JoinRejected { reason })
        }
    }
}

pub open spec fn parse_lobby_state(b: Seq<u8>, p: int) -> Result<MessageView, DecodeError> {
    match take_u8(b, p) {
        Err(e) => Err(e),
        Ok((sv, p)) =>
        match game_state_of_code(sv) {
            None => Err(DecodeError::InvalidGameState),
            Some(state) =>
            match take_u8(b, p) {
                Err(e) => Err(e),
                Ok((count, p)) =>
                match parse_lobby_players(b, p, count as nat) {
                    Err(e) => Err(e),
                    Ok((players, p)) =>
                    Ok(MessageView::LobbyState { state, players })
                }
            }
        }
    }
}

pub open spec fn parse_game_countdown(b: Seq<u8>, p: int) -> Result<MessageView, DecodeError> {
    match take_u8(b, p) {
        Err(e) => Err(e),
        Ok((seconds_remaining, p)) =>
        Ok(MessageView::GameCountdown { seconds_remaining })
    }
}

pub open spec fn parse_config_fields(b: Seq<u8>, p: int) -> Result<(GameConfig, int), DecodeError> {
    match take_i32(b, p) {
        Err(e) => Err(e),
        Ok((map_size, p)) =>
        match take_i32(b, p) {
            Err(e) => Err(e),
            Ok((circle_radius, p)) =>
            match take_i32(b, p) {
                Err(e) => Err(e),
                Ok((player_radius, p)) =>
                match take_i32(b, p) {
                    Err(e) => Err(e),
                    Ok((player_speed, p)) =>
                    match take_i32(b, p) {
                        Err(e) => Err(e),
                        Ok((interaction_radius, p)) =>
                        match take_u16(b, p) {
                            Err(e) => Err(e),
                            Ok((tick_interval_ms, p)) =>
                            Ok((received_config(map_size, circle_radius, player_radius, player_speed, interaction_radius, tick_interval_ms), p))
                        }
                    }
                }
            }
        }
    }
}

pub open spec fn parse_flag_fields(b: Seq<u8>, p: int) -> Result<((FlagStatus, u16, i32, i32), int), DecodeError> {
    match take_u8(b, p) {
        Err(e) => Err(e),
        Ok((fv, p)) =>
        match flag_status_of_code(fv) {
            None => Err(DecodeError::InvalidFlagStatus),
            Some(flag_status) =>
            match take_u16(b, p) {
                Err(e) => Err(e),
                Ok((flag_carrier_id, p)) =>
                match take_i32(b, p) {
                    Err(e) => Err(e),
                    Ok((flag_x, p)) =>
                    match take_i32(b, p) {
                        Err(e) => Err(e),
                        Ok((flag_y, p)) =>
                        Ok(((flag_status, flag_carrier_id, flag_x, flag_y), p))
                    }
                }
            }
        }
    }
}

pub open spec fn parse_game_started(b: Seq<u8>, p: int) -> Result<MessageView, DecodeError> {
    match parse_config_fields(b, p) {
        Err(e) => Err(e),
        Ok((config, p)) =>
        match parse_flag_fields(b, p) {
            Err(e) => Err(e),
            Ok((flag, p)) =>
            match take_u8(b, p) {
                Err(e) => Err(e),
                Ok((count, p)) =>
                match parse_started_players(b, p, count as nat) {
                    Err(e) => Err(e),
                    Ok((players, p)) =>
                    Ok(MessageView::GameStarted { config, flag_status: flag.0, flag_carrier_id: flag.1, flag_x: flag.2, flag_y: flag.3, players })
                }
            }
        }
    }
}

pub open spec fn parse_game_state(b: Seq<u8>, p: int) -> Result<MessageView, DecodeError> {
    match take_u32(b, p) {
        Err(e) => Err(e),
        Ok((tick, p)) =>
        match parse_flag_fields(b, p) {
            Err(e) => Err(e),
            Ok((flag, p)) =>
            match take_u8(b, p) {
                Err(e) => Err(e),
                Ok((count, p)) =>
                match parse_tick_players(b, p, count as nat) {
                    Err(e) => Err(e),
                    Ok((players, p)) =>
                    Ok(MessageView::GameStateMsg { tick, flag_status: flag.0, flag_carrier_id: flag.1, flag_x: flag.2, flag_y: flag.3, players })
                }
            }
        }
    }
}

pub open spec fn parse_flag_picked_up(b: Seq<u8>, p: int) -> Result<MessageView, DecodeError> {
    match take_u32(b, p) {
        Err(e) => Err(e),
        Ok((tick, p)) =>
        match take_u16(b, p) {
            Err(e) => Err(e),
            Ok((player_id, p)) =>
            Ok(MessageView::FlagPickedUp { tick, player_id })
        }
    }
}

pub open spec fn parse_flag_stolen(b: Seq<u8>, p: int) -> Result<MessageView, DecodeError> {
    match take_u32(b, p) {
        Err(e) => Err(e),
        Ok((tick, p)) =>
        match take_u16(b, p) {
            Err(e) => Err(e),
            Ok((previous_carrier_id, p)) =>
            match take_u16(b, p) {
                Err(e) => Err(e),
                Ok((new_carrier_id, p)) =>
                Ok(MessageView::FlagStolen { tick, previous_carrier_id, new_carrier_id })
            }
        }
    }
}

pub open spec fn parse_player_disconnected(b: Seq<u8>, p: int) -> Result<MessageView, DecodeError> {
    match take_u16(b, p) {
        Err(e) => Err(e),
        Ok((player_id, p)) =>
        Ok(MessageView::PlayerDisconnected { player_id })
    }
}

pub open spec fn parse_game_over(b: Seq<u8>, p: int) -> Result<MessageView, DecodeError> {
    match take_u16(b, p) {
        Err(e) => Err(e),
        Ok((winner_id, p)) =>
        match take_str(b, p) {
            Err(e) => Err(e),
            Ok((winner_name, p)) =>
            match take_u8(b, p) {
                Err(e) => Err(e),
                Ok((rv, p)) =>
                match game_over_reason_of_code(rv) {
                    None => Err(DecodeError::InvalidGameOverReason),
                    Some(reason) =>
                    Ok(MessageView::GameOver { winner_id, winner_name, reason })
                }
            }
        }
    }
}

pub open spec fn parse_error_msg(b: Seq<u8>, p: int) -> Result<MessageView, DecodeError> {
    match take_u8(b, p) {
        Err(e) => Err(e),
        Ok((cv, p)) =>
        match error_code_of_code(cv) {
            None => Err(DecodeError::InvalidErrorCode),
            Some(code) =>
            match take_str(b, p) {
                Err(e) => Err(e),
                Ok((description, p)) =>
                Ok(MessageView::ErrorMsg { code, description })
            }
        }
    }
}

/// Decodes the fields of a message of type `tag` that start at `p`.
pub open spec fn parse_body(tag: u8, b: Seq<u8>, p: int) -> Result<MessageView, DecodeError> {
    if tag == 0x01 {
        Ok(MessageView::DiscoverRequest)
    } else if tag == 0x02 {
        parse_discover_response(b, p)
    } else if tag == 0x10 {
        parse_join(b, p)
    } else if tag == 0x11 {
        parse_input(b, p)
    } else if tag == 0x12 {
        parse_interact(b, p)
    } else if tag == 0x13 {
        parse_leave(b, p)
    } else if tag == 0x20 {
        parse_join_accepted(b, p)
    } else if tag == 0x21 {
        parse_join_rejected(b, p)
    } else if tag == 0x22 {
        parse_lobby_state(b, p)
    } else if tag == 0x23 {
        parse_game_countdown(b, p)
    } else if tag == 0x24 {
        parse_game_started(b, p)
    } else if tag == 0x25 {
        parse_game_state(b, p)
    } else if tag == 0x26 {
        parse_flag_picked_up(b, p)
    } else if tag == 0x27 {
        parse_flag_stolen(b, p)
    } else if tag == 0x28 {
        parse_player_disconnected(b, p)
    } else if tag == 0x29 {
        parse_game_over(b, p)
    } else if tag == 0x2A {
        parse_error_msg(b, p)
    } else {
        Err(DecodeError::UnknownMessageType(tag))
    }
}

/// Decodes a message: type byte, version byte (which must be ours), fields.
/// Bytes after the message are ignored.
pub open spec fn parse_message(b: Seq<u8>) -> Result<MessageView, DecodeError> {
    match take_u8(b, 0) {
        Err(e) => Err(e),
        Ok((tag, p)) => match take_u8(b, p) {
            Err(e) => Err(e),
            Ok((version, p)) => if version != PROTOCOL_VERSION {
                Err(DecodeError::UnsupportedVersion(version))
            } else {
                parse_body(tag, b, p)
            },
        },
    }
}

// ---------------------------------------------------------------------------
// Reading back what was written
// ---------------------------------------------------------------------------

/// Every name of a list fits a string field.
pub open spec fn lobby_names_fit(ps: Seq<LobbyPlayerView>) -> bool {
    forall|i: int| 0 <= i < ps.len() ==> str_fits(#[trigger] ps[i].name)
}

pub open spec fn player_names_fit(ps: Seq<PlayerStateView>) -> bool {
    forall|i: int| 0 <= i < ps.len() ==> str_fits(#[trigger] ps[i].name)
}

/// Every player of a state update has an empty name (updates carry none).
pub open spec fn player_names_empty(ps: Seq<PlayerStateView>) -> bool {
    forall|i: int| 0 <= i < ps.len() ==> #[trigger] ps[i].name == Seq::<char>::empty()
}

/// The messages that survive encoding unchanged: every string fits its
/// 255-byte field, every list has at most 255 entries, the players of a
/// state update have no names, and a start message's configuration holds
/// the default values of the fields that the message does not carry.
pub open spec fn message_well_formed(m: MessageView) -> bool {
    match m {
        MessageView::DiscoverResponse { server_name, .. } => str_fits(server_name),
        MessageView::Join { name } => str_fits(name),
        MessageView::LobbyState { players, .. } => players.len() <= 255 && lobby_names_fit(players),
        MessageView::GameStarted { config, players, .. } =>
            config == received_config(config.map_size, config.circle_radius, config.player_radius,
                config.player_speed, config.interaction_radius, config.tick_interval_ms)
            && players.len() <= 255 && player_names_fit(players),
        MessageView::GameStateMsg { players, .. } => players.len() <= 255 && player_names_empty(players),
        MessageView::GameOver { winner_name, .. } => str_fits(winner_name),
        MessageView::ErrorMsg { description, .. } => str_fits(description),
        _ => true,
    }
}

proof fn lemma_header(m: MessageView, rest: Seq<u8>)
    ensures
        parse_message(message_bytes(m) + rest) == parse_body(message_tag(m), message_bytes(m) + rest, 2),
{
    let b = message_bytes(m) + rest;
    assert(b.subrange(0, 1) =~= seq![message_tag(m)]);
    assert(b.subrange(1, 2) =~= seq![PROTOCOL_VERSION]);
    lemma_take_u8(b, 0, message_tag(m));
    lemma_take_u8(b, 1, PROTOCOL_VERSION);
}

#[verifier::spinoff_prover]
#[verifier::rlimit(60)]
proof fn lemma_parse_lobby_players_bytes(b: Seq<u8>, p: int, ps: Seq<LobbyPlayerView>)
    requires
        lobby_names_fit(ps),
        0 <= p,
        p + lobby_players_bytes(ps).len() <= b.len(),
        b.subrange(p, p + lobby_players_bytes(ps).len()) == lobby_players_bytes(ps),
    ensures
        parse_lobby_players(b, p, ps.len()) == Ok::<(Seq<LobbyPlayerView>, int), DecodeError>((ps, p + lobby_players_bytes(ps).len())),
    decreases ps.len(),
{
    if ps.len() > 0 {
        let init = ps.drop_last();
        let x = ps.last();
        let ni = lobby_players_bytes(init).len() as int;
        let q = p + ni;
        let ns = str_field(x.name).len() as int;
        assert(lobby_names_fit(init)) by {
            assert forall|i: int| 0 <= i < init.len() implies str_fits(#[trigger] init[i].name) by {
                assert(init[i] == ps[i]);
            }
        }
        assert(str_fits(ps[ps.len() - 1].name));
        assert(b.subrange(p, q) =~= lobby_players_bytes(init)) by {
            assert(b.subrange(p, q) =~= b.subrange(p, p + lobby_players_bytes(ps).len()).subrange(0, ni));
        }
        lemma_parse_lobby_players_bytes(b, p, init);
        assert(b.subrange(q, q + 2) =~= be_u16(x.player_id)) by {
            assert(b.subrange(q, q + 2) =~= b.subrange(p, p + lobby_players_bytes(ps).len()).subrange(ni, ni + 2));
        }
        lemma_take_u16(b, q, x.player_id);
        assert(b.subrange(q + 2, q + 2 + ns) =~= str_field(x.name)) by {
            assert(b.subrange(q + 2, q + 2 + ns) =~= b.subrange(p, p + lobby_players_bytes(ps).len()).subrange(ni + 2, ni + 2 + ns));
        }
        lemma_take_str(b, q + 2, x.name);
        assert(init.push(x) =~= ps);
    } else {
        assert(ps =~= Seq::<LobbyPlayerView>::empty());
    }
}

#[verifier::spinoff_prover]
#[verifier::rlimit(60)]
proof fn lemma_parse_started_player_bytes(b: Seq<u8>, q: int, x: PlayerStateView)
    requires
        str_fits(x.name),
        0 <= q,
        q + started_player_bytes(x).len() <= b.len(),
        b.subrange(q, q + started_player_bytes(x).len()) == started_player_bytes(x),
    ensures
        parse_started_player(b, q) == Ok::<(PlayerStateView, int), DecodeError>((x, q + started_player_bytes(x).len())),
{
    let all = b.subrange(q, q + started_player_bytes(x).len());
    let ns = str_field(x.name).len() as int;
    assert(b.subrange(q, q + 2) =~= be_u16(x.player_id)) by { assert(b.subrange(q, q + 2) =~= all.subrange(0, 2)); }
    lemma_take_u16(b, q, x.player_id);
    assert(b.subrange(q + 2, q + 2 + ns) =~= str_field(x.name)) by { assert(b.subrange(q + 2, q + 2 + ns) =~= all.subrange(2, 2 + ns)); }
    lemma_take_str(b, q + 2, x.name);
    let r = q + 2 + ns;
    assert(b.subrange(r, r + 4) =~= be_i32(x.x)) by { assert(b.subrange(r, r + 4) =~= all.subrange(2 + ns, 6 + ns)); }
    lemma_take_i32(b, r, x.x);
    assert(b.subrange(r + 4, r + 8) =~= be_i32(x.y)) by { assert(b.subrange(r + 4, r + 8) =~= all.subrange(6 + ns, 10 + ns)); }
    lemma_take_i32(b, r + 4, x.y);
    assert(b.subrange(r + 8, r + 9) =~= seq![direction_code(x.direction)]) by { assert(b.subrange(r + 8, r + 9) =~= all.subrange(10 + ns, 11 + ns)); }
    lemma_take_u8(b, r + 8, direction_code(x.direction));
    assert(b.subrange(r + 9, r + 10) =~= seq![bool_byte(x.has_flag)]) by { assert(b.subrange(r + 9, r + 10) =~= all.subrange(11 + ns, 12 + ns)); }
    lemma_take_bool(b, r + 9, x.has_flag);
}

#[verifier::spinoff_prover]
#[verifier::rlimit(60)]
proof fn lemma_parse_started_players_bytes(b: Seq<u8>, p: int, ps: Seq<PlayerStateView>)
    requires
        player_names_fit(ps),
        0 <= p,
        p + started_players_bytes(ps).len() <= b.len(),
        b.subrange(p, p + started_players_bytes(ps).len()) == started_players_bytes(ps),
    ensures
        parse_started_players(b, p, ps.len()) == Ok::<(Seq<PlayerStateView>, int), DecodeError>((ps, p + started_players_bytes(ps).len())),
    decreases ps.len(),
{
    if ps.len() > 0 {
        let init = ps.drop_last();
        let x = ps.last();
        let all = b.subrange(p, p + started_players_bytes(ps).len());
        let ni = started_players_bytes(init).len() as int;
        let nx = started_player_bytes(x).len() as int;
        assert(player_names_fit(init)) by {
            assert forall|i: int| 0 <= i < init.len() implies str_fits(#[trigger] init[i].name) by {
                assert(init[i] == ps[i]);
            }
        }
        assert(str_fits(ps[ps.len() - 1].name));
        assert(b.subrange(p, p + ni) =~= started_players_bytes(init)) by {
            assert(b.subrange(p, p + ni) =~= all.subrange(0, ni));
        }
        lemma_parse_started_players_bytes(b, p, init);
        assert(b.subrange(p + ni, p + ni + nx) =~= started_player_bytes(x)) by {
            assert(b.subrange(p + ni, p + ni + nx) =~= all.subrange(ni, ni + nx));
        }
        lemma_parse_started_player_bytes(b, p + ni, x);
        assert(init.push(x) =~= ps);
    } else {
        assert(ps =~= Seq::<PlayerStateView>::empty());
    }
}

#[verifier::spinoff_prover]
#[verifier::rlimit(60)]
proof fn lemma_parse_tick_players_bytes(b: Seq<u8>, p: int, ps: Seq<PlayerStateView>)
    requires
        player_names_empty(ps),
        0 <= p,
        p + tick_players_bytes(ps).len() <= b.len(),
        b.subrange(p, p + tick_players_bytes(ps).len()) == tick_players_bytes(ps),
    ensures
        parse_tick_players(b, p, ps.len()) == Ok::<(Seq<PlayerStateView>, int), DecodeError>((ps, p + tick_players_bytes(ps).len())),
    decreases ps.len(),
{
    if ps.len() > 0 {
        let init = ps.drop_last();
        let x = ps.last();
        let all = b.subrange(p, p + tick_players_bytes(ps).len());
        let ni = tick_players_bytes(init).len() as int;
        let q = p + ni;
        assert(player_names_empty(init)) by {
            assert forall|i: int| 0 <= i < init.len() implies #[trigger] init[i].name == Seq::<char>::empty() by {
                assert(init[i] == ps[i]);
            }
        }
        assert(ps[ps.len() - 1].name == Seq::<char>::empty());
        assert(b.subrange(p, q) =~= tick_players_bytes(init)) by {
            assert(b.subrange(p, q) =~= all.subrange(0, ni));
        }
        lemma_parse_tick_players_bytes(b, p, init);
        assert(b.subrange(q, q + 2) =~= be_u16(x.player_id)) by {
            assert(b.subrange(q, q + 2) =~= all.subrange(ni, ni + 2));
        }
        lemma_take_u16(b, q, x.player_id);
        assert(b.subrange(q + 2, q + 6) =~= be_i32(x.x)) by {
            assert(b.subrange(q + 2, q + 6) =~= all.subrange(ni + 2, ni + 6));
        }
        lemma_take_i32(b, q + 2, x.x);
        assert(b.subrange(q + 6, q + 10) =~= be_i32(x.y)) by {
            assert(b.subrange(q + 6, q + 10) =~= all.subrange(ni + 6, ni + 10));
        }
        lemma_take_i32(b, q + 6, x.y);
        assert(b.subrange(q + 10, q + 11) =~= seq![direction_code(x.direction)]) by {
            assert(b.subrange(q + 10, q + 11) =~= all.subrange(ni + 10, ni + 11));
        }
        lemma_take_u8(b, q + 10, direction_code(x.direction));
        assert(b.subrange(q + 11, q + 12) =~= seq![bool_byte(x.has_flag)]) by {
            assert(b.subrange(q + 11, q + 12) =~= all.subrange(ni + 11, ni + 12));
        }
        lemma_take_bool(b, q + 11, x.has_flag);
        assert(init.push(x) =~= ps);
    } else {
        assert(ps =~= Seq::<PlayerStateView>::empty());
    }
}

#[verifier::spinoff_prover]
#[verifier::rlimit(60)]
proof fn lemma_roundtrip_discover_response(m: MessageView, rest: Seq<u8>)
    requires
        m is DiscoverResponse,
        message_well_formed(m),
    ensures
        parse_discover_response(message_bytes(m) + rest, 2) == Ok::<MessageView, DecodeError>(m),
{
    let b = message_bytes(m) + rest;
    if let MessageView::DiscoverResponse { game_id, server_name, tcp_port, state, player_count, maximum_players } = m {
        assert(b.subrange(2, 4) =~= be_u16(game_id));
        lemma_take_u16(b, 2, game_id);
        let n1 = str_field(server_name).len() as int;
        assert(b.subrange(4, 4 + n1) =~= str_field(server_name));
        lemma_take_str(b, 4, server_name);
        assert(b.subrange(4 + n1, 6 + n1) =~= be_u16(tcp_port));
        lemma_take_u16(b, 4 + n1, tcp_port);
        assert(b.subrange(6 + n1, 7 + n1) =~= seq![game_state_code(state)]);
        lemma_take_u8(b, 6 + n1, game_state_code(state));
        assert(b.subrange(7 + n1, 9 + n1) =~= be_u16(player_count));
        lemma_take_u16(b, 7 + n1, player_count);
        assert(b.subrange(9 + n1, 11 + n1) =~= be_u16(maximum_players));
        lemma_take_u16(b, 9 + n1, maximum_players);
    }
}

#[verifier::spinoff_prover]
#[verifier::rlimit(60)]
proof fn lemma_roundtrip_join(m: MessageView, rest: Seq<u8>)
    requires
        m is Join,
        message_well_formed(m),
    ensures
        parse_join(message_bytes(m) + rest, 2) == Ok::<MessageView, DecodeError>(m),
{
    let b = message_bytes(m) + rest;
    if let MessageView::Join { name } = m {
        let n1 = str_field(name).len() as int;
        assert(b.subrange(2, 2 + n1) =~= str_field(name));
        lemma_take_str(b, 2, name);
    }
}

#[verifier::spinoff_prover]
#[verifier::rlimit(60)]
proof fn lemma_roundtrip_input(m: MessageView, rest: Seq<u8>)
    requires
        m is Input,
        message_well_formed(m),
    ensures
        parse_input(message_bytes(m) + rest, 2) == Ok::<MessageView, DecodeError>(m),
{
    let b = message_bytes(m) + rest;
    if let MessageView::Input { player_id, direction } = m {
        assert(b.subrange(2, 4) =~= be_u16(player_id));
        lemma_take_u16(b, 2, player_id);
        assert(b.subrange(4, 5) =~= seq![direction_code(direction)]);
        lemma_take_u8(b, 4, direction_code(direction));
    }
}

#[verifier::spinoff_prover]
#[verifier::rlimit(60)]
proof fn lemma_roundtrip_interact(m: MessageView, rest: Seq<u8>)
    requires
        m is Interact,
        message_well_formed(m),
    ensures
        parse_interact(message_bytes(m) + rest, 2) == Ok::<MessageView, DecodeError>(m),
{
    let b = message_bytes(m) + rest;
    if let MessageView::Interact { player_id } = m {
        assert(b.subrange(2, 4) =~= be_u16(player_id));
        lemma_take_u16(b, 2, player_id);
    }
}

#[verifier::spinoff_prover]
#[verifier::rlimit(60)]
proof fn lemma_roundtrip_leave(m: MessageView, rest: Seq<u8>)
    requires
        m is Leave,
        message_well_formed(m),
    ensures
        parse_leave(message_bytes(m) + rest, 2) == Ok::<MessageView, DecodeError>(m),
{
    let b = message_bytes(m) + rest;
    if let MessageView::Leave { player_id } = m {
        assert(b.subrange(2, 4) =~= be_u16(player_id));
        lemma_take_u16(b, 2, player_id);
    }
}

#[verifier::spinoff_prover]
#[verifier::rlimit(60)]
proof fn lemma_roundtrip_join_accepted(m: MessageView, rest: Seq<u8>)
    requires
        m is JoinAccepted,
        message_well_formed(m),
    ensures
        parse_join_accepted(message_bytes(m) + rest, 2) == Ok::<MessageView, DecodeError>(m),
{
    let b = message_bytes(m) + rest;
    if let MessageView::JoinAccepted { player_id, game_id } = m {
        assert(b.subrange(2, 4) =~= be_u16(player_id));
        lemma_take_u16(b, 2, player_id);
        assert(b.subrange(4, 6) =~= be_u16(game_id));
        lemma_take_u16(b, 4, game_id);
    }
}

#[verifier::spinoff_prover]
#[verifier::rlimit(60)]
proof fn lemma_roundtrip_join_rejected(m: MessageView, rest: Seq<u8>)
    requires
        m is JoinRejected,
        message_well_formed(m),
    ensures
        parse_join_rejected(message_bytes(m) + rest, 2) == Ok::<MessageView, DecodeError>(m),
{
    let b = message_bytes(m) + rest;
    if let MessageView::JoinRejected { reason } = m {
        assert(b.subrange(2, 3) =~= seq![join_reject_reason_code(reason)]);
        lemma_take_u8(b, 2, join_reject_reason_code(reason));
    }
}

#[verifier::spinoff_prover]
#[verifier::rlimit(60)]
proof fn lemma_roundtrip_lobby_state(m: MessageView, rest: Seq<u8>)
    requires
        m is LobbyState,
        message_well_formed(m),
    ensures
        parse_lobby_state(message_bytes(m) + rest, 2) == Ok::<MessageView, DecodeError>(m),
{
    let b = message_bytes(m) + rest;
    if let MessageView::LobbyState { state, players } = m {
        assert(b.subrange(2, 3) =~= seq![game_state_code(state)]);
        lemma_take_u8(b, 2, game_state_code(state));
        assert(b.subrange(3, 4) =~= seq![players.len() as u8]);
        lemma_take_u8(b, 3, players.len() as u8);
        let n1 = lobby_players_bytes(players).len() as int;
        assert(b.subrange(4, 4 + n1) =~= lobby_players_bytes(players));
        lemma_parse_lobby_players_bytes(b, 4, players);
        assert((players.len() as u8) as nat == players.len());
    }
}

#[verifier::spinoff_prover]
#[verifier::rlimit(60)]
proof fn lemma_roundtrip_game_countdown(m: MessageView, rest: Seq<u8>)
    requires
        m is GameCountdown,
        message_well_formed(m),
    ensures
        parse_game_countdown(message_bytes(m) + rest, 2) == Ok::<MessageView, DecodeError>(m),
{
    let b = message_bytes(m) + rest;
    if let MessageView::GameCountdown { seconds_remaining } = m {
        assert(b.subrange(2, 3) =~= seq![seconds_remaining]);
        lemma_take_u8(b, 2, seconds_remaining);
    }
}

#[verifier::spinoff_prover]
#[verifier::rlimit(60)]
proof fn lemma_roundtrip_game_started(m: MessageView, rest: Seq<u8>)
    requires
        m is GameStarted,
        message_well_formed(m),
    ensures
        parse_game_started(message_bytes(m) + rest, 2) == Ok::<MessageView, DecodeError>(m),
{
    let b = message_bytes(m) + rest;
    if let MessageView::GameStarted { config, flag_status, flag_carrier_id, flag_x, flag_y, players } = m {
        let h = seq![0x24u8, PROTOCOL_VERSION];
        let c = config_bytes(config);
        let f = flag_bytes(flag_status, flag_carrier_id, flag_x, flag_y);
        let k = seq![players.len() as u8];
        let s = started_players_bytes(players);
        assert(c.len() == 22);
        assert(f.len() == 11);
        let x3 = h + c + f + k;
        assert(message_bytes(m) =~= x3 + s);
        lemma_subrange_concat(x3 + s, rest, 2, 24);
        lemma_subrange_concat(x3, s, 2, 24);
        lemma_subrange_concat(h + c + f, k, 2, 24);
        lemma_subrange_concat(h + c, f, 2, 24);
        lemma_subrange_concat(h, c, 2, 24);
        assert(c.subrange(0, 22) =~= c);
        lemma_parse_config_bytes(b, 2, config);
        lemma_subrange_concat(x3 + s, rest, 24, 35);
        lemma_subrange_concat(x3, s, 24, 35);
        lemma_subrange_concat(h + c + f, k, 24, 35);
        lemma_subrange_concat(h + c, f, 24, 35);
        assert(f.subrange(0, 11) =~= f);
        lemma_parse_flag_bytes(b, 24, flag_status, flag_carrier_id, flag_x, flag_y);
        lemma_subrange_concat(x3 + s, rest, 35, 36);
        lemma_subrange_concat(x3, s, 35, 36);
        lemma_subrange_concat(h + c + f, k, 35, 36);
        assert(k.subrange(0, 1) =~= k);
        lemma_take_u8(b, 35, players.len() as u8);
        let n = s.len() as int;
        lemma_subrange_concat(x3 + s, rest, 36, 36 + n);
        lemma_subrange_concat(x3, s, 36, 36 + n);
        assert(s.subrange(0, n) =~= s);
        lemma_parse_started_players_bytes(b, 36, players);
        assert((players.len() as u8) as nat == players.len());
    }
}

/// A range of a concatenation that lies in one part is that range of the
/// part.
proof fn lemma_subrange_concat(a: Seq<u8>, b: Seq<u8>, i: int, j: int)
    ensures
        0 <= i <= j <= a.len() ==> (a + b).subrange(i, j) == a.subrange(i, j),
        a.len() <= i <= j <= a.len() + b.len() ==> (a + b).subrange(i, j) == b.subrange(i - a.len(), j - a.len()),
{
    if 0 <= i <= j <= a.len() {
        assert((a + b).subrange(i, j) =~= a.subrange(i, j));
    }
    if a.len() <= i <= j <= a.len() + b.len() {
        assert((a + b).subrange(i, j) =~= b.subrange(i - a.len(), j - a.len()));
    }
}

#[verifier::spinoff_prover]
#[verifier::rlimit(60)]
proof fn lemma_roundtrip_game_state(m: MessageView, rest: Seq<u8>)
    requires
        m is GameStateMsg,
        message_well_formed(m),
    ensures
        parse_game_state(message_bytes(m) + rest, 2) == Ok::<MessageView, DecodeError>(m),
{
    let b = message_bytes(m) + rest;
    if let MessageView::GameStateMsg { tick, flag_status, flag_carrier_id, flag_x, flag_y, players } = m {
        assert(b.subrange(2, 6) =~= be_u32(tick));
        lemma_take_u32(b, 2, tick);
        assert(b.subrange(6, 17) =~= flag_bytes(flag_status, flag_carrier_id, flag_x, flag_y));
        lemma_parse_flag_bytes(b, 6, flag_status, flag_carrier_id, flag_x, flag_y);
        assert(b.subrange(17, 18) =~= seq![players.len() as u8]);
        lemma_take_u8(b, 17, players.len() as u8);
        let n = tick_players_bytes(players).len() as int;
        assert(b.subrange(18, 18 + n) =~= tick_players_bytes(players));
        lemma_parse_tick_players_bytes(b, 18, players);
        assert((players.len() as u8) as nat == players.len());
    }
}

#[verifier::spinoff_prover]
#[verifier::rlimit(60)]
proof fn lemma_parse_config_bytes(b: Seq<u8>, p: int, c: GameConfig)
    requires
        0 <= p,
        p + 22 <= b.len(),
        b.subrange(p, p + 22) == config_bytes(c),
    ensures
        parse_config_fields(b, p) == Ok::<(GameConfig, int), DecodeError>((received_config(c.map_size, c.circle_radius,
            c.player_radius, c.player_speed, c.interaction_radius, c.tick_interval_ms), p + 22)),
{
    let all = b.subrange(p, p + 22);
    assert(b.subrange(p, p + 4) =~= be_i32(c.map_size)) by { assert(b.subrange(p, p + 4) =~= all.subrange(0, 4)); }
    lemma_take_i32(b, p, c.map_size);
    assert(b.subrange(p + 4, p + 8) =~= be_i32(c.circle_radius)) by { assert(b.subrange(p + 4, p + 8) =~= all.subrange(4, 8)); }
    lemma_take_i32(b, p + 4, c.circle_radius);
    assert(b.subrange(p + 8, p + 12) =~= be_i32(c.player_radius)) by { assert(b.subrange(p + 8, p + 12) =~= all.subrange(8, 12)); }
    lemma_take_i32(b, p + 8, c.player_radius);
    assert(b.subrange(p + 12, p + 16) =~= be_i32(c.player_speed)) by { assert(b.subrange(p + 12, p + 16) =~= all.subrange(12, 16)); }
    lemma_take_i32(b, p + 12, c.player_speed);
    assert(b.subrange(p + 16, p + 20) =~= be_i32(c.interaction_radius)) by { assert(b.subrange(p + 16, p + 20) =~= all.subrange(16, 20)); }
    lemma_take_i32(b, p + 16, c.interaction_radius);
    assert(b.subrange(p + 20, p + 22) =~= be_u16(c.tick_interval_ms)) by { assert(b.subrange(p + 20, p + 22) =~= all.subrange(20, 22)); }
    lemma_take_u16(b, p + 20, c.tick_interval_ms);
}

#[verifier::spinoff_prover]
#[verifier::rlimit(60)]
proof fn lemma_parse_flag_bytes(b: Seq<u8>, p: int, s: FlagStatus, carrier: u16, x: i32, y: i32)
    requires
        0 <= p,
        p + 11 <= b.len(),
        b.subrange(p, p + 11) == flag_bytes(s, carrier, x, y),
    ensures
        parse_flag_fields(b, p) == Ok::<((FlagStatus, u16, i32, i32), int), DecodeError>(((s, carrier, x, y), p + 11)),
{
    let all = b.subrange(p, p + 11);
    assert(b.subrange(p, p + 1) =~= seq![flag_status_code(s)]) by { assert(b.subrange(p, p + 1) =~= all.subrange(0, 1)); }
    lemma_take_u8(b, p, flag_status_code(s));
    assert(b.subrange(p + 1, p + 3) =~= be_u16(carrier)) by { assert(b.subrange(p + 1, p + 3) =~= all.subrange(1, 3)); }
    lemma_take_u16(b, p + 1, carrier);
    assert(b.subrange(p + 3, p + 7) =~= be_i32(x)) by { assert(b.subrange(p + 3, p + 7) =~= all.subrange(3, 7)); }
    lemma_take_i32(b, p + 3, x);
    assert(b.subrange(p + 7, p + 11) =~= be_i32(y)) by { assert(b.subrange(p + 7, p + 11) =~= all.subrange(7, 11)); }
    lemma_take_i32(b, p + 7, y);
}

#[verifier::spinoff_prover]
#[verifier::rlimit(60)]
proof fn lemma_roundtrip_flag_picked_up(m: MessageView, rest: Seq<u8>)
    requires
        m is FlagPickedUp,
        message_well_formed(m),
    ensures
        parse_flag_picked_up(message_bytes(m) + rest, 2) == Ok::<MessageView, DecodeError>(m),
{
    let b = message_bytes(m) + rest;
    if let MessageView::FlagPickedUp { tick, player_id } = m {
        assert(b.subrange(2, 6) =~= be_u32(tick));
        lemma_take_u32(b, 2, tick);
        assert(b.subrange(6, 8) =~= be_u16(player_id));
        lemma_take_u16(b, 6, player_id);
    }
}

#[verifier::spinoff_prover]
#[verifier::rlimit(60)]
proof fn lemma_roundtrip_flag_stolen(m: MessageView, rest: Seq<u8>)
    requires
        m is FlagStolen,
        message_well_formed(m),
    ensures
        parse_flag_stolen(message_bytes(m) + rest, 2) == Ok::<MessageView, DecodeError>(m),
{
    let b = message_bytes(m) + rest;
    if let MessageView::FlagStolen { tick, previous_carrier_id, new_carrier_id } = m {
        assert(b.subrange(2, 6) =~= be_u32(tick));
        lemma_take_u32(b, 2, tick);
        assert(b.subrange(6, 8) =~= be_u16(previous_carrier_id));
        lemma_take_u16(b, 6, previous_carrier_id);
        assert(b.subrange(8, 10) =~= be_u16(new_carrier_id));
        lemma_take_u16(b, 8, new_carrier_id);
    }
}

#[verifier::spinoff_prover]
#[verifier::rlimit(60)]
proof fn lemma_roundtrip_player_disconnected(m: MessageView, rest: Seq<u8>)
    requires
        m is PlayerDisconnected,
        message_well_formed(m),
    ensures
        parse_player_disconnected(message_bytes(m) + rest, 2) == Ok::<MessageView, DecodeError>(m),
{
    let b = message_bytes(m) + rest;
    if let MessageView::PlayerDisconnected { player_id } = m {
        assert(b.subrange(2, 4) =~= be_u16(player_id));
        lemma_take_u16(b, 2, player_id);
    }
}

#[verifier::spinoff_prover]
#[verifier::rlimit(60)]
proof fn lemma_roundtrip_game_over(m: MessageView, rest: Seq<u8>)
    requires
        m is GameOver,
        message_well_formed(m),
    ensures
        parse_game_over(message_bytes(m) + rest, 2) == Ok::<MessageView, DecodeError>(m),
{
    let b = message_bytes(m) + rest;
    if let MessageView::GameOver { winner_id, winner_name, reason } = m {
        assert(b.subrange(2, 4) =~= be_u16(winner_id));
        lemma_take_u16(b, 2, winner_id);
        let n1 = str_field(winner_name).len() as int;
        assert(b.subrange(4, 4 + n1) =~= str_field(winner_name));
        lemma_take_str(b, 4, winner_name);
        assert(b.subrange(4 + n1, 5 + n1) =~= seq![game_over_reason_code(reason)]);
        lemma_take_u8(b, 4 + n1, game_over_reason_code(reason));
    }
}

#[verifier::spinoff_prover]
#[verifier::rlimit(60)]
proof fn lemma_roundtrip_error_msg(m: MessageView, rest: Seq<u8>)
    requires
        m is ErrorMsg,
        message_well_formed(m),
    ensures
        parse_error_msg(message_bytes(m) + rest, 2) == Ok::<MessageView, DecodeError>(m),
{
    let b = message_bytes(m) + rest;
    if let MessageView::ErrorMsg { code, description } = m {
        assert(b.subrange(2, 3) =~= seq![error_code_code(code)]);
        lemma_take_u8(b, 2, error_code_code(code));
        let n1 = str_field(description).len() as int;
        assert(b.subrange(3, 3 + n1) =~= str_field(description));
        lemma_take_str(b, 3, description);
    }
}

/// Decoding the encoding of a well-formed message, followed by any bytes,
/// gives the message back.
pub proof fn lemma_message_roundtrip(m: MessageView, rest: Seq<u8>)
    requires
        message_well_formed(m),
    ensures
        parse_message(message_bytes(m) + rest) == Ok::<MessageView, DecodeError>(m),
{
    lemma_header(m, rest);
    match m {
        MessageView::DiscoverRequest => {},
        MessageView::DiscoverResponse { .. } => lemma_roundtrip_discover_response(m, rest),
        MessageView::Join { .. } => lemma_roundtrip_join(m, rest),
        MessageView::Input { .. } => lemma_roundtrip_input(m, rest),
        MessageView::Interact { .. } => lemma_roundtrip_interact(m, rest),
        MessageView::Leave { .. } => lemma_roundtrip_leave(m, rest),
        MessageView::JoinAccepted { .. } => lemma_roundtrip_join_accepted(m, rest),
        MessageView::JoinRejected { .. } => lemma_roundtrip_join_rejected(m, rest),
        MessageView::LobbyState { .. } => lemma_roundtrip_lobby_state(m, rest),
        MessageView::GameCountdown { .. } => lemma_roundtrip_game_countdown(m, rest),
        MessageView::GameStarted { .. } => lemma_roundtrip_game_started(m, rest),
        MessageView::GameStateMsg { .. } => lemma_roundtrip_game_state(m, rest),
        MessageView::FlagPickedUp { .. } => lemma_roundtrip_flag_picked_up(m, rest),
        MessageView::FlagStolen { .. } => lemma_roundtrip_flag_stolen(m, rest),
        MessageView::PlayerDisconnected { .. } => lemma_roundtrip_player_disconnected(m, rest),
        MessageView::GameOver { .. } => lemma_roundtrip_game_over(m, rest),
        MessageView::ErrorMsg { .. } => lemma_roundtrip_error_msg(m, rest),
    }
}

// ---------------------------------------------------------------------------
// Readers
// ---------------------------------------------------------------------------

fn read_discover_response(r: &mut ByteReader) -> (res: Result<Message, DecodeError>)
    ensures
        final(r).data() == old(r).data(),
        match res {
            Ok(m) => parse_discover_response(old(r).data(), old(r).position()) == Ok::<MessageView, DecodeError>(m@),
            Err(e) => parse_discover_response(old(r).data(), old(r).position()) == Err::<MessageView, DecodeError>(e),
        },
{
    let game_id = r.read_u16()?;
    let server_name = r.read_str()?;
    let tcp_port = r.read_u16()?;
    let sv = r.read_u8()?;
    let state = match GameState::from_u8(sv) {
        Some(v) => v,
        None => return Err(DecodeError::InvalidGameState),
    };
    let player_count = r.read_u16()?;
    let maximum_players = r.read_u16()?;
    Ok(Message::DiscoverResponse { game_id, server_name, tcp_port, state, player_count, maximum_players })
}

fn read_join(r: &mut ByteReader) -> (res: Result<Message, DecodeError>)
    ensures
        final(r).data() == old(r).data(),
        match res {
            Ok(m) => parse_join(old(r).data(), old(r).position()) == Ok::<MessageView, DecodeError>(m@),
            Err(e) => parse_join(old(r).data(), old(r).position()) == Err::<MessageView, DecodeError>(e),
        },
{
    let name = r.read_str()?;
    Ok(Message::Join { name })
}

fn read_input(r: &mut ByteReader) -> (res: Result<Message, DecodeError>)
    ensures
        final(r).data() == old(r).data(),
        match res {
            Ok(m) => parse_input(old(r).data(), old(r).position()) == Ok::<MessageView, DecodeError>(m@),
            Err(e) => parse_input(old(r).data(), old(r).position()) == Err::<MessageView, DecodeError>(e),
        },
{
    let player_id = r.read_u16()?;
    let dv = r.read_u8()?;
    let direction = match Direction::from_u8(dv) {
        Some(v) => v,
        None => return Err(DecodeError::InvalidDirection),
    };
    Ok(Message::Input { player_id, direction })
}

fn read_interact(r: &mut ByteReader) -> (res: Result<Message, DecodeError>)
    ensures
        final(r).data() == old(r).data(),
        match res {
            Ok(m) => parse_interact(old(r).data(), old(r).position()) == Ok::<MessageView, DecodeError>(m@),
            Err(e) => parse_interact(old(r).data(), old(r).position()) == Err::<MessageView, DecodeError>(e),
        },
{
    let player_id = r.read_u16()?;
    Ok(Message::Interact { player_id })
}

fn read_leave(r: &mut ByteReader) -> (res: Result<Message, DecodeError>)
    ensures
        final(r).data() == old(r).data(),
        match res {
            Ok(m) => parse_leave(old(r).data(), old(r).position()) == Ok::<MessageView, DecodeError>(m@),
            Err(e) => parse_leave(old(r).data(), old(r).position()) == Err::<MessageView, DecodeError>(e),
        },
{
    let player_id = r.read_u16()?;
    Ok(Message::Leave { player_id })
}

fn read_join_accepted(r: &mut ByteReader) -> (res: Result<Message, DecodeError>)
    ensures
        final(r).data() == old(r).data(),
        match res {
            Ok(m) => parse_join_accepted(old(r).data(), old(r).position()) == Ok::<MessageView, DecodeError>(m@),
            Err(e) => parse_join_accepted(old(r).data(), old(r).position()) == Err::<MessageView, DecodeError>(e),
        },
{
    let player_id = r.read_u16()?;
    let game_id = r.read_u16()?;
    Ok(Message::JoinAccepted { player_id, game_id })
}

fn read_join_rejected(r: &mut ByteReader) -> (res: Result<Message, DecodeError>)
    ensures
        final(r).data() == old(r).data(),
        match res {
            Ok(m) => parse_join_rejected(old(r).data(), old(r).position()) == Ok::<MessageView, DecodeError>(m@),
            Err(e) => parse_join_rejected(old(r).data(), old(r).position()) == Err::<MessageView, DecodeError>(e),
        },
{
    let rv = r.read_u8()?;
    let reason = match JoinRejectReason::from_u8(rv) {
        Some(v) => v,
        None => return Err(DecodeError::InvalidJoinRejectReason),
    };
    Ok(Message::JoinRejected { reason })
}

fn read_lobby_state(r: &mut ByteReader) -> (res: Result<Message, DecodeError>)
    ensures
        final(r).data() == old(r).data(),
        match res {
            Ok(m) => parse_lobby_state(old(r).data(), old(r).position()) == Ok::<MessageView, DecodeError>(m@),
            Err(e) => parse_lobby_state(old(r).data(), old(r).position()) == Err::<MessageView, DecodeError>(e),
        },
{
    let sv = r.read_u8()?;
    let state = match GameState::from_u8(sv) {
        Some(v) => v,
        None => return Err(DecodeError::InvalidGameState),
    };
    let count = r.read_u8()?;
    let players = read_lobby_players(r, count)?;
    Ok(Message::LobbyState { state, players })
}

fn read_game_countdown(r: &mut ByteReader) -> (res: Result<Message, DecodeError>)
    ensures
        final(r).data() == old(r).data(),
        match res {
            Ok(m) => parse_game_countdown(old(r).data(), old(r).position()) == Ok::<MessageView, DecodeError>(m@),
            Err(e) => parse_game_countdown(old(r).data(), old(r).position()) == Err::<MessageView, DecodeError>(e),
        },
{
    let seconds_remaining = r.read_u8()?;
    Ok(Message::GameCountdown { seconds_remaining })
}

fn read_game_started(r: &mut ByteReader) -> (res: Result<Message, DecodeError>)
    ensures
        final(r).data() == old(r).data(),
        match res {
            Ok(m) => parse_game_started(old(r).data(), old(r).position()) == Ok::<MessageView, DecodeError>(m@),
            Err(e) => parse_game_started(old(r).data(), old(r).position()) == Err::<MessageView, DecodeError>(e),
        },
{
    let config = read_config_fields(r)?;
    let (flag_status, flag_carrier_id, flag_x, flag_y) = read_flag_fields(r)?;
    let count = r.read_u8()?;
    let players = read_started_players(r, count)?;
    Ok(Message::GameStarted { config, flag_status, flag_carrier_id, flag_x, flag_y, players })
}

fn read_config_fields(r: &mut ByteReader) -> (res: Result<GameConfig, DecodeError>)
    ensures
        final(r).data() == old(r).data(),
        match res {
            Ok(c) => parse_config_fields(old(r).data(), old(r).position()) == Ok::<(GameConfig, int), DecodeError>((c, final(r).position())),
            Err(e) => parse_config_fields(old(r).data(), old(r).position()) == Err::<(GameConfig, int), DecodeError>(e),
        },
{
    let map_size = r.read_i32()?;
    let circle_radius = r.read_i32()?;
    let player_radius = r.read_i32()?;
    let player_speed = r.read_i32()?;
    let interaction_radius = r.read_i32()?;
    let tick_interval_ms = r.read_u16()?;
    Ok(GameConfig {
        map_size,
        circle_radius,
        player_radius,
        spawn_margin: 8000,
        player_speed,
        interaction_radius,
        tick_interval_ms,
        countdown_seconds: 5,
        maximum_players: 100,
        server_port: 5000,
        discovery_port: 5001,
    })
}

fn read_flag_fields(r: &mut ByteReader) -> (res: Result<(FlagStatus, u16, i32, i32), DecodeError>)
    ensures
        final(r).data() == old(r).data(),
        match res {
            Ok(f) => parse_flag_fields(old(r).data(), old(r).position()) == Ok::<((FlagStatus, u16, i32, i32), int), DecodeError>((f, final(r).position())),
            Err(e) => parse_flag_fields(old(r).data(), old(r).position()) == Err::<((FlagStatus, u16, i32, i32), int), DecodeError>(e),
        },
{
    let fv = r.read_u8()?;
    let flag_status = match FlagStatus::from_u8(fv) {
        Some(v) => v,
        None => return Err(DecodeError::InvalidFlagStatus),
    };
    let flag_carrier_id = r.read_u16()?;
    let flag_x = r.read_i32()?;
    let flag_y = r.read_i32()?;
    Ok((flag_status, flag_carrier_id, flag_x, flag_y))
}

fn read_game_state(r: &mut ByteReader) -> (res: Result<Message, DecodeError>)
    ensures
        final(r).data() == old(r).data(),
        match res {
            Ok(m) => parse_game_state(old(r).data(), old(r).position()) == Ok::<MessageView, DecodeError>(m@),
            Err(e) => parse_game_state(old(r).data(), old(r).position()) == Err::<MessageView, DecodeError>(e),
        },
{
    let tick = r.read_u32()?;
    let (flag_status, flag_carrier_id, flag_x, flag_y) = read_flag_fields(r)?;
    let count = r.read_u8()?;
    let players = read_tick_players(r, count)?;
    Ok(Message::GameStateMsg { tick, flag_status, flag_carrier_id, flag_x, flag_y, players })
}

fn read_flag_picked_up(r: &mut ByteReader) -> (res: Result<Message, DecodeError>)
    ensures
        final(r).data() == old(r).data(),
        match res {
            Ok(m) => parse_flag_picked_up(old(r).data(), old(r).position()) == Ok::<MessageView, DecodeError>(m@),
            Err(e) => parse_flag_picked_up(old(r).data(), old(r).position()) == Err::<MessageView, DecodeError>(e),
        },
{
    let tick = r.read_u32()?;
    let player_id = r.read_u16()?;
    Ok(Message::FlagPickedUp { tick, player_id })
}

fn read_flag_stolen(r: &mut ByteReader) -> (res: Result<Message, DecodeError>)
    ensures
        final(r).data() == old(r).data(),
        match res {
            Ok(m) => parse_flag_stolen(old(r).data(), old(r).position()) == Ok::<MessageView, DecodeError>(m@),
            Err(e) => parse_flag_stolen(old(r).data(), old(r).position()) == Err::<MessageView, DecodeError>(e),
        },
{
    let tick = r.read_u32()?;
    let previous_carrier_id = r.read_u16()?;
    let new_carrier_id = r.read_u16()?;
    Ok(Message::FlagStolen { tick, previous_carrier_id, new_carrier_id })
}

fn read_player_disconnected(r: &mut ByteReader) -> (res: Result<Message, DecodeError>)
    ensures
        final(r).data() == old(r).data(),
        match res {
            Ok(m) => parse_player_disconnected(old(r).data(), old(r).position()) == Ok::<MessageView, DecodeError>(m@),
            Err(e) => parse_player_disconnected(old(r).data(), old(r).position()) == Err::<MessageView, DecodeError>(e),
        },
{
    let player_id = r.read_u16()?;
    Ok(Message::PlayerDisconnected { player_id })
}

fn read_game_over(r: &mut ByteReader) -> (res: Result<Message, DecodeError>)
    ensures
        final(r).data() == old(r).data(),
        match res {
            Ok(m) => parse_game_over(old(r).data(), old(r).position()) == Ok::<MessageView, DecodeError>(m@),
            Err(e) => parse_game_over(old(r).data(), old(r).position()) == Err::<MessageView, DecodeError>(e),
        },
{
    let winner_id = r.read_u16()?;
    let winner_name = r.read_str()?;
    let rv = r.read_u8()?;
    let reason = match GameOverReason::from_u8(rv) {
        Some(v) => v,
        None => return Err(DecodeError::InvalidGameOverReason),
    };
    Ok(Message::GameOver { winner_id, winner_name, reason })
}

fn read_error_msg(r: &mut ByteReader) -> (res: Result<Message, DecodeError>)
    ensures
        final(r).data() == old(r).data(),
        match res {
            Ok(m) => parse_error_msg(old(r).data(), old(r).position()) == Ok::<MessageView, DecodeError>(m@),
            Err(e) => parse_error_msg(old(r).data(), old(r).position()) == Err::<MessageView, DecodeError>(e),
        },
{
    let cv = r.read_u8()?;
    let code = match ErrorCode::from_u8(cv) {
        Some(v) => v,
        None => return Err(DecodeError::InvalidErrorCode),
    };
    let description = r.read_str()?;
    Ok(Message::ErrorMsg { code, description })
}

fn read_lobby_player(r: &mut ByteReader) -> (res: Result<LobbyPlayer, DecodeError>)
    ensures
        final(r).data() == old(r).data(),
        match res {
            Ok(m) => parse_lobby_player(old(r).data(), old(r).position()) == Ok::<(LobbyPlayerView, int), DecodeError>((m@, final(r).position())),
            Err(e) => parse_lobby_player(old(r).data(), old(r).position()) == Err::<(LobbyPlayerView, int), DecodeError>(e),
        },
{
    let player_id = r.read_u16()?;
    let name = r.read_str()?;
    Ok(LobbyPlayer { player_id, name })
}

fn read_started_player(r: &mut ByteReader) -> (res: Result<PlayerState, DecodeError>)
    ensures
        final(r).data() == old(r).data(),
        match res {
            Ok(m) => parse_started_player(old(r).data(), old(r).position()) == Ok::<(PlayerStateView, int), DecodeError>((m@, final(r).position())),
            Err(e) => parse_started_player(old(r).data(), old(r).position()) == Err::<(PlayerStateView, int), DecodeError>(e),
        },
{
    let player_id = r.read_u16()?;
    let name = r.read_str()?;
    let x = r.read_i32()?;
    let y = r.read_i32()?;
    let dv = r.read_u8()?;
    let direction = match Direction::from_u8(dv) {
        Some(v) => v,
        None => return Err(DecodeError::InvalidDirection),
    };
    let has_flag = r.read_bool()?;
    Ok(PlayerState { player_id, name, x, y, direction, has_flag })
}

fn read_tick_player(r: &mut ByteReader) -> (res: Result<PlayerState, DecodeError>)
    ensures
        final(r).data() == old(r).data(),
        match res {
            Ok(m) => parse_tick_player(old(r).data(), old(r).position()) == Ok::<(PlayerStateView, int), DecodeError>((m@, final(r).position())),
            Err(e) => parse_tick_player(old(r).data(), old(r).position()) == Err::<(PlayerStateView, int), DecodeError>(e),
        },
{
    let player_id = r.read_u16()?;
    let x = r.read_i32()?;
    let y = r.read_i32()?;
    let dv = r.read_u8()?;
    let direction = match Direction::from_u8(dv) {
        Some(v) => v,
        None => return Err(DecodeError::InvalidDirection),
    };
    let has_flag = r.read_bool()?;
    Ok(PlayerState { player_id, name: String::new(), x, y, direction, has_flag })
}

/// A failure in the first `k` entries is the failure of the first `n >= k`.
proof fn lemma_parse_lobby_players_err(b: Seq<u8>, pos: int, k: nat, n: nat)
    requires
        k <= n,
        parse_lobby_players(b, pos, k) is Err,
    ensures
        parse_lobby_players(b, pos, n) == parse_lobby_players(b, pos, k),
    decreases n,
{
    if n > k {
        lemma_parse_lobby_players_err(b, pos, k, (n - 1) as nat);
    }
}

fn read_lobby_players(r: &mut ByteReader, count: u8) -> (res: Result<Vec<LobbyPlayer>, DecodeError>)
    ensures
        final(r).data() == old(r).data(),
        match res {
            Ok(ps) => parse_lobby_players(old(r).data(), old(r).position(), count as nat)
                == Ok::<(Seq<LobbyPlayerView>, int), DecodeError>((lobby_views(ps@), final(r).position())),
            Err(e) => parse_lobby_players(old(r).data(), old(r).position(), count as nat)
                == Err::<(Seq<LobbyPlayerView>, int), DecodeError>(e),
        },
{
    let ghost b = r.data();
    let ghost p0 = r.position();
    let mut players: Vec<LobbyPlayer> = Vec::with_capacity(count as usize);
    proof {
        assert(lobby_views(players@) =~= Seq::empty());
    }
    let mut i: u8 = 0;
    while i < count
        invariant
            i <= count,
            r.data() == b,
            b == old(r).data(),
            p0 == old(r).position(),
            parse_lobby_players(b, p0, i as nat) == Ok::<(Seq<LobbyPlayerView>, int), DecodeError>((lobby_views(players@), r.position())),
        decreases count - i,
    {
        let ghost before = players@;
        match read_lobby_player(r) {
            Ok(x) => {
                players.push(x);
                proof {
                    assert(lobby_views(players@) =~= lobby_views(before).push(x@));
                }
            },
            Err(e) => {
                proof {
                    lemma_parse_lobby_players_err(b, p0, (i + 1) as nat, count as nat);
                }
                return Err(e);
            },
        }
        i = i + 1;
    }
    Ok(players)
}

/// A failure in the first `k` entries is the failure of the first `n >= k`.
proof fn lemma_parse_started_players_err(b: Seq<u8>, pos: int, k: nat, n: nat)
    requires
        k <= n,
        parse_started_players(b, pos, k) is Err,
    ensures
        parse_started_players(b, pos, n) == parse_started_players(b, pos, k),
    decreases n,
{
    if n > k {
        lemma_parse_started_players_err(b, pos, k, (n - 1) as nat);
    }
}

fn read_started_players(r: &mut ByteReader, count: u8) -> (res: Result<Vec<PlayerState>, DecodeError>)
    ensures
        final(r).data() == old(r).data(),
        match res {
            Ok(ps) => parse_started_players(old(r).data(), old(r).position(), count as nat)
                == Ok::<(Seq<PlayerStateView>, int), DecodeError>((player_views(ps@), final(r).position())),
            Err(e) => parse_started_players(old(r).data(), old(r).position(), count as nat)
                == Err::<(Seq<PlayerStateView>, int), DecodeError>(e),
        },
{
    let ghost b = r.data();
    let ghost p0 = r.position();
    let mut players: Vec<PlayerState> = Vec::with_capacity(count as usize);
    proof {
        assert(player_views(players@) =~= Seq::empty());
    }
    let mut i: u8 = 0;
    while i < count
        invariant
            i <= count,
            r.data() == b,
            b == old(r).data(),
            p0 == old(r).position(),
            parse_started_players(b, p0, i as nat) == Ok::<(Seq<PlayerStateView>, int), DecodeError>((player_views(players@), r.position())),
        decreases count - i,
    {
        let ghost before = players@;
        match read_started_player(r) {
            Ok(x) => {
                players.push(x);
                proof {
                    assert(player_views(players@) =~= player_views(before).push(x@));
                }
            },
            Err(e) => {
                proof {
                    lemma_parse_started_players_err(b, p0, (i + 1) as nat, count as nat);
                }
                return Err(e);
            },
        }
        i = i + 1;
    }
    Ok(players)
}

/// A failure in the first `k` entries is the failure of the first `n >= k`.
proof fn lemma_parse_tick_players_err(b: Seq<u8>, pos: int, k: nat, n: nat)
    requires
        k <= n,
        parse_tick_players(b, pos, k) is Err,
    ensures
        parse_tick_players(b, pos, n) == parse_tick_players(b, pos, k),
    decreases n,
{
    if n > k {
        lemma_parse_tick_players_err(b, pos, k, (n - 1) as nat);
    }
}

fn read_tick_players(r: &mut ByteReader, count: u8) -> (res: Result<Vec<PlayerState>, DecodeError>)
    ensures
        final(r).data() == old(r).data(),
        match res {
            Ok(ps) => parse_tick_players(old(r).data(), old(r).position(), count as nat)
                == Ok::<(Seq<PlayerStateView>, int), DecodeError>((player_views(ps@), final(r).position())),
            Err(e) => parse_tick_players(old(r).data(), old(r).position(), count as nat)
                == Err::<(Seq<PlayerStateView>, int), DecodeError>(e),
        },
{
    let ghost b = r.data();
    let ghost p0 = r.position();
    let mut players: Vec<PlayerState> = Vec::with_capacity(count as usize);
    proof {
        assert(player_views(players@) =~= Seq::empty());
    }
    let mut i: u8 = 0;
    while i < count
        invariant
            i <= count,
            r.data() == b,
            b == old(r).data(),
            p0 == old(r).position(),
            parse_tick_players(b, p0, i as nat) == Ok::<(Seq<PlayerStateView>, int), DecodeError>((player_views(players@), r.position())),
        decreases count - i,
    {
        let ghost before = players@;
        match read_tick_player(r) {
            Ok(x) => {
                players.push(x);
                proof {
                    assert(player_views(players@) =~= player_views(before).push(x@));
                }
            },
            Err(e) => {
                proof {
                    lemma_parse_tick_players_err(b, p0, (i + 1) as nat, count as nat);
                }
                return Err(e);
            },
        }
        i = i + 1;
    }
    Ok(players)
}

impl Message {
    /// Decodes a message received from the network. Bytes after the
    /// message are ignored.
    pub fn deserialize(buf: &[u8]) -> (res: Result<Message, DecodeError>)
        ensures
            match res {
                Ok(m) => parse_message(buf@) == Ok::<MessageView, DecodeError>(m@),
                Err(e) => parse_message(buf@) == Err::<MessageView, DecodeError>(e),
            },
    {
        let mut r = ByteReader::new(buf);
        let msg_type = r.read_u8()?;
        let version = r.read_u8()?;
        if version != PROTOCOL_VERSION {
            return Err(DecodeError::UnsupportedVersion(version));
        }
        match msg_type {
            0x01 => Ok(Message::DiscoverRequest),
            0x02 => read_discover_response(&mut r),
            0x10 => read_join(&mut r),
            0x11 => read_input(&mut r),
            0x12 => read_interact(&mut r),
            0x13 => read_leave(&mut r),
            0x20 => read_join_accepted(&mut r),
            0x21 => read_join_rejected(&mut r),
            0x22 => read_lobby_state(&mut r),
            0x23 => read_game_countdown(&mut r),
            0x24 => read_game_started(&mut r),
            0x25 => read_game_state(&mut r),
            0x26 => read_flag_picked_up(&mut r),
            0x27 => read_flag_stolen(&mut r),
            0x28 => read_player_disconnected(&mut r),
            0x29 => read_game_over(&mut r),
            0x2A => read_error_msg(&mut r),
            _ => Err(DecodeError::UnknownMessageType(msg_type)),
        }
    }
}

} // verus!
