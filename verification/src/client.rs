//! The client's view of a session, and how each event changes it.
//!
//! A background loop owns the connection; it hands every message received
//! from the server to [`ClientStateSnapshot::apply_server_message`], and
//! turns every user command into a message with [`command_message`].
use vstd::prelude::*;
use std::collections::HashMap;
use crate::protocol::{lobby_views, player_views, Message, MessageView};
use crate::text::{
    decimal, decimal_string, error_code_name, error_code_text, join_reject_reason_name,
    join_reject_reason_text, push_line, texts,
};
use crate::types::{
    default_config, Direction, FlagStatus, GameConfig, GameState, LobbyPlayer, LobbyPlayerView,
    PlayerState, PlayerStateView,
};

verus! {

broadcast use vstd::std_specs::hash::group_hash_axioms;

/// What the user asks the client loop to do.
#[derive(Debug, Clone, Copy, PartialEq, Eq, Structural)]
pub enum ClientCommand {
    SendInput(Direction),
    SendInteract,
    Leave,
}

/// The message that carries a command of the player `player_id`.
pub open spec fn command_message_view(cmd: ClientCommand, player_id: u16) -> MessageView {
    match cmd {
        ClientCommand::SendInput(direction) => MessageView::Input { player_id, direction },
        ClientCommand::SendInteract => MessageView::Interact { player_id },
        ClientCommand::Leave => MessageView::Leave { player_id },
    }
}

/// The message to send for a command of the player `player_id`.
pub fn command_message(cmd: ClientCommand, player_id: u16) -> (m: Message)
    ensures
        m@ == command_message_view(cmd, player_id),
{
    match cmd {
        ClientCommand::SendInput(direction) => Message::Input { player_id, direction },
        ClientCommand::SendInteract => Message::Interact { player_id },
        ClientCommand::Leave => Message::Leave { player_id },
    }
}

/// The command, if any, that a change of the held direction from `active`
/// to `dir` sends: an input only when the direction changes.
pub fn direction_command(active: Direction, dir: Direction) -> (c: Option<ClientCommand>)
    ensures
        c == (if active != dir { Some(ClientCommand::SendInput(dir)) } else { None::<ClientCommand> }),
{
    if active != dir {
        Some(ClientCommand::SendInput(dir))
    } else {
        None
    }
}

/// Everything the client knows about its session. Positions are in
/// hundredths of a world unit, as received.
#[derive(Debug, Clone)]
pub struct ClientStateSnapshot {
    pub connected: bool,
    pub player_id: u16,
    pub game_id: u16,
    pub game_state: GameState,
    pub lobby_players: Vec<LobbyPlayer>,
    pub countdown_seconds: u8,
    pub config: GameConfig,
    pub flag_status: FlagStatus,
    pub flag_carrier_id: u16,
    pub flag_x: i32,
    pub flag_y: i32,
    pub tick: u32,
    pub players: Vec<PlayerState>,
    pub player_names: HashMap<u16, String>,
    pub winner_id: Option<u16>,
    pub winner_name: String,
    pub error_msg: Option<String>,
    pub logs: Vec<String>,
    pub server_name: String,
    pub server_ip: String,
}

/// Abstract value of a snapshot.
#[verifier::ext_equal]
pub struct ClientView {
    pub connected: bool,
    pub player_id: u16,
    pub game_id: u16,
    pub game_state: GameState,
    pub lobby_players: Seq<LobbyPlayerView>,
    pub countdown_seconds: u8,
    pub config: GameConfig,
    pub flag_status: FlagStatus,
    pub flag_carrier_id: u16,
    pub flag_x: i32,
    pub flag_y: i32,
    pub tick: u32,
    pub players: Seq<PlayerStateView>,
    pub player_names: Map<u16, Seq<char>>,
    pub winner_id: Option<u16>,
    pub winner_name: Seq<char>,
    pub error_msg: Option<Seq<char>>,
    pub logs: Seq<Seq<char>>,
    pub server_name: Seq<char>,
    pub server_ip: Seq<char>,
}

/// Names by player id, as text.
pub open spec fn names_view(m: Map<u16, String>) -> Map<u16, Seq<char>> {
    m.map_values(|s: String| s@)
}

pub open spec fn opt_text(o: Option<String>) -> Option<Seq<char>> {
    match o {
        Some(s) => Some(s@),
        None => None,
    }
}

impl View for ClientStateSnapshot {
    type V = ClientView;

    open spec fn view(&self) -> ClientView {
        ClientView {
            connected: self.connected,
            player_id: self.player_id,
            game_id: self.game_id,
            game_state: self.game_state,
            lobby_players: lobby_views(self.lobby_players@),
            countdown_seconds: self.countdown_seconds,
            config: self.config,
            flag_status: self.flag_status,
            flag_carrier_id: self.flag_carrier_id,
            flag_x: self.flag_x,
            flag_y: self.flag_y,
            tick: self.tick,
            players: player_views(self.players@),
            player_names: names_view(self.player_names@),
            winner_id: self.winner_id,
            winner_name: self.winner_name@,
            error_msg: opt_text(self.error_msg),
            logs: texts(self.logs@),
            server_name: self.server_name@,
            server_ip: self.server_ip@,
        }
    }
}

// ---------------------------------------------------------------------------
// The effect of a server message
// ---------------------------------------------------------------------------

/// The name known for a player, or `ID <n>` when none is known.
pub open spec fn name_or_id(names: Map<u16, Seq<char>>, id: u16) -> Seq<char> {
    if names.contains_key(id) {
        names[id]
    } else {
        "ID "@ + decimal(id as nat)
    }
}

/// Names of a lobby list; a later entry for an id wins.
pub open spec fn lobby_names(ps: Seq<LobbyPlayerView>) -> Map<u16, Seq<char>>
    decreases ps.len(),
{
    if ps.len() == 0 {
        Map::empty()
    } else {
        lobby_names(ps.drop_last()).insert(ps.last().player_id, ps.last().name)
    }
}

/// Known names with those of a player list added; a later entry wins.
pub open spec fn names_with_players(names: Map<u16, Seq<char>>, ps: Seq<PlayerStateView>) -> Map<u16, Seq<char>>
    decreases ps.len(),
{
    if ps.len() == 0 {
        names
    } else {
        names_with_players(names, ps.drop_last()).insert(ps.last().player_id, ps.last().name)
    }
}

/// A player of a state update with its known name filled in.
pub open spec fn named_player(names: Map<u16, Seq<char>>, p: PlayerStateView) -> PlayerStateView {
    if names.contains_key(p.player_id) {
        PlayerStateView { name: names[p.player_id], ..p }
    } else {
        p
    }
}

pub open spec fn named_players(names: Map<u16, Seq<char>>, ps: Seq<PlayerStateView>) -> Seq<PlayerStateView> {
    ps.map_values(|p: PlayerStateView| named_player(names, p))
}

/// The snapshot after receiving `m`.
pub open spec fn after_message(v: ClientView, m: MessageView) -> ClientView {
    match m {
        MessageView::LobbyState { state, players } =>
            ClientView { game_state: state, lobby_players: players, player_names: lobby_names(players), ..v },
        MessageView::GameCountdown { seconds_remaining } => ClientView {
            game_state: GameState::Starting,
            countdown_seconds: seconds_remaining,
            logs: v.logs.push("Countdown: "@ + decimal(seconds_remaining as nat)),
            ..v
        },
        MessageView::GameStarted { config, flag_status, flag_carrier_id, flag_x, flag_y, players } => ClientView {
            game_state: GameState::Running,
            config,
            flag_status,
            flag_carrier_id,
            flag_x,
            flag_y,
            players,
            player_names: names_with_players(v.player_names, players),
            logs: v.logs.push("Match started!"@),
            ..v
        },
        MessageView::GameStateMsg { tick, flag_status, flag_carrier_id, flag_x, flag_y, players } =>
            if tick >= v.tick {
                ClientView {
                    tick,
                    flag_status,
                    flag_carrier_id,
                    flag_x,
                    flag_y,
                    players: named_players(v.player_names, players),
                    ..v
                }
            } else {
                v
            },
        MessageView::FlagPickedUp { player_id, .. } => ClientView {
            logs: v.logs.push("Flag picked up by "@ + name_or_id(v.player_names, player_id) + "!"@),
            ..v
        },
        MessageView::FlagStolen { previous_carrier_id, new_carrier_id, .. } => ClientView {
            logs: v.logs.push(
                "Flag stolen by "@ + name_or_id(v.player_names, new_carrier_id) + " from "@
                    + name_or_id(v.player_names, previous_carrier_id) + "!"@,
            ),
            ..v
        },
        MessageView::PlayerDisconnected { player_id } => ClientView {
            player_names: v.player_names.remove(player_id),
            players: v.players.filter(|p: PlayerStateView| p.player_id != player_id),
            lobby_players: v.lobby_players.filter(|p: LobbyPlayerView| p.player_id != player_id),
            logs: v.logs.push("Player "@ + name_or_id(v.player_names, player_id) + " disconnected."@),
            ..v
        },
        MessageView::GameOver { winner_id, winner_name, .. } => ClientView {
            game_state: GameState::Finished,
            winner_id: Some(winner_id),
            winner_name,
            logs: v.logs.push("WINNER: "@ + winner_name + "!"@),
            ..v
        },
        MessageView::ErrorMsg { code, description } => ClientView {
            logs: v.logs.push("Server Error ("@ + error_code_text(code) + "): "@ + description),
            ..v
        },
        _ => v,
    }
}

/// The name known for `id`, or `ID <id>`.
fn lookup_name(names: &HashMap<u16, String>, id: u16) -> (s: String)
    ensures
        s@ == name_or_id(names_view(names@), id),
{
    match names.get(&id) {
        Some(n) => n.clone(),
        None => String::from_str("ID ").concat(decimal_string(id as u32).as_str()),
    }
}

fn copy_lobby(ps: &Vec<LobbyPlayer>) -> (r: Vec<LobbyPlayer>)
    ensures
        lobby_views(r@) == lobby_views(ps@),
{
    let mut r: Vec<LobbyPlayer> = Vec::new();
    let mut i: usize = 0;
    while i < ps.len()
        invariant
            i <= ps@.len(),
            lobby_views(r@) == lobby_views(ps@).take(i as int),
        decreases ps@.len() - i,
    {
        let ghost before = r@;
        r.push(ps[i].duplicate());
        assert(lobby_views(r@) =~= lobby_views(before).push(ps@[i as int]@));
        i = i + 1;
        assert(lobby_views(r@) =~= lobby_views(ps@).take(i as int));
    }
    assert(lobby_views(ps@).take(ps@.len() as int) =~= lobby_views(ps@));
    r
}

fn copy_players(ps: &Vec<PlayerState>) -> (r: Vec<PlayerState>)
    ensures
        player_views(r@) == player_views(ps@),
{
    let mut r: Vec<PlayerState> = Vec::new();
    let mut i: usize = 0;
    while i < ps.len()
        invariant
            i <= ps@.len(),
            player_views(r@) == player_views(ps@).take(i as int),
        decreases ps@.len() - i,
    {
        let ghost before = r@;
        r.push(ps[i].duplicate());
        assert(player_views(r@) =~= player_views(before).push(ps@[i as int]@));
        i = i + 1;
        assert(player_views(r@) =~= player_views(ps@).take(i as int));
    }
    assert(player_views(ps@).take(ps@.len() as int) =~= player_views(ps@));
    r
}

fn names_of_lobby(ps: &Vec<LobbyPlayer>) -> (m: HashMap<u16, String>)
    ensures
        names_view(m@) == lobby_names(lobby_views(ps@)),
{
    let mut m: HashMap<u16, String> = HashMap::new();
    let mut i: usize = 0;
    assert(names_view(m@) =~= lobby_names(lobby_views(ps@).take(0)));
    while i < ps.len()
        invariant
            i <= ps@.len(),
            names_view(m@) == lobby_names(lobby_views(ps@).take(i as int)),
        decreases ps@.len() - i,
    {
        let ghost before = m@;
        m.insert(ps[i].player_id, ps[i].name.clone());
        proof {
            let vs = lobby_views(ps@);
            assert(vs.take(i + 1).drop_last() =~= vs.take(i as int));
            assert(names_view(m@) =~= names_view(before).insert(vs[i as int].player_id, vs[i as int].name));
        }
        i = i + 1;
    }
    assert(lobby_views(ps@).take(ps@.len() as int) =~= lobby_views(ps@));
    m
}

fn add_player_names(m: &mut HashMap<u16, String>, ps: &Vec<PlayerState>)
    ensures
        names_view(final(m)@) == names_with_players(names_view(old(m)@), player_views(ps@)),
{
    let mut i: usize = 0;
    assert(player_views(ps@).take(0) =~= Seq::<PlayerStateView>::empty());
    while i < ps.len()
        invariant
            i <= ps@.len(),
            names_view(m@) == names_with_players(names_view(old(m)@), player_views(ps@).take(i as int)),
        decreases ps@.len() - i,
    {
        let ghost before = m@;
        m.insert(ps[i].player_id, ps[i].name.clone());
        proof {
            let vs = player_views(ps@);
            assert(vs.take(i + 1).drop_last() =~= vs.take(i as int));
            assert(names_view(m@) =~= names_view(before).insert(vs[i as int].player_id, vs[i as int].name));
        }
        i = i + 1;
    }
    assert(player_views(ps@).take(ps@.len() as int) =~= player_views(ps@));
}

fn name_players(names: &HashMap<u16, String>, ps: Vec<PlayerState>) -> (r: Vec<PlayerState>)
    ensures
        player_views(r@) == named_players(names_view(names@), player_views(ps@)),
{
    let mut r: Vec<PlayerState> = Vec::new();
    let mut i: usize = 0;
    while i < ps.len()
        invariant
            i <= ps@.len(),
            player_views(r@) == named_players(names_view(names@), player_views(ps@)).take(i as int),
        decreases ps@.len() - i,
    {
        let ghost before = r@;
        let mut p = ps[i].duplicate();
        match names.get(&p.player_id) {
            Some(n) => {
                p.name = n.clone();
            },
            None => {},
        }
        r.push(p);
        assert(player_views(r@) =~= player_views(before).push(named_player(names_view(names@), ps@[i as int]@)));
        i = i + 1;
        assert(player_views(r@) =~= named_players(names_view(names@), player_views(ps@)).take(i as int));
    }
    assert(named_players(names_view(names@), player_views(ps@)).take(ps@.len() as int)
        =~= named_players(names_view(names@), player_views(ps@)));
    r
}

fn players_without(ps: &Vec<PlayerState>, id: u16) -> (r: Vec<PlayerState>)
    ensures
        player_views(r@) == player_views(ps@).filter(|p: PlayerStateView| p.player_id != id),
{
    let ghost pred = |p: PlayerStateView| p.player_id != id;
    let mut r: Vec<PlayerState> = Vec::new();
    let mut i: usize = 0;
    assert(player_views(ps@).take(0).filter(pred) =~= Seq::<PlayerStateView>::empty()) by {
        reveal_with_fuel(Seq::<_>::filter, 1);
    }
    while i < ps.len()
        invariant
            i <= ps@.len(),
            pred == (|p: PlayerStateView| p.player_id != id),
            player_views(r@) == player_views(ps@).take(i as int).filter(pred),
        decreases ps@.len() - i,
    {
        let ghost before = r@;
        proof {
            reveal_with_fuel(Seq::<_>::filter, 1);
            let vs = player_views(ps@);
            assert(vs.take(i + 1).drop_last() =~= vs.take(i as int));
        }
        if ps[i].player_id != id {
            r.push(ps[i].duplicate());
            assert(player_views(r@) =~= player_views(before).push(ps@[i as int]@));
        }
        i = i + 1;
    }
    assert(player_views(ps@).take(ps@.len() as int) =~= player_views(ps@));
    r
}

fn lobby_without(ps: &Vec<LobbyPlayer>, id: u16) -> (r: Vec<LobbyPlayer>)
    ensures
        lobby_views(r@) == lobby_views(ps@).filter(|p: LobbyPlayerView| p.player_id != id),
{
    let ghost pred = |p: LobbyPlayerView| p.player_id != id;
    let mut r: Vec<LobbyPlayer> = Vec::new();
    let mut i: usize = 0;
    assert(lobby_views(ps@).take(0).filter(pred) =~= Seq::<LobbyPlayerView>::empty()) by {
        reveal_with_fuel(Seq::<_>::filter, 1);
    }
    while i < ps.len()
        invariant
            i <= ps@.len(),
            pred == (|p: LobbyPlayerView| p.player_id != id),
            lobby_views(r@) == lobby_views(ps@).take(i as int).filter(pred),
        decreases ps@.len() - i,
    {
        let ghost before = r@;
        proof {
            reveal_with_fuel(Seq::<_>::filter, 1);
            let vs = lobby_views(ps@);
            assert(vs.take(i + 1).drop_last() =~= vs.take(i as int));
        }
        if ps[i].player_id != id {
            r.push(ps[i].duplicate());
            assert(lobby_views(r@) =~= lobby_views(before).push(ps@[i as int]@));
        }
        i = i + 1;
    }
    assert(lobby_views(ps@).take(ps@.len() as int) =~= lobby_views(ps@));
    r
}

/// The snapshot before any answer from the server at `target_ip`:
/// disconnected, waiting, default configuration, and one log line.
pub open spec fn initial_view(target_ip: Seq<char>, target_port: u16, server_name: Seq<char>) -> ClientView {
    ClientView {
        connected: false,
        player_id: 0,
        game_id: 0,
        game_state: GameState::Waiting,
        lobby_players: Seq::empty(),
        countdown_seconds: 0,
        config: default_config(),
        flag_status: FlagStatus::Available,
        flag_carrier_id: 0,
        flag_x: 0,
        flag_y: 0,
        tick: 0,
        players: Seq::empty(),
        player_names: Map::empty(),
        winner_id: None,
        winner_name: Seq::empty(),
        error_msg: None,
        logs: seq!["Connecting to "@ + target_ip + ":"@ + decimal(target_port as nat) + "..."@],
        server_name,
        server_ip: target_ip + ":"@ + decimal(target_port as nat),
    }
}

/// The snapshot after the server's answer to our join: accepted gives our
/// ids and a log line; a rejection or any other message records an error.
pub open spec fn after_join_response(v: ClientView, m: MessageView) -> ClientView {
    match m {
        MessageView::JoinAccepted { player_id, game_id } => ClientView {
            connected: true,
            player_id,
            game_id,
            logs: v.logs.push("Joined server successfully! ID: "@ + decimal(player_id as nat)),
            ..v
        },
        MessageView::JoinRejected { reason } => ClientView {
            error_msg: Some("Join rejected by server: "@ + join_reject_reason_text(reason)),
            ..v
        },
        _ => ClientView { error_msg: Some("Unexpected initial server response"@), ..v },
    }
}

impl ClientStateSnapshot {
    /// The snapshot of a client that starts connecting to
    /// `target_ip:target_port`.
    pub fn new(target_ip: &str, target_port: u16, server_name: String) -> (s: Self)
        ensures
            s@ == initial_view(target_ip@, target_port, server_name@),
    {
        let port = decimal_string(target_port as u32);
        let server_ip = String::from_str(target_ip).concat(":").concat(port.as_str());
        let line = String::from_str("Connecting to ").concat(server_ip.as_str()).concat("...");
        assert(line@ =~= "Connecting to "@ + target_ip@ + ":"@ + decimal(target_port as nat) + "..."@);
        let mut logs: Vec<String> = Vec::new();
        logs.push(line);
        let s = ClientStateSnapshot {
            connected: false,
            player_id: 0,
            game_id: 0,
            game_state: GameState::Waiting,
            lobby_players: Vec::new(),
            countdown_seconds: 0,
            config: GameConfig::default(),
            flag_status: FlagStatus::Available,
            flag_carrier_id: 0,
            flag_x: 0,
            flag_y: 0,
            tick: 0,
            players: Vec::new(),
            player_names: HashMap::new(),
            winner_id: None,
            winner_name: String::new(),
            error_msg: None,
            logs,
            server_name,
            server_ip,
        };
        proof {
            assert(lobby_views(s.lobby_players@) =~= Seq::<LobbyPlayerView>::empty());
            assert(player_views(s.players@) =~= Seq::<PlayerStateView>::empty());
            assert(names_view(s.player_names@) =~= Map::<u16, Seq<char>>::empty());
            assert(texts(s.logs@) =~= initial_view(target_ip@, target_port, server_name@).logs);
            assert(s@ =~= initial_view(target_ip@, target_port, server_name@));
        }
        s
    }

    /// Takes in the server's answer to our join. Returns whether we joined.
    pub fn apply_join_response(&mut self, msg: Message) -> (joined: bool)
        ensures
            final(self)@ == after_join_response(old(self)@, msg@),
            joined == (msg@ is JoinAccepted),
    {
        match msg {
            Message::JoinAccepted { player_id, game_id } => {
                self.connected = true;
                self.player_id = player_id;
                self.game_id = game_id;
                let line = String::from_str("Joined server successfully! ID: ").concat(decimal_string(player_id as u32).as_str());
                push_line(&mut self.logs, line);
                proof { assert(self@ =~= after_join_response(old(self)@, msg@)); }
                true
            },
            Message::JoinRejected { reason } => {
                self.error_msg = Some(String::from_str("Join rejected by server: ").concat(join_reject_reason_name(reason)));
                proof { assert(self@ =~= after_join_response(old(self)@, msg@)); }
                false
            },
            _ => {
                self.error_msg = Some(String::from_str("Unexpected initial server response"));
                proof { assert(self@ =~= after_join_response(old(self)@, msg@)); }
                false
            },
        }
    }

    /// Records that we left the game.
    pub fn mark_left(&mut self)
        ensures
            final(self)@ == (ClientView { connected: false, logs: old(self)@.logs.push("Left game."@), ..old(self)@ }),
    {
        self.connected = false;
        push_line(&mut self.logs, String::from_str("Left game."));
        proof { assert(self@ =~= (ClientView { connected: false, logs: old(self)@.logs.push("Left game."@), ..old(self)@ })); }
    }

    /// Records that the connection to the server was lost.
    pub fn mark_connection_lost(&mut self)
        ensures
            final(self)@ == (ClientView { connected: false, error_msg: Some("Connection lost to server"@), ..old(self)@ }),
    {
        self.connected = false;
        self.error_msg = Some(String::from_str("Connection lost to server"));
        proof { assert(self@ =~= (ClientView { connected: false, error_msg: Some("Connection lost to server"@), ..old(self)@ })); }
    }

    /// Records a failure of the client loop: the first error is kept, and
    /// the client is no longer connected.
    pub fn record_error(&mut self, error: String)
        ensures
            final(self)@ == (ClientView {
                connected: false,
                error_msg: if old(self)@.error_msg is None { Some(error@) } else { old(self)@.error_msg },
                ..old(self)@
            }),
    {
        if self.error_msg.is_none() {
            self.error_msg = Some(error);
        }
        self.connected = false;
        proof {
            assert(self@ =~= (ClientView {
                connected: false,
                error_msg: if old(self)@.error_msg is None { Some(error@) } else { old(self)@.error_msg },
                ..old(self)@
            }));
        }
    }

    /// Takes in a message received from the server while in a session.
    pub fn apply_server_message(&mut self, msg: Message)
        ensures
            final(self)@ == after_message(old(self)@, msg@),
    {
        match msg {
            Message::LobbyState { state, players } => {
                self.game_state = state;
                self.lobby_players = copy_lobby(&players);
                self.player_names = names_of_lobby(&players);
            },
            Message::GameCountdown { seconds_remaining } => {
                self.game_state = GameState::Starting;
                self.countdown_seconds = seconds_remaining;
                let line = String::from_str("Countdown: ").concat(decimal_string(seconds_remaining as u32).as_str());
                push_line(&mut self.logs, line);
            },
            Message::GameStarted { config, flag_status, flag_carrier_id, flag_x, flag_y, players } => {
                self.game_state = GameState::Running;
                self.config = config;
                self.flag_status = flag_status;
                self.flag_carrier_id = flag_carrier_id;
                self.flag_x = flag_x;
                self.flag_y = flag_y;
                self.players = copy_players(&players);
                add_player_names(&mut self.player_names, &players);
                push_line(&mut self.logs, String::from_str("Match started!"));
            },
            Message::GameStateMsg { tick, flag_status, flag_carrier_id, flag_x, flag_y, players } => {
                if tick >= self.tick {
                    self.tick = tick;
                    self.flag_status = flag_status;
                    self.flag_carrier_id = flag_carrier_id;
                    self.flag_x = flag_x;
                    self.flag_y = flag_y;
                    self.players = name_players(&self.player_names, players);
                }
            },
            Message::FlagPickedUp { tick: _, player_id } => {
                let name = lookup_name(&self.player_names, player_id);
                let line = String::from_str("Flag picked up by ").concat(name.as_str()).concat("!");
                push_line(&mut self.logs, line);
            },
            Message::FlagStolen { tick: _, previous_carrier_id, new_carrier_id } => {
                let old_name = lookup_name(&self.player_names, previous_carrier_id);
                let new_name = lookup_name(&self.player_names, new_carrier_id);
                let line = String::from_str("Flag stolen by ").concat(new_name.as_str()).concat(" from ")
                    .concat(old_name.as_str()).concat("!");
                push_line(&mut self.logs, line);
            },
            Message::PlayerDisconnected { player_id } => {
                let name = lookup_name(&self.player_names, player_id);
                self.player_names.remove(&player_id);
                self.players = players_without(&self.players, player_id);
                self.lobby_players = lobby_without(&self.lobby_players, player_id);
                let line = String::from_str("Player ").concat(name.as_str()).concat(" disconnected.");
                push_line(&mut self.logs, line);
                proof {
                    assert(names_view(self.player_names@) =~= names_view(old(self).player_names@).remove(player_id));
                }
            },
            Message::GameOver { winner_id, winner_name, reason: _ } => {
                self.game_state = GameState::Finished;
                self.winner_id = Some(winner_id);
                let line = String::from_str("WINNER: ").concat(winner_name.as_str()).concat("!");
                self.winner_name = winner_name;
                push_line(&mut self.logs, line);
            },
            Message::ErrorMsg { code, description } => {
                let line = String::from_str("Server Error (").concat(error_code_name(code)).concat("): ")
                    .concat(description.as_str());
                push_line(&mut self.logs, line);
            },
            _ => {},
        }
        proof { assert(self@ =~= after_message(old(self)@, msg@)); }
    }
}

// ---------------------------------------------------------------------------
// Laws
// ---------------------------------------------------------------------------

/// No message moves the client's tick backwards: state updates older than
/// the latest one are ignored.
pub proof fn lemma_tick_monotonic(v: ClientView, m: MessageView)
    ensures
        after_message(v, m).tick >= v.tick,
        m matches MessageView::GameStateMsg { tick, .. } && tick < v.tick ==> after_message(v, m) == v,
{
}

/// After a player disconnects, the client holds no entry of that player:
/// neither a name, nor a player of the game, nor a lobby entry; every other
/// player keeps its name, its place in the game and its lobby entry.
pub proof fn lemma_disconnect_forgets(v: ClientView, id: u16)
    ensures
        ({
            let w = after_message(v, MessageView::PlayerDisconnected { player_id: id });
            &&& !w.player_names.contains_key(id)
            &&& forall|i: int| 0 <= i < w.players.len() ==> #[trigger] w.players[i].player_id != id
            &&& forall|i: int| 0 <= i < w.lobby_players.len() ==> #[trigger] w.lobby_players[i].player_id != id
            &&& forall|k: u16| k != id ==> (#[trigger] w.player_names.contains_key(k) <==> v.player_names.contains_key(k))
            &&& forall|k: u16| k != id && v.player_names.contains_key(k) ==> #[trigger] w.player_names[k] == v.player_names[k]
            &&& forall|i: int| 0 <= i < v.players.len() && v.players[i].player_id != id ==> w.players.contains(#[trigger] v.players[i])
            &&& forall|i: int| 0 <= i < v.lobby_players.len() && v.lobby_players[i].player_id != id
                    ==> w.lobby_players.contains(#[trigger] v.lobby_players[i])
        }),
{
    broadcast use vstd::seq_lib::group_filter_ensures;
    let w = after_message(v, MessageView::PlayerDisconnected { player_id: id });
    assert forall|i: int| 0 <= i < w.players.len() implies #[trigger] w.players[i].player_id != id by {}
    assert forall|i: int| 0 <= i < w.lobby_players.len() implies #[trigger] w.lobby_players[i].player_id != id by {}
}

/// A game that starts takes everything the start message carries: the
/// configuration (the arena's geometry among it), the flag, and the
/// players; the session is then running.
pub proof fn lemma_start_takes_the_message(v: ClientView, m: MessageView)
    ensures
        m matches MessageView::GameStarted { config, flag_status, flag_carrier_id, flag_x, flag_y, players } ==> {
            let w = after_message(v, m);
            &&& w.config == config
            &&& w.game_state == GameState::Running
            &&& w.flag_status == flag_status
            &&& w.flag_carrier_id == flag_carrier_id
            &&& w.flag_x == flag_x
            &&& w.flag_y == flag_y
            &&& w.players == players
        },
{
}

/// Only a start message changes the configuration: every other message
/// leaves it as it was.
pub proof fn lemma_config_changes_only_at_start(v: ClientView, m: MessageView)
    ensures
        !(m is GameStarted) ==> after_message(v, m).config == v.config,
{
}

} // verus!
