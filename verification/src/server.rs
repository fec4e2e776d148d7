//! The server's rules: who may join, the countdown, flag pickups and steals,
//! victory, and discovery replies.
//!
//! A background loop owns the sockets and the players' floating-point
//! positions; it asks these functions what to do and performs the sends.
//! Geometric tests (whether two players, or a player and the flag, are
//! within the interaction radius; whether the carrier has left the central
//! circle) are made by the loop and handed in as booleans.
use vstd::prelude::*;
use vstd::relations::{sorted_by, total_ordering};
use vstd::seq_lib::lemma_sorted_unique;
use crate::protocol::{Message, MessageView, PROTOCOL_VERSION};
use crate::text::{decimal, decimal_string, push_line, texts, white_space};
use crate::types::{Direction, FlagStatus, GameConfig, GameOverReason, GameState};

verus! {

broadcast use vstd::seq_lib::group_to_multiset_ensures;

/// Commands from the host's interface to the server loop.
#[derive(Debug, Clone, Copy, PartialEq, Eq, Structural)]
pub enum ServerCommand {
    StartCountdown,
    StopServer,
}

// ---------------------------------------------------------------------------
// Ordering player ids
// ---------------------------------------------------------------------------

/// Ascending order of player ids.
pub open spec fn id_order() -> spec_fn(u16, u16) -> bool {
    |a: u16, b: u16| a <= b
}

/// The ids in ascending order (a permutation of `v`).
pub fn sort_ids(v: &Vec<u16>) -> (r: Vec<u16>)
    ensures
        r@ == v@.sort_by(id_order()),
{
    let mut r: Vec<u16> = Vec::new();
    let mut i: usize = 0;
    while i < v.len()
        invariant
            i <= v@.len(),
            sorted_by(r@, id_order()),
            r@.to_multiset() == v@.take(i as int).to_multiset(),
        decreases v@.len() - i,
    {
        let x = v[i];
        let mut k: usize = 0;
        while k < r.len() && r[k] <= x
            invariant
                k <= r@.len(),
                forall|j: int| 0 <= j < k ==> r@[j] <= x,
            decreases r@.len() - k,
        {
            k = k + 1;
        }
        let ghost before = r@;
        r.insert(k, x);
        proof {
            assert forall|a: int, b: int| 0 <= a < b < r@.len() implies #[trigger] (id_order())(r@[a], r@[b]) by {
                if b < k as int {
                    assert((id_order())(before[a], before[b]));
                } else if a < k as int && b > k as int {
                    assert((id_order())(before[a], before[b - 1]));
                } else if a < k as int && b == k as int {
                    assert(before[a] <= x);
                } else if a == k as int && b > k as int {
                    assert(k < before.len() && before[k as int] > x);
                    if b - 1 > k as int {
                        assert((id_order())(before[k as int], before[b - 1]));
                    }
                } else {
                    assert((id_order())(before[a - 1], before[b - 1]));
                }
            }
            assert(v@.take(i + 1) =~= v@.take(i as int).push(x));
        }
        i = i + 1;
    }
    proof {
        assert(v@.take(v@.len() as int) =~= v@);
        assert(total_ordering(id_order()));
        v@.lemma_sort_by_ensures(id_order());
        lemma_sorted_unique(r@, v@.sort_by(id_order()), id_order());
    }
    r
}

// ---------------------------------------------------------------------------
// Joining
// ---------------------------------------------------------------------------

/// A string without its leading White_Space characters.
pub open spec fn trimmed_start(s: Seq<char>) -> Seq<char>
    decreases s.len(),
{
    if s.len() > 0 && white_space(s[0]) { trimmed_start(s.drop_first()) } else { s }
}

/// A string without its trailing White_Space characters.
pub open spec fn trimmed_end(s: Seq<char>) -> Seq<char>
    decreases s.len(),
{
    if s.len() > 0 && white_space(s.last()) { trimmed_end(s.drop_last()) } else { s }
}

/// A string without its leading and trailing White_Space characters.
pub open spec fn trimmed(s: Seq<char>) -> Seq<char> {
    trimmed_end(trimmed_start(s))
}

/// Calls `str::trim`, documented to remove the leading and trailing
/// characters of the Unicode property White_Space, and copies the result
/// into a `String`.
#[verifier::external_body]
pub(crate) fn trim_text(s: &str) -> (r: String)
    ensures
        r@ == trimmed(s@),
{
    s.trim().to_string()
}

/// Why a join with this (already trimmed) name would be refused, if it would
/// be: a name must have between 1 and 20 bytes; the game must still be
/// waiting for players; and there must be room for one more player.
pub open spec fn join_verdict(name: Seq<char>, state: GameState, player_count: int, maximum_players: u16) -> Option<crate::types::JoinRejectReason> {
    if name.len() == 0 || vstd::utf8::encode_utf8(name).len() > 20 {
        Some(crate::types::JoinRejectReason::InvalidName)
    } else if state != GameState::Waiting {
        Some(crate::types::JoinRejectReason::GameAlreadyStarted)
    } else if player_count >= maximum_players {
        Some(crate::types::JoinRejectReason::GameFull)
    } else {
        None
    }
}

/// Decides a join request whose name has been trimmed.
pub fn join_decision(name: &str, state: GameState, player_count: usize, maximum_players: u16) -> (r: Result<(), crate::types::JoinRejectReason>)
    ensures
        match join_verdict(name@, state, player_count as int, maximum_players) {
            Some(reason) => r == Err::<(), crate::types::JoinRejectReason>(reason),
            None => r is Ok,
        },
{
    if name.is_empty() || name.as_bytes().len() > 20 {
        return Err(crate::types::JoinRejectReason::InvalidName);
    }
    if state != GameState::Waiting {
        return Err(crate::types::JoinRejectReason::GameAlreadyStarted);
    }
    if player_count >= maximum_players as usize {
        return Err(crate::types::JoinRejectReason::GameFull);
    }
    Ok(())
}

/// Decides a join request: the name is trimmed first. On acceptance,
/// returns the trimmed name under which the player joins.
pub fn validate_join(name: &str, state: GameState, player_count: usize, maximum_players: u16) -> (r: Result<String, crate::types::JoinRejectReason>)
    ensures
        match r {
            Ok(t) => t@ == trimmed(name@) && join_verdict(t@, state, player_count as int, maximum_players) is None,
            Err(reason) => join_verdict(trimmed(name@), state, player_count as int, maximum_players) == Some(reason),
        },
{
    let t = trim_text(name);
    match join_decision(t.as_str(), state, player_count, maximum_players) {
        Ok(()) => Ok(t),
        Err(reason) => Err(reason),
    }
}

/// A name typed in the launcher (a player's or a server's), without its
/// surrounding white space, or `fallback` where nothing else is left of it.
pub fn name_or_default(input: &str, fallback: &str) -> (r: String)
    ensures
        r@ == if trimmed(input@).len() == 0 { fallback@ } else { trimmed(input@) },
{
    let t = trim_text(input);
    if t.as_str().is_empty() {
        fallback.to_owned()
    } else {
        t
    }
}

// ---------------------------------------------------------------------------
// Discovery
// ---------------------------------------------------------------------------

/// Whether a datagram is a discovery request of our protocol version: at
/// least two bytes, type 0x01 and our version.
pub open spec fn is_discover_request(packet: Seq<u8>) -> bool {
    packet.len() >= 2 && packet[0] == 0x01 && packet[1] == PROTOCOL_VERSION
}

/// The answer to a datagram: a discovery response while the game waits for
/// players and the datagram is a discovery request, and nothing otherwise.
pub fn discovery_reply(
    packet: &[u8],
    state: GameState,
    game_id: u16,
    server_name: &String,
    tcp_port: u16,
    player_count: usize,
    maximum_players: u16,
) -> (r: Option<Message>)
    ensures
        match r {
            Some(m) => is_discover_request(packet@) && state == GameState::Waiting
                && m@ == (MessageView::DiscoverResponse {
                    game_id,
                    server_name: server_name@,
                    tcp_port,
                    state: GameState::Waiting,
                    player_count: player_count as u16,
                    maximum_players,
                }),
            None => !(is_discover_request(packet@) && state == GameState::Waiting),
        },
{
    if packet.len() >= 2 && packet[0] == 0x01 && packet[1] == PROTOCOL_VERSION {
        if state == GameState::Waiting {
            return Some(Message::DiscoverResponse {
                game_id,
                server_name: server_name.clone(),
                tcp_port,
                state: GameState::Waiting,
                player_count: player_count as u16,
                maximum_players,
            });
        }
    }
    None
}

// ---------------------------------------------------------------------------
// Session state
// ---------------------------------------------------------------------------

/// The state of a session that the server's rules decide on; the players'
/// positions and connections are kept by the server loop.
#[derive(Debug, Clone)]
pub struct ServerSession {
    pub state: GameState,
    pub next_player_id: u16,
    pub countdown_sec: u8,
    pub tick: u32,
    pub flag_status: FlagStatus,
    pub flag_carrier_id: u16,
    pub logs: Vec<String>,
    pub winner_id: Option<u16>,
    pub winner_name: String,
}

/// The line a server logs when it starts.
pub open spec fn running_line(config: GameConfig) -> Seq<char> {
    "Server running on port TCP "@ + decimal(config.server_port as nat) + " / UDP "@
        + decimal(config.discovery_port as nat)
}

/// The state and seconds left after one second of a countdown: a second
/// is taken off while more than one is left, and the game runs after the
/// last one; outside a countdown nothing changes.
pub open spec fn countdown_phase(state: GameState, sec: u8) -> (GameState, u8) {
    if state != GameState::Starting {
        (state, sec)
    } else if sec > 1 {
        (GameState::Starting, (sec - 1) as u8)
    } else {
        (GameState::Running, sec)
    }
}

/// The state and seconds left after `k` seconds.
pub open spec fn countdown_after(state: GameState, sec: u8, k: nat) -> (GameState, u8)
    decreases k,
{
    if k == 0 {
        (state, sec)
    } else {
        let (s, c) = countdown_phase(state, sec);
        countdown_after(s, c, (k - 1) as nat)
    }
}

/// A countdown started at `n` seconds (at least one) still counts after
/// `k < n` seconds, with `n - k` seconds left, and the game runs after
/// exactly `n` seconds.
pub proof fn lemma_countdown_runs_after_n_seconds(n: u8, k: nat)
    requires
        n >= 1,
        k <= n,
    ensures
        k < n ==> countdown_after(GameState::Starting, n, k) == (GameState::Starting, (n - k) as u8),
        k == n ==> countdown_after(GameState::Starting, n, k) == (GameState::Running, 1u8),
    decreases k,
{
    if k > 0 {
        if n > 1 {
            lemma_countdown_runs_after_n_seconds((n - 1) as u8, (k - 1) as nat);
        } else {
            assert(countdown_after(GameState::Running, 1u8, 0) == (GameState::Running, 1u8));
        }
    }
}

/// What happened in one second of the countdown.
#[derive(Debug)]
pub enum CountdownStep {
    /// The game is not counting down.
    Idle,
    /// One second less; the message announces the seconds left.
    Counted(Message),
    /// The countdown ended and the game runs.
    Started,
}

impl ServerSession {
    /// A session waiting for players, with the flag available and the
    /// countdown set from the configuration.
    pub fn new(config: &GameConfig) -> (s: Self)
        ensures
            s.state == GameState::Waiting,
            s.next_player_id == 1,
            s.countdown_sec == config.countdown_seconds,
            s.tick == 0,
            s.flag_status == FlagStatus::Available,
            s.flag_carrier_id == 0,
            texts(s.logs@) == seq![running_line(*config)],
            s.winner_id is None,
            s.winner_name@ == Seq::<char>::empty(),
    {
        let line = String::from_str("Server running on port TCP ")
            .concat(decimal_string(config.server_port as u32).as_str())
            .concat(" / UDP ")
            .concat(decimal_string(config.discovery_port as u32).as_str());
        let mut logs: Vec<String> = Vec::new();
        logs.push(line);
        assert(texts(logs@) =~= seq![running_line(*config)]);
        ServerSession {
            state: GameState::Waiting,
            next_player_id: 1,
            countdown_sec: config.countdown_seconds,
            tick: 0,
            flag_status: FlagStatus::Available,
            flag_carrier_id: 0,
            logs,
            winner_id: None,
            winner_name: String::new(),
        }
    }

    /// The host asks to start: only a waiting game starts counting down,
    /// from `countdown_seconds`; the message announces it.
    pub fn start_countdown(&mut self, countdown_seconds: u8) -> (m: Option<Message>)
        ensures
            old(self).state == GameState::Waiting ==> {
                &&& final(self).state == GameState::Starting
                &&& final(self).countdown_sec == countdown_seconds
                &&& texts(final(self).logs@) == texts(old(self).logs@).push(
                    "Countdown started ("@ + decimal(countdown_seconds as nat) + " seconds)..."@)
                &&& m matches Some(msg) && msg@ == (MessageView::GameCountdown { seconds_remaining: countdown_seconds })
                &&& final(self).tick == old(self).tick && final(self).next_player_id == old(self).next_player_id
                &&& final(self).flag_status == old(self).flag_status && final(self).flag_carrier_id == old(self).flag_carrier_id
                &&& final(self).winner_id == old(self).winner_id && final(self).winner_name == old(self).winner_name
            },
            old(self).state != GameState::Waiting ==> *final(self) == *old(self) && m is None,
    {
        if self.state == GameState::Waiting {
            self.state = GameState::Starting;
            self.countdown_sec = countdown_seconds;
            let line = String::from_str("Countdown started (")
                .concat(decimal_string(countdown_seconds as u32).as_str())
                .concat(" seconds)...");
            push_line(&mut self.logs, line);
            Some(Message::GameCountdown { seconds_remaining: countdown_seconds })
        } else {
            None
        }
    }

    /// Hands out the next player id.
    pub fn assign_player_id(&mut self) -> (pid: u16)
        requires
            old(self).next_player_id < u16::MAX,
        ensures
            pid == old(self).next_player_id,
            *final(self) == (ServerSession { next_player_id: (old(self).next_player_id + 1) as u16, ..*old(self) }),
    {
        let pid = self.next_player_id;
        self.next_player_id = self.next_player_id + 1;
        pid
    }

    /// Logs that a player joined.
    pub fn record_join(&mut self, name: &str, player_id: u16)
        ensures
            texts(final(self).logs@) == texts(old(self).logs@).push(
                "Player '"@ + name@ + "' (ID "@ + decimal(player_id as nat) + ") joined."@),
            final(self).state == old(self).state,
            final(self).next_player_id == old(self).next_player_id,
            final(self).countdown_sec == old(self).countdown_sec,
            final(self).tick == old(self).tick,
            final(self).flag_status == old(self).flag_status,
            final(self).flag_carrier_id == old(self).flag_carrier_id,
            final(self).winner_id == old(self).winner_id,
            final(self).winner_name == old(self).winner_name,
    {
        let line = String::from_str("Player '").concat(name).concat("' (ID ")
            .concat(decimal_string(player_id as u32).as_str()).concat(") joined.");
        push_line(&mut self.logs, line);
    }

    /// A player left or was disconnected: logs it, and drops the flag if the
    /// player carried it. Returns whether the flag was dropped (its position
    /// becomes the player's last one).
    pub fn remove_player(&mut self, player_id: u16, name: &str) -> (dropped: bool)
        ensures
            dropped == (old(self).flag_carrier_id == player_id),
            dropped ==> final(self).flag_status == FlagStatus::Dropped && final(self).flag_carrier_id == 0,
            !dropped ==> final(self).flag_status == old(self).flag_status
                && final(self).flag_carrier_id == old(self).flag_carrier_id,
            texts(final(self).logs@) == texts(old(self).logs@).push(
                "Player '"@ + name@ + "' (ID "@ + decimal(player_id as nat) + ") disconnected."@),
            final(self).state == old(self).state,
            final(self).next_player_id == old(self).next_player_id,
            final(self).countdown_sec == old(self).countdown_sec,
            final(self).tick == old(self).tick,
            final(self).winner_id == old(self).winner_id,
            final(self).winner_name == old(self).winner_name,
    {
        let line = String::from_str("Player '").concat(name).concat("' (ID ")
            .concat(decimal_string(player_id as u32).as_str()).concat(") disconnected.");
        push_line(&mut self.logs, line);
        if self.flag_carrier_id == player_id {
            self.flag_status = FlagStatus::Dropped;
            self.flag_carrier_id = 0;
            true
        } else {
            false
        }
    }

    /// One second of the countdown went by. While more than one second is
    /// left, one is taken off and announced; at the last second the game
    /// starts: tick 0, the flag available in the centre, and a log line.
    pub fn countdown_second(&mut self) -> (step: CountdownStep)
        ensures
            (final(self).state, final(self).countdown_sec) == countdown_phase(old(self).state, old(self).countdown_sec),
            old(self).state != GameState::Starting ==> *final(self) == *old(self) && step is Idle,
            old(self).state == GameState::Starting && old(self).countdown_sec > 1 ==> {
                &&& *final(self) == (ServerSession { countdown_sec: (old(self).countdown_sec - 1) as u8, ..*old(self) })
                &&& step matches CountdownStep::Counted(m)
                    && m@ == (MessageView::GameCountdown { seconds_remaining: (old(self).countdown_sec - 1) as u8 })
            },
            old(self).state == GameState::Starting && old(self).countdown_sec <= 1 ==> {
                &&& step is Started
                &&& final(self).state == GameState::Running
                &&& final(self).tick == 0
                &&& final(self).flag_status == FlagStatus::Available
                &&& final(self).flag_carrier_id == 0
                &&& texts(final(self).logs@) == texts(old(self).logs@).push("Game STARTED!"@)
                &&& final(self).countdown_sec == old(self).countdown_sec
                &&& final(self).next_player_id == old(self).next_player_id
                &&& final(self).winner_id == old(self).winner_id
                &&& final(self).winner_name == old(self).winner_name
            },
    {
        if self.state != GameState::Starting {
            return CountdownStep::Idle;
        }
        if self.countdown_sec > 1 {
            self.countdown_sec = self.countdown_sec - 1;
            CountdownStep::Counted(Message::GameCountdown { seconds_remaining: self.countdown_sec })
        } else {
            self.state = GameState::Running;
            self.tick = 0;
            self.flag_status = FlagStatus::Available;
            self.flag_carrier_id = 0;
            push_line(&mut self.logs, String::from_str("Game STARTED!"));
            CountdownStep::Started
        }
    }

    /// A new tick of the running game begins.
    pub fn begin_tick(&mut self)
        requires
            old(self).tick < u32::MAX,
        ensures
            *final(self) == (ServerSession { tick: (old(self).tick + 1) as u32, ..*old(self) }),
    {
        self.tick = self.tick + 1;
    }
}

// ---------------------------------------------------------------------------
// Flag interactions
// ---------------------------------------------------------------------------

/// Which present players are within the interaction radius of the flag and
/// of each other, as measured by the server loop at the time of the
/// interactions.
pub struct Proximity {
    /// Ids of the players present, each once.
    pub ids: Vec<u16>,
    /// `near_flag[i]`: player `ids[i]` is within reach of the flag.
    pub near_flag: Vec<bool>,
    /// `near[i][j]`: players `ids[i]` and `ids[j]` are within reach of each other.
    pub near: Vec<Vec<bool>>,
}

impl Proximity {
    /// Every player has one flag bit and one row with a bit for every
    /// player, and no id appears twice.
    pub open spec fn wf(&self) -> bool {
        &&& self.near_flag@.len() == self.ids@.len()
        &&& self.near@.len() == self.ids@.len()
        &&& forall|i: int| 0 <= i < self.ids@.len() ==> (#[trigger] self.near@[i])@.len() == self.ids@.len()
        &&& forall|i: int, j: int| 0 <= i < j < self.ids@.len() ==> self.ids@[i] != self.ids@[j]
    }

    pub open spec fn present(&self, id: u16) -> bool {
        self.ids@.contains(id)
    }

    pub open spec fn near_flag_of(&self, id: u16) -> bool {
        exists|i: int| 0 <= i < self.ids@.len() && self.ids@[i] == id && #[trigger] self.near_flag@[i]
    }

    pub open spec fn near_of(&self, a: u16, b: u16) -> bool {
        exists|i: int, j: int|
            0 <= i < self.ids@.len() && 0 <= j < self.ids@.len() && self.ids@[i] == a && self.ids@[j] == b
                && #[trigger] self.near@[i]@[j]
    }
}

/// Where a player id stands in the list of present players.
fn find_id(ids: &Vec<u16>, id: u16) -> (r: Option<usize>)
    ensures
        match r {
            Some(i) => i < ids@.len() && ids@[i as int] == id,
            None => !ids@.contains(id),
        },
{
    let mut i: usize = 0;
    while i < ids.len()
        invariant
            i <= ids@.len(),
            forall|j: int| 0 <= j < i ==> ids@[j] != id,
        decreases ids@.len() - i,
    {
        if ids[i] == id {
            return Some(i);
        }
        i = i + 1;
    }
    None
}

/// The course of the interactions of one tick.
pub struct Holding {
    pub status: FlagStatus,
    pub carrier: u16,
    /// Whether a steal has happened in this tick.
    pub stolen: bool,
    /// The player at whose position the flag now is, if it moved.
    pub flag_at: Option<u16>,
    /// Changes of the players' flag bits, in order.
    pub bits: Seq<(u16, bool)>,
    /// Messages to broadcast, in order.
    pub events: Seq<MessageView>,
    /// Log lines, in order.
    pub logs: Seq<Seq<char>>,
}

/// Before any interaction of a tick.
pub open spec fn holding_start(status: FlagStatus, carrier: u16) -> Holding {
    Holding { status, carrier, stolen: false, flag_at: None, bits: Seq::empty(), events: Seq::empty(), logs: Seq::empty() }
}

/// One player's interaction. A present player takes an available or
/// dropped flag within reach; otherwise, while the flag is carried by
/// someone else and nobody has stolen it yet in this tick, the player steals
/// it from a present carrier within reach.
pub open spec fn interact_step(h: Holding, pid: u16, p: Proximity, tick: u32) -> Holding {
    if !p.present(pid) {
        h
    } else if h.status == FlagStatus::Available || h.status == FlagStatus::Dropped {
        if p.near_flag_of(pid) {
            Holding {
                status: FlagStatus::Carried,
                carrier: pid,
                flag_at: Some(pid),
                bits: h.bits.push((pid, true)),
                events: h.events.push(MessageView::FlagPickedUp { tick, player_id: pid }),
                logs: h.logs.push("Player ID "@ + decimal(pid as nat) + " picked up the flag!"@),
                ..h
            }
        } else {
            h
        }
    } else if h.status == FlagStatus::Carried && h.carrier != pid && !h.stolen {
        if p.present(h.carrier) && p.near_of(pid, h.carrier) {
            Holding {
                carrier: pid,
                stolen: true,
                flag_at: Some(pid),
                bits: h.bits.push((h.carrier, false)).push((pid, true)),
                events: h.events.push(MessageView::FlagStolen { tick, previous_carrier_id: h.carrier, new_carrier_id: pid }),
                logs: h.logs.push("Player ID "@ + decimal(pid as nat) + " stole flag from ID "@ + decimal(h.carrier as nat) + "!"@),
                ..h
            }
        } else {
            h
        }
    } else {
        h
    }
}

/// The interactions of the players `order`, one after another.
pub open spec fn interact_all(h: Holding, order: Seq<u16>, p: Proximity, tick: u32) -> Holding
    decreases order.len(),
{
    if order.len() == 0 {
        h
    } else {
        interact_step(interact_all(h, order.drop_last(), p, tick), order.last(), p, tick)
    }
}

/// What the server loop applies after the interactions of a tick.
pub struct Resolution {
    pub flag_at: Option<u16>,
    pub flag_bits: Vec<(u16, bool)>,
    pub events: Vec<Message>,
}

pub open spec fn message_views(v: Seq<Message>) -> Seq<MessageView> {
    v.map_values(|m: Message| m@)
}

impl ServerSession {
    /// Resolves the interaction requests of a tick, in ascending order of
    /// player id.
    pub fn resolve_interactions(&mut self, pending: &Vec<u16>, prox: &Proximity) -> (out: Resolution)
        requires
            prox.wf(),
        ensures
            ({
                let h = interact_all(holding_start(old(self).flag_status, old(self).flag_carrier_id),
                    pending@.sort_by(id_order()), *prox, old(self).tick);
                &&& final(self).flag_status == h.status
                &&& final(self).flag_carrier_id == h.carrier
                &&& out.flag_at == h.flag_at
                &&& out.flag_bits@ == h.bits
                &&& message_views(out.events@) == h.events
                &&& texts(final(self).logs@) == texts(old(self).logs@) + h.logs
            }),
            forall|k: int| 0 <= k < out.events@.len() ==> event_within_reach(#[trigger] out.events@[k]@, *prox),
            final(self).state == old(self).state,
            final(self).next_player_id == old(self).next_player_id,
            final(self).countdown_sec == old(self).countdown_sec,
            final(self).tick == old(self).tick,
            final(self).winner_id == old(self).winner_id,
            final(self).winner_name == old(self).winner_name,
    {
        let order = sort_ids(pending);
        let ghost start = holding_start(self.flag_status, self.flag_carrier_id);
        let ghost logs0 = texts(self.logs@);
        let mut stolen = false;
        let mut flag_at: Option<u16> = None;
        let mut bits: Vec<(u16, bool)> = Vec::new();
        let mut events: Vec<Message> = Vec::new();
        let mut k: usize = 0;
        proof {
            assert(order@.take(0) =~= Seq::<u16>::empty());
            assert(message_views(events@) =~= Seq::<MessageView>::empty());
            assert(texts(self.logs@) =~= logs0 + Seq::<Seq<char>>::empty());
        }
        while k < order.len()
            invariant
                k <= order@.len(),
                prox.wf(),
                ({
                    let h = interact_all(start, order@.take(k as int), *prox, self.tick);
                    &&& self.flag_status == h.status
                    &&& self.flag_carrier_id == h.carrier
                    &&& stolen == h.stolen
                    &&& flag_at == h.flag_at
                    &&& bits@ == h.bits
                    &&& message_views(events@) == h.events
                    &&& texts(self.logs@) == logs0 + h.logs
                }),
                self.state == old(self).state,
                self.next_player_id == old(self).next_player_id,
                self.countdown_sec == old(self).countdown_sec,
                self.tick == old(self).tick,
                self.winner_id == old(self).winner_id,
                self.winner_name == old(self).winner_name,
            decreases order@.len() - k,
        {
            let pid = order[k];
            let ghost h0 = interact_all(start, order@.take(k as int), *prox, self.tick);
            proof {
                assert(order@.take(k + 1).drop_last() =~= order@.take(k as int));
                assert(order@.take(k + 1).last() == pid);
            }
            let ghost ev0 = events@;
            let ghost logs_before = self.logs@;
            match find_id(&prox.ids, pid) {
                None => {},
                Some(i) => {
                    proof { assert(prox.present(pid)); }
                    if self.flag_status == FlagStatus::Available || self.flag_status == FlagStatus::Dropped {
                        if prox.near_flag[i] {
                            self.flag_status = FlagStatus::Carried;
                            self.flag_carrier_id = pid;
                            flag_at = Some(pid);
                            bits.push((pid, true));
                            events.push(Message::FlagPickedUp { tick: self.tick, player_id: pid });
                            let line = String::from_str("Player ID ").concat(decimal_string(pid as u32).as_str())
                                .concat(" picked up the flag!");
                            push_line(&mut self.logs, line);
                            proof {
                                assert(message_views(events@) =~= message_views(ev0).push(MessageView::FlagPickedUp { tick: self.tick, player_id: pid }));
                            }
                        } else {
                            proof {
                                assert forall|j: int| 0 <= j < prox.ids@.len() && prox.ids@[j] == pid implies !#[trigger] prox.near_flag@[j] by {
                                    assert(j == i as int);
                                }
                            }
                        }
                    } else if self.flag_status == FlagStatus::Carried && self.flag_carrier_id != pid && !stolen {
                        let prev = self.flag_carrier_id;
                        match find_id(&prox.ids, prev) {
                            None => {},
                            Some(j) => {
                                if prox.near[i][j] {
                                    stolen = true;
                                    bits.push((prev, false));
                                    bits.push((pid, true));
                                    self.flag_carrier_id = pid;
                                    flag_at = Some(pid);
                                    events.push(Message::FlagStolen { tick: self.tick, previous_carrier_id: prev, new_carrier_id: pid });
                                    let line = String::from_str("Player ID ").concat(decimal_string(pid as u32).as_str())
                                        .concat(" stole flag from ID ").concat(decimal_string(prev as u32).as_str()).concat("!");
                                    push_line(&mut self.logs, line);
                                    proof {
                                        assert(prox.near_of(pid, prev));
                                        assert(message_views(events@) =~= message_views(ev0).push(MessageView::FlagStolen { tick: self.tick, previous_carrier_id: prev, new_carrier_id: pid }));
                                    }
                                } else {
                                    proof {
                                        assert forall|a: int, b: int|
                                            0 <= a < prox.ids@.len() && 0 <= b < prox.ids@.len() && prox.ids@[a] == pid && prox.ids@[b] == prev
                                            implies !#[trigger] prox.near@[a]@[b] by {
                                            assert(a == i as int);
                                            assert(b == j as int);
                                        }
                                    }
                                }
                            },
                        }
                    }
                },
            }
            proof {
                let h1 = interact_all(start, order@.take(k + 1), *prox, self.tick);
                assert(h1 == interact_step(h0, pid, *prox, self.tick));
                assert(texts(self.logs@) =~= logs0 + h1.logs);
            }
            k = k + 1;
        }
        proof {
            assert(order@.take(order@.len() as int) =~= order@);
            lemma_interactions_need_reach(old(self).flag_status, old(self).flag_carrier_id, order@, *prox, self.tick);
            assert forall|k: int| 0 <= k < events@.len() implies event_within_reach(#[trigger] events@[k]@, *prox) by {
                assert(message_views(events@)[k] == events@[k]@);
            }
        }
        Resolution { flag_at, flag_bits: bits, events }
    }

    /// Ends the game when the flag's carrier, who is present under the name
    /// `carrier_name`, has left the central circle (`carrier_outside`, as
    /// measured by the server loop): the flag is outside, the carrier wins,
    /// and the returned message announces it.
    pub fn check_victory(&mut self, carrier_name: Option<String>, carrier_outside: bool) -> (m: Option<Message>)
        ensures
            ({
                let wins = old(self).flag_status == FlagStatus::Carried && carrier_name is Some && carrier_outside;
                &&& wins ==> {
                    let name = carrier_name.unwrap()@;
                    &&& final(self).state == GameState::Finished
                    &&& final(self).flag_status == FlagStatus::Outside
                    &&& final(self).winner_id == Some(old(self).flag_carrier_id)
                    &&& final(self).winner_name@ == name
                    &&& texts(final(self).logs@) == texts(old(self).logs@).push(
                        "GAME OVER! Winner: "@ + name + " (ID "@ + decimal(old(self).flag_carrier_id as nat) + ")"@)
                    &&& m matches Some(msg) && msg@ == (MessageView::GameOver {
                        winner_id: old(self).flag_carrier_id,
                        winner_name: name,
                        reason: GameOverReason::ExitedCircleWithFlag,
                    })
                    &&& final(self).flag_carrier_id == old(self).flag_carrier_id
                    &&& final(self).tick == old(self).tick
                    &&& final(self).next_player_id == old(self).next_player_id
                    &&& final(self).countdown_sec == old(self).countdown_sec
                }
                &&& !wins ==> *final(self) == *old(self) && m is None
            }),
    {
        if self.flag_status == FlagStatus::Carried && carrier_outside {
            match carrier_name {
                Some(name) => {
                    let win_id = self.flag_carrier_id;
                    self.state = GameState::Finished;
                    self.flag_status = FlagStatus::Outside;
                    let line = String::from_str("GAME OVER! Winner: ").concat(name.as_str()).concat(" (ID ")
                        .concat(decimal_string(win_id as u32).as_str()).concat(")");
                    push_line(&mut self.logs, line);
                    self.winner_id = Some(win_id);
                    self.winner_name = name.clone();
                    return Some(Message::GameOver { winner_id: win_id, winner_name: name, reason: GameOverReason::ExitedCircleWithFlag });
                },
                None => {},
            }
        }
        None
    }
}

// ---------------------------------------------------------------------------
// Laws of the interactions
// ---------------------------------------------------------------------------

pub open spec fn steal_count(events: Seq<MessageView>) -> nat
    decreases events.len(),
{
    if events.len() == 0 {
        0
    } else {
        steal_count(events.drop_last()) + if events.last() is FlagStolen { 1nat } else { 0nat }
    }
}

pub open spec fn pickup_count(events: Seq<MessageView>) -> nat
    decreases events.len(),
{
    if events.len() == 0 {
        0
    } else {
        pickup_count(events.drop_last()) + if events.last() is FlagPickedUp { 1nat } else { 0nat }
    }
}

proof fn lemma_counts_push(events: Seq<MessageView>, e: MessageView)
    ensures
        steal_count(events.push(e)) == steal_count(events) + if e is FlagStolen { 1nat } else { 0nat },
        pickup_count(events.push(e)) == pickup_count(events) + if e is FlagPickedUp { 1nat } else { 0nat },
{
    assert(events.push(e).drop_last() =~= events);
}

/// Whether an event of the interactions was within reach, read off the
/// measured proximity itself: a pickup is made by a player within reach of
/// the flag, and a steal by a player within reach of the carrier it robs.
pub open spec fn event_within_reach(e: MessageView, p: Proximity) -> bool {
    match e {
        MessageView::FlagPickedUp { player_id, .. } =>
            exists|i: int| 0 <= i < p.ids@.len() && p.ids@[i] == player_id && #[trigger] p.near_flag@[i],
        MessageView::FlagStolen { previous_carrier_id, new_carrier_id, .. } =>
            exists|i: int, j: int|
                0 <= i < p.ids@.len() && 0 <= j < p.ids@.len() && p.ids@[i] == new_carrier_id
                    && p.ids@[j] == previous_carrier_id && #[trigger] p.near@[i]@[j],
        _ => false,
    }
}

/// The law of reach: every event of a tick's interactions is a pickup or a
/// steal, a pickup is made only by a present player within reach of the
/// flag, and a steal only by a present player within reach of the present
/// carrier, who is another player; the thief becomes the carrier.
pub proof fn lemma_interactions_need_reach(status: FlagStatus, carrier: u16, order: Seq<u16>, p: Proximity, tick: u32)
    ensures
        ({
            let h = interact_all(holding_start(status, carrier), order, p, tick);
            forall|k: int| 0 <= k < h.events.len() ==> {
                &&& event_within_reach(#[trigger] h.events[k], p)
                &&& (h.events[k] matches MessageView::FlagStolen { previous_carrier_id, new_carrier_id, .. }
                        ==> previous_carrier_id != new_carrier_id)
            }
        }),
    decreases order.len(),
{
    if order.len() > 0 {
        lemma_interactions_need_reach(status, carrier, order.drop_last(), p, tick);
        let h0 = interact_all(holding_start(status, carrier), order.drop_last(), p, tick);
        let h = interact_all(holding_start(status, carrier), order, p, tick);
        assert forall|k: int| 0 <= k < h.events.len() implies {
            &&& event_within_reach(#[trigger] h.events[k], p)
            &&& (h.events[k] matches MessageView::FlagStolen { previous_carrier_id, new_carrier_id, .. }
                    ==> previous_carrier_id != new_carrier_id)
        } by {
            if k < h0.events.len() {
                assert(h.events[k] == h0.events[k]);
            }
        }
    }
}

/// What holds after every prefix of a tick's interactions that start with
/// nothing stolen.
proof fn lemma_interact_invariant(status: FlagStatus, carrier: u16, order: Seq<u16>, p: Proximity, tick: u32)
    ensures
        ({
            let h = interact_all(holding_start(status, carrier), order, p, tick);
            &&& steal_count(h.events) == if h.stolen { 1nat } else { 0nat }
            &&& pickup_count(h.events) <= 1
            &&& pickup_count(h.events) == 1 ==> h.status == FlagStatus::Carried
            &&& h.stolen ==> h.status == FlagStatus::Carried
            &&& h.status == FlagStatus::Outside <==> status == FlagStatus::Outside
            &&& status == FlagStatus::Outside ==> h == holding_start(status, carrier)
        }),
    decreases order.len(),
{
    if order.len() > 0 {
        lemma_interact_invariant(status, carrier, order.drop_last(), p, tick);
        let h0 = interact_all(holding_start(status, carrier), order.drop_last(), p, tick);
        let pid = order.last();
        if p.present(pid) {
            lemma_counts_push(h0.events, MessageView::FlagPickedUp { tick, player_id: pid });
            lemma_counts_push(h0.events, MessageView::FlagStolen { tick, previous_carrier_id: h0.carrier, new_carrier_id: pid });
        }
    } else {
        assert(steal_count(Seq::<MessageView>::empty()) == 0);
        assert(pickup_count(Seq::<MessageView>::empty()) == 0);
    }
}

/// Within one tick the flag is stolen at most once and picked up at most
/// once, and an escaped flag (outside the circle) is never touched.
pub proof fn lemma_one_steal_per_tick(status: FlagStatus, carrier: u16, order: Seq<u16>, p: Proximity, tick: u32)
    ensures
        ({
            let h = interact_all(holding_start(status, carrier), order, p, tick);
            &&& steal_count(h.events) <= 1
            &&& pickup_count(h.events) <= 1
            &&& status == FlagStatus::Outside ==> h.events.len() == 0 && h.status == FlagStatus::Outside
        }),
{
    lemma_interact_invariant(status, carrier, order, p, tick);
}

/// The players' flag bits after applying the changes `bits` in order; a
/// change for a player without a bit is ignored.
pub open spec fn apply_flag_bits(held: Map<u16, bool>, bits: Seq<(u16, bool)>) -> Map<u16, bool>
    decreases bits.len(),
{
    if bits.len() == 0 {
        held
    } else {
        let m = apply_flag_bits(held, bits.drop_last());
        let (id, bit) = bits.last();
        if m.contains_key(id) { m.insert(id, bit) } else { m }
    }
}

/// Whether the players' flag bits agree with the flag: a player holds it
/// exactly when the flag is carried and the player is its carrier.
pub open spec fn bits_agree(held: Map<u16, bool>, status: FlagStatus, carrier: u16) -> bool {
    forall|id: u16| held.contains_key(id) ==> (held[id] <==> (status == FlagStatus::Carried && id == carrier))
}

proof fn lemma_apply_flag_bits_push(held: Map<u16, bool>, bits: Seq<(u16, bool)>, x: (u16, bool))
    ensures
        apply_flag_bits(held, bits.push(x)) == ({
            let m = apply_flag_bits(held, bits);
            if m.contains_key(x.0) { m.insert(x.0, x.1) } else { m }
        }),
{
    assert(bits.push(x).drop_last() =~= bits);
}

/// The changes of flag bits that the interactions of a tick produce keep
/// the players' bits in agreement with the flag: if only the carrier held
/// it before, only the (possibly new) carrier holds it after.
pub proof fn lemma_flag_bits_follow_carrier(
    status: FlagStatus,
    carrier: u16,
    order: Seq<u16>,
    p: Proximity,
    tick: u32,
    held: Map<u16, bool>,
)
    requires
        bits_agree(held, status, carrier),
    ensures
        ({
            let h = interact_all(holding_start(status, carrier), order, p, tick);
            bits_agree(apply_flag_bits(held, h.bits), h.status, h.carrier)
        }),
    decreases order.len(),
{
    if order.len() > 0 {
        lemma_flag_bits_follow_carrier(status, carrier, order.drop_last(), p, tick, held);
        let h0 = interact_all(holding_start(status, carrier), order.drop_last(), p, tick);
        let m0 = apply_flag_bits(held, h0.bits);
        let pid = order.last();
        let h = interact_step(h0, pid, p, tick);
        assert(h == interact_all(holding_start(status, carrier), order, p, tick));
        if h.bits != h0.bits {
            if h0.status == FlagStatus::Available || h0.status == FlagStatus::Dropped {
                lemma_apply_flag_bits_push(held, h0.bits, (pid, true));
                let m = apply_flag_bits(held, h.bits);
                assert forall|id: u16| m.contains_key(id) implies
                    (m[id] <==> (h.status == FlagStatus::Carried && id == h.carrier)) by {
                    assert(m0.contains_key(id));
                }
            } else {
                let m1 = apply_flag_bits(held, h0.bits.push((h0.carrier, false)));
                lemma_apply_flag_bits_push(held, h0.bits, (h0.carrier, false));
                lemma_apply_flag_bits_push(held, h0.bits.push((h0.carrier, false)), (pid, true));
                let m = apply_flag_bits(held, h.bits);
                assert forall|id: u16| m.contains_key(id) implies
                    (m[id] <==> (h.status == FlagStatus::Carried && id == h.carrier)) by {
                    assert(m1.contains_key(id));
                    assert(m0.contains_key(id));
                }
            }
        }
    } else {
        assert(holding_start(status, carrier).bits =~= Seq::<(u16, bool)>::empty());
    }
}

/// The flag and the players' flag bits agree, positions aside: a player
/// holds the flag only as its recorded carrier, and only while the flag is
/// carried or has left the circle with its carrier; a carried flag has a
/// present carrier that holds it.
pub open spec fn flag_bits_consistent(held: Map<u16, bool>, status: FlagStatus, carrier: u16) -> bool {
    &&& forall|id: u16| #[trigger] held.contains_key(id) && held[id] ==>
        id == carrier && (status == FlagStatus::Carried || status == FlagStatus::Outside)
    &&& status == FlagStatus::Carried ==> held.contains_key(carrier) && held[carrier]
}

/// Each interaction keeps the flag bits consistent with the flag.
proof fn lemma_interactions_keep_flag_consistent(
    status: FlagStatus,
    carrier: u16,
    order: Seq<u16>,
    p: Proximity,
    tick: u32,
    held: Map<u16, bool>,
)
    requires
        flag_bits_consistent(held, status, carrier),
        forall|id: u16| #[trigger] p.present(id) ==> held.contains_key(id),
    ensures
        ({
            let h = interact_all(holding_start(status, carrier), order, p, tick);
            flag_bits_consistent(apply_flag_bits(held, h.bits), h.status, h.carrier)
        }),
    decreases order.len(),
{
    if order.len() > 0 {
        lemma_interactions_keep_flag_consistent(status, carrier, order.drop_last(), p, tick, held);
        let h0 = interact_all(holding_start(status, carrier), order.drop_last(), p, tick);
        let m0 = apply_flag_bits(held, h0.bits);
        let pid = order.last();
        let h = interact_step(h0, pid, p, tick);
        assert(h == interact_all(holding_start(status, carrier), order, p, tick));
        lemma_apply_flag_bits_keys(held, h0.bits);
        if h.bits != h0.bits {
            assert(p.present(pid));
            if h0.status == FlagStatus::Available || h0.status == FlagStatus::Dropped {
                lemma_apply_flag_bits_push(held, h0.bits, (pid, true));
                let m = apply_flag_bits(held, h.bits);
                assert forall|id: u16| #[trigger] m.contains_key(id) && m[id] implies
                    id == h.carrier && (h.status == FlagStatus::Carried || h.status == FlagStatus::Outside) by {
                    assert(m0.contains_key(id));
                }
            } else {
                let m1 = apply_flag_bits(held, h0.bits.push((h0.carrier, false)));
                lemma_apply_flag_bits_push(held, h0.bits, (h0.carrier, false));
                lemma_apply_flag_bits_push(held, h0.bits.push((h0.carrier, false)), (pid, true));
                let m = apply_flag_bits(held, h.bits);
                assert forall|id: u16| #[trigger] m.contains_key(id) && m[id] implies
                    id == h.carrier && (h.status == FlagStatus::Carried || h.status == FlagStatus::Outside) by {
                    assert(m1.contains_key(id));
                    assert(m0.contains_key(id));
                }
            }
        }
    } else {
        assert(holding_start(status, carrier).bits =~= Seq::<(u16, bool)>::empty());
    }
}

/// Applying flag bits never adds or removes a player.
proof fn lemma_apply_flag_bits_keys(held: Map<u16, bool>, bits: Seq<(u16, bool)>)
    ensures
        apply_flag_bits(held, bits).dom() == held.dom(),
    decreases bits.len(),
{
    if bits.len() > 0 {
        lemma_apply_flag_bits_keys(held, bits.drop_last());
    }
}

/// The law of a tick of a running game, positions aside: the interactions
/// (in the order in which [`ServerSession::resolve_interactions`] takes
/// them) with their changes of flag bits applied, and then the victory
/// check of [`ServerSession::check_victory`], keep the flag bits consistent
/// with the flag, provided that every present player has a flag bit.
pub proof fn lemma_tick_keeps_flag_consistent(
    status: FlagStatus,
    carrier: u16,
    pending: Seq<u16>,
    p: Proximity,
    tick: u32,
    held: Map<u16, bool>,
    carrier_named: bool,
    carrier_outside: bool,
)
    requires
        flag_bits_consistent(held, status, carrier),
        forall|id: u16| #[trigger] p.present(id) ==> held.contains_key(id),
    ensures
        ({
            let h = interact_all(holding_start(status, carrier), pending.sort_by(id_order()), p, tick);
            let wins = h.status == FlagStatus::Carried && carrier_named && carrier_outside;
            let after = if wins { FlagStatus::Outside } else { h.status };
            &&& flag_bits_consistent(apply_flag_bits(held, h.bits), h.status, h.carrier)
            &&& flag_bits_consistent(apply_flag_bits(held, h.bits), after, h.carrier)
        }),
{
    lemma_interactions_keep_flag_consistent(status, carrier, pending.sort_by(id_order()), p, tick, held);
}

// ---------------------------------------------------------------------------
// Reading a client's frames
// ---------------------------------------------------------------------------

/// Events that the reader of a client's connection hands to the server loop.
#[derive(Debug, Clone, Copy, PartialEq, Eq, Structural)]
pub enum ReaderEvent {
    Input { player_id: u16, direction: Direction },
    Interact { player_id: u16 },
    Leave { player_id: u16 },
    Disconnected { player_id: u16 },
}

/// Whether a message is a gameplay action (input, interaction or leave)
/// that names the player `pid`.
pub open spec fn acts_as(m: MessageView, pid: u16) -> bool {
    match m {
        MessageView::Input { player_id, .. } => player_id == pid,
        MessageView::Interact { player_id } => player_id == pid,
        MessageView::Leave { player_id } => player_id == pid,
        _ => false,
    }
}

/// What the reader of the connection bound to player `pid` does with the
/// outcome of reading one frame (`None` when reading or decoding it
/// failed): the event it hands on, if any, and whether it goes on reading.
/// A connection acts only for its own player: inputs and interactions that
/// name `pid` are handed on, and a leave that names `pid` is handed on and
/// ends the reading; actions that name any other player, and all other
/// messages, are ignored; a failed read reports `pid` as disconnected and
/// ends the reading. Every event handed on names `pid`.
pub fn reader_event(pid: u16, frame: Option<Message>) -> (r: (Option<ReaderEvent>, bool))
    ensures
        match frame {
            Some(m) => if acts_as(m@, pid) {
                match m@ {
                    MessageView::Input { direction, .. } =>
                        r == (Some(ReaderEvent::Input { player_id: pid, direction }), true),
                    MessageView::Interact { .. } => r == (Some(ReaderEvent::Interact { player_id: pid }), true),
                    _ => r == (Some(ReaderEvent::Leave { player_id: pid }), false),
                }
            } else {
                r == (None::<ReaderEvent>, true)
            },
            None => r == (Some(ReaderEvent::Disconnected { player_id: pid }), false),
        },
        r.0 matches Some(e) ==> event_player(e) == pid,
{
    match frame {
        Some(Message::Input { player_id, direction }) => {
            if player_id == pid {
                (Some(ReaderEvent::Input { player_id: pid, direction }), true)
            } else {
                (None, true)
            }
        },
        Some(Message::Interact { player_id }) => {
            if player_id == pid {
                (Some(ReaderEvent::Interact { player_id: pid }), true)
            } else {
                (None, true)
            }
        },
        Some(Message::Leave { player_id }) => {
            if player_id == pid {
                (Some(ReaderEvent::Leave { player_id: pid }), false)
            } else {
                (None, true)
            }
        },
        Some(_) => (None, true),
        None => (Some(ReaderEvent::Disconnected { player_id: pid }), false),
    }
}

/// The player an event is about.
pub open spec fn event_player(e: ReaderEvent) -> u16 {
    match e {
        ReaderEvent::Input { player_id, .. } => player_id,
        ReaderEvent::Interact { player_id } => player_id,
        ReaderEvent::Leave { player_id } => player_id,
        ReaderEvent::Disconnected { player_id } => player_id,
    }
}

} // verus!
