//! Codes carried in single bytes by the wire protocol, and the plain records
//! that messages carry.
use vstd::prelude::*;

verus! {

/// Movement direction of a player.
#[derive(Debug, Clone, Copy, PartialEq, Eq, Structural)]
pub enum Direction {
    Idle,
    Up,
    Down,
    Left,
    Right,
}

/// Wire code of a direction.
pub open spec fn direction_code(d: Direction) -> u8 {
    match d {
        Direction::Idle => 0x00,
        Direction::Up => 0x01,
        Direction::Down => 0x02,
        Direction::Left => 0x03,
        Direction::Right => 0x04,
    }
}

/// Direction named by a wire code, if any.
pub open spec fn direction_of_code(b: u8) -> Option<Direction> {
    if b == 0x00 {
        Some(Direction::Idle)
    } else if b == 0x01 {
        Some(Direction::Up)
    } else if b == 0x02 {
        Some(Direction::Down)
    } else if b == 0x03 {
        Some(Direction::Left)
    } else if b == 0x04 {
        Some(Direction::Right)
    } else {
        None
    }
}

impl Direction {
    /// Decodes a direction from its wire code.
    pub fn from_u8(val: u8) -> (r: Option<Self>)
        ensures
            r == direction_of_code(val),
    {
        match val {
            0x00 => Some(Direction::Idle),
            0x01 => Some(Direction::Up),
            0x02 => Some(Direction::Down),
            0x03 => Some(Direction::Left),
            0x04 => Some(Direction::Right),
            _ => None,
        }
    }

    /// Wire code of this direction.
    pub fn to_u8(&self) -> (b: u8)
        ensures
            b == direction_code(*self),
    {
        match self {
            Direction::Idle => 0x00,
            Direction::Up => 0x01,
            Direction::Down => 0x02,
            Direction::Left => 0x03,
            Direction::Right => 0x04,
        }
    }
}


/// A player as listed in the lobby.
#[derive(Debug, Clone, PartialEq)]
pub struct LobbyPlayer {
    pub player_id: u16,
    pub name: String,
}

/// Abstract value of a lobby entry.
pub struct LobbyPlayerView {
    pub player_id: u16,
    pub name: Seq<char>,
}

impl View for LobbyPlayer {
    type V = LobbyPlayerView;

    open spec fn view(&self) -> LobbyPlayerView {
        LobbyPlayerView { player_id: self.player_id, name: self.name@ }
    }
}

impl LobbyPlayer {
    /// A copy of this entry.
    pub fn duplicate(&self) -> (r: Self)
        ensures
            r@ == self@,
    {
        LobbyPlayer { player_id: self.player_id, name: self.name.clone() }
    }
}

/// A player of a running game as carried on the wire. Positions are in
/// hundredths of a world unit, the fixed-point form in which the protocol
/// transmits them.
#[derive(Debug, Clone, PartialEq)]
pub struct PlayerState {
    pub player_id: u16,
    pub name: String,
    pub x: i32,
    pub y: i32,
    pub direction: Direction,
    pub has_flag: bool,
}

/// Abstract value of a player record.
pub struct PlayerStateView {
    pub player_id: u16,
    pub name: Seq<char>,
    pub x: i32,
    pub y: i32,
    pub direction: Direction,
    pub has_flag: bool,
}

impl View for PlayerState {
    type V = PlayerStateView;

    open spec fn view(&self) -> PlayerStateView {
        PlayerStateView {
            player_id: self.player_id,
            name: self.name@,
            x: self.x,
            y: self.y,
            direction: self.direction,
            has_flag: self.has_flag,
        }
    }
}

impl PlayerState {
    /// A copy of this record.
    pub fn duplicate(&self) -> (r: Self)
        ensures
            r@ == self@,
    {
        PlayerState {
            player_id: self.player_id,
            name: self.name.clone(),
            x: self.x,
            y: self.y,
            direction: self.direction,
            has_flag: self.has_flag,
        }
    }
}

/// Parameters of a game. Lengths, radii and the speed (per second) are in
/// hundredths of a world unit, as the protocol transmits them.
#[derive(Debug, Clone, Copy, PartialEq, Eq, Structural)]
pub struct GameConfig {
    pub map_size: i32,
    pub circle_radius: i32,
    pub player_radius: i32,
    pub spawn_margin: i32,
    pub player_speed: i32,
    pub interaction_radius: i32,
    pub tick_interval_ms: u16,
    pub countdown_seconds: u8,
    pub maximum_players: u16,
    pub server_port: u16,
    pub discovery_port: u16,
}

/// The default parameters: a 2000-unit map, a central circle of radius 500,
/// players of radius 15 spawning 80 units outside the circle and moving at
/// 220 units per second, an interaction radius of 60, 50 ms ticks, a
/// 5-second countdown, at most 100 players, TCP port 5000 and discovery on
/// UDP port 5001.
pub open spec fn default_config() -> GameConfig {
    GameConfig {
        map_size: 200000,
        circle_radius: 50000,
        player_radius: 1500,
        spawn_margin: 8000,
        player_speed: 22000,
        interaction_radius: 6000,
        tick_interval_ms: 50,
        countdown_seconds: 5,
        maximum_players: 100,
        server_port: 5000,
        discovery_port: 5001,
    }
}

impl Default for GameConfig {
    fn default() -> (r: Self)
        ensures
            r == default_config(),
    {
        GameConfig {
            map_size: 200000,
            circle_radius: 50000,
            player_radius: 1500,
            spawn_margin: 8000,
            player_speed: 22000,
            interaction_radius: 6000,
            tick_interval_ms: 50,
            countdown_seconds: 5,
            maximum_players: 100,
            server_port: 5000,
            discovery_port: 5001,
        }
    }
}

/// A server found by discovery. `last_seen_ms` is the time of its latest
/// answer, in milliseconds on the caller's monotonic clock.
#[derive(Debug, Clone)]
pub struct DiscoveredServer {
    pub ip: String,
    pub game_id: u16,
    pub server_name: String,
    pub tcp_port: u16,
    pub state: GameState,
    pub player_count: u16,
    pub max_players: u16,
    pub last_seen_ms: u64,
}

impl DiscoveredServer {
    /// A copy of this entry.
    pub fn duplicate(&self) -> (r: Self)
        ensures
            r == *self,
    {
        DiscoveredServer {
            ip: self.ip.clone(),
            game_id: self.game_id,
            server_name: self.server_name.clone(),
            tcp_port: self.tcp_port,
            state: self.state,
            player_count: self.player_count,
            max_players: self.max_players,
            last_seen_ms: self.last_seen_ms,
        }
    }
}

/// Decoding the code of a direction gives it back, and a code that decodes
/// is the code of what it decodes to.
pub proof fn lemma_direction_code_roundtrip(x: Direction, b: u8)
    ensures
        direction_of_code(direction_code(x)) == Some(x),
        direction_of_code(b) matches Some(y) ==> direction_code(y) == b,
{
}

/// Status of the flag.
#[derive(Debug, Clone, Copy, PartialEq, Eq, Structural)]
pub enum FlagStatus {
    Available,
    Carried,
    Dropped,
    Outside,
}

/// Wire code of a flag status.
pub open spec fn flag_status_code(x: FlagStatus) -> u8 {
    match x {
        FlagStatus::Available => 0x01,
        FlagStatus::Carried => 0x02,
        FlagStatus::Dropped => 0x03,
        FlagStatus::Outside => 0x04,
    }
}

/// FlagStatus named by a wire code, if any.
pub open spec fn flag_status_of_code(b: u8) -> Option<FlagStatus> {
    if b == 0x01 {
        Some(FlagStatus::Available)
    } else if b == 0x02 {
        Some(FlagStatus::Carried)
    } else if b == 0x03 {
        Some(FlagStatus::Dropped)
    } else if b == 0x04 {
        Some(FlagStatus::Outside)
    } else {
        None
    }
}

impl FlagStatus {
    /// Decodes a value from its wire code.
    pub fn from_u8(val: u8) -> (r: Option<Self>)
        ensures
            r == flag_status_of_code(val),
    {
        match val {
            0x01 => Some(FlagStatus::Available),
            0x02 => Some(FlagStatus::Carried),
            0x03 => Some(FlagStatus::Dropped),
            0x04 => Some(FlagStatus::Outside),
            _ => None,
        }
    }

    /// Wire code of this value.
    pub fn to_u8(&self) -> (b: u8)
        ensures
            b == flag_status_code(*self),
    {
        match self {
            FlagStatus::Available => 0x01,
            FlagStatus::Carried => 0x02,
            FlagStatus::Dropped => 0x03,
            FlagStatus::Outside => 0x04,
        }
    }
}

/// Decoding the code of a value gives the value back, and a code that
/// decodes is the code of what it decodes to.
pub proof fn lemma_flag_status_code_roundtrip(x: FlagStatus, b: u8)
    ensures
        flag_status_of_code(flag_status_code(x)) == Some(x),
        flag_status_of_code(b) matches Some(y) ==> flag_status_code(y) == b,
{
}

/// Phase of a game session as carried on the wire.
#[derive(Debug, Clone, Copy, PartialEq, Eq, Structural)]
pub enum GameState {
    Waiting,
    Starting,
    Running,
    Finished,
    Cancelled,
}

/// Wire code of a game state.
pub open spec fn game_state_code(x: GameState) -> u8 {
    match x {
        GameState::Waiting => 0x01,
        GameState::Starting => 0x02,
        GameState::Running => 0x03,
        GameState::Finished => 0x04,
        GameState::Cancelled => 0x05,
    }
}

/// GameState named by a wire code, if any.
pub open spec fn game_state_of_code(b: u8) -> Option<GameState> {
    if b == 0x01 {
        Some(GameState::Waiting)
    } else if b == 0x02 {
        Some(GameState::Starting)
    } else if b == 0x03 {
        Some(GameState::Running)
    } else if b == 0x04 {
        Some(GameState::Finished)
    } else if b == 0x05 {
        Some(GameState::Cancelled)
    } else {
        None
    }
}

impl GameState {
    /// Decodes a value from its wire code.
    pub fn from_u8(val: u8) -> (r: Option<Self>)
        ensures
            r == game_state_of_code(val),
    {
        match val {
            0x01 => Some(GameState::Waiting),
            0x02 => Some(GameState::Starting),
            0x03 => Some(GameState::Running),
            0x04 => Some(GameState::Finished),
            0x05 => Some(GameState::Cancelled),
            _ => None,
        }
    }

    /// Wire code of this value.
    pub fn to_u8(&self) -> (b: u8)
        ensures
            b == game_state_code(*self),
    {
        match self {
            GameState::Waiting => 0x01,
            GameState::Starting => 0x02,
            GameState::Running => 0x03,
            GameState::Finished => 0x04,
            GameState::Cancelled => 0x05,
        }
    }
}

/// Decoding the code of a value gives the value back, and a code that
/// decodes is the code of what it decodes to.
pub proof fn lemma_game_state_code_roundtrip(x: GameState, b: u8)
    ensures
        game_state_of_code(game_state_code(x)) == Some(x),
        game_state_of_code(b) matches Some(y) ==> game_state_code(y) == b,
{
}

/// Why the server refused a join.
#[derive(Debug, Clone, Copy, PartialEq, Eq, Structural)]
pub enum JoinRejectReason {
    GameAlreadyStarted,
    GameFull,
    InvalidName,
    UnsupportedProtocolVersion,
}

/// Wire code of a join reject reason.
pub open spec fn join_reject_reason_code(x: JoinRejectReason) -> u8 {
    match x {
        JoinRejectReason::GameAlreadyStarted => 0x01,
        JoinRejectReason::GameFull => 0x02,
        JoinRejectReason::InvalidName => 0x03,
        JoinRejectReason::UnsupportedProtocolVersion => 0x04,
    }
}

/// JoinRejectReason named by a wire code, if any.
pub open spec fn join_reject_reason_of_code(b: u8) -> Option<JoinRejectReason> {
    if b == 0x01 {
        Some(JoinRejectReason::GameAlreadyStarted)
    } else if b == 0x02 {
        Some(JoinRejectReason::GameFull)
    } else if b == 0x03 {
        Some(JoinRejectReason::InvalidName)
    } else if b == 0x04 {
        Some(JoinRejectReason::UnsupportedProtocolVersion)
    } else {
        None
    }
}

impl JoinRejectReason {
    /// Decodes a value from its wire code.
    pub fn from_u8(val: u8) -> (r: Option<Self>)
        ensures
            r == join_reject_reason_of_code(val),
    {
        match val {
            0x01 => Some(JoinRejectReason::GameAlreadyStarted),
            0x02 => Some(JoinRejectReason::GameFull),
            0x03 => Some(JoinRejectReason::InvalidName),
            0x04 => Some(JoinRejectReason::UnsupportedProtocolVersion),
            _ => None,
        }
    }

    /// Wire code of this value.
    pub fn to_u8(&self) -> (b: u8)
        ensures
            b == join_reject_reason_code(*self),
    {
        match self {
            JoinRejectReason::GameAlreadyStarted => 0x01,
            JoinRejectReason::GameFull => 0x02,
            JoinRejectReason::InvalidName => 0x03,
            JoinRejectReason::UnsupportedProtocolVersion => 0x04,
        }
    }
}

/// Decoding the code of a value gives the value back, and a code that
/// decodes is the code of what it decodes to.
pub proof fn lemma_join_reject_reason_code_roundtrip(x: JoinRejectReason, b: u8)
    ensures
        join_reject_reason_of_code(join_reject_reason_code(x)) == Some(x),
        join_reject_reason_of_code(b) matches Some(y) ==> join_reject_reason_code(y) == b,
{
}

/// Why the game ended.
#[derive(Debug, Clone, Copy, PartialEq, Eq, Structural)]
pub enum GameOverReason {
    ExitedCircleWithFlag,
}

/// Wire code of a game over reason.
pub open spec fn game_over_reason_code(x: GameOverReason) -> u8 {
    match x {
        GameOverReason::ExitedCircleWithFlag => 0x01,
    }
}

/// GameOverReason named by a wire code, if any.
pub open spec fn game_over_reason_of_code(b: u8) -> Option<GameOverReason> {
    if b == 0x01 {
        Some(GameOverReason::ExitedCircleWithFlag)
    } else {
        None
    }
}

impl GameOverReason {
    /// Decodes a value from its wire code.
    pub fn from_u8(val: u8) -> (r: Option<Self>)
        ensures
            r == game_over_reason_of_code(val),
    {
        match val {
            0x01 => Some(GameOverReason::ExitedCircleWithFlag),
            _ => None,
        }
    }

    /// Wire code of this value.
    pub fn to_u8(&self) -> (b: u8)
        ensures
            b == game_over_reason_code(*self),
    {
        match self {
            GameOverReason::ExitedCircleWithFlag => 0x01,
        }
    }
}

/// Decoding the code of a value gives the value back, and a code that
/// decodes is the code of what it decodes to.
pub proof fn lemma_game_over_reason_code_roundtrip(x: GameOverReason, b: u8)
    ensures
        game_over_reason_of_code(game_over_reason_code(x)) == Some(x),
        game_over_reason_of_code(b) matches Some(y) ==> game_over_reason_code(y) == b,
{
}

/// Code of an error message.
#[derive(Debug, Clone, Copy, PartialEq, Eq, Structural)]
pub enum ErrorCode {
    InvalidMessage,
    InvalidEncoding,
    InvalidInput,
    UnknownPlayer,
    GameNotStarted,
    GameAlreadyStarted,
    GameFinished,
    UnsupportedProtocolVersion,
}

/// Wire code of a error code.
pub open spec fn error_code_code(x: ErrorCode) -> u8 {
    match x {
        ErrorCode::InvalidMessage => 0x01,
        ErrorCode::InvalidEncoding => 0x02,
        ErrorCode::InvalidInput => 0x03,
        ErrorCode::UnknownPlayer => 0x04,
        ErrorCode::GameNotStarted => 0x05,
        ErrorCode::GameAlreadyStarted => 0x06,
        ErrorCode::GameFinished => 0x07,
        ErrorCode::UnsupportedProtocolVersion => 0x08,
    }
}

/// ErrorCode named by a wire code, if any.
pub open spec fn error_code_of_code(b: u8) -> Option<ErrorCode> {
    if b == 0x01 {
        Some(ErrorCode::InvalidMessage)
    } else if b == 0x02 {
        Some(ErrorCode::InvalidEncoding)
    } else if b == 0x03 {
        Some(ErrorCode::InvalidInput)
    } else if b == 0x04 {
        Some(ErrorCode::UnknownPlayer)
    } else if b == 0x05 {
        Some(ErrorCode::GameNotStarted)
    } else if b == 0x06 {
        Some(ErrorCode::GameAlreadyStarted)
    } else if b == 0x07 {
        Some(ErrorCode::GameFinished)
    } else if b == 0x08 {
        Some(ErrorCode::UnsupportedProtocolVersion)
    } else {
        None
    }
}

impl ErrorCode {
    /// Decodes a value from its wire code.
    pub fn from_u8(val: u8) -> (r: Option<Self>)
        ensures
            r == error_code_of_code(val),
    {
        match val {
            0x01 => Some(ErrorCode::InvalidMessage),
            0x02 => Some(ErrorCode::InvalidEncoding),
            0x03 => Some(ErrorCode::InvalidInput),
            0x04 => Some(ErrorCode::UnknownPlayer),
            0x05 => Some(ErrorCode::GameNotStarted),
            0x06 => Some(ErrorCode::GameAlreadyStarted),
            0x07 => Some(ErrorCode::GameFinished),
            0x08 => Some(ErrorCode::UnsupportedProtocolVersion),
            _ => None,
        }
    }

    /// Wire code of this value.
    pub fn to_u8(&self) -> (b: u8)
        ensures
            b == error_code_code(*self),
    {
        match self {
            ErrorCode::InvalidMessage => 0x01,
            ErrorCode::InvalidEncoding => 0x02,
            ErrorCode::InvalidInput => 0x03,
            ErrorCode::UnknownPlayer => 0x04,
            ErrorCode::GameNotStarted => 0x05,
            ErrorCode::GameAlreadyStarted => 0x06,
            ErrorCode::GameFinished => 0x07,
            ErrorCode::UnsupportedProtocolVersion => 0x08,
        }
    }
}

/// Decoding the code of a value gives the value back, and a code that
/// decodes is the code of what it decodes to.
pub proof fn lemma_error_code_code_roundtrip(x: ErrorCode, b: u8)
    ensures
        error_code_of_code(error_code_code(x)) == Some(x),
        error_code_of_code(b) matches Some(y) ==> error_code_code(y) == b,
{
}

} // verus!
