//! Bookkeeping of the network logger: the line format, the rotation of log
//! files, and the names remembered for player ids.
//!
//! The files themselves are written by the caller, following the plans
//! that [`LoggerHandle::append`] returns.
use vstd::prelude::*;
use std::collections::HashMap;
use crate::protocol::{message_tag, Message, MessageView};
use crate::text::{decimal, decimal_string_u64};

verus! {

broadcast use vstd::std_specs::hash::group_hash_axioms;

/// Whether a message was sent or received.
#[derive(Debug, Clone, Copy, PartialEq, Eq, Structural)]
pub enum LogDirection {
    Sent,
    Received,
}

/// Lines written to one file before the logger starts a new one.
pub const MAX_LOG_LINES_PER_FILE: usize = 2000;

/// Directory of the log files.
pub const LOG_DIRECTORY: &'static str = "logs";

// ---------------------------------------------------------------------------
// Time
// ---------------------------------------------------------------------------

#[verifier::external_type_specification]
#[verifier::external_body]
pub struct ExSystemTime(std::time::SystemTime);

/// Calls `SystemTime::now`: the time of the system clock. Nothing is
/// promised of it.
#[verifier::external_body]
fn system_now() -> std::time::SystemTime {
    std::time::SystemTime::now()
}

/// Calls `SystemTime::duration_since` with `UNIX_EPOCH`: the time elapsed
/// since the epoch, `None` where the clock reads an earlier time. Nothing
/// is promised of the value: it depends on the clock.
#[verifier::external_body]
fn since_epoch(t: &std::time::SystemTime) -> Option<std::time::Duration> {
    match t.duration_since(std::time::UNIX_EPOCH) {
        Ok(d) => Some(d),
        Err(_) => None,
    }
}

/// Calls `Duration::as_secs`: the whole seconds of a duration. Nothing is
/// stated of the value, since the duration is not visible here.
#[verifier::external_body]
fn whole_seconds(d: &std::time::Duration) -> u64 {
    d.as_secs()
}

/// Whole seconds since the UNIX epoch by the system clock, 0 if the clock
/// reads an earlier time.
fn unix_seconds() -> u64 {
    let now = system_now();
    match since_epoch(&now) {
        Some(d) => whole_seconds(&d),
        None => 0,
    }
}

/// The current UNIX time in seconds, in decimal.
pub fn current_timestamp() -> (s: String)
    ensures
        exists|n: u64| s@ == decimal(n as nat),
{
    let n = unix_seconds();
    decimal_string_u64(n)
}

/// Calls chrono's `Local::now().format("%d/%m/%Y %H:%M:%S")`: the local
/// time for humans. Nothing is promised of the text: it depends on the
/// clock and the time zone. The date is formatted in the same call because
/// chrono's `DateTime` cannot be declared to Verus (its parameter is bound
/// by chrono's `TimeZone` trait).
#[verifier::external_body]
pub fn format_timestamp() -> String {
    chrono::Local::now().format("%d/%m/%Y %H:%M:%S").to_string()
}

// ---------------------------------------------------------------------------
// Lines
// ---------------------------------------------------------------------------

/// The marker of a direction: `>` for sent, `<` for received.
pub open spec fn marker_text(d: LogDirection) -> Seq<char> {
    match d {
        LogDirection::Sent => ">"@,
        LogDirection::Received => "<"@,
    }
}

/// A log line: `<marker> [<time>] <<side>> <address> <type>: <payload>`.
pub open spec fn message_line_text(
    d: LogDirection,
    timestamp: Seq<char>,
    address: Seq<char>,
    side: Seq<char>,
    message_type: Seq<char>,
    payload: Seq<char>,
) -> Seq<char> {
    marker_text(d) + " ["@ + timestamp + "] <"@ + side + "> "@ + address + " "@ + message_type + ": "@ + payload
}

/// The log line of a message at the given time.
pub fn message_line(
    direction: LogDirection,
    timestamp: &str,
    address: &str,
    side: &str,
    message_type: &str,
    payload: &str,
) -> (s: String)
    ensures
        s@ == message_line_text(direction, timestamp@, address@, side@, message_type@, payload@),
{
    let marker = match direction {
        LogDirection::Sent => ">",
        LogDirection::Received => "<",
    };
    String::from_str(marker).concat(" [").concat(timestamp).concat("] <").concat(side).concat("> ")
        .concat(address).concat(" ").concat(message_type).concat(": ").concat(payload)
}

/// The log line of a message, stamped with the current local time.
pub fn format_message_line(
    direction: LogDirection,
    address: &str,
    side: &str,
    message_type: &str,
    payload: &str,
) -> (s: String)
    ensures
        exists|t: Seq<char>| s@ == message_line_text(direction, t, address@, side@, message_type@, payload@),
{
    let t = format_timestamp();
    message_line(direction, t.as_str(), address, side, message_type, payload)
}

/// The name of a message's variant.
pub open spec fn message_type_text(m: MessageView) -> Seq<char> {
    match m {
        MessageView::DiscoverRequest => "DiscoverRequest"@,
        MessageView::DiscoverResponse { .. } => "DiscoverResponse"@,
        MessageView::Join { .. } => "Join"@,
        MessageView::Input { .. } => "Input"@,
        MessageView::Interact { .. } => "Interact"@,
        MessageView::Leave { .. } => "Leave"@,
        MessageView::JoinAccepted { .. } => "JoinAccepted"@,
        MessageView::JoinRejected { .. } => "JoinRejected"@,
        MessageView::LobbyState { .. } => "LobbyState"@,
        MessageView::GameCountdown { .. } => "GameCountdown"@,
        MessageView::GameStarted { .. } => "GameStarted"@,
        MessageView::GameStateMsg { .. } => "GameStateMsg"@,
        MessageView::FlagPickedUp { .. } => "FlagPickedUp"@,
        MessageView::FlagStolen { .. } => "FlagStolen"@,
        MessageView::PlayerDisconnected { .. } => "PlayerDisconnected"@,
        MessageView::GameOver { .. } => "GameOver"@,
        MessageView::ErrorMsg { .. } => "ErrorMsg"@,
    }
}

/// The type byte of the message variant whose log name is `name`, read off
/// the name's length and one or two of its letters; 0 for a length that no
/// variant's name has.
spec fn tag_of_name(name: Seq<char>) -> u8 {
    let n = name.len();
    if n == 15 { 0x01 }
    else if n == 16 { 0x02 }
    else if n == 4 { 0x10 }
    else if n == 5 { if name[0] == 'I' { 0x11 } else { 0x13 } }
    else if n == 8 { if name[0] == 'I' { 0x12 } else if name[0] == 'G' { 0x29 } else { 0x2A } }
    else if n == 10 { if name[0] == 'L' { 0x22 } else { 0x27 } }
    else if n == 11 { 0x24 }
    else if n == 12 {
        if name[0] == 'G' { 0x25 }
        else if name[0] == 'F' { 0x26 }
        else if name[4] == 'A' { 0x20 }
        else { 0x21 }
    }
    else if n == 13 { 0x23 }
    else if n == 18 { 0x28 }
    else { 0 }
}

proof fn lemma_name_tells_the_tag(m: MessageView)
    ensures
        tag_of_name(message_type_text(m)) == message_tag(m),
{
    reveal_strlit("DiscoverRequest");
    reveal_strlit("DiscoverResponse");
    reveal_strlit("Join");
    reveal_strlit("Input");
    reveal_strlit("Interact");
    reveal_strlit("Leave");
    reveal_strlit("JoinAccepted");
    reveal_strlit("JoinRejected");
    reveal_strlit("LobbyState");
    reveal_strlit("GameCountdown");
    reveal_strlit("GameStarted");
    reveal_strlit("GameStateMsg");
    reveal_strlit("FlagPickedUp");
    reveal_strlit("FlagStolen");
    reveal_strlit("PlayerDisconnected");
    reveal_strlit("GameOver");
    reveal_strlit("ErrorMsg");
}

/// Log lines tell the kinds of messages apart: two messages get the same
/// type name exactly when they are of the same variant, that is when they
/// carry the same type byte on the wire.
pub proof fn lemma_message_names_distinct(a: MessageView, b: MessageView)
    ensures
        (message_type_text(a) == message_type_text(b)) <==> (message_tag(a) == message_tag(b)),
{
    lemma_name_tells_the_tag(a);
    lemma_name_tells_the_tag(b);
}

/// The name of a message's variant, as log lines show it.
pub fn message_type_name(message: &Message) -> (s: &'static str)
    ensures
        s@ == message_type_text(message@),
{
    match message {
        Message::DiscoverRequest => "DiscoverRequest",
        Message::DiscoverResponse { .. } => "DiscoverResponse",
        Message::Join { .. } => "Join",
        Message::Input { .. } => "Input",
        Message::Interact { .. } => "Interact",
        Message::Leave { .. } => "Leave",
        Message::JoinAccepted { .. } => "JoinAccepted",
        Message::JoinRejected { .. } => "JoinRejected",
        Message::LobbyState { .. } => "LobbyState",
        Message::GameCountdown { .. } => "GameCountdown",
        Message::GameStarted { .. } => "GameStarted",
        Message::GameStateMsg { .. } => "GameStateMsg",
        Message::FlagPickedUp { .. } => "FlagPickedUp",
        Message::FlagStolen { .. } => "FlagStolen",
        Message::PlayerDisconnected { .. } => "PlayerDisconnected",
        Message::GameOver { .. } => "GameOver",
        Message::ErrorMsg { .. } => "ErrorMsg",
    }
}

// ---------------------------------------------------------------------------
// Files and their rotation
// ---------------------------------------------------------------------------

/// Name of a log file of a side, started at the given time.
pub open spec fn log_file_text(side: Seq<char>, timestamp: Seq<char>) -> Seq<char> {
    side + "-"@ + timestamp + ".log"@
}

pub fn log_file_name(side: &str, timestamp: &str) -> (s: String)
    ensures
        s@ == log_file_text(side@, timestamp@),
{
    String::from_str(side).concat("-").concat(timestamp).concat(".log")
}

/// Whether a side is the client's (every other side logs as the server).
pub fn is_client_side(side: &str) -> (b: bool)
    ensures
        b == (side@ == "client"@),
{
    side.to_owned() == "client".to_owned()
}

/// The current file and line count of each side.
#[derive(Debug, Clone)]
pub struct LoggerHandle {
    pub client_file: Option<String>,
    pub server_file: Option<String>,
    pub client_lines: usize,
    pub server_lines: usize,
}

/// How to write one line: the side's slot (the client's or the server's),
/// the file to create first, if any, the file (in the log directory) to
/// append the line to, and the side's line count once the line is written.
#[derive(Debug, Clone)]
pub struct AppendPlan {
    pub client_side: bool,
    pub create: Option<String>,
    pub write_to: String,
    pub lines_after: usize,
}

/// Abstract value of the logger: per side (client, server) the file and the
/// number of lines written to it.
pub struct LoggerView {
    pub client_file: Option<Seq<char>>,
    pub server_file: Option<Seq<char>>,
    pub client_lines: nat,
    pub server_lines: nat,
}

pub open spec fn file_text(f: Option<String>) -> Option<Seq<char>> {
    match f {
        Some(s) => Some(s@),
        None => None,
    }
}

impl LoggerView {
    /// A side with no file has written no line.
    pub open spec fn wf(self) -> bool {
        &&& self.client_file is None ==> self.client_lines == 0
        &&& self.server_file is None ==> self.server_lines == 0
    }
}

impl View for LoggerHandle {
    type V = LoggerView;

    open spec fn view(&self) -> LoggerView {
        LoggerView {
            client_file: file_text(self.client_file),
            server_file: file_text(self.server_file),
            client_lines: self.client_lines as nat,
            server_lines: self.server_lines as nat,
        }
    }
}

/// Name of the file that replaces the full file `full` of a side at time
/// `timestamp`: the usual name, unless that is the full file's own name (a
/// rotation within the same second), in which case `-1` is added before
/// the extension.
pub open spec fn rotation_name(side: Seq<char>, timestamp: Seq<char>, full: Seq<char>) -> Seq<char> {
    let name = log_file_text(side, timestamp);
    if name != full {
        name
    } else {
        side + "-"@ + timestamp + "-1.log"@
    }
}

/// Plan of appending a line for a side that has the file `file` (if any)
/// holding `lines` lines, at time `timestamp`: a side without a file starts
/// one; a full file (2000 lines) is left as it is and a new one is started.
/// Gives the file to create (if any), the file to write the line to, and
/// the side's line count once the line is written: a new file holds one.
pub open spec fn append_plan(
    file: Option<Seq<char>>,
    lines: nat,
    side: Seq<char>,
    timestamp: Seq<char>,
) -> (Option<Seq<char>>, Seq<char>, nat) {
    match file {
        None => {
            let name = log_file_text(side, timestamp);
            (Some(name), name, 1)
        },
        Some(f) => if lines >= 2000 {
            let name = rotation_name(side, timestamp, f);
            (Some(name), name, 1)
        } else {
            (None, f, lines + 1)
        },
    }
}

/// A file that a plan starts never has the name of the side's current
/// file, so starting it never touches the lines already written there.
pub proof fn lemma_new_file_differs(file: Option<Seq<char>>, lines: nat, side: Seq<char>, timestamp: Seq<char>)
    ensures
        ({
            let created = append_plan(file, lines, side, timestamp).0;
            created is Some && file is Some ==> created->0 != file->0
        }),
{
    reveal_strlit("-");
    reveal_strlit(".log");
    reveal_strlit("-1.log");
    if let Some(f) = file {
        if lines >= 2000 && log_file_text(side, timestamp) == f {
            let n = side + "-"@ + timestamp + "-1.log"@;
            assert(n.len() == f.len() + 2);
        }
    }
}

/// The logger of a process, with no files yet; the caller creates the log
/// directory.
pub fn init_logger() -> (h: LoggerHandle)
    ensures
        h@ == (LoggerView { client_file: None, server_file: None, client_lines: 0, server_lines: 0 }),
{
    LoggerHandle::new()
}

/// A side's line count never passes the limit of a file: a count within
/// the limit stays within it after a line is written.
pub proof fn lemma_line_count_bounded(file: Option<Seq<char>>, lines: nat, side: Seq<char>, timestamp: Seq<char>)
    requires
        lines <= 2000,
    ensures
        append_plan(file, lines, side, timestamp).2 <= 2000,
{
}

/// One side's logging after a run of appends, each a plan (see
/// [`append_plan`]) followed by the writing of its line: the side's file and
/// line count, the names of the files in the order they were started, and
/// the lines each file holds. Each step gives the time of the append and
/// the line; the run starts from a side with no file, and a line is always
/// appended at the end of its file.
pub open spec fn run_of_appends(side: Seq<char>, steps: Seq<(Seq<char>, Seq<char>)>)
    -> (Option<Seq<char>>, nat, Seq<Seq<char>>, Map<Seq<char>, Seq<Seq<char>>>)
    decreases steps.len(),
{
    if steps.len() == 0 {
        (None, 0, Seq::empty(), Map::empty())
    } else {
        let (file, lines, names, files) = run_of_appends(side, steps.drop_last());
        let (timestamp, line) = steps.last();
        let (create, write_to, lines_after) = append_plan(file, lines, side, timestamp);
        let started = if create is Some { names.push(write_to) } else { names };
        let before = if files.contains_key(write_to) { files[write_to] } else { Seq::empty() };
        (Some(write_to), lines_after, started, files.insert(write_to, before.push(line)))
    }
}

/// The lines of the files `names`, one file after the other.
pub open spec fn joined(names: Seq<Seq<char>>, files: Map<Seq<char>, Seq<Seq<char>>>) -> Seq<Seq<char>>
    decreases names.len(),
{
    if names.len() == 0 {
        Seq::empty()
    } else {
        joined(names.drop_last(), files) + files[names.last()]
    }
}

/// Changing a file outside `names` leaves their joined lines as they are.
proof fn lemma_joined_other_file(names: Seq<Seq<char>>, files: Map<Seq<char>, Seq<Seq<char>>>, name: Seq<char>, lines: Seq<Seq<char>>)
    requires
        !names.contains(name),
    ensures
        joined(names, files.insert(name, lines)) == joined(names, files),
    decreases names.len(),
{
    if names.len() > 0 {
        assert(!names.drop_last().contains(name)) by {
            if names.drop_last().contains(name) {
                let i = choose|i: int| 0 <= i < names.drop_last().len() && names.drop_last()[i] == name;
                assert(names[i] == name);
            }
        }
        assert(names[names.len() - 1] != name);
        lemma_joined_other_file(names.drop_last(), files, name, lines);
    }
}

/// What a run of appends keeps: the side has a file exactly when one was
/// started, the last one started; that file holds the side's line count;
/// every file holds at most 2000 lines; the files are those started, and
/// their lines, joined in the order the files were started, are the lines
/// of the run.
proof fn lemma_run_invariant(side: Seq<char>, steps: Seq<(Seq<char>, Seq<char>)>)
    requires
        run_of_appends(side, steps).2.no_duplicates(),
    ensures
        ({
            let (file, lines, names, files) = run_of_appends(side, steps);
            &&& (file is None <==> names.len() == 0)
            &&& file is Some ==> file->0 == names.last() && files[names.last()].len() == lines
            &&& lines <= 2000
            &&& files.dom() == names.to_set()
            &&& forall|i: int| 0 <= i < names.len() ==> #[trigger] files[names[i]].len() <= 2000
            &&& joined(names, files) == steps.map_values(|s: (Seq<char>, Seq<char>)| s.1)
        }),
    decreases steps.len(),
{
    if steps.len() > 0 {
        let prev = steps.drop_last();
        let (file, lines, names, files) = run_of_appends(side, prev);
        let (timestamp, line) = steps.last();
        let (create, write_to, lines_after) = append_plan(file, lines, side, timestamp);
        let (file2, lines2, names2, files2) = run_of_appends(side, steps);
        assert(names2 == if create is Some { names.push(write_to) } else { names });
        assert(names.no_duplicates()) by {
            if create is Some {
                assert forall|i: int, j: int| 0 <= i < names.len() && 0 <= j < names.len() && i != j implies names[i] != names[j] by {
                    assert(names2[i] == names[i] && names2[j] == names[j]);
                }
            }
        }
        lemma_run_invariant(side, prev);
        let lines_of = |s: (Seq<char>, Seq<char>)| s.1;
        assert(steps.map_values(lines_of) == prev.map_values(lines_of).push(line));
        if create is Some {
            assert(!names.contains(write_to)) by {
                if names.contains(write_to) {
                    let i = choose|i: int| 0 <= i < names.len() && names[i] == write_to;
                    assert(names2[i] == names2[names.len() as int]);
                }
            }
            assert(!files.contains_key(write_to));
            assert(files2 == files.insert(write_to, seq![line]));
            lemma_joined_other_file(names, files, write_to, seq![line]);
            assert(names2.drop_last() == names);
            assert(joined(names2, files2) == joined(names, files2) + seq![line]);
            assert(files2.dom() == names2.to_set()) by {
                assert forall|n: Seq<char>| files2.dom().contains(n) <==> names2.to_set().contains(n) by {
                    if names2.to_set().contains(n) && n != write_to {
                        let i = choose|i: int| 0 <= i < names2.len() && names2[i] == n;
                        assert(names.contains(n));
                    }
                    if names.to_set().contains(n) {
                        let i = choose|i: int| 0 <= i < names.len() && names[i] == n;
                        assert(names2[i] == n);
                    }
                }
            }
            assert forall|i: int| 0 <= i < names2.len() implies #[trigger] files2[names2[i]].len() <= 2000 by {
                if i < names.len() {
                    assert(names2[i] == names[i]);
                    assert(names[i] != write_to);
                }
            }
        } else {
            assert(file is Some && lines < 2000);
            assert(write_to == names.last());
            assert(names.len() > 0);
            assert(files.contains_key(write_to)) by {
                assert(names.to_set().contains(names.last()));
            }
            let last = names.len() - 1;
            assert(!names.drop_last().contains(write_to)) by {
                if names.drop_last().contains(write_to) {
                    let i = choose|i: int| 0 <= i < names.drop_last().len() && names.drop_last()[i] == write_to;
                    assert(names[i] == names[last]);
                }
            }
            lemma_joined_other_file(names.drop_last(), files, write_to, files[write_to].push(line));
            assert(joined(names, files2) == joined(names.drop_last(), files) + files[write_to].push(line));
            assert(files2.dom() == names2.to_set());
            assert forall|i: int| 0 <= i < names2.len() implies #[trigger] files2[names2[i]].len() <= 2000 by {
                if names2[i] != write_to {
                    assert(files2[names2[i]] == files[names[i]]);
                }
            }
        }
    }
}

/// The law of rotation over a run of appends for one side: while the files
/// that the run starts have distinct names (as they do when the clock has
/// moved on to a new second before each file is started), no file holds
/// more than 2000 lines, the files are exactly those started, and their
/// lines, one file after the other in the order they were started, are the
/// lines of the run in order.
pub proof fn lemma_rotation_keeps_every_line(side: Seq<char>, steps: Seq<(Seq<char>, Seq<char>)>)
    requires
        run_of_appends(side, steps).2.no_duplicates(),
    ensures
        ({
            let (file, lines, names, files) = run_of_appends(side, steps);
            &&& forall|i: int| 0 <= i < names.len() ==> #[trigger] files[names[i]].len() <= 2000
            &&& files.dom() == names.to_set()
            &&& joined(names, files) == steps.map_values(|s: (Seq<char>, Seq<char>)| s.1)
        }),
{
    lemma_run_invariant(side, steps);
}

impl LoggerHandle {
    /// A logger with no files yet.
    pub fn new() -> (h: Self)
        ensures
            h@ == (LoggerView { client_file: None, server_file: None, client_lines: 0, server_lines: 0 }),
    {
        LoggerHandle { client_file: None, server_file: None, client_lines: 0, server_lines: 0 }
    }

    /// Plans the writing of one line for `side` at time `timestamp` (see
    /// [`append_plan`]); the logger changes only once the line is written
    /// and [`LoggerHandle::append`] records it.
    pub fn plan_append(&self, side: &str, timestamp: &str) -> (plan: AppendPlan)
        requires
            self@.wf(),
        ensures
            plan.client_side == (side@ == "client"@),
            ({
                let (file, lines) = if plan.client_side {
                    (self@.client_file, self@.client_lines)
                } else {
                    (self@.server_file, self@.server_lines)
                };
                let (create, write_to, lines_after) = append_plan(file, lines, side@, timestamp@);
                &&& file_text(plan.create) == create
                &&& plan.write_to@ == write_to
                &&& plan.lines_after == lines_after
            }),
    {
        let client = is_client_side(side);
        let (file, lines) = if client {
            (&self.client_file, self.client_lines)
        } else {
            (&self.server_file, self.server_lines)
        };
        match file {
            None => {
                let name = log_file_name(side, timestamp);
                AppendPlan { client_side: client, create: Some(name.clone()), write_to: name, lines_after: 1 }
            },
            Some(f) => {
                if lines >= MAX_LOG_LINES_PER_FILE {
                    let usual = log_file_name(side, timestamp);
                    let name = if usual == *f {
                        String::from_str(side).concat("-").concat(timestamp).concat("-1.log")
                    } else {
                        usual
                    };
                    AppendPlan { client_side: client, create: Some(name.clone()), write_to: name, lines_after: 1 }
                } else {
                    AppendPlan { client_side: client, create: None, write_to: f.clone(), lines_after: lines + 1 }
                }
            },
        }
    }

    /// Records a line written as `plan` says: the side's file and line count
    /// become the plan's.
    pub fn append(&mut self, plan: &AppendPlan)
        ensures
            old(self)@.wf() ==> final(self)@.wf(),
            plan.client_side ==> final(self)@ == (LoggerView {
                client_file: Some(plan.write_to@),
                client_lines: plan.lines_after as nat,
                ..old(self)@
            }),
            !plan.client_side ==> final(self)@ == (LoggerView {
                server_file: Some(plan.write_to@),
                server_lines: plan.lines_after as nat,
                ..old(self)@
            }),
    {
        if plan.client_side {
            self.client_file = Some(plan.write_to.clone());
            self.client_lines = plan.lines_after;
        } else {
            self.server_file = Some(plan.write_to.clone());
            self.server_lines = plan.lines_after;
        }
    }
}

// ---------------------------------------------------------------------------
// Names remembered for the log
// ---------------------------------------------------------------------------

/// Names of players per side, learned from lobby and start messages.
#[derive(Debug, Clone)]
pub struct NameStore {
    pub sides: Vec<String>,
    pub names: Vec<HashMap<u16, String>>,
}

/// Names of a lobby list added to `m`; a later entry wins.
pub open spec fn with_lobby_names(m: Map<u16, String>, ps: Seq<crate::types::LobbyPlayer>) -> Map<u16, String>
    decreases ps.len(),
{
    if ps.len() == 0 {
        m
    } else {
        with_lobby_names(m, ps.drop_last()).insert(ps.last().player_id, ps.last().name)
    }
}

pub open spec fn with_player_names(m: Map<u16, String>, ps: Seq<crate::types::PlayerState>) -> Map<u16, String>
    decreases ps.len(),
{
    if ps.len() == 0 {
        m
    } else {
        with_player_names(m, ps.drop_last()).insert(ps.last().player_id, ps.last().name)
    }
}

/// Every player of a lobby list is known by name afterwards, under the
/// last name the list gives for its id.
pub proof fn lemma_lobby_names_resolve(m: Map<u16, String>, ps: Seq<crate::types::LobbyPlayer>, i: int)
    requires
        0 <= i < ps.len(),
        forall|j: int| i < j < ps.len() ==> ps[j].player_id != ps[i].player_id,
    ensures
        with_lobby_names(m, ps).contains_key(ps[i].player_id),
        with_lobby_names(m, ps)[ps[i].player_id] == ps[i].name,
    decreases ps.len(),
{
    if i < ps.len() - 1 {
        lemma_lobby_names_resolve(m, ps.drop_last(), i);
        assert(ps.last() == ps[ps.len() - 1]);
    }
}

impl NameStore {
    pub open spec fn wf(&self) -> bool {
        &&& self.sides@.len() == self.names@.len()
        &&& forall|i: int, j: int| 0 <= i < j < self.sides@.len() ==> self.sides@[i]@ != self.sides@[j]@
    }

    /// The names known on a side, if the side has any entry.
    pub open spec fn side_names(&self, side: Seq<char>) -> Option<Map<u16, String>> {
        if exists|i: int| 0 <= i < self.sides@.len() && self.sides@[i]@ == side {
            let i = choose|i: int| 0 <= i < self.sides@.len() && self.sides@[i]@ == side;
            Some(self.names@[i]@)
        } else {
            None
        }
    }

    proof fn lemma_side_names_at(&self, i: int)
        requires
            self.wf(),
            0 <= i < self.sides@.len(),
        ensures
            self.side_names(self.sides@[i]@) == Some(self.names@[i]@),
    {
        let side = self.sides@[i]@;
        assert(exists|j: int| 0 <= j < self.sides@.len() && self.sides@[j]@ == side);
        let j = choose|j: int| 0 <= j < self.sides@.len() && self.sides@[j]@ == side;
        if j != i {
            if j < i {
                assert(self.sides@[j]@ != self.sides@[i]@);
            } else {
                assert(self.sides@[i]@ != self.sides@[j]@);
            }
        }
    }

    /// An empty store.
    pub fn new() -> (s: Self)
        ensures
            s.wf(),
            forall|side: Seq<char>| s.side_names(side) is None,
    {
        NameStore { sides: Vec::new(), names: Vec::new() }
    }

    fn find_side(&self, side: &str) -> (r: Option<usize>)
        requires
            self.wf(),
        ensures
            match r {
                Some(i) => i < self.sides@.len() && self.sides@[i as int]@ == side@,
                None => forall|i: int| 0 <= i < self.sides@.len() ==> self.sides@[i]@ != side@,
            },
    {
        let key = side.to_owned();
        let mut i: usize = 0;
        while i < self.sides.len()
            invariant
                i <= self.sides@.len(),
                key@ == side@,
                forall|j: int| 0 <= j < i ==> self.sides@[j]@ != side@,
            decreases self.sides@.len() - i,
        {
            if self.sides[i] == key {
                return Some(i);
            }
            i = i + 1;
        }
        None
    }

    /// The name remembered on `side` for `player_id`.
    pub fn resolve_player_name(&self, side: &str, player_id: u16) -> (r: Option<String>)
        requires
            self.wf(),
        ensures
            match self.side_names(side@) {
                Some(m) => match r {
                    Some(n) => m.contains_key(player_id) && n == m[player_id],
                    None => !m.contains_key(player_id),
                },
                None => r is None,
            },
    {
        match self.find_side(side) {
            None => None,
            Some(i) => {
                proof {
                    assert(self.side_names(side@) == Some(self.names@[i as int]@));
                }
                match self.names[i].get(&player_id) {
                    Some(n) => Some(n.clone()),
                    None => None,
                }
            },
        }
    }

    /// Remembers the names carried by a lobby or start message seen on
    /// `side`; other messages change nothing.
    pub fn remember_player_names(&mut self, side: &str, message: &Message)
        requires
            old(self).wf(),
        ensures
            final(self).wf(),
            forall|other: Seq<char>| other != side@ ==> final(self).side_names(other) == old(self).side_names(other),
            ({
                let base = match old(self).side_names(side@) {
                    Some(m) => m,
                    None => Map::empty(),
                };
                match message {
                    Message::LobbyState { players, .. } =>
                        final(self).side_names(side@) == Some(with_lobby_names(base, players@)),
                    Message::GameStarted { players, .. } =>
                        final(self).side_names(side@) == Some(with_player_names(base, players@)),
                    _ => *final(self) == *old(self),
                }
            }),
    {
        let is_names = match message {
            Message::LobbyState { .. } => true,
            Message::GameStarted { .. } => true,
            _ => false,
        };
        if !is_names {
            return;
        }
        let i = match self.find_side(side) {
            Some(i) => i,
            None => {
                self.sides.push(side.to_owned());
                self.names.push(HashMap::new());
                proof {
                    assert forall|a: int, b: int| 0 <= a < b < self.sides@.len() implies self.sides@[a]@ != self.sides@[b]@ by {
                        if b == self.sides@.len() - 1 {
                            assert(old(self).sides@[a] == self.sides@[a]);
                        } else {
                            assert(old(self).sides@[a] == self.sides@[a]);
                            assert(old(self).sides@[b] == self.sides@[b]);
                        }
                    }
                }
                self.sides.len() - 1
            },
        };
        let ghost before = *self;
        let mut m = self.names[i].clone();
        let ghost m0 = m@;
        match message {
            Message::LobbyState { players, .. } => {
                let mut k: usize = 0;
                while k < players.len()
                    invariant
                        k <= players@.len(),
                        m@ == with_lobby_names(m0, players@.take(k as int)),
                    decreases players@.len() - k,
                {
                    m.insert(players[k].player_id, players[k].name.clone());
                    proof {
                        assert(players@.take(k + 1).drop_last() =~= players@.take(k as int));
                    }
                    k = k + 1;
                }
                proof { assert(players@.take(players@.len() as int) =~= players@); }
            },
            Message::GameStarted { players, .. } => {
                let mut k: usize = 0;
                while k < players.len()
                    invariant
                        k <= players@.len(),
                        m@ == with_player_names(m0, players@.take(k as int)),
                    decreases players@.len() - k,
                {
                    m.insert(players[k].player_id, players[k].name.clone());
                    proof {
                        assert(players@.take(k + 1).drop_last() =~= players@.take(k as int));
                    }
                    k = k + 1;
                }
                proof { assert(players@.take(players@.len() as int) =~= players@); }
            },
            _ => {},
        }
        self.names.set(i, m);
        proof {
            assert(self.sides@ == before.sides@);
            self.lemma_side_names_at(i as int);
            assert forall|other: Seq<char>| other != side@ implies self.side_names(other) == old(self).side_names(other) by {
                if exists|j: int| 0 <= j < self.sides@.len() && self.sides@[j]@ == other {
                    let j = choose|j: int| 0 <= j < self.sides@.len() && self.sides@[j]@ == other;
                    assert(j != i as int);
                    assert(j < old(self).sides@.len());
                    assert(old(self).sides@[j] == self.sides@[j]);
                }
                if exists|j: int| 0 <= j < old(self).sides@.len() && old(self).sides@[j]@ == other {
                    let j = choose|j: int| 0 <= j < old(self).sides@.len() && old(self).sides@[j]@ == other;
                    assert(self.sides@[j] == old(self).sides@[j]);
                }
            }
        }
    }
}

} // verus!
