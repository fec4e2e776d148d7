//! The client's table of servers found by discovery: answers are recorded
//! under the server's address and port, entries that have not answered for
//! five seconds are dropped, and the list is handed out sorted by name.
//!
//! The datagrams are sent and received by the caller, which also reads its
//! clock; times are milliseconds of a monotonic clock.
use vstd::prelude::*;
use crate::protocol::{parse_message, Message, MessageView};
use crate::text::{decimal, decimal_string};
use crate::types::DiscoveredServer;

verus! {

broadcast use vstd::seq_lib::group_to_multiset_ensures;

// ---------------------------------------------------------------------------
// The order of names
// ---------------------------------------------------------------------------

/// Whether name `a` comes before `b` or equals it: the lexicographic order
/// of their characters (that of their UTF-8 bytes too).
pub open spec fn name_le(a: Seq<char>, b: Seq<char>) -> bool
    decreases a.len(),
{
    if a.len() == 0 {
        true
    } else if b.len() == 0 {
        false
    } else if a[0] != b[0] {
        (a[0] as int) < (b[0] as int)
    } else {
        name_le(a.subrange(1, a.len() as int), b.subrange(1, b.len() as int))
    }
}

/// Of two names, one comes before the other or equals it.
pub proof fn lemma_name_le_total(a: Seq<char>, b: Seq<char>)
    ensures
        name_le(a, b) || name_le(b, a),
    decreases a.len(),
{
    if a.len() > 0 && b.len() > 0 {
        if a[0] == b[0] {
            lemma_name_le_total(a.subrange(1, a.len() as int), b.subrange(1, b.len() as int));
        } else {
            assert((a[0] as int) != (b[0] as int));
        }
    }
}

/// The order of names is transitive.
pub proof fn lemma_name_le_transitive(a: Seq<char>, b: Seq<char>, c: Seq<char>)
    requires
        name_le(a, b),
        name_le(b, c),
    ensures
        name_le(a, c),
    decreases a.len(),
{
    if a.len() > 0 && b.len() > 0 && c.len() > 0 && a[0] == b[0] && b[0] == c[0] {
        lemma_name_le_transitive(
            a.subrange(1, a.len() as int),
            b.subrange(1, b.len() as int),
            c.subrange(1, c.len() as int),
        );
    }
}

/// Compares two names.
pub fn name_in_order(a: &str, b: &str) -> (r: bool)
    ensures
        r == name_le(a@, b@),
{
    let n = a.unicode_len();
    let m = b.unicode_len();
    let mut i: usize = 0;
    proof {
        assert(a@.subrange(0, n as int) =~= a@);
        assert(b@.subrange(0, m as int) =~= b@);
    }
    while i < n && i < m
        invariant
            n == a@.len(),
            m == b@.len(),
            i <= n,
            i <= m,
            name_le(a@, b@) == name_le(a@.subrange(i as int, n as int), b@.subrange(i as int, m as int)),
        decreases n - i,
    {
        let x = a.get_char(i);
        let y = b.get_char(i);
        let ghost sa = a@.subrange(i as int, n as int);
        let ghost sb = b@.subrange(i as int, m as int);
        assert(sa[0] == x && sb[0] == y);
        if x != y {
            return (x as u32) < (y as u32);
        }
        proof {
            assert(sa.subrange(1, sa.len() as int) =~= a@.subrange(i + 1, n as int));
            assert(sb.subrange(1, sb.len() as int) =~= b@.subrange(i + 1, m as int));
        }
        i = i + 1;
    }
    i == n
}

// ---------------------------------------------------------------------------
// Sorting
// ---------------------------------------------------------------------------

pub open spec fn sorted_by_name(s: Seq<DiscoveredServer>) -> bool {
    forall|a: int, b: int| 0 <= a < b < s.len() ==> name_le(#[trigger] s[a].server_name@, #[trigger] s[b].server_name@)
}

/// Where a server of name `name` goes in a sorted list: after every entry
/// whose name comes before it or equals it.
fn insertion_point(list: &Vec<DiscoveredServer>, name: &str) -> (j: usize)
    ensures
        j <= list@.len(),
        forall|t: int| 0 <= t < j ==> name_le(#[trigger] list@[t].server_name@, name@),
        j < list@.len() ==> !name_le(list@[j as int].server_name@, name@),
{
    let mut j: usize = 0;
    while j < list.len()
        invariant
            j <= list@.len(),
            forall|t: int| 0 <= t < j ==> name_le(#[trigger] list@[t].server_name@, name@),
        decreases list@.len() - j,
    {
        if !name_in_order(list[j].server_name.as_str(), name) {
            return j;
        }
        j = j + 1;
    }
    j
}

/// The servers sorted by name; those of equal names keep their order.
pub fn sort_by_name(list: &Vec<DiscoveredServer>) -> (r: Vec<DiscoveredServer>)
    ensures
        sorted_by_name(r@),
        r@.to_multiset() == list@.to_multiset(),
{
    let mut out: Vec<DiscoveredServer> = Vec::new();
    let mut k: usize = 0;
    proof {
        assert(list@.take(0) =~= Seq::<DiscoveredServer>::empty());
    }
    while k < list.len()
        invariant
            k <= list@.len(),
            sorted_by_name(out@),
            out@.to_multiset() == list@.take(k as int).to_multiset(),
        decreases list@.len() - k,
    {
        let x = list[k].duplicate();
        let j = insertion_point(&out, x.server_name.as_str());
        let ghost before = out@;
        out.insert(j, x);
        proof {
            assert(list@.take(k + 1) =~= list@.take(k as int).push(x));
            assert forall|a: int, b: int| 0 <= a < b < out@.len() implies
                name_le(#[trigger] out@[a].server_name@, #[trigger] out@[b].server_name@) by {
                let xn = x.server_name@;
                if b < j {
                    assert(out@[a] == before[a] && out@[b] == before[b]);
                } else if b == j {
                    assert(out@[a] == before[a]);
                } else if a < j {
                    assert(out@[a] == before[a] && out@[b] == before[b - 1]);
                } else if a == j {
                    assert(out@[b] == before[b - 1]);
                    lemma_name_le_total(before[j as int].server_name@, xn);
                    if b - 1 > j {
                        lemma_name_le_transitive(xn, before[j as int].server_name@, before[b - 1].server_name@);
                    }
                } else {
                    assert(out@[a] == before[a - 1] && out@[b] == before[b - 1]);
                }
            }
        }
        k = k + 1;
    }
    proof {
        assert(list@.take(list@.len() as int) =~= list@);
    }
    out
}

// ---------------------------------------------------------------------------
// The table
// ---------------------------------------------------------------------------

/// Key of a server: its address, a colon and its port.
pub open spec fn server_key_text(ip: Seq<char>, port: u16) -> Seq<char> {
    ip + ":"@ + decimal(port as nat)
}

/// The key of a server.
pub fn server_key(ip: &str, port: u16) -> (k: String)
    ensures
        k@ == server_key_text(ip@, port),
{
    let digits = decimal_string(port as u32);
    String::from_str(ip).concat(":").concat(digits.as_str())
}

/// The table entry made from a datagram received from `ip` at time
/// `now_ms`: only a discovery answer makes one.
pub fn discovered_server(ip: &str, datagram: &[u8], now_ms: u64) -> (r: Option<(String, DiscoveredServer)>)
    ensures
        match parse_message(datagram@) {
            Ok(MessageView::DiscoverResponse { game_id, server_name, tcp_port, state, player_count, maximum_players }) => {
                r matches Some((k, s))
                    && k@ == server_key_text(ip@, tcp_port)
                    && s.ip@ == ip@
                    && s.game_id == game_id
                    && s.server_name@ == server_name
                    && s.tcp_port == tcp_port
                    && s.state == state
                    && s.player_count == player_count
                    && s.max_players == maximum_players
                    && s.last_seen_ms == now_ms
            },
            _ => r is None,
        },
{
    match Message::deserialize(datagram) {
        Ok(Message::DiscoverResponse { game_id, server_name, tcp_port, state, player_count, maximum_players }) => {
            let key = server_key(ip, tcp_port);
            let server = DiscoveredServer {
                ip: ip.to_owned(),
                game_id,
                server_name,
                tcp_port,
                state,
                player_count,
                max_players: maximum_players,
                last_seen_ms: now_ms,
            };
            Some((key, server))
        },
        _ => None,
    }
}

/// How long a server stays listed after its last answer.
pub const STALE_AFTER_MS: u64 = 5000;

/// Whether a server answered less than five seconds before `now_ms` (an
/// answer stamped later than `now_ms` counts as just received).
pub open spec fn is_fresh(s: DiscoveredServer, now_ms: u64) -> bool {
    if now_ms >= s.last_seen_ms { now_ms - s.last_seen_ms < 5000 } else { true }
}

/// The entries whose servers are fresh, in order.
pub open spec fn fresh_entries(s: Seq<(String, DiscoveredServer)>, now_ms: u64) -> Seq<(String, DiscoveredServer)>
    decreases s.len(),
{
    if s.len() == 0 {
        s
    } else {
        let rest = fresh_entries(s.drop_last(), now_ms);
        if is_fresh(s.last().1, now_ms) { rest.push(s.last()) } else { rest }
    }
}

/// The servers of a list of entries.
pub open spec fn servers_of(s: Seq<(String, DiscoveredServer)>) -> Seq<DiscoveredServer> {
    s.map_values(|e: (String, DiscoveredServer)| e.1)
}

/// Whether an entry of the list has the key.
pub open spec fn has_key_in(entries: Seq<(String, DiscoveredServer)>, key: Seq<char>) -> bool {
    exists|i: int| 0 <= i < entries.len() && entries[i].0@ == key
}

/// The position of an entry with the key.
pub open spec fn key_position(entries: Seq<(String, DiscoveredServer)>, key: Seq<char>) -> int {
    choose|i: int| 0 <= i < entries.len() && entries[i].0@ == key
}

/// The entries after a server is recorded under a key: in place of the
/// entry with that key, or after the others.
pub open spec fn recorded(
    entries: Seq<(String, DiscoveredServer)>,
    key: String,
    server: DiscoveredServer,
) -> Seq<(String, DiscoveredServer)> {
    if has_key_in(entries, key@) {
        entries.update(key_position(entries, key@), (key, server))
    } else {
        entries.push((key, server))
    }
}

proof fn lemma_fresh_entries_keep(s: Seq<(String, DiscoveredServer)>, now_ms: u64, i: int)
    requires
        0 <= i < s.len(),
        is_fresh(s[i].1, now_ms),
    ensures
        fresh_entries(s, now_ms).contains(s[i]),
    decreases s.len(),
{
    if i < s.len() - 1 {
        lemma_fresh_entries_keep(s.drop_last(), now_ms, i);
        let rest = fresh_entries(s.drop_last(), now_ms);
        let j = choose|j: int| 0 <= j < rest.len() && rest[j] == s[i];
        if is_fresh(s.last().1, now_ms) {
            assert(rest.push(s.last())[j] == s[i]);
        }
    } else {
        let rest = fresh_entries(s.drop_last(), now_ms);
        assert(rest.push(s.last())[rest.len() as int] == s[i]);
    }
}

/// A server that was just recorded is listed by the next look-up, as long
/// as its answer is fresh at the time of the look-up.
pub proof fn lemma_recorded_server_is_listed(
    entries: Seq<(String, DiscoveredServer)>,
    key: String,
    server: DiscoveredServer,
    now_ms: u64,
)
    requires
        is_fresh(server, now_ms),
    ensures
        servers_of(fresh_entries(recorded(entries, key, server), now_ms)).contains(server),
{
    let r = recorded(entries, key, server);
    let i = if has_key_in(entries, key@) { key_position(entries, key@) } else { entries.len() as int };
    assert(r[i] == (key, server));
    lemma_fresh_entries_keep(r, now_ms, i);
    let f = fresh_entries(r, now_ms);
    let j = choose|j: int| 0 <= j < f.len() && f[j] == (key, server);
    assert(servers_of(f)[j] == server);
}

/// Servers found by discovery, each under its key.
pub struct ServerRegistry {
    pub entries: Vec<(String, DiscoveredServer)>,
}

impl ServerRegistry {
    /// No two entries have the same key.
    pub open spec fn wf(&self) -> bool {
        forall|a: int, b: int| 0 <= a < b < self.entries@.len() ==>
            (#[trigger] self.entries@[a]).0@ != (#[trigger] self.entries@[b]).0@
    }

    /// An empty table.
    pub fn new() -> (t: Self)
        ensures
            t.wf(),
            t.entries@.len() == 0,
    {
        ServerRegistry { entries: Vec::new() }
    }

    /// Records a server under its key, in place of the entry with that key
    /// if there is one.
    pub fn record(&mut self, key: String, server: DiscoveredServer)
        requires
            old(self).wf(),
        ensures
            final(self).wf(),
            final(self).entries@ == recorded(old(self).entries@, key, server),
    {
        let mut i: usize = 0;
        while i < self.entries.len()
            invariant
                *self == *old(self),
                self.wf(),
                i <= self.entries@.len(),
                forall|t: int| 0 <= t < i ==> (#[trigger] self.entries@[t]).0@ != key@,
            decreases self.entries@.len() - i,
        {
            if self.entries[i].0 == key {
                proof {
                    let p = key_position(self.entries@, key@);
                    assert(has_key_in(self.entries@, key@));
                    if p != i as int {
                        if p < i {
                            assert(self.entries@[p].0@ != key@);
                        } else {
                            assert(self.entries@[i as int].0@ != self.entries@[p].0@);
                        }
                    }
                }
                let ghost before = self.entries@;
                self.entries.set(i, (key, server));
                proof {
                    assert forall|a: int, b: int| 0 <= a < b < self.entries@.len() implies
                        (#[trigger] self.entries@[a]).0@ != (#[trigger] self.entries@[b]).0@ by {
                        if a == i as int {
                            assert(before[b].0@ != before[a].0@);
                        } else if b == i as int {
                            assert(before[a].0@ != before[b].0@);
                        } else {
                            assert(before[a].0@ != before[b].0@);
                        }
                    }
                }
                return;
            }
            i = i + 1;
        }
        let ghost before = self.entries@;
        self.entries.push((key, server));
        proof {
            assert forall|a: int, b: int| 0 <= a < b < self.entries@.len() implies
                (#[trigger] self.entries@[a]).0@ != (#[trigger] self.entries@[b]).0@ by {
                assert(self.entries@[a] == before[a]);
                if b < before.len() {
                    assert(self.entries@[b] == before[b]);
                }
            }
        }
    }

    /// Drops the servers that have not answered for five seconds and lists
    /// the others, sorted by name.
    pub fn get_servers(&mut self, now_ms: u64) -> (list: Vec<DiscoveredServer>)
        requires
            old(self).wf(),
        ensures
            final(self).wf(),
            final(self).entries@ == fresh_entries(old(self).entries@, now_ms),
            sorted_by_name(list@),
            list@.to_multiset() == servers_of(final(self).entries@).to_multiset(),
    {
        let mut kept: Vec<(String, DiscoveredServer)> = Vec::new();
        let mut servers: Vec<DiscoveredServer> = Vec::new();
        let mut k: usize = 0;
        proof {
            assert(self.entries@.take(0) =~= Seq::<(String, DiscoveredServer)>::empty());
        }
        while k < self.entries.len()
            invariant
                *self == *old(self),
                self.wf(),
                k <= self.entries@.len(),
                kept@ == fresh_entries(self.entries@.take(k as int), now_ms),
                servers@ == servers_of(kept@),
                forall|a: int, b: int| 0 <= a < b < kept@.len() ==>
                    (#[trigger] kept@[a]).0@ != (#[trigger] kept@[b]).0@,
                forall|t: int| 0 <= t < kept@.len() ==>
                    exists|u: int| 0 <= u < k && #[trigger] kept@[t] == self.entries@[u],
            decreases self.entries@.len() - k,
        {
            proof {
                assert(self.entries@.take(k + 1).drop_last() =~= self.entries@.take(k as int));
            }
            let last_seen = self.entries[k].1.last_seen_ms;
            let fresh = if now_ms >= last_seen { now_ms - last_seen < STALE_AFTER_MS } else { true };
            if fresh {
                let ghost before = kept@;
                let key = self.entries[k].0.clone();
                let server = self.entries[k].1.duplicate();
                let server_copy = server.duplicate();
                kept.push((key, server));
                servers.push(server_copy);
                proof {
                    assert(kept@.last() == self.entries@[k as int]);
                    assert(servers@ =~= servers_of(kept@));
                    assert forall|a: int, b: int| 0 <= a < b < kept@.len() implies
                        (#[trigger] kept@[a]).0@ != (#[trigger] kept@[b]).0@ by {
                        assert(kept@[a] == before[a]);
                        if b == before.len() {
                            let u = choose|u: int| 0 <= u < k && #[trigger] before[a] == self.entries@[u];
                            assert(self.entries@[u].0@ != self.entries@[k as int].0@);
                        } else {
                            assert(kept@[b] == before[b]);
                        }
                    }
                    assert forall|t: int| 0 <= t < kept@.len() implies
                        exists|u: int| 0 <= u < k + 1 && #[trigger] kept@[t] == self.entries@[u] by {
                        if t < before.len() {
                            assert(kept@[t] == before[t]);
                            let u = choose|u: int| 0 <= u < k && #[trigger] before[t] == self.entries@[u];
                            assert(kept@[t] == self.entries@[u]);
                        } else {
                            assert(kept@[t] == self.entries@[k as int]);
                        }
                    }
                }
            }
            k = k + 1;
        }
        proof {
            assert(self.entries@.take(self.entries@.len() as int) =~= self.entries@);
        }
        self.entries = kept;
        sort_by_name(&servers)
    }
}

} // verus!
