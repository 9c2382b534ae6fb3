//! L4 stream bookkeeping: the live forwarder task of each listen port, and
//! the UDP session table of one forwarder (client address to its own
//! upstream socket).
use vstd::prelude::*;
use crate::text::{concat, eq_ignore_ascii_case, same, seq_eq_ic};

verus! {

/// Transport of a stream.
#[derive(Debug, Clone, Copy, PartialEq, Eq, Structural)]
pub enum StreamProtocol {
    Tcp,
    Udp,
}

/// `udp` in any ASCII case selects UDP; anything else is TCP.
pub fn stream_protocol(protocol: &str) -> (r: StreamProtocol)
    ensures
        (r == StreamProtocol::Udp) == seq_eq_ic(protocol@, "udp"@),
{
    if eq_ignore_ascii_case(protocol, "udp") {
        StreamProtocol::Udp
    } else {
        StreamProtocol::Tcp
    }
}

/// The decimal digit `d`.
pub open spec fn digit_char(d: nat) -> char {
    "0123456789"@[d as int]
}

/// The decimal form of `n`, without leading zeros.
pub open spec fn decimal(n: nat) -> Seq<char>
    decreases n,
{
    if n < 10 {
        seq![digit_char(n)]
    } else {
        decimal(n / 10).push(digit_char(n % 10))
    }
}

/// The decimal form of `n`.
pub fn decimal_string(n: u64) -> (r: String)
    ensures
        r@ == decimal(n as nat),
    decreases n,
{
    let digits = "0123456789";
    proof {
        reveal_strlit("0123456789");
    }
    let d = (n % 10) as usize;
    let one = digits.substring_char(d, d + 1);
    assert(one@ =~= seq![digit_char((n % 10) as nat)]);
    if n < 10 {
        one.to_owned()
    } else {
        let head = decimal_string(n / 10);
        let r = concat(head.as_str(), one);
        assert(r@ =~= decimal((n / 10) as nat).push(digit_char((n % 10) as nat)));
        r
    }
}

/// `host:port` of a stream's upstream.
pub fn forward_addr(host: &str, port: u16) -> (r: String)
    ensures
        r@ == host@ + ":"@ + decimal(port as nat),
{
    let a = concat(host, ":");
    let p = decimal_string(port as u64);
    concat(a.as_str(), p.as_str())
}

/// The address a stream listens on: every interface, `port`.
pub fn listen_addr(port: u16) -> (r: String)
    ensures
        r@ == "0.0.0.0:"@ + decimal(port as nat),
{
    let p = decimal_string(port as u64);
    concat("0.0.0.0:", p.as_str())
}

/// The forwarder task of each listen port; at most one per port.
pub struct StreamManager<H> {
    tasks: Vec<(u16, H)>,
}

/// Entry `i` is the one for `port`.
pub open spec fn port_at<H>(s: Seq<(u16, H)>, port: u16, i: int) -> bool {
    0 <= i < s.len() && s[i].0 == port
}

/// No two entries share a port.
pub open spec fn ports_unique<H>(s: Seq<(u16, H)>) -> bool {
    forall|i: int, j: int| 0 <= i < s.len() && 0 <= j < s.len() && s[i].0 == s[j].0 ==> i == j
}

/// The port-to-task map of a list of entries with distinct ports.
pub open spec fn port_map<H>(s: Seq<(u16, H)>) -> Map<u16, H> {
    Map::new(
        |p: u16| exists|i: int| port_at(s, p, i),
        |p: u16| s[choose|i: int| port_at(s, p, i)].1,
    )
}

proof fn lemma_port_map_at<H>(s: Seq<(u16, H)>, i: int)
    requires
        ports_unique(s),
        0 <= i < s.len(),
    ensures
        port_map(s).contains_key(s[i].0),
        port_map(s)[s[i].0] == s[i].1,
{
    assert(port_at(s, s[i].0, i));
    let j = choose|j: int| port_at(s, s[i].0, j);
    assert(j == i);
}

impl<H> StreamManager<H> {
    /// The live task of each port.
    pub closed spec fn tasks(&self) -> Map<u16, H> {
        port_map(self.tasks@)
    }

    /// The table's own invariant.
    pub closed spec fn wf(&self) -> bool {
        ports_unique(self.tasks@)
    }

    /// No streams.
    pub fn new() -> (r: StreamManager<H>)
        ensures
            r.wf(),
            r.tasks() == Map::<u16, H>::empty(),
    {
        let r = StreamManager { tasks: Vec::new() };
        assert(r.tasks() =~= Map::<u16, H>::empty());
        r
    }

    fn find(&self, port: u16) -> (r: Option<usize>)
        requires
            self.wf(),
        ensures
            match r {
                Some(i) => port_at(self.tasks@, port, i as int),
                None => !self.tasks().contains_key(port),
            },
    {
        let mut k: usize = 0;
        while k < self.tasks.len()
            invariant
                k <= self.tasks@.len(),
                forall|j: int| 0 <= j < k ==> self.tasks@[j].0 != port,
            decreases self.tasks@.len() - k,
        {
            if self.tasks[k].0 == port {
                return Some(k);
            }
            k = k + 1;
        }
        None
    }

    /// Whether `port` has a live task.
    pub fn contains(&self, port: u16) -> (r: bool)
        requires
            self.wf(),
        ensures
            r == self.tasks().contains_key(port),
    {
        match self.find(port) {
            Some(i) => {
                proof {
                    lemma_port_map_at(self.tasks@, i as int);
                }
                true
            },
            None => false,
        }
    }

    /// Takes the task of `port` out of the table, to be aborted.
    pub fn stop_stream(&mut self, port: u16) -> (r: Option<H>)
        requires
            old(self).wf(),
        ensures
            final(self).wf(),
            final(self).tasks() == old(self).tasks().remove(port),
            match r {
                Some(h) => old(self).tasks().contains_key(port) && h == old(self).tasks()[port],
                None => !old(self).tasks().contains_key(port),
            },
    {
        match self.find(port) {
            None => {
                assert(self.tasks() =~= old(self).tasks().remove(port));
                None
            },
            Some(i) => {
                let ghost s = self.tasks@;
                proof {
                    lemma_port_map_at(s, i as int);
                }
                let (_, h) = self.tasks.remove(i);
                let ghost t = self.tasks@;
                assert(t =~= s.remove(i as int));
                assert(ports_unique(t)) by {
                    assert forall|a: int, b: int|
                        0 <= a < t.len() && 0 <= b < t.len() && t[a].0 == t[b].0 implies a == b by {
                        let a2 = if a < i { a } else { a + 1 };
                        let b2 = if b < i { b } else { b + 1 };
                        assert(s[a2].0 == s[b2].0);
                    }
                }
                assert forall|p: u16| #[trigger] port_map(t).contains_key(p) == old(
                    self,
                ).tasks().remove(port).contains_key(p) by {
                    if port_map(t).contains_key(p) {
                        let a = choose|a: int| port_at(t, p, a);
                        let a2 = if a < i { a } else { a + 1 };
                        assert(port_at(s, p, a2));
                        assert(a2 != i);
                    }
                    if p != port && port_map(s).contains_key(p) {
                        let a = choose|a: int| port_at(s, p, a);
                        assert(a != i);
                        let a2 = if a < i { a } else { a - 1 };
                        assert(port_at(t, p, a2));
                    }
                }
                assert forall|p: u16| #[trigger] port_map(t).contains_key(p) implies port_map(t)[p]
                    == port_map(s)[p] by {
                    let a = choose|a: int| port_at(t, p, a);
                    let a2 = if a < i { a } else { a + 1 };
                    lemma_port_map_at(t, a);
                    lemma_port_map_at(s, a2);
                }
                assert(self.tasks() =~= old(self).tasks().remove(port));
                Some(h)
            },
        }
    }

    /// Installs the task of `port`; the task it replaces, if any, is handed
    /// back to be aborted.
    pub fn start_stream(&mut self, port: u16, handle: H) -> (r: Option<H>)
        requires
            old(self).wf(),
        ensures
            final(self).wf(),
            final(self).tasks() == old(self).tasks().insert(port, handle),
            match r {
                Some(h) => old(self).tasks().contains_key(port) && h == old(self).tasks()[port],
                None => !old(self).tasks().contains_key(port),
            },
    {
        let previous = self.stop_stream(port);
        let ghost s = self.tasks@;
        self.tasks.push((port, handle));
        let ghost t = self.tasks@;
        assert(t == s.push((port, handle)));
        assert(!port_map(s).contains_key(port));
        assert(ports_unique(t)) by {
            assert forall|a: int, b: int|
                0 <= a < t.len() && 0 <= b < t.len() && t[a].0 == t[b].0 implies a == b by {
                if a < s.len() && b == s.len() {
                    assert(port_at(s, port, a));
                } else if b < s.len() && a == s.len() {
                    assert(port_at(s, port, b));
                }
            }
        }
        proof {
            lemma_port_map_at(t, s.len() as int);
        }
        assert forall|p: u16| #[trigger] port_map(t).contains_key(p) == port_map(s).insert(
            port,
            handle,
        ).contains_key(p) by {
            if port_map(s).contains_key(p) {
                let a = choose|a: int| port_at(s, p, a);
                assert(port_at(t, p, a));
            }
            if port_map(t).contains_key(p) && p != port {
                let a = choose|a: int| port_at(t, p, a);
                assert(port_at(s, p, a));
            }
        }
        assert forall|p: u16| #[trigger] port_map(t).contains_key(p) && p != port implies port_map(
            t,
        )[p] == port_map(s)[p] by {
            let a = choose|a: int| port_at(t, p, a);
            assert(a < s.len());
            lemma_port_map_at(t, a);
            lemma_port_map_at(s, a);
        }
        assert(self.tasks() =~= old(self).tasks().insert(port, handle));
        previous
    }

    /// Empties the table, handing back every task to be aborted.
    pub fn drain_all(&mut self) -> (r: Vec<H>)
        requires
            old(self).wf(),
        ensures
            final(self).wf(),
            final(self).tasks() == Map::<u16, H>::empty(),
            r@.len() == old(self).tasks().dom().len(),
            forall|p: u16| #[trigger]
                old(self).tasks().contains_key(p) ==> r@.contains(old(self).tasks()[p]),
    {
        let ghost s = self.tasks@;
        let mut out: Vec<H> = Vec::new();
        assert(s.subrange(0, s.len() as int) =~= s);
        // Entries are taken from the back, so each keeps its index in `s`.
        while self.tasks.len() > 0
            invariant
                ports_unique(s),
                self.tasks@ == s.subrange(0, self.tasks@.len() as int),
                self.tasks@.len() <= s.len(),
                out@.len() == s.len() - self.tasks@.len(),
                forall|i: int| self.tasks@.len() <= i < s.len() ==> out@.contains(#[trigger] s[i].1),
            decreases self.tasks@.len(),
        {
            let ghost n = self.tasks@.len();
            let e = self.tasks.pop().unwrap();
            let ghost before = out@;
            out.push(e.1);
            assert(self.tasks@ =~= s.subrange(0, n - 1));
            assert forall|i: int| self.tasks@.len() <= i < s.len() implies out@.contains(#[trigger] s[i].1) by {
                if i == n - 1 {
                    assert(out@[before.len() as int] == s[i].1);
                } else {
                    let k = choose|k: int| 0 <= k < before.len() && before[k] == s[i].1;
                    assert(out@[k] == s[i].1);
                }
            }
        }
        assert(self.tasks() =~= Map::<u16, H>::empty());
        proof {
            lemma_port_map_dom_len(s);
        }
        assert forall|p: u16| #[trigger] old(self).tasks().contains_key(p) implies out@.contains(
            old(self).tasks()[p],
        ) by {
            let a = choose|a: int| port_at(s, p, a);
            lemma_port_map_at(s, a);
        }
        out
    }
}

/// With distinct ports, the map has one key per entry.
proof fn lemma_port_map_dom_len<H>(s: Seq<(u16, H)>)
    requires
        ports_unique(s),
    ensures
        port_map(s).dom().len() == s.len(),
        port_map(s).dom().finite(),
    decreases s.len(),
{
    let m = port_map(s);
    if s.len() == 0 {
        assert(m.dom() =~= Set::<u16>::empty());
    } else {
        let t = s.drop_last();
        assert(ports_unique(t)) by {
            assert forall|a: int, b: int|
                0 <= a < t.len() && 0 <= b < t.len() && t[a].0 == t[b].0 implies a == b by {
                assert(s[a].0 == s[b].0);
            }
        }
        lemma_port_map_dom_len(t);
        let p = s.last().0;
        assert(!port_map(t).dom().contains(p)) by {
            if port_map(t).dom().contains(p) {
                let a = choose|a: int| port_at(t, p, a);
                assert(s[a].0 == s[s.len() - 1].0);
            }
        }
        assert forall|q: u16| m.dom().contains(q) == port_map(t).dom().insert(p).contains(q) by {
            if m.dom().contains(q) && q != p {
                let a = choose|a: int| port_at(s, q, a);
                assert(a != s.len() - 1);
                assert(port_at(t, q, a));
            }
            if port_map(t).dom().contains(q) {
                let a = choose|a: int| port_at(t, q, a);
                assert(port_at(s, q, a));
            }
            if q == p {
                assert(port_at(s, q, s.len() - 1));
            }
        }
        assert(m.dom() =~= port_map(t).dom().insert(p));
    }
}

} // verus!

verus! {

/// Entry `i` is the session of client `c`.
pub open spec fn client_at<S>(s: Seq<(String, u64, u16, S)>, c: Seq<char>, i: int) -> bool {
    0 <= i < s.len() && s[i].0@ == c
}

/// Session table invariant: one entry per client, distinct session ids and
/// distinct upstream local ports, every id below the next one to hand out.
pub open spec fn sessions_wf<S>(s: Seq<(String, u64, u16, S)>, next_id: u64) -> bool {
    &&& forall|i: int, j: int|
        0 <= i < s.len() && 0 <= j < s.len() && (s[i].0@ == s[j].0@ || s[i].1 == s[j].1 || s[i].2
            == s[j].2) ==> i == j
    &&& forall|i: int| 0 <= i < s.len() ==> s[i].1 < next_id
}

/// Client to `(session id, upstream local port, upstream socket)`.
pub open spec fn session_map<S>(s: Seq<(String, u64, u16, S)>) -> Map<Seq<char>, (u64, u16, S)> {
    Map::new(
        |c: Seq<char>| exists|i: int| client_at(s, c, i),
        |c: Seq<char>| {
            let i = choose|i: int| client_at(s, c, i);
            (s[i].1, s[i].2, s[i].3)
        },
    )
}

proof fn lemma_session_map_at<S>(s: Seq<(String, u64, u16, S)>, next_id: u64, i: int)
    requires
        sessions_wf(s, next_id),
        0 <= i < s.len(),
    ensures
        session_map(s).contains_key(s[i].0@),
        session_map(s)[s[i].0@] == (s[i].1, s[i].2, s[i].3),
{
    assert(client_at(s, s[i].0@, i));
    let j = choose|j: int| client_at(s, s[i].0@, j);
    assert(j == i);
}

/// Outcome of registering a new session.
#[derive(Debug, Clone, Copy, PartialEq, Eq, Structural)]
pub enum SessionInsert {
    /// The session was registered under this id.
    Inserted(u64),
    /// The client already has a session (a concurrent datagram won): use it
    /// and drop the new socket.
    Existing,
    /// Another session already uses that upstream local port; the new
    /// socket is not a fresh one and the datagram is dropped.
    PortInUse,
    /// No session id is left; the datagram is dropped.
    Exhausted,
}

/// The UDP sessions of one forwarder: each client has its own upstream
/// socket, bound to its own local port.
pub struct UdpSessions<S> {
    entries: Vec<(String, u64, u16, S)>,
    next_id: u64,
}

impl<S> UdpSessions<S> {
    /// Client address to `(session id, upstream local port, upstream socket)`.
    pub closed spec fn sessions(&self) -> Map<Seq<char>, (u64, u16, S)> {
        session_map(self.entries@)
    }

    /// The id the next new session gets.
    pub closed spec fn next_session_id(&self) -> u64 {
        self.next_id
    }

    /// The table's own invariant.
    pub closed spec fn wf(&self) -> bool {
        sessions_wf(self.entries@, self.next_id)
    }

    /// A new session can still be given an id.
    pub open spec fn ids_left(&self) -> bool {
        self.next_session_id() < u64::MAX
    }

    /// Some session's upstream socket is bound to local port `port`.
    pub open spec fn port_in_use(&self, port: u16) -> bool {
        exists|c: Seq<char>| #[trigger]
            self.sessions().contains_key(c) && self.sessions()[c].1 == port
    }

    /// No sessions.
    pub fn new() -> (r: UdpSessions<S>)
        ensures
            r.wf(),
            r.sessions() == Map::<Seq<char>, (u64, u16, S)>::empty(),
            r.next_session_id() == 0,
            r.ids_left(),
    {
        let r = UdpSessions { entries: Vec::new(), next_id: 0 };
        assert(r.sessions() =~= Map::<Seq<char>, (u64, u16, S)>::empty());
        r
    }

    fn find(&self, client: &str) -> (r: Option<usize>)
        requires
            self.wf(),
        ensures
            match r {
                Some(i) => client_at(self.entries@, client@, i as int),
                None => !self.sessions().contains_key(client@),
            },
    {
        let mut k: usize = 0;
        while k < self.entries.len()
            invariant
                k <= self.entries@.len(),
                forall|j: int| 0 <= j < k ==> self.entries@[j].0@ != client@,
            decreases self.entries@.len() - k,
        {
            if same(self.entries[k].0.as_str(), client) {
                return Some(k);
            }
            k = k + 1;
        }
        None
    }

    fn uses_port(&self, port: u16) -> (r: bool)
        requires
            self.wf(),
        ensures
            r == self.port_in_use(port),
    {
        let mut k: usize = 0;
        while k < self.entries.len()
            invariant
                self.wf(),
                k <= self.entries@.len(),
                forall|j: int| 0 <= j < k ==> self.entries@[j].2 != port,
            decreases self.entries@.len() - k,
        {
            if self.entries[k].2 == port {
                proof {
                    lemma_session_map_at(self.entries@, self.next_id, k as int);
                    assert(self.sessions().contains_key(self.entries@[k as int].0@));
                }
                return true;
            }
            k = k + 1;
        }
        assert forall|c: Seq<char>| #[trigger] self.sessions().contains_key(c) implies self.sessions()[c].1
            != port by {
            let a = choose|a: int| client_at(self.entries@, c, a);
            lemma_session_map_at(self.entries@, self.next_id, a);
        }
        false
    }

    /// The upstream socket of `client`'s session, if it has one.
    pub fn session(&self, client: &str) -> (r: Option<&S>)
        requires
            self.wf(),
        ensures
            match r {
                Some(s) => self.sessions().contains_key(client@) && *s == self.sessions()[client@].2,
                None => !self.sessions().contains_key(client@),
            },
    {
        match self.find(client) {
            Some(i) => {
                proof {
                    lemma_session_map_at(self.entries@, self.next_id, i as int);
                }
                Some(&self.entries[i].3)
            },
            None => None,
        }
    }

    /// Registers `socket`, bound to upstream local port `local_port`, as
    /// `client`'s session unless the client already has one. The first
    /// registration for a client wins; later ones get `Existing` and leave
    /// the table as it is.
    pub fn insert_if_absent(&mut self, client: String, local_port: u16, socket: S) -> (r:
        SessionInsert)
        requires
            old(self).wf(),
        ensures
            final(self).wf(),
            old(self).sessions().contains_key(client@) ==> r == SessionInsert::Existing,
            !old(self).sessions().contains_key(client@) && !old(self).ids_left() ==> r
                == SessionInsert::Exhausted,
            !old(self).sessions().contains_key(client@) && old(self).ids_left() && old(
                self,
            ).port_in_use(local_port) ==> r == SessionInsert::PortInUse,
            !old(self).sessions().contains_key(client@) && old(self).ids_left() && !old(
                self,
            ).port_in_use(local_port) ==> r == SessionInsert::Inserted(old(self).next_session_id()),
            match r {
                SessionInsert::Inserted(id) => {
                    &&& final(self).sessions() == old(self).sessions().insert(
                        client@,
                        (id, local_port, socket),
                    )
                    &&& final(self).next_session_id() == id + 1
                    &&& forall|c: Seq<char>| #[trigger]
                        old(self).sessions().contains_key(c) ==> old(self).sessions()[c].0 < id
                },
                _ => final(self).sessions() == old(self).sessions() && final(self).next_session_id()
                    == old(self).next_session_id(),
            },
    {
        if self.find(client.as_str()).is_some() {
            return SessionInsert::Existing;
        }
        if self.next_id == u64::MAX {
            return SessionInsert::Exhausted;
        }
        if self.uses_port(local_port) {
            return SessionInsert::PortInUse;
        }
        let id = self.next_id;
        let ghost s = self.entries@;
        let ghost key = client@;
        proof {
            assert forall|a: int| 0 <= a < s.len() implies s[a].0@ != key && s[a].2 != local_port by {
                lemma_session_map_at(s, id, a);
                if s[a].0@ == key {
                    assert(client_at(s, key, a));
                }
                if s[a].2 == local_port {
                    assert(old(self).sessions().contains_key(s[a].0@));
                }
            }
        }
        self.entries.push((client, id, local_port, socket));
        self.next_id = id + 1;
        let ghost t = self.entries@;
        assert(t[s.len() as int].0@ == key);
        assert(sessions_wf(t, self.next_id)) by {
            assert forall|a: int, b: int|
                0 <= a < t.len() && 0 <= b < t.len() && (t[a].0@ == t[b].0@ || t[a].1 == t[b].1
                    || t[a].2 == t[b].2) implies a == b by {
                if a < s.len() && b == s.len() {
                    assert(t[a] == s[a]);
                } else if b < s.len() && a == s.len() {
                    assert(t[b] == s[b]);
                } else if a < s.len() && b < s.len() {
                    assert(t[a] == s[a]);
                    assert(t[b] == s[b]);
                }
            }
            assert forall|a: int| 0 <= a < t.len() implies t[a].1 < self.next_id by {
                if a < s.len() {
                    assert(t[a] == s[a]);
                }
            }
        }
        proof {
            lemma_session_map_at(t, self.next_id, s.len() as int);
        }
        assert forall|c: Seq<char>| #[trigger] session_map(t).contains_key(c) == session_map(
            s,
        ).insert(key, (id, local_port, socket)).contains_key(c) by {
            if session_map(s).contains_key(c) {
                let a = choose|a: int| client_at(s, c, a);
                assert(t[a] == s[a]);
                assert(client_at(t, c, a));
            }
            if session_map(t).contains_key(c) && c != key {
                let a = choose|a: int| client_at(t, c, a);
                if a < s.len() {
                    assert(t[a] == s[a]);
                }
                assert(client_at(s, c, a));
            }
        }
        assert forall|c: Seq<char>| #[trigger] session_map(t).contains_key(c) && c != key implies session_map(
            t,
        )[c] == session_map(s)[c] by {
            let a = choose|a: int| client_at(t, c, a);
            assert(a < s.len());
            assert(t[a] == s[a]);
            lemma_session_map_at(t, self.next_id, a);
            lemma_session_map_at(s, id, a);
        }
        assert(self.sessions() =~= old(self).sessions().insert(key, (id, local_port, socket)));
        assert forall|c: Seq<char>| #[trigger] old(self).sessions().contains_key(c) implies old(
            self,
        ).sessions()[c].0 < id by {
            let a = choose|a: int| client_at(s, c, a);
            lemma_session_map_at(s, id, a);
        }
        SessionInsert::Inserted(id)
    }

    /// Ends session `id` of `client` (its return task timed out or failed);
    /// a newer session of the same client stays. Ids are never reused.
    pub fn remove_session(&mut self, client: &str, id: u64) -> (r: bool)
        requires
            old(self).wf(),
        ensures
            final(self).wf(),
            final(self).next_session_id() == old(self).next_session_id(),
            r == (old(self).sessions().contains_key(client@) && old(self).sessions()[client@].0
                == id),
            r ==> final(self).sessions() == old(self).sessions().remove(client@),
            !r ==> final(self).sessions() == old(self).sessions(),
    {
        let i = match self.find(client) {
            None => {
                return false;
            },
            Some(i) => i,
        };
        let ghost s = self.entries@;
        proof {
            lemma_session_map_at(s, self.next_id, i as int);
        }
        if self.entries[i].1 != id {
            return false;
        }
        let _ = self.entries.remove(i);
        let ghost t = self.entries@;
        assert(t =~= s.remove(i as int));
        assert(sessions_wf(t, self.next_id)) by {
            assert forall|a: int, b: int|
                0 <= a < t.len() && 0 <= b < t.len() && (t[a].0@ == t[b].0@ || t[a].1 == t[b].1
                    || t[a].2 == t[b].2) implies a == b by {
                let a2 = if a < i { a } else { a + 1 };
                let b2 = if b < i { b } else { b + 1 };
                assert(t[a] == s[a2]);
                assert(t[b] == s[b2]);
            }
            assert forall|a: int| 0 <= a < t.len() implies t[a].1 < self.next_id by {
                let a2 = if a < i { a } else { a + 1 };
                assert(t[a] == s[a2]);
            }
        }
        assert forall|c: Seq<char>| #[trigger] session_map(t).contains_key(c) == session_map(
            s,
        ).remove(client@).contains_key(c) by {
            if session_map(t).contains_key(c) {
                let a = choose|a: int| client_at(t, c, a);
                let a2 = if a < i { a } else { a + 1 };
                assert(t[a] == s[a2]);
                assert(client_at(s, c, a2));
                assert(a2 != i);
            }
            if c != client@ && session_map(s).contains_key(c) {
                let a = choose|a: int| client_at(s, c, a);
                assert(a != i);
                let a2 = if a < i { a } else { a - 1 };
                assert(t[a2] == s[a]);
                assert(client_at(t, c, a2));
            }
        }
        assert forall|c: Seq<char>| #[trigger] session_map(t).contains_key(c) implies session_map(t)[c]
            == session_map(s)[c] by {
            let a = choose|a: int| client_at(t, c, a);
            let a2 = if a < i { a } else { a + 1 };
            assert(t[a] == s[a2]);
            lemma_session_map_at(t, self.next_id, a);
            lemma_session_map_at(s, self.next_id, a2);
        }
        assert(self.sessions() =~= old(self).sessions().remove(client@));
        true
    }

    /// Session isolation: two different clients never hold the same
    /// session, nor upstream sockets on the same local port, so a datagram
    /// is relayed only over its own client's upstream socket.
    pub proof fn lemma_sessions_isolated(&self, a: Seq<char>, b: Seq<char>)
        requires
            self.wf(),
            self.sessions().contains_key(a),
            self.sessions().contains_key(b),
            a != b,
        ensures
            self.sessions()[a].0 != self.sessions()[b].0,
            self.sessions()[a].1 != self.sessions()[b].1,
    {
        let s = self.entries@;
        let i = choose|i: int| client_at(s, a, i);
        let j = choose|j: int| client_at(s, b, j);
        lemma_session_map_at(s, self.next_id, i);
        lemma_session_map_at(s, self.next_id, j);
    }

    /// Every current session's id is below the id the next new session
    /// gets; as ids only grow, a session registered after another one ended
    /// never carries the ended session's id.
    pub proof fn lemma_ids_below_next(&self)
        requires
            self.wf(),
        ensures
            forall|c: Seq<char>| #[trigger]
                self.sessions().contains_key(c) ==> self.sessions()[c].0 < self.next_session_id(),
    {
        assert forall|c: Seq<char>| #[trigger] self.sessions().contains_key(c) implies self.sessions()[c].0
            < self.next_session_id() by {
            let a = choose|a: int| client_at(self.entries@, c, a);
            lemma_session_map_at(self.entries@, self.next_id, a);
        }
    }
}

} // verus!

verus! {

/// How to run one stream.
pub struct StreamSpec {
    pub listen_port: u16,
    /// `host:port` of the upstream.
    pub forward_addr: String,
    pub protocol: StreamProtocol,
}

/// A port number as stored, if it is one.
pub open spec fn valid_port(p: i64) -> bool {
    0 <= p <= 65535
}

/// How to run the stream a row describes; none when a port is out of range.
pub fn stream_spec(row: &crate::rows::StreamRow) -> (r: Option<StreamSpec>)
    ensures
        r is Some <==> valid_port(row.listen_port) && valid_port(row.forward_port),
        r matches Some(s) ==> s.listen_port as int == row.listen_port && s.forward_addr@
            == row.forward_host@ + ":"@ + decimal(row.forward_port as nat) && (s.protocol
            == StreamProtocol::Udp) == seq_eq_ic(row.protocol@, "udp"@),
{
    if row.listen_port < 0 || row.listen_port > 65535 || row.forward_port < 0 || row.forward_port
        > 65535 {
        return None;
    }
    Some(
        StreamSpec {
            listen_port: row.listen_port as u16,
            forward_addr: forward_addr(row.forward_host.as_str(), row.forward_port as u16),
            protocol: stream_protocol(row.protocol.as_str()),
        },
    )
}

} // verus!
