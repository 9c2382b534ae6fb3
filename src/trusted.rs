//! Trusted-proxy handling: `X-Forwarded-For` and `X-Forwarded-Proto` count
//! only when the immediate peer is a trusted proxy.
use vstd::prelude::*;
use crate::text::{
    eq_ignore_ascii_case, same, seq_eq_ic, split, split_on, trim, trim_str, views,
};

verus! {

/// The trusted proxies, each in canonical textual form; loopback is
/// always among them.
pub struct TrustedProxies {
    ips: Vec<String>,
}

/// IPv4 loopback.
pub open spec fn loopback_v4() -> Seq<char> {
    seq!['1', '2', '7', '.', '0', '.', '0', '.', '1']
}

/// IPv6 loopback.
pub open spec fn loopback_v6() -> Seq<char> {
    seq![':', ':', '1']
}

/// `https`.
pub open spec fn https_word() -> Seq<char> {
    seq!['h', 't', 't', 'p', 's']
}

impl TrustedProxies {
    /// The addresses that count as trusted.
    pub closed spec fn trusted(&self) -> Set<Seq<char>> {
        Set::new(|ip: Seq<char>| views(self.ips@).contains(ip))
    }

    /// Loopback (`127.0.0.1`, `::1`) and the given addresses, which the caller
    /// has already parsed and written in canonical form.
    pub fn new(extra: Vec<String>) -> (r: TrustedProxies)
        ensures
            r.trusted() == views(extra@).to_set().insert(loopback_v4()).insert(loopback_v6()),
    {
        let mut ips: Vec<String> = Vec::new();
        let v4 = "127.0.0.1".to_owned();
        let v6 = "::1".to_owned();
        proof {
            reveal_strlit("127.0.0.1");
            reveal_strlit("::1");
        }
        assert(v4@ =~= loopback_v4());
        assert(v6@ =~= loopback_v6());
        ips.push(v4);
        ips.push(v6);
        let mut k: usize = 0;
        while k < extra.len()
            invariant
                k <= extra@.len(),
                views(ips@) =~= seq![loopback_v4(), loopback_v6()] + views(extra@).subrange(
                    0,
                    k as int,
                ),
            decreases extra@.len() - k,
        {
            let ghost before = ips@;
            ips.push(extra[k].clone());
            assert(views(ips@) =~= views(before).push(extra@[k as int]@));
            assert(views(extra@).subrange(0, k + 1) =~= views(extra@).subrange(0, k as int).push(
                extra@[k as int]@,
            ));
            k = k + 1;
        }
        let r = TrustedProxies { ips };
        assert(views(extra@).subrange(0, extra@.len() as int) =~= views(extra@));
        assert forall|ip: Seq<char>|
            r.trusted().contains(ip) == views(extra@).to_set().insert(loopback_v4()).insert(
                loopback_v6(),
            ).contains(ip) by {
            let all = seq![loopback_v4(), loopback_v6()] + views(extra@);
            assert(views(r.ips@) == all);
            if views(extra@).contains(ip) {
                let j = choose|j: int| 0 <= j < views(extra@).len() && views(extra@)[j] == ip;
                assert(all[j + 2] == ip);
            }
            if all.contains(ip) {
                let j = choose|j: int| 0 <= j < all.len() && all[j] == ip;
                if j >= 2 {
                    assert(views(extra@)[j - 2] == ip);
                }
            }
            assert(all[0] == loopback_v4());
            assert(all[1] == loopback_v6());
        }
        assert(r.trusted() =~= views(extra@).to_set().insert(loopback_v4()).insert(
            loopback_v6(),
        ));
        r
    }

    /// Whether `ip` is a trusted proxy.
    pub fn contains(&self, ip: &str) -> (r: bool)
        ensures
            r == self.trusted().contains(ip@),
    {
        let mut k: usize = 0;
        while k < self.ips.len()
            invariant
                k <= self.ips@.len(),
                forall|j: int| 0 <= j < k ==> self.ips@[j]@ != ip@,
            decreases self.ips@.len() - k,
        {
            if same(self.ips[k].as_str(), ip) {
                assert(views(self.ips@)[k as int] == ip@);
                return true;
            }
            k = k + 1;
        }
        assert(!views(self.ips@).contains(ip@)) by {
            if views(self.ips@).contains(ip@) {
                let j = choose|j: int| 0 <= j < views(self.ips@).len() && views(self.ips@)[j] == ip@;
                assert(self.ips@[j]@ == ip@);
            }
        }
        false
    }

    /// Whether the immediate peer is a trusted proxy; an unknown peer is not.
    pub fn is_trusted_proxy_hop(&self, peer: &Option<String>) -> (r: bool)
        ensures
            r == (peer matches Some(p) && self.trusted().contains(p@)),
    {
        match peer {
            Some(p) => self.contains(p.as_str()),
            None => false,
        }
    }
}

/// The `X-Forwarded-For` entries worth parsing: none unless the peer is
/// trusted, otherwise each comma-separated entry, trimmed.
pub open spec fn forwarded_candidates_of(trusted: bool, header: Option<Seq<char>>) -> Seq<Seq<char>> {
    if !trusted {
        Seq::<Seq<char>>::empty()
    } else {
        match header {
            Some(h) => split_on(h, ',').map_values(|p: Seq<char>| trim(p)),
            None => Seq::<Seq<char>>::empty(),
        }
    }
}

/// The first entry of `parsed` that parsed as an address.
pub open spec fn first_parsed(parsed: Seq<Option<Seq<char>>>) -> Option<Seq<char>>
    decreases parsed.len(),
{
    if parsed.len() == 0 {
        None
    } else {
        match parsed[0] {
            Some(ip) => Some(ip),
            None => first_parsed(parsed.drop_first()),
        }
    }
}

/// The client address a request is attributed to: the first forwarded
/// entry that parsed, when the peer is trusted; the peer otherwise.
pub open spec fn effective_ip_of(
    trusted: bool,
    parsed: Seq<Option<Seq<char>>>,
    peer: Option<Seq<char>>,
) -> Option<Seq<char>> {
    if trusted && first_parsed(parsed) is Some {
        first_parsed(parsed)
    } else {
        peer
    }
}

/// The character views of a list of optional strings.
pub open spec fn opt_views(v: Seq<Option<String>>) -> Seq<Option<Seq<char>>> {
    v.map_values(|o: Option<String>| crate::config::opt_view(o))
}

/// The `X-Forwarded-For` entries to parse, in order.
pub fn forwarded_candidates(trusted: bool, header: &Option<String>) -> (r: Vec<String>)
    ensures
        views(r@) == forwarded_candidates_of(trusted, crate::config::opt_view(*header)),
{
    let mut out: Vec<String> = Vec::new();
    if !trusted {
        assert(views(out@) =~= Seq::<Seq<char>>::empty());
        return out;
    }
    match header {
        None => {
            assert(views(out@) =~= Seq::<Seq<char>>::empty());
            out
        },
        Some(h) => {
            let parts = split(h.as_str(), ',');
            let ghost want = split_on(h@, ',').map_values(|p: Seq<char>| trim(p));
            let mut k: usize = 0;
            while k < parts.len()
                invariant
                    views(parts@) == split_on(h@, ','),
                    want == split_on(h@, ',').map_values(|p: Seq<char>| trim(p)),
                    k <= parts@.len(),
                    views(out@) =~= want.subrange(0, k as int),
                decreases parts@.len() - k,
            {
                let t = trim_str(parts[k].as_str());
                let ghost before = out@;
                out.push(t);
                assert(views(out@) =~= views(before).push(t@));
                k = k + 1;
            }
            assert(want.subrange(0, parts@.len() as int) =~= want);
            out
        },
    }
}

/// The client address of a request, from the parse results of the
/// forwarded entries (in the order `forwarded_candidates` gave them) and
/// the immediate peer.
pub fn effective_client_ip(trusted: bool, parsed: &Vec<Option<String>>, peer: &Option<String>) -> (r:
    Option<String>)
    ensures
        crate::config::opt_view(r) == effective_ip_of(
            trusted,
            opt_views(parsed@),
            crate::config::opt_view(*peer),
        ),
{
    if trusted {
        let ghost pv = opt_views(parsed@);
        let mut k: usize = 0;
        assert(pv.subrange(0, pv.len() as int) =~= pv);
        while k < parsed.len()
            invariant
                trusted,
                pv == opt_views(parsed@),
                k <= parsed@.len(),
                first_parsed(pv) == first_parsed(pv.subrange(k as int, pv.len() as int)),
            decreases parsed@.len() - k,
        {
            let ghost rest = pv.subrange(k as int, pv.len() as int);
            assert(rest[0] == crate::config::opt_view(parsed@[k as int]));
            match &parsed[k] {
                Some(ip) => {
                    assert(rest.len() > 0);
                    assert(first_parsed(rest) == Some(ip@));
                    assert(first_parsed(pv) == Some(ip@));
                    let c = ip.clone();
                    assert(c@ == ip@);
                    return Some(c);
                },
                None => {
                    assert(rest.drop_first() =~= pv.subrange(k + 1, pv.len() as int));
                },
            }
            k = k + 1;
        }
        assert(pv.subrange(k as int, pv.len() as int) =~= Seq::<Option<Seq<char>>>::empty());
    }
    crate::config::copy_opt(peer)
}

/// Whether the request arrived over TLS according to a trusted proxy's
/// `X-Forwarded-Proto` (compared without regard to ASCII case).
pub fn forwarded_proto_is_https(trusted: bool, proto: &Option<String>) -> (r: bool)
    ensures
        r == (trusted && (proto matches Some(p) && seq_eq_ic(p@, https_word()))),
{
    if !trusted {
        return false;
    }
    match proto {
        Some(p) => {
            let word = "https";
            proof {
                reveal_strlit("https");
            }
            assert(word@ =~= https_word());
            eq_ignore_ascii_case(p.as_str(), word)
        },
        None => false,
    }
}

/// Whether a connection counts as TLS: a trusted proxy says so, or it came
/// in on the TLS listener's port.
pub fn connection_is_tls(forwarded_https: bool, server_port: Option<u16>, tls_port: u16) -> (r: bool)
    ensures
        r == (forwarded_https || server_port == Some(tls_port)),
{
    forwarded_https || match server_port {
        Some(p) => p == tls_port,
        None => false,
    }
}

/// Forwarding headers are read only from trusted peers: for an untrusted
/// peer no forwarded entry is parsed and the peer's own address is the
/// client address, whatever the headers say; for a trusted peer with an
/// `X-Forwarded-For` header its entries are parsed.
pub proof fn lemma_untrusted_peer_is_authoritative(
    header: Option<Seq<char>>,
    parsed: Seq<Option<Seq<char>>>,
    peer: Option<Seq<char>>,
)
    ensures
        forwarded_candidates_of(false, header).len() == 0,
        effective_ip_of(false, parsed, peer) == peer,
        header is Some ==> forwarded_candidates_of(true, header).len() > 0,
{
    if let Some(h) = header {
        lemma_split_nonempty(h, ',');
    }
}

/// Splitting always yields at least one piece.
proof fn lemma_split_nonempty(s: Seq<char>, c: char)
    ensures
        split_on(s, c).len() > 0,
    decreases s.len(),
{
    if s.len() > 0 {
        lemma_split_nonempty(s.drop_last(), c);
    }
}

} // verus!

verus! {

/// Refuses connections from listed addresses before any HTTP is read.
pub struct IpBlockConnectionFilter {
    blocked_ips: Vec<String>,
}

impl IpBlockConnectionFilter {
    /// The refused addresses.
    pub closed spec fn blocked(&self) -> Set<Seq<char>> {
        Set::new(|ip: Seq<char>| views(self.blocked_ips@).contains(ip))
    }

    /// A filter refusing the given addresses, already parsed and written in
    /// canonical form by the caller.
    pub fn new(blocked_ips: Vec<String>) -> (r: IpBlockConnectionFilter)
        ensures
            r.blocked() == views(blocked_ips@).to_set(),
    {
        let r = IpBlockConnectionFilter { blocked_ips };
        assert(r.blocked() =~= views(r.blocked_ips@).to_set());
        r
    }

    /// Whether a connection from `ip` is accepted: always when the address
    /// is unknown, otherwise unless it is blocked.
    pub fn should_accept(&self, ip: &Option<String>) -> (r: bool)
        ensures
            ip is None ==> r,
            ip matches Some(a) ==> (r == !self.blocked().contains(a@)),
    {
        if ip.is_none() {
            return true;
        }
        let a = ip.as_ref().unwrap();
        assert(*ip == Some(*a));
        let mut k: usize = 0;
        while k < self.blocked_ips.len()
            invariant
                *ip == Some(*a),
                k <= self.blocked_ips@.len(),
                forall|j: int| 0 <= j < k ==> self.blocked_ips@[j]@ != a@,
            decreases self.blocked_ips@.len() - k,
        {
            if same(self.blocked_ips[k].as_str(), a.as_str()) {
                assert(views(self.blocked_ips@)[k as int] == a@);
                assert(views(self.blocked_ips@).contains(a@));
                assert(self.blocked().contains(a@));
                return false;
            }
            k = k + 1;
        }
        assert(!views(self.blocked_ips@).contains(a@)) by {
            if views(self.blocked_ips@).contains(a@) {
                let j = choose|j: int|
                    0 <= j < views(self.blocked_ips@).len() && views(self.blocked_ips@)[j] == a@;
                assert(self.blocked_ips@[j]@ == a@);
            }
        }
        true
    }
}

} // verus!
