//! Upstream selection and the per-request rewrites around it.
use vstd::prelude::*;
use crate::config::{
    header_views, opt_view, ConfigView, HeaderConfig, HeaderView, HostConfig, HostView, ProxyConfig,
};
use crate::filters::ProxyCtx;
use crate::text::{is_prefix, same, views};

verus! {

/// Upstream connect timeout, in milliseconds.
pub const CONNECTION_MS: u64 = 500;

/// Upstream read timeout, in seconds.
pub const READ_SECS: u64 = 10;

/// Upstream write timeout, in seconds.
pub const WRITE_SECS: u64 = 5;

/// Why no upstream could be chosen.
#[derive(Debug, PartialEq, Eq, Structural)]
pub enum UpstreamError {
    /// The request's host is not configured (404).
    HostNotFound,
    /// The route has no targets (500).
    NoUpstreamTargets,
}

impl UpstreamError {
    /// The HTTP status the client receives.
    pub fn status(&self) -> (r: u16)
        ensures
            r == match self {
                UpstreamError::HostNotFound => 404u16,
                UpstreamError::NoUpstreamTargets => 500u16,
            },
    {
        match self {
            UpstreamError::HostNotFound => 404,
            UpstreamError::NoUpstreamTargets => 500,
        }
    }
}

/// How to reach the chosen upstream.
pub struct PeerPlan {
    /// `host:port` to dial.
    pub address: String,
    /// Whether the upstream leg uses TLS.
    pub tls: bool,
    /// SNI for the upstream leg.
    pub sni: String,
    /// Whether the upstream certificate and host name are verified.
    pub verify: bool,
    pub connection_timeout_ms: u64,
    pub read_timeout_secs: u64,
    pub write_timeout_secs: u64,
}

/// Where a request is routed: the matched location's settings, else the
/// host's.
pub struct RouteView {
    pub targets: Seq<Seq<char>>,
    pub scheme: Seq<char>,
    pub verify_ssl: bool,
    pub upstream_sni: Option<Seq<char>>,
}

/// The route of host `h` for a matched location index.
pub open spec fn route_of(h: HostView, matched: Option<usize>) -> RouteView {
    match matched {
        Some(i) if (i as int) < h.locations.len() => RouteView {
            targets: h.locations[i as int].targets,
            scheme: h.locations[i as int].scheme,
            verify_ssl: h.locations[i as int].verify_ssl,
            upstream_sni: h.locations[i as int].upstream_sni,
        },
        _ => RouteView {
            targets: h.targets,
            scheme: h.scheme,
            verify_ssl: h.verify_ssl,
            upstream_sni: h.upstream_sni,
        },
    }
}

/// The request's host is configured.
pub open spec fn host_known(cfg: ConfigView, host: Seq<char>, found: bool) -> bool {
    found && cfg.hosts.contains_key(host)
}

/// The peer for target `target` of route `r`, for effective host `host`.
pub open spec fn peer_matches(p: PeerPlan, r: RouteView, host: Seq<char>, target: Seq<char>) -> bool {
    &&& p.address@ == target
    &&& p.tls == (r.scheme == "https"@)
    &&& p.sni@ == match r.upstream_sni {
        Some(s) => s,
        None => host,
    }
    &&& p.verify == r.verify_ssl
    &&& p.connection_timeout_ms == CONNECTION_MS
    &&& p.read_timeout_secs == READ_SECS
    &&& p.write_timeout_secs == WRITE_SECS
}

/// Relies on `rand::random_range`: an index drawn uniformly from `0..n`
/// with the thread-local generator (which panics only when the operating
/// system's random source cannot be read at all).
#[verifier::external_body]
fn random_index(n: usize) -> (r: usize)
    requires
        n > 0,
    ensures
        r < n,
{
    rand::random_range(0..n)
}

fn route_fields(h: &HostConfig, matched: Option<usize>) -> (r: (&Vec<String>, &String, bool, &Option<
    String,
>))
    ensures
        views(r.0@) == route_of(h@, matched).targets,
        r.1@ == route_of(h@, matched).scheme,
        r.2 == route_of(h@, matched).verify_ssl,
        opt_view(*r.3) == route_of(h@, matched).upstream_sni,
{
    match matched {
        Some(i) if i < h.locations.len() => {
            let l = &h.locations[i];
            assert(h@.locations[i as int] == l@);
            (&l.targets, &l.scheme, l.verify_ssl, &l.upstream_sni)
        },
        _ => (&h.targets, &h.scheme, h.verify_ssl, &h.upstream_sni),
    }
}

/// The peer for the `choice`-th target (modulo their number) of the
/// request's route.
pub fn upstream_peer_for(cfg: &ProxyConfig, ctx: &ProxyCtx, choice: usize) -> (r: Result<
    PeerPlan,
    UpstreamError,
>)
    ensures
        !host_known(cfg@, ctx.host@, ctx.host_found) ==> r == Err::<PeerPlan, UpstreamError>(
            UpstreamError::HostNotFound,
        ),
        host_known(cfg@, ctx.host@, ctx.host_found) ==> {
            let rt = route_of(cfg@.hosts[ctx.host@], ctx.matched_location);
            &&& rt.targets.len() == 0 ==> r == Err::<PeerPlan, UpstreamError>(
                UpstreamError::NoUpstreamTargets,
            )
            &&& rt.targets.len() > 0 ==> (r matches Ok(p) && peer_matches(
                p,
                rt,
                ctx.host@,
                rt.targets[choice as int % rt.targets.len() as int],
            ))
        },
{
    if !ctx.host_found {
        return Err(UpstreamError::HostNotFound);
    }
    let h = match cfg.get_host_config(ctx.host.as_str()) {
        Some(h) => h,
        None => {
            return Err(UpstreamError::HostNotFound);
        },
    };
    let (targets, scheme, verify_ssl, upstream_sni) = route_fields(h, ctx.matched_location);
    if targets.len() == 0 {
        return Err(UpstreamError::NoUpstreamTargets);
    }
    let target = &targets[choice % targets.len()];
    assert(views(targets@)[choice as int % targets@.len() as int] == target@);
    let tls = same(scheme.as_str(), "https");
    let sni = match upstream_sni {
        Some(s) => s.clone(),
        None => ctx.host.clone(),
    };
    Ok(
        PeerPlan {
            address: target.clone(),
            tls,
            sni,
            verify: verify_ssl,
            connection_timeout_ms: CONNECTION_MS,
            read_timeout_secs: READ_SECS,
            write_timeout_secs: WRITE_SECS,
        },
    )
}

/// The peer for a request: one target of its route, drawn uniformly at
/// random on every call.
pub fn upstream_peer(cfg: &ProxyConfig, ctx: &ProxyCtx) -> (r: Result<PeerPlan, UpstreamError>)
    ensures
        !host_known(cfg@, ctx.host@, ctx.host_found) ==> r == Err::<PeerPlan, UpstreamError>(
            UpstreamError::HostNotFound,
        ),
        host_known(cfg@, ctx.host@, ctx.host_found) ==> {
            let rt = route_of(cfg@.hosts[ctx.host@], ctx.matched_location);
            &&& rt.targets.len() == 0 ==> r == Err::<PeerPlan, UpstreamError>(
                UpstreamError::NoUpstreamTargets,
            )
            &&& rt.targets.len() > 0 ==> (r matches Ok(p) && exists|i: int|
                0 <= i < rt.targets.len() && peer_matches(p, rt, ctx.host@, rt.targets[i]))
        },
{
    let count = match cfg.get_host_config(ctx.host.as_str()) {
        Some(h) if ctx.host_found => {
            let (targets, _, _, _) = route_fields(h, ctx.matched_location);
            assert(targets@.len() == views(targets@).len());
            targets.len()
        },
        _ => 0,
    };
    assert(host_known(cfg@, ctx.host@, ctx.host_found) ==> count == route_of(
        cfg@.hosts[ctx.host@],
        ctx.matched_location,
    ).targets.len());
    let choice = if count > 0 {
        random_index(count)
    } else {
        0
    };
    let r = upstream_peer_for(cfg, ctx, choice);
    proof {
        if count > 0 {
            vstd::arithmetic::div_mod::lemma_small_mod(choice as nat, count as nat);
        }
    }
    r
}

/// The rules among `hs` for `target` (`request` or `response`), in order.
pub open spec fn rules_for(hs: Seq<HeaderView>, target: Seq<char>) -> Seq<HeaderView>
    decreases hs.len(),
{
    if hs.len() == 0 {
        Seq::<HeaderView>::empty()
    } else {
        let init = rules_for(hs.drop_last(), target);
        if hs.last().target == target {
            init.push(hs.last())
        } else {
            init
        }
    }
}

/// The header rules of the request's host for `target` (`request` or
/// `response`), in list order. None when the host is unknown.
pub fn header_rules_for(cfg: &ProxyConfig, ctx: &ProxyCtx, target: &str) -> (r: Vec<HeaderConfig>)
    ensures
        host_known(cfg@, ctx.host@, ctx.host_found) && cfg@.headers.contains_key(
            cfg@.hosts[ctx.host@].id,
        ) ==> header_views(r@) == rules_for(cfg@.headers[cfg@.hosts[ctx.host@].id], target@),
        !(host_known(cfg@, ctx.host@, ctx.host_found) && cfg@.headers.contains_key(
            cfg@.hosts[ctx.host@].id,
        )) ==> r@.len() == 0,
{
    let mut out: Vec<HeaderConfig> = Vec::new();
    if !ctx.host_found {
        return out;
    }
    let h = match cfg.get_host_config(ctx.host.as_str()) {
        Some(h) => h,
        None => {
            return out;
        },
    };
    let rules = cfg.get_headers(h.id);
    let ghost hv = header_views(rules@);
    let mut k: usize = 0;
    assert(hv.subrange(0, 0) =~= Seq::<HeaderView>::empty());
    assert(header_views(out@) =~= Seq::<HeaderView>::empty());
    while k < rules.len()
        invariant
            hv == header_views(rules@),
            k <= rules@.len(),
            header_views(out@) == rules_for(hv.subrange(0, k as int), target@),
        decreases rules@.len() - k,
    {
        let rule = &rules[k];
        assert(hv.subrange(0, k + 1).drop_last() =~= hv.subrange(0, k as int));
        assert(hv.subrange(0, k + 1).last() == rule@);
        if same(rule.target.as_str(), target) {
            let copy = HeaderConfig {
                id: rule.id,
                name: rule.name.clone(),
                value: rule.value.clone(),
                target: rule.target.clone(),
            };
            let ghost before = out@;
            out.push(copy);
            assert(header_views(out@) =~= header_views(before).push(rule@));
        }
        k = k + 1;
    }
    assert(hv.subrange(0, rules@.len() as int) =~= hv);
    out
}

/// The upstream URI of a request whose matched location rewrites, if any:
/// the location's prefix removed (see `filters::rewrite_uri`).
pub fn upstream_uri(cfg: &ProxyConfig, ctx: &ProxyCtx, path: &str, query: &Option<String>) -> (r:
    Option<String>)
    ensures
        r is Some <==> host_known(cfg@, ctx.host@, ctx.host_found) && (ctx.matched_location matches Some(
            i,
        ) && (i as int) < cfg@.hosts[ctx.host@].locations.len()
            && cfg@.hosts[ctx.host@].locations[i as int].rewrite && is_prefix(
            cfg@.hosts[ctx.host@].locations[i as int].path,
            path@,
        )),
        r matches Some(u) ==> {
            let p = cfg@.hosts[ctx.host@].locations[ctx.matched_location.unwrap() as int].path;
            u@ == crate::filters::rewritten_of(p, path@, opt_view(*query))
        },
{
    if !ctx.host_found {
        return None;
    }
    let h = match cfg.get_host_config(ctx.host.as_str()) {
        Some(h) => h,
        None => {
            return None;
        },
    };
    match ctx.matched_location {
        Some(i) if i < h.locations.len() => {
            let l = &h.locations[i];
            assert(h@.locations[i as int] == l@);
            if l.rewrite {
                crate::filters::rewrite_uri(l.path.as_str(), path, query)
            } else {
                None
            }
        },
        _ => None,
    }
}

} // verus!

verus! {

/// The character views of a header list.
pub open spec fn pair_views(v: Seq<(String, String)>) -> Seq<(Seq<char>, Seq<char>)> {
    v.map_values(|p: (String, String)| (p.0@, p.1@))
}

/// `hs` without the headers named `name` (compared without regard to ASCII
/// case), in order.
pub open spec fn without_name(hs: Seq<(Seq<char>, Seq<char>)>, name: Seq<char>) -> Seq<
    (Seq<char>, Seq<char>),
>
    decreases hs.len(),
{
    if hs.len() == 0 {
        hs
    } else {
        let init = without_name(hs.drop_last(), name);
        if crate::text::seq_eq_ic(hs.last().0, name) {
            init
        } else {
            init.push(hs.last())
        }
    }
}

/// `hs` after the rules, in order: each removes every header of its name
/// and then adds its own.
pub open spec fn apply_rules(hs: Seq<(Seq<char>, Seq<char>)>, rules: Seq<HeaderView>) -> Seq<
    (Seq<char>, Seq<char>),
>
    decreases rules.len(),
{
    if rules.len() == 0 {
        hs
    } else {
        let prev = apply_rules(hs, rules.drop_last());
        let r = rules.last();
        without_name(prev, r.name).push((r.name, r.value))
    }
}

fn remove_named(headers: &Vec<(String, String)>, name: &str) -> (r: Vec<(String, String)>)
    ensures
        pair_views(r@) == without_name(pair_views(headers@), name@),
{
    let ghost hv = pair_views(headers@);
    let mut out: Vec<(String, String)> = Vec::new();
    let mut k: usize = 0;
    assert(hv.subrange(0, 0) =~= Seq::<(Seq<char>, Seq<char>)>::empty());
    assert(pair_views(out@) =~= Seq::<(Seq<char>, Seq<char>)>::empty());
    while k < headers.len()
        invariant
            hv == pair_views(headers@),
            k <= headers@.len(),
            pair_views(out@) == without_name(hv.subrange(0, k as int), name@),
        decreases headers@.len() - k,
    {
        assert(hv.subrange(0, k + 1).drop_last() =~= hv.subrange(0, k as int));
        assert(hv.subrange(0, k + 1).last() == (headers@[k as int].0@, headers@[k as int].1@));
        if !crate::text::eq_ignore_ascii_case(headers[k].0.as_str(), name) {
            let e = (headers[k].0.clone(), headers[k].1.clone());
            let ghost before = out@;
            out.push(e);
            assert(pair_views(out@) =~= pair_views(before).push((e.0@, e.1@)));
        }
        k = k + 1;
    }
    assert(hv.subrange(0, headers@.len() as int) =~= hv);
    out
}

/// Applies header rules to a header list in rule order: each rule removes
/// every header of its name, whatever its ASCII case, then adds its value.
pub fn apply_header_rules(headers: &mut Vec<(String, String)>, rules: &[HeaderConfig])
    ensures
        pair_views(final(headers)@) == apply_rules(pair_views(old(headers)@), header_views(rules@)),
{
    let ghost start = pair_views(headers@);
    let ghost rv = header_views(rules@);
    let mut k: usize = 0;
    assert(rv.subrange(0, 0) =~= Seq::<HeaderView>::empty());
    while k < rules.len()
        invariant
            rv == header_views(rules@),
            k <= rules@.len(),
            pair_views(headers@) == apply_rules(start, rv.subrange(0, k as int)),
        decreases rules@.len() - k,
    {
        assert(rv.subrange(0, k + 1).drop_last() =~= rv.subrange(0, k as int));
        assert(rv.subrange(0, k + 1).last() == rules@[k as int]@);
        let rule = &rules[k];
        let mut next = remove_named(headers, rule.name.as_str());
        let e = (rule.name.clone(), rule.value.clone());
        let ghost before = next@;
        next.push(e);
        assert(pair_views(next@) =~= pair_views(before).push((e.0@, e.1@)));
        *headers = next;
        k = k + 1;
    }
    assert(rv.subrange(0, rules@.len() as int) =~= rv);
}

} // verus!
