//! The HTTP filter chain: ACME challenge, host resolution, access control,
//! redirect, SSL upgrade and longest-prefix location match, in that order.
//! Each step either answers the request or lets it continue.
use vstd::prelude::*;
use vstd::utf8::{decode_utf8, valid_utf8};
use crate::auth::{base64_decode, base64_decoded, bcrypt_verifies, utf8_string, verify_password};
use crate::config::{
    client_views, ip_views, opt_view, AccessListClientConfig, AccessListConfig, AccessListIpConfig,
    AccessListView, ConfigView, HostView, LocationConfig, LocationView, ProxyConfig,
    location_views,
};
use crate::text::{
    concat, contains_char, contains_str, drop_front, find_char, first_pos, has_char, has_sub,
    is_prefix, same, slice, starts_with,
};

verus! {

/// Path prefix under which ACME HTTP-01 tokens are served.
pub open spec fn acme_prefix() -> Seq<char> {
    "/.well-known/acme-challenge/"@
}

/// A token that could leave the challenge directory.
pub open spec fn token_is_unsafe(t: Seq<char>) -> bool {
    has_sub(t, ".."@) || has_char(t, '/') || has_char(t, '\\')
}

/// `?query`, or nothing without a query.
pub open spec fn query_suffix(q: Option<Seq<char>>) -> Seq<char> {
    match q {
        Some(q) => "?"@ + q,
        None => Seq::<char>::empty(),
    }
}

/// The text before the first `:` (the whole text without one).
pub open spec fn before_colon(v: Seq<char>) -> Seq<char> {
    if has_char(v, ':') {
        v.subrange(0, choose|i: int| first_pos(v, ':', i))
    } else {
        v
    }
}

/// A `Host` header without its port: a bracketed IPv6 literal up to its
/// closing `]`, any other name up to its first `:`.
pub open spec fn host_without_port(v: Seq<char>) -> Seq<char> {
    if v.len() > 0 && v[0] == '[' && has_char(v, ']') {
        v.subrange(0, (choose|i: int| first_pos(v, ']', i)) + 1)
    } else {
        before_colon(v)
    }
}

/// The host a request is for: the URI's authority when present, else the
/// `Host` header without its port, else nothing.
pub open spec fn host_of(uri_host: Option<Seq<char>>, host_header: Option<Seq<char>>) -> Seq<char> {
    match uri_host {
        Some(h) => h,
        None => match host_header {
            Some(v) => host_without_port(v),
            None => Seq::<char>::empty(),
        },
    }
}

/// The IP rules refuse `ip`: a `deny` rule names it, or there are `allow`
/// rules and none names it.
pub open spec fn ip_refused(rules: Seq<(Seq<char>, Seq<char>)>, ip: Seq<char>) -> bool {
    (exists|k: int| 0 <= k < rules.len() && rules[k].1 == "deny"@ && rules[k].0 == ip) || ((exists|
        k: int,
    | 0 <= k < rules.len() && rules[k].1 == "allow"@) && !(exists|k: int|
        0 <= k < rules.len() && rules[k].1 == "allow"@ && rules[k].0 == ip))
}

/// `k` is the first client named `user`.
pub open spec fn first_client(clients: Seq<(Seq<char>, Seq<char>)>, user: Seq<char>, k: int) -> bool {
    0 <= k < clients.len() && clients[k].0 == user && forall|j: int|
        0 <= j < k ==> clients[j].0 != user
}

/// `user:password` names a client whose hash the password matches; the
/// first client of that name decides.
pub open spec fn credentials_ok(clients: Seq<(Seq<char>, Seq<char>)>, text: Seq<char>) -> bool {
    has_char(text, ':') && {
        let i = choose|i: int| first_pos(text, ':', i);
        let user = text.subrange(0, i);
        let password = text.subrange(i + 1, text.len() as int);
        exists|k: int| first_client(clients, user, k) && bcrypt_verifies(password, clients[k].1)
    }
}

/// The `Authorization` header carries valid basic credentials.
pub open spec fn basic_auth_ok(clients: Seq<(Seq<char>, Seq<char>)>, header: Option<Seq<char>>) -> bool {
    match header {
        None => false,
        Some(h) => is_prefix("Basic "@, h) && match base64_decoded(h.subrange(6, h.len() as int)) {
            None => false,
            Some(bytes) => valid_utf8(bytes) && credentials_ok(clients, decode_utf8(bytes)),
        },
    }
}

/// `Location` of a redirect: the target (one slash dropped where target
/// and path would double it), the path, and the query.
pub open spec fn redirect_location_of(target: Seq<char>, path: Seq<char>, query: Option<Seq<char>>) -> Seq<
    char,
> {
    let t = if target.len() > 0 && target.last() == '/' && path.len() > 0 && path[0] == '/' {
        target.drop_last()
    } else {
        target
    };
    t + path + query_suffix(query)
}

/// The `https://` form of a request's URL.
pub open spec fn https_url_of(host: Seq<char>, path: Seq<char>, query: Option<Seq<char>>) -> Seq<char> {
    "https://"@ + host + path + query_suffix(query)
}

/// The location chosen among the first `n`: the longest path that is a
/// prefix of `path`, the earliest on a tie.
pub open spec fn best_location_upto(locs: Seq<LocationView>, path: Seq<char>, n: int) -> Option<int>
    decreases n,
{
    if n <= 0 {
        None
    } else {
        let b = best_location_upto(locs, path, n - 1);
        if is_prefix(locs[n - 1].path, path) && (b matches Some(i) ==> locs[n - 1].path.len()
            > locs[i].path.len()) {
            Some(n - 1)
        } else {
            b
        }
    }
}

/// The location a request path is routed to.
pub open spec fn best_location(locs: Seq<LocationView>, path: Seq<char>) -> Option<int> {
    best_location_upto(locs, path, locs.len() as int)
}

/// What the filter chain answers when it handles a request itself.
pub enum Reply {
    /// A bare status: 403 (refused) or 404.
    Status(u16),
    /// 401 with `WWW-Authenticate: Basic realm="Restricted Area"`.
    AuthRequired,
    /// A redirect with its status and `Location`.
    Redirect { status: u16, location: String },
}

pub enum ReplyView {
    Status(u16),
    AuthRequired,
    Redirect(u16, Seq<char>),
}

impl View for Reply {
    type V = ReplyView;

    open spec fn view(&self) -> ReplyView {
        match self {
            Reply::Status(s) => ReplyView::Status(*s),
            Reply::AuthRequired => ReplyView::AuthRequired,
            Reply::Redirect { status, location } => ReplyView::Redirect(*status, location@),
        }
    }
}

/// Per-request routing state carried from the filters to upstream
/// selection.
pub struct ProxyCtx {
    /// The effective host.
    pub host: String,
    /// Whether the snapshot has a host of that name.
    pub host_found: bool,
    /// Index of the matched location among the host's locations.
    pub matched_location: Option<usize>,
}

/// Outcome of the filter chain.
pub enum RequestDecision {
    /// An ACME challenge: serve `data/acme-challenge/<token>` (200), or 404
    /// if there is no such file.
    ServeChallenge(String),
    /// Answer with this reply; the request goes no further.
    Reply(Reply),
    /// Continue to upstream selection.
    Forward(ProxyCtx),
}

pub enum DecisionView {
    ServeChallenge(Seq<char>),
    Reply(ReplyView),
    Forward(Seq<char>, bool, Option<int>),
}

impl View for RequestDecision {
    type V = DecisionView;

    open spec fn view(&self) -> DecisionView {
        match self {
            RequestDecision::ServeChallenge(t) => DecisionView::ServeChallenge(t@),
            RequestDecision::Reply(r) => DecisionView::Reply(r@),
            RequestDecision::Forward(c) => DecisionView::Forward(
                c.host@,
                c.host_found,
                match c.matched_location {
                    Some(i) => Some(i as int),
                    None => None,
                },
            ),
        }
    }
}

/// What the filter chain reads of a request.
pub struct RequestInfo {
    pub path: String,
    pub query: Option<String>,
    /// Host of the request URI (HTTP/2 authority or absolute URI).
    pub uri_host: Option<String>,
    /// The `Host` header, when it is valid text.
    pub host_header: Option<String>,
    /// The effective client address (see `trusted::effective_client_ip`).
    pub client_ip: Option<String>,
    /// Whether the connection counts as TLS (see `trusted::connection_is_tls`).
    pub is_tls: bool,
    /// The `Authorization` header, when it is valid text.
    pub authorization: Option<String>,
}

pub struct RequestView {
    pub path: Seq<char>,
    pub query: Option<Seq<char>>,
    pub uri_host: Option<Seq<char>>,
    pub host_header: Option<Seq<char>>,
    pub client_ip: Option<Seq<char>>,
    pub is_tls: bool,
    pub authorization: Option<Seq<char>>,
}

impl View for RequestInfo {
    type V = RequestView;

    open spec fn view(&self) -> RequestView {
        RequestView {
            path: self.path@,
            query: opt_view(self.query),
            uri_host: opt_view(self.uri_host),
            host_header: opt_view(self.host_header),
            client_ip: opt_view(self.client_ip),
            is_tls: self.is_tls,
            authorization: opt_view(self.authorization),
        }
    }
}

/// The address the IP rules are checked against; an unknown client is
/// the empty text.
pub open spec fn ip_text(ip: Option<Seq<char>>) -> Seq<char> {
    match ip {
        Some(i) => i,
        None => Seq::<char>::empty(),
    }
}

/// The access-control verdict for a request to host `h`: a reply when it is
/// refused, nothing when it may go on.
pub open spec fn acl_verdict(cfg: ConfigView, h: HostView, req: RequestView) -> Option<ReplyView> {
    match h.access_list_id {
        None => None,
        Some(id) => if !cfg.access_lists.contains_key(id) {
            None
        } else {
            acl_reply(cfg.access_lists[id], req.client_ip, req.authorization)
        },
    }
}

/// The verdict of one access list.
pub open spec fn acl_reply(
    a: AccessListView,
    client_ip: Option<Seq<char>>,
    authorization: Option<Seq<char>>,
) -> Option<ReplyView> {
    if a.ips.len() > 0 && ip_refused(a.ips, ip_text(client_ip)) {
        Some(ReplyView::Status(403))
    } else if a.clients.len() > 0 && !basic_auth_ok(a.clients, authorization) {
        Some(ReplyView::AuthRequired)
    } else {
        None
    }
}

/// What the filter chain does with a request, given the snapshot.
pub open spec fn decision_of(cfg: ConfigView, req: RequestView) -> DecisionView {
    if is_prefix(acme_prefix(), req.path) {
        let token = req.path.subrange(acme_prefix().len() as int, req.path.len() as int);
        if token_is_unsafe(token) {
            DecisionView::Reply(ReplyView::Status(403))
        } else {
            DecisionView::ServeChallenge(token)
        }
    } else {
        let host = host_of(req.uri_host, req.host_header);
        if !cfg.hosts.contains_key(host) {
            DecisionView::Forward(host, false, None)
        } else {
            let h = cfg.hosts[host];
            match acl_verdict(cfg, h, req) {
                Some(reply) => DecisionView::Reply(reply),
                None => match h.redirect_to {
                    Some(t) => DecisionView::Reply(
                        ReplyView::Redirect(
                            h.redirect_status,
                            redirect_location_of(t, req.path, req.query),
                        ),
                    ),
                    None => if h.ssl_forced && !req.is_tls {
                        DecisionView::Reply(
                            ReplyView::Redirect(301, https_url_of(host, req.path, req.query)),
                        )
                    } else {
                        DecisionView::Forward(host, true, best_location(h.locations, req.path))
                    },
                },
            }
        }
    }
}

/// The ACME token of a challenge path, if the path is one.
pub fn acme_token(path: &str) -> (r: Option<String>)
    ensures
        r is Some <==> is_prefix(acme_prefix(), path@),
        r matches Some(t) ==> t@ == path@.subrange(acme_prefix().len() as int, path@.len() as int),
{
    let prefix = "/.well-known/acme-challenge/";
    if starts_with(path, prefix) {
        Some(drop_front(path, prefix.unicode_len()))
    } else {
        None
    }
}

/// Whether a challenge token holds `..`, `/` or `\`.
pub fn is_unsafe_token(token: &str) -> (r: bool)
    ensures
        r == token_is_unsafe(token@),
{
    contains_str(token, "..") || contains_char(token, '/') || contains_char(token, '\\')
}

/// `?query`, or the empty string.
fn query_suffix_string(query: &Option<String>) -> (r: String)
    ensures
        r@ == query_suffix(opt_view(*query)),
{
    match query {
        Some(q) => concat("?", q.as_str()),
        None => {
            let e = String::new();
            assert(e@ =~= Seq::<char>::empty());
            e
        },
    }
}

/// The host a request is for (see `host_of`).
pub fn effective_host(uri_host: &Option<String>, host_header: &Option<String>) -> (r: String)
    ensures
        r@ == host_of(opt_view(*uri_host), opt_view(*host_header)),
{
    match uri_host {
        Some(h) => h.clone(),
        None => match host_header {
            Some(v) => strip_port(v.as_str()),
            None => String::new(),
        },
    }
}

/// The prefix of `v` up to the first `c` (excluded), or all of `v`.
fn up_to_first(v: &str, c: char) -> (r: (String, bool))
    ensures
        r.1 == has_char(v@, c),
        r.1 ==> r.0@ == v@.subrange(0, choose|i: int| first_pos(v@, c, i)),
        !r.1 ==> r.0@ == v@,
{
    match find_char(v, c) {
        Some(i) => {
            let ghost j = choose|j: int| first_pos(v@, c, j);
            assert(j == i as int) by {
                if j < i {
                    assert(v@[j] != c);
                } else if j > i {
                    assert(v@[i as int] != c);
                }
            }
            (slice(v, 0, i), true)
        },
        None => {
            let n = v.unicode_len();
            assert(v@.subrange(0, n as int) =~= v@);
            (slice(v, 0, n), false)
        },
    }
}

/// A `Host` header without its port (see `host_without_port`).
pub fn strip_port(v: &str) -> (r: String)
    ensures
        r@ == host_without_port(v@),
{
    let n = v.unicode_len();
    if n > 0 && v.get_char(0) == '[' {
        if let Some(i) = find_char(v, ']') {
            let ghost j = choose|j: int| first_pos(v@, ']', j);
            assert(j == i as int) by {
                if j < i {
                    assert(v@[j] != ']');
                } else if j > i {
                    assert(v@[i as int] != ']');
                }
            }
            return slice(v, 0, i + 1);
        }
    }
    let (r, _) = up_to_first(v, ':');
    r
}

/// Whether the IP rules refuse `ip` (see `ip_refused`).
pub fn ip_is_refused(rules: &[AccessListIpConfig], ip: &str) -> (r: bool)
    ensures
        r == ip_refused(ip_views(rules@), ip@),
{
    let ghost rv = ip_views(rules@);
    let mut denied = false;
    let mut has_allow = false;
    let mut allowed = false;
    let mut k: usize = 0;
    while k < rules.len()
        invariant
            rv == ip_views(rules@),
            k <= rules@.len(),
            denied == exists|j: int| 0 <= j < k && rv[j].1 == "deny"@ && rv[j].0 == ip@,
            has_allow == exists|j: int| 0 <= j < k && rv[j].1 == "allow"@,
            allowed == exists|j: int| 0 <= j < k && rv[j].1 == "allow"@ && rv[j].0 == ip@,
        decreases rules@.len() - k,
    {
        let rule = &rules[k];
        assert(rv[k as int] == (rule.ip@, rule.action@));
        let is_allow = same(rule.action.as_str(), "allow");
        let is_deny = same(rule.action.as_str(), "deny");
        let matches = same(rule.ip.as_str(), ip);
        if is_deny && matches {
            denied = true;
        }
        if is_allow {
            has_allow = true;
            if matches {
                allowed = true;
            }
        }
        k = k + 1;
    }
    denied || (has_allow && !allowed)
}

/// The first client named `user`, if any.
fn find_client(clients: &[AccessListClientConfig], user: &str) -> (r: Option<usize>)
    ensures
        r matches Some(k) ==> first_client(client_views(clients@), user@, k as int),
        r is None ==> forall|k: int| !first_client(client_views(clients@), user@, k),
{
    let ghost cv = client_views(clients@);
    let mut k: usize = 0;
    while k < clients.len()
        invariant
            cv == client_views(clients@),
            k <= clients@.len(),
            forall|j: int| 0 <= j < k ==> cv[j].0 != user@,
        decreases clients@.len() - k,
    {
        assert(cv[k as int].0 == clients@[k as int].username@);
        if same(clients[k].username.as_str(), user) {
            return Some(k);
        }
        k = k + 1;
    }
    None
}

/// Whether `user:password` text names a client whose hash matches.
fn check_credentials(clients: &[AccessListClientConfig], text: &str) -> (r: bool)
    ensures
        r == credentials_ok(client_views(clients@), text@),
{
    let ghost cv = client_views(clients@);
    match find_char(text, ':') {
        None => false,
        Some(i) => {
            let ghost j = choose|j: int| first_pos(text@, ':', j);
            assert(j == i as int) by {
                if j < i {
                    assert(text@[j] != ':');
                } else if j > i {
                    assert(text@[i as int] != ':');
                }
            }
            let user = slice(text, 0, i);
            let n = text.unicode_len();
            let password = slice(text, i + 1, n);
            match find_client(clients, user.as_str()) {
                None => false,
                Some(k) => {
                    let ok = verify_password(password.as_str(), clients[k].password_hash.as_str());
                    assert(cv[k as int].1 == clients@[k as int].password_hash@);
                    assert forall|m: int| first_client(cv, user@, m) implies m == k as int by {
                        if m < k {
                            assert(cv[m].0 != user@);
                        } else if m > k {
                            assert(cv[k as int].0 != user@);
                        }
                    }
                    ok
                },
            }
        },
    }
}

/// Whether an `Authorization` header carries valid basic credentials.
pub fn check_basic_auth(clients: &[AccessListClientConfig], header: &Option<String>) -> (r: bool)
    ensures
        r == basic_auth_ok(client_views(clients@), opt_view(*header)),
{
    match header {
        None => false,
        Some(h) => {
            if !starts_with(h.as_str(), "Basic ") {
                return false;
            }
            proof {
                reveal_strlit("Basic ");
            }
            let encoded = drop_front(h.as_str(), 6);
            match base64_decode(encoded.as_str()) {
                None => false,
                Some(bytes) => match utf8_string(bytes) {
                    None => false,
                    Some(text) => check_credentials(clients, text.as_str()),
                },
            }
        },
    }
}

/// The verdict of one access list on a request.
pub fn access_verdict(acl: &AccessListConfig, client_ip: &Option<String>, authorization: &Option<
    String,
>) -> (r: Option<Reply>)
    ensures
        match r {
            Some(x) => acl_reply(acl@, opt_view(*client_ip), opt_view(*authorization)) == Some(x@),
            None => acl_reply(acl@, opt_view(*client_ip), opt_view(*authorization)) is None,
        },
{
    assert(acl@.ips.len() == acl.ips@.len());
    assert(acl@.clients.len() == acl.clients@.len());
    if acl.ips.len() > 0 {
        let refused = match client_ip {
            Some(ip) => ip_is_refused(acl.ips.as_slice(), ip.as_str()),
            None => {
                proof {
                    reveal_strlit("");
                }
                assert(""@ =~= Seq::<char>::empty());
                ip_is_refused(acl.ips.as_slice(), "")
            },
        };
        assert(refused == ip_refused(acl@.ips, ip_text(opt_view(*client_ip))));
        if refused {
            return Some(Reply::Status(403));
        }
    }
    if acl.clients.len() > 0 && !check_basic_auth(acl.clients.as_slice(), authorization) {
        return Some(Reply::AuthRequired);
    }
    None
}

/// `Location` of a host redirect (see `redirect_location_of`).
pub fn redirect_location(target: &str, path: &str, query: &Option<String>) -> (r: String)
    ensures
        r@ == redirect_location_of(target@, path@, opt_view(*query)),
{
    let n = target.unicode_len();
    let trimmed = if n > 0 && target.get_char(n - 1) == '/' && path.unicode_len() > 0
        && path.get_char(0) == '/' {
        slice(target, 0, n - 1)
    } else {
        slice(target, 0, n)
    };
    assert(target@.subrange(0, n as int) =~= target@);
    assert(target@.subrange(0, n - 1) =~= target@.drop_last()) by {
        if n > 0 {
        }
    }
    let with_path = concat(trimmed.as_str(), path);
    let suffix = query_suffix_string(query);
    concat(with_path.as_str(), suffix.as_str())
}

/// The `https://` URL of a request (see `https_url_of`).
pub fn https_url(host: &str, path: &str, query: &Option<String>) -> (r: String)
    ensures
        r@ == https_url_of(host@, path@, opt_view(*query)),
{
    let a = concat("https://", host);
    let b = concat(a.as_str(), path);
    let suffix = query_suffix_string(query);
    concat(b.as_str(), suffix.as_str())
}

/// The location a request path is routed to: the longest location path
/// that is a prefix of it, the earliest one on a tie.
pub fn match_location(locs: &[LocationConfig], path: &str) -> (r: Option<usize>)
    ensures
        match r {
            Some(i) => best_location(location_views(locs@), path@) == Some(i as int),
            None => best_location(location_views(locs@), path@) is None,
        },
{
    let ghost lv = location_views(locs@);
    let mut best: Option<usize> = None;
    let mut best_len: usize = 0;
    let mut k: usize = 0;
    while k < locs.len()
        invariant
            lv == location_views(locs@),
            k <= locs@.len(),
            match best {
                Some(i) => best_location_upto(lv, path@, k as int) == Some(i as int) && i < k
                    && best_len == lv[i as int].path.len(),
                None => best_location_upto(lv, path@, k as int) is None,
            },
        decreases locs@.len() - k,
    {
        let loc = &locs[k];
        assert(lv[k as int] == loc@);
        if starts_with(path, loc.path.as_str()) {
            let len = loc.path.unicode_len();
            let better = match best {
                Some(_) => len > best_len,
                None => true,
            };
            if better {
                best = Some(k);
                best_len = len;
            }
        }
        k = k + 1;
    }
    best
}

/// The upstream URI of `path` with `prefix` removed: `/` when nothing is
/// left, then the query.
pub open spec fn rewritten_of(prefix: Seq<char>, path: Seq<char>, query: Option<Seq<char>>) -> Seq<
    char,
> {
    (if path.len() == prefix.len() {
        "/"@
    } else {
        path.subrange(prefix.len() as int, path.len() as int)
    }) + query_suffix(query)
}

/// The upstream URI for a location with `rewrite` set: the location's
/// prefix removed from the path (`/` when nothing is left), the query kept.
/// Nothing when the path does not start with the prefix.
pub fn rewrite_uri(prefix: &str, path: &str, query: &Option<String>) -> (r: Option<String>)
    ensures
        r is Some <==> is_prefix(prefix@, path@),
        r matches Some(u) ==> u@ == rewritten_of(prefix@, path@, opt_view(*query)),
{
    if !starts_with(path, prefix) {
        return None;
    }
    let rest = if path.unicode_len() == prefix.unicode_len() {
        "/".to_owned()
    } else {
        drop_front(path, prefix.unicode_len())
    };
    let suffix = query_suffix_string(query);
    Some(concat(rest.as_str(), suffix.as_str()))
}

/// Runs the filter chain on a request against one snapshot.
pub fn request_filter(cfg: &ProxyConfig, req: &RequestInfo) -> (r: RequestDecision)
    ensures
        r@ == decision_of(cfg@, req@),
{
    match acme_token(req.path.as_str()) {
        Some(token) => {
            if is_unsafe_token(token.as_str()) {
                return RequestDecision::Reply(Reply::Status(403));
            }
            return RequestDecision::ServeChallenge(token);
        },
        None => {},
    }
    let host = effective_host(&req.uri_host, &req.host_header);
    let h = match cfg.get_host_config(host.as_str()) {
        None => {
            return RequestDecision::Forward(
                ProxyCtx { host, host_found: false, matched_location: None },
            );
        },
        Some(h) => h,
    };
    assert(h@ == cfg@.hosts[host@]);
    match h.access_list_id {
        Some(id) => match cfg.get_access_list(id) {
            Some(acl) => match access_verdict(acl, &req.client_ip, &req.authorization) {
                Some(reply) => {
                    return RequestDecision::Reply(reply);
                },
                None => {},
            },
            None => {},
        },
        None => {},
    }
    match &h.redirect_to {
        Some(t) => {
            let location = redirect_location(t.as_str(), req.path.as_str(), &req.query);
            return RequestDecision::Reply(
                Reply::Redirect { status: h.redirect_status, location },
            );
        },
        None => {},
    }
    if h.ssl_forced && !req.is_tls {
        let location = https_url(host.as_str(), req.path.as_str(), &req.query);
        return RequestDecision::Reply(Reply::Redirect { status: 301, location });
    }
    let matched = match_location(h.locations.as_slice(), req.path.as_str());
    RequestDecision::Forward(ProxyCtx { host, host_found: true, matched_location: matched })
}

} // verus!

verus! {

/// What the scan over the first `n` locations has found: a matching
/// location at least as long as every other match, and longer than every
/// earlier one; or no match at all.
proof fn lemma_best_upto(locs: Seq<LocationView>, path: Seq<char>, n: int)
    requires
        0 <= n <= locs.len(),
    ensures
        best_location_upto(locs, path, n) is None <==> forall|j: int|
            0 <= j < n ==> !is_prefix(#[trigger] locs[j].path, path),
        best_location_upto(locs, path, n) matches Some(i) ==> 0 <= i < n && is_prefix(
            locs[i].path,
            path,
        ) && forall|j: int|
            0 <= j < n && is_prefix(#[trigger] locs[j].path, path) ==> locs[j].path.len()
                <= locs[i].path.len() && (j < i ==> locs[j].path.len() < locs[i].path.len()),
    decreases n,
{
    if n > 0 {
        lemma_best_upto(locs, path, n - 1);
    }
}

/// Longest-prefix determinism: when a host's location paths are distinct,
/// the matched location is the unique one whose path is a prefix of the
/// request path and longest among such; no location is matched when no
/// path is a prefix.
pub proof fn lemma_longest_prefix_match(locs: Seq<LocationView>, path: Seq<char>)
    requires
        forall|i: int, j: int| 0 <= i < j < locs.len() ==> locs[i].path != locs[j].path,
    ensures
        best_location(locs, path) is None <==> forall|j: int|
            0 <= j < locs.len() ==> !is_prefix(#[trigger] locs[j].path, path),
        best_location(locs, path) matches Some(i) ==> 0 <= i < locs.len() && is_prefix(
            locs[i].path,
            path,
        ) && forall|j: int|
            0 <= j < locs.len() && j != i && is_prefix(#[trigger] locs[j].path, path)
                ==> locs[j].path.len() < locs[i].path.len(),
{
    lemma_best_upto(locs, path, locs.len() as int);
    if let Some(i) = best_location(locs, path) {
        assert forall|j: int|
            0 <= j < locs.len() && j != i && is_prefix(#[trigger] locs[j].path, path) implies locs[j].path.len()
                < locs[i].path.len() by {
            if locs[j].path.len() == locs[i].path.len() {
                assert(locs[j].path =~= locs[i].path);
                if j < i {
                    assert(locs[j].path != locs[i].path);
                } else {
                    assert(locs[i].path != locs[j].path);
                }
            }
        }
    }
}

} // verus!

verus! {

/// Rewrite identity: under a rewriting location with path `prefix`, a
/// request for `prefix` followed by `rest` goes upstream as `rest` (as `/`
/// when `rest` is empty), with the query carried over unchanged.
pub proof fn lemma_rewrite_identity(prefix: Seq<char>, rest: Seq<char>, query: Option<Seq<char>>)
    ensures
        is_prefix(prefix, prefix + rest),
        rewritten_of(prefix, prefix + rest, query) == (if rest.len() == 0 {
            "/"@
        } else {
            rest
        }) + query_suffix(query),
{
    assert((prefix + rest).subrange(0, prefix.len() as int) =~= prefix);
    assert((prefix + rest).subrange(prefix.len() as int, (prefix + rest).len() as int) =~= rest);
}

/// Directory-traversal rejection: a challenge token holding `..`, `/` or
/// `\` is answered with 403 and never handed out to be read.
pub proof fn lemma_traversal_rejected(cfg: ConfigView, req: RequestView)
    requires
        is_prefix(acme_prefix(), req.path),
        token_is_unsafe(req.path.subrange(acme_prefix().len() as int, req.path.len() as int)),
    ensures
        decision_of(cfg, req) == DecisionView::Reply(ReplyView::Status(403)),
{
}

} // verus!

verus! {

/// No two locations share a path.
pub open spec fn distinct_paths(locs: Seq<LocationView>) -> bool {
    forall|i: int, j: int| 0 <= i < j < locs.len() ==> locs[i].path != locs[j].path
}

/// Every path of `a` is a path of `b`.
pub open spec fn paths_within(a: Seq<LocationView>, b: Seq<LocationView>) -> bool {
    forall|i: int|
        0 <= i < a.len() ==> exists|j: int| 0 <= j < b.len() && #[trigger] b[j].path == #[trigger] a[i].path
}

/// The match does not depend on the order of a host's locations: two lists
/// with the same distinct paths, in any order, match the same path (or
/// none).
pub proof fn lemma_match_ignores_order(l1: Seq<LocationView>, l2: Seq<LocationView>, path: Seq<char>)
    requires
        distinct_paths(l1),
        distinct_paths(l2),
        paths_within(l1, l2),
        paths_within(l2, l1),
    ensures
        best_location(l1, path) is None <==> best_location(l2, path) is None,
        best_location(l1, path) matches Some(i) ==> (best_location(l2, path) matches Some(k)
            && l1[i].path == l2[k].path),
{
    lemma_longest_prefix_match(l1, path);
    lemma_longest_prefix_match(l2, path);
    match best_location(l1, path) {
        Some(i) => {
            let j = choose|j: int| 0 <= j < l2.len() && #[trigger] l2[j].path == l1[i].path;
            assert(is_prefix(l2[j].path, path));
            let k = best_location(l2, path).unwrap();
            let i2 = choose|i2: int| 0 <= i2 < l1.len() && #[trigger] l1[i2].path == l2[k].path;
            assert(is_prefix(l1[i2].path, path));
            assert(l2[k].path.len() <= l1[i].path.len());
            assert(l1[i].path.len() <= l2[k].path.len());
            assert(l1[i].path =~= l2[k].path) by {
                assert(l1[i].path =~= path.subrange(0, l1[i].path.len() as int));
                assert(l2[k].path =~= path.subrange(0, l2[k].path.len() as int));
            }
        },
        None => {
            if let Some(k) = best_location(l2, path) {
                let i2 = choose|i2: int| 0 <= i2 < l1.len() && #[trigger] l1[i2].path == l2[k].path;
                assert(is_prefix(l1[i2].path, path));
            }
        },
    }
}

} // verus!
