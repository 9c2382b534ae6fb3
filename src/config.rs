//! The routing snapshot: hosts, locations, access lists and header rules.
//! A snapshot is immutable once built; readers look everything up in one
//! snapshot for the whole of a request.
use vstd::prelude::*;
use vstd::hash_map::{HashMapWithView, StringHashMap};
use crate::text::views;

verus! {

broadcast use vstd::std_specs::hash::group_hash_axioms;

/// The character view of an optional string.
pub open spec fn opt_view(o: Option<String>) -> Option<Seq<char>> {
    match o {
        Some(s) => Some(s@),
        None => None,
    }
}

/// A copy of an optional string.
pub fn copy_opt(o: &Option<String>) -> (r: Option<String>)
    ensures
        opt_view(r) == opt_view(*o),
{
    match o {
        Some(s) => Some(s.clone()),
        None => None,
    }
}

/// A path-scoped route of a host.
#[derive(Clone, Debug)]
pub struct LocationConfig {
    pub path: String,
    pub targets: Vec<String>,
    pub scheme: String,
    pub rewrite: bool,
    pub verify_ssl: bool,
    pub upstream_sni: Option<String>,
}

pub struct LocationView {
    pub path: Seq<char>,
    pub targets: Seq<Seq<char>>,
    pub scheme: Seq<char>,
    pub rewrite: bool,
    pub verify_ssl: bool,
    pub upstream_sni: Option<Seq<char>>,
}

impl View for LocationConfig {
    type V = LocationView;

    open spec fn view(&self) -> LocationView {
        LocationView {
            path: self.path@,
            targets: views(self.targets@),
            scheme: self.scheme@,
            rewrite: self.rewrite,
            verify_ssl: self.verify_ssl,
            upstream_sni: opt_view(self.upstream_sni),
        }
    }
}

/// A header rule: `target` is `request` or `response`.
#[derive(Clone, Debug)]
pub struct HeaderConfig {
    pub id: i64,
    pub name: String,
    pub value: String,
    pub target: String,
}

pub struct HeaderView {
    pub id: i64,
    pub name: Seq<char>,
    pub value: Seq<char>,
    pub target: Seq<char>,
}

impl View for HeaderConfig {
    type V = HeaderView;

    open spec fn view(&self) -> HeaderView {
        HeaderView { id: self.id, name: self.name@, value: self.value@, target: self.target@ }
    }
}

/// The character views of a list of header rules.
pub open spec fn header_views(v: Seq<HeaderConfig>) -> Seq<HeaderView> {
    v.map_values(|h: HeaderConfig| h@)
}

/// The views of a list of locations.
pub open spec fn location_views(v: Seq<LocationConfig>) -> Seq<LocationView> {
    v.map_values(|l: LocationConfig| l@)
}

/// A virtual host.
#[derive(Clone, Debug)]
pub struct HostConfig {
    pub id: i64,
    pub domain: String,
    pub targets: Vec<String>,
    pub scheme: String,
    pub locations: Vec<LocationConfig>,
    pub ssl_forced: bool,
    pub verify_ssl: bool,
    pub upstream_sni: Option<String>,
    pub redirect_to: Option<String>,
    pub redirect_status: u16,
    pub access_list_id: Option<i64>,
    pub headers: Vec<HeaderConfig>,
}

pub struct HostView {
    pub id: i64,
    pub domain: Seq<char>,
    pub targets: Seq<Seq<char>>,
    pub scheme: Seq<char>,
    pub locations: Seq<LocationView>,
    pub ssl_forced: bool,
    pub verify_ssl: bool,
    pub upstream_sni: Option<Seq<char>>,
    pub redirect_to: Option<Seq<char>>,
    pub redirect_status: u16,
    pub access_list_id: Option<i64>,
    pub headers: Seq<HeaderView>,
}

impl View for HostConfig {
    type V = HostView;

    open spec fn view(&self) -> HostView {
        HostView {
            id: self.id,
            domain: self.domain@,
            targets: views(self.targets@),
            scheme: self.scheme@,
            locations: location_views(self.locations@),
            ssl_forced: self.ssl_forced,
            verify_ssl: self.verify_ssl,
            upstream_sni: opt_view(self.upstream_sni),
            redirect_to: opt_view(self.redirect_to),
            redirect_status: self.redirect_status,
            access_list_id: self.access_list_id,
            headers: header_views(self.headers@),
        }
    }
}

/// A basic-auth client of an access list.
#[derive(Clone, Debug)]
pub struct AccessListClientConfig {
    pub username: String,
    pub password_hash: String,
}

/// An IP rule of an access list: `action` is `allow` or `deny`.
#[derive(Clone, Debug)]
pub struct AccessListIpConfig {
    pub ip: String,
    pub action: String,
}

/// An access list: basic-auth clients and IP rules.
#[derive(Clone, Debug)]
pub struct AccessListConfig {
    pub id: i64,
    pub name: String,
    pub clients: Vec<AccessListClientConfig>,
    pub ips: Vec<AccessListIpConfig>,
}

pub struct AccessListView {
    pub id: i64,
    pub name: Seq<char>,
    pub clients: Seq<(Seq<char>, Seq<char>)>,
    pub ips: Seq<(Seq<char>, Seq<char>)>,
}

/// `(username, password_hash)` of each client.
pub open spec fn client_views(v: Seq<AccessListClientConfig>) -> Seq<(Seq<char>, Seq<char>)> {
    v.map_values(|c: AccessListClientConfig| (c.username@, c.password_hash@))
}

/// `(ip, action)` of each rule.
pub open spec fn ip_views(v: Seq<AccessListIpConfig>) -> Seq<(Seq<char>, Seq<char>)> {
    v.map_values(|r: AccessListIpConfig| (r.ip@, r.action@))
}

impl View for AccessListConfig {
    type V = AccessListView;

    open spec fn view(&self) -> AccessListView {
        AccessListView {
            id: self.id,
            name: self.name@,
            clients: client_views(self.clients@),
            ips: ip_views(self.ips@),
        }
    }
}

/// The routing snapshot: domain to host, access-list id to access list,
/// host id to that host's header rules.
pub struct ProxyConfig {
    pub hosts: StringHashMap<HostConfig>,
    pub access_lists: HashMapWithView<i64, AccessListConfig>,
    pub headers: HashMapWithView<i64, Vec<HeaderConfig>>,
}

pub struct ConfigView {
    pub hosts: Map<Seq<char>, HostView>,
    pub access_lists: Map<i64, AccessListView>,
    pub headers: Map<i64, Seq<HeaderView>>,
}

impl View for ProxyConfig {
    type V = ConfigView;

    open spec fn view(&self) -> ConfigView {
        ConfigView {
            hosts: self.hosts@.map_values(|h: HostConfig| h@),
            access_lists: self.access_lists@.map_values(|a: AccessListConfig| a@),
            headers: self.headers@.map_values(|v: Vec<HeaderConfig>| header_views(v@)),
        }
    }
}

/// The redirect status used when none is configured.
pub fn default_redirect_status() -> (r: u16)
    ensures
        r == 301,
{
    301
}

impl ProxyConfig {
    /// An empty snapshot: no hosts, no access lists, no header rules.
    pub fn new() -> (r: ProxyConfig)
        ensures
            r@.hosts == Map::<Seq<char>, HostView>::empty(),
            r@.access_lists == Map::<i64, AccessListView>::empty(),
            r@.headers == Map::<i64, Seq<HeaderView>>::empty(),
    {
        let r = ProxyConfig {
            hosts: StringHashMap::new(),
            access_lists: HashMapWithView::new(),
            headers: HashMapWithView::new(),
        };
        assert(r@.hosts =~= Map::<Seq<char>, HostView>::empty());
        assert(r@.access_lists =~= Map::<i64, AccessListView>::empty());
        assert(r@.headers =~= Map::<i64, Seq<HeaderView>>::empty());
        r
    }

    /// The host serving `domain`, if any.
    pub fn get_host_config(&self, domain: &str) -> (r: Option<&HostConfig>)
        ensures
            r is Some <==> self@.hosts.contains_key(domain@),
            r matches Some(h) ==> h@ == self@.hosts[domain@],
    {
        self.hosts.get(domain)
    }

    /// The access list with the given id, if any.
    pub fn get_access_list(&self, id: i64) -> (r: Option<&AccessListConfig>)
        ensures
            r is Some <==> self@.access_lists.contains_key(id),
            r matches Some(a) ==> a@ == self@.access_lists[id],
    {
        self.access_lists.get(&id)
    }

    /// The header rules of the host with the given id; none if it has none.
    pub fn get_headers(&self, host_id: i64) -> (r: &[HeaderConfig])
        ensures
            self@.headers.contains_key(host_id) ==> header_views(r@) == self@.headers[host_id],
            !self@.headers.contains_key(host_id) ==> r@.len() == 0,
    {
        match self.headers.get(&host_id) {
            Some(v) => v.as_slice(),
            None => &[],
        }
    }
}

} // verus!
