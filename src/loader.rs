//! Assembly of a routing snapshot from the persisted tables. The snapshot
//! is built in full before anyone can see it.
use vstd::prelude::*;
use vstd::hash_map::{HashMapWithView, StringHashMap};
use crate::config::{
    client_views, copy_opt, header_views, ip_views, location_views, opt_view, AccessListClientConfig,
    AccessListConfig, AccessListIpConfig, AccessListView, ConfigView, HeaderConfig, HeaderView,
    HostConfig, HostView, LocationConfig, LocationView, ProxyConfig,
};
use crate::rows::{AccessListClientRow, AccessListIpRow, AccessListRow, HeaderRow, HostRow, LocationRow};
use crate::text::{list_items, split_list};

verus! {

broadcast use vstd::std_specs::hash::group_hash_axioms;

/// Builds routing snapshots from table rows.
pub struct ConfigLoader;

/// A stored redirect status: one of 301, 302, 307, 308, else 301.
pub open spec fn status_of_row(s: i64) -> u16 {
    if s == 301 || s == 302 || s == 307 || s == 308 {
        s as u16
    } else {
        301
    }
}

/// The location a row describes; upstream certificates are verified and
/// the SNI follows the request host.
pub open spec fn location_of_row(r: LocationRow) -> LocationView {
    LocationView {
        path: r.path@,
        targets: list_items(r.target@),
        scheme: r.scheme@,
        rewrite: r.rewrite,
        verify_ssl: true,
        upstream_sni: None,
    }
}

/// The header rule a row describes.
pub open spec fn header_of_row(r: HeaderRow) -> HeaderView {
    HeaderView { id: r.id, name: r.name@, value: r.value@, target: r.target@ }
}

/// The locations of host `id`, in row order.
pub open spec fn locations_of(rows: Seq<LocationRow>, id: i64) -> Seq<LocationView>
    decreases rows.len(),
{
    if rows.len() == 0 {
        Seq::<LocationView>::empty()
    } else {
        let init = locations_of(rows.drop_last(), id);
        if rows.last().host_id == id {
            init.push(location_of_row(rows.last()))
        } else {
            init
        }
    }
}

/// The header rules of host `id`, in row order.
pub open spec fn headers_of(rows: Seq<HeaderRow>, id: i64) -> Seq<HeaderView>
    decreases rows.len(),
{
    if rows.len() == 0 {
        Seq::<HeaderView>::empty()
    } else {
        let init = headers_of(rows.drop_last(), id);
        if rows.last().host_id == id {
            init.push(header_of_row(rows.last()))
        } else {
            init
        }
    }
}

/// The clients of access list `id`, in row order.
pub open spec fn clients_of(rows: Seq<AccessListClientRow>, id: i64) -> Seq<(Seq<char>, Seq<char>)>
    decreases rows.len(),
{
    if rows.len() == 0 {
        Seq::<(Seq<char>, Seq<char>)>::empty()
    } else {
        let init = clients_of(rows.drop_last(), id);
        if rows.last().list_id == id {
            init.push((rows.last().username@, rows.last().password_hash@))
        } else {
            init
        }
    }
}

/// The IP rules of access list `id`, in row order.
pub open spec fn ips_of(rows: Seq<AccessListIpRow>, id: i64) -> Seq<(Seq<char>, Seq<char>)>
    decreases rows.len(),
{
    if rows.len() == 0 {
        Seq::<(Seq<char>, Seq<char>)>::empty()
    } else {
        let init = ips_of(rows.drop_last(), id);
        if rows.last().list_id == id {
            init.push((rows.last().ip_address@, rows.last().action@))
        } else {
            init
        }
    }
}

/// The host a row describes, with its locations and header rules.
pub open spec fn host_of_row(r: HostRow, locs: Seq<LocationRow>, headers: Seq<HeaderRow>) -> HostView {
    HostView {
        id: r.id,
        domain: r.domain@,
        targets: list_items(r.target@),
        scheme: r.scheme@,
        locations: locations_of(locs, r.id),
        ssl_forced: r.ssl_forced,
        verify_ssl: true,
        upstream_sni: None,
        redirect_to: opt_view(r.redirect_to),
        redirect_status: status_of_row(r.redirect_status),
        access_list_id: r.access_list_id,
        headers: headers_of(headers, r.id),
    }
}

/// Domain to host; a later row for the same domain replaces an earlier one.
pub open spec fn hosts_map(rows: Seq<HostRow>, locs: Seq<LocationRow>, headers: Seq<HeaderRow>) -> Map<
    Seq<char>,
    HostView,
>
    decreases rows.len(),
{
    if rows.len() == 0 {
        Map::<Seq<char>, HostView>::empty()
    } else {
        hosts_map(rows.drop_last(), locs, headers).insert(
            rows.last().domain@,
            host_of_row(rows.last(), locs, headers),
        )
    }
}

/// Access-list id to access list; a later row for the same id replaces an
/// earlier one.
pub open spec fn acl_map(
    rows: Seq<AccessListRow>,
    clients: Seq<AccessListClientRow>,
    ips: Seq<AccessListIpRow>,
) -> Map<i64, AccessListView>
    decreases rows.len(),
{
    if rows.len() == 0 {
        Map::<i64, AccessListView>::empty()
    } else {
        let r = rows.last();
        acl_map(rows.drop_last(), clients, ips).insert(
            r.id,
            AccessListView {
                id: r.id,
                name: r.name@,
                clients: clients_of(clients, r.id),
                ips: ips_of(ips, r.id),
            },
        )
    }
}

/// Host id to its header rules, for every host id that has any.
pub open spec fn headers_map(rows: Seq<HeaderRow>) -> Map<i64, Seq<HeaderView>> {
    Map::new(
        |id: i64| exists|k: int| 0 <= k < rows.len() && rows[k].host_id == id,
        |id: i64| headers_of(rows, id),
    )
}

fn location_from_row(r: &LocationRow) -> (l: LocationConfig)
    ensures
        l@ == location_of_row(*r),
{
    LocationConfig {
        path: r.path.clone(),
        targets: split_list(r.target.as_str()),
        scheme: r.scheme.clone(),
        rewrite: r.rewrite,
        verify_ssl: true,
        upstream_sni: None,
    }
}

fn header_from_row(r: &HeaderRow) -> (h: HeaderConfig)
    ensures
        h@ == header_of_row(*r),
{
    HeaderConfig { id: r.id, name: r.name.clone(), value: r.value.clone(), target: r.target.clone() }
}

fn locations_for(rows: &Vec<LocationRow>, id: i64) -> (r: Vec<LocationConfig>)
    ensures
        location_views(r@) == locations_of(rows@, id),
{
    let mut out: Vec<LocationConfig> = Vec::new();
    let mut k: usize = 0;
    assert(rows@.subrange(0, 0) =~= Seq::<LocationRow>::empty());
    assert(location_views(out@) =~= Seq::<LocationView>::empty());
    while k < rows.len()
        invariant
            k <= rows@.len(),
            location_views(out@) == locations_of(rows@.subrange(0, k as int), id),
        decreases rows@.len() - k,
    {
        assert(rows@.subrange(0, k + 1).drop_last() =~= rows@.subrange(0, k as int));
        if rows[k].host_id == id {
            let l = location_from_row(&rows[k]);
            let ghost before = out@;
            out.push(l);
            assert(location_views(out@) =~= location_views(before).push(l@));
        }
        k = k + 1;
    }
    assert(rows@.subrange(0, rows@.len() as int) =~= rows@);
    out
}

fn headers_for(rows: &Vec<HeaderRow>, id: i64) -> (r: Vec<HeaderConfig>)
    ensures
        header_views(r@) == headers_of(rows@, id),
{
    let mut out: Vec<HeaderConfig> = Vec::new();
    let mut k: usize = 0;
    assert(rows@.subrange(0, 0) =~= Seq::<HeaderRow>::empty());
    assert(header_views(out@) =~= Seq::<HeaderView>::empty());
    while k < rows.len()
        invariant
            k <= rows@.len(),
            header_views(out@) == headers_of(rows@.subrange(0, k as int), id),
        decreases rows@.len() - k,
    {
        assert(rows@.subrange(0, k + 1).drop_last() =~= rows@.subrange(0, k as int));
        if rows[k].host_id == id {
            let h = header_from_row(&rows[k]);
            let ghost before = out@;
            out.push(h);
            assert(header_views(out@) =~= header_views(before).push(h@));
        }
        k = k + 1;
    }
    assert(rows@.subrange(0, rows@.len() as int) =~= rows@);
    out
}

fn clients_for(rows: &Vec<AccessListClientRow>, id: i64) -> (r: Vec<AccessListClientConfig>)
    ensures
        client_views(r@) == clients_of(rows@, id),
{
    let mut out: Vec<AccessListClientConfig> = Vec::new();
    let mut k: usize = 0;
    assert(rows@.subrange(0, 0) =~= Seq::<AccessListClientRow>::empty());
    assert(client_views(out@) =~= Seq::<(Seq<char>, Seq<char>)>::empty());
    while k < rows.len()
        invariant
            k <= rows@.len(),
            client_views(out@) == clients_of(rows@.subrange(0, k as int), id),
        decreases rows@.len() - k,
    {
        assert(rows@.subrange(0, k + 1).drop_last() =~= rows@.subrange(0, k as int));
        if rows[k].list_id == id {
            let c = AccessListClientConfig {
                username: rows[k].username.clone(),
                password_hash: rows[k].password_hash.clone(),
            };
            let ghost before = out@;
            out.push(c);
            assert(client_views(out@) =~= client_views(before).push((c.username@, c.password_hash@)));
        }
        k = k + 1;
    }
    assert(rows@.subrange(0, rows@.len() as int) =~= rows@);
    out
}

fn ips_for(rows: &Vec<AccessListIpRow>, id: i64) -> (r: Vec<AccessListIpConfig>)
    ensures
        ip_views(r@) == ips_of(rows@, id),
{
    let mut out: Vec<AccessListIpConfig> = Vec::new();
    let mut k: usize = 0;
    assert(rows@.subrange(0, 0) =~= Seq::<AccessListIpRow>::empty());
    assert(ip_views(out@) =~= Seq::<(Seq<char>, Seq<char>)>::empty());
    while k < rows.len()
        invariant
            k <= rows@.len(),
            ip_views(out@) == ips_of(rows@.subrange(0, k as int), id),
        decreases rows@.len() - k,
    {
        assert(rows@.subrange(0, k + 1).drop_last() =~= rows@.subrange(0, k as int));
        if rows[k].list_id == id {
            let c = AccessListIpConfig { ip: rows[k].ip_address.clone(), action: rows[k].action.clone() };
            let ghost before = out@;
            out.push(c);
            assert(ip_views(out@) =~= ip_views(before).push((c.ip@, c.action@)));
        }
        k = k + 1;
    }
    assert(rows@.subrange(0, rows@.len() as int) =~= rows@);
    out
}

fn redirect_status_from_row(s: i64) -> (r: u16)
    ensures
        r == status_of_row(s),
{
    if s == 301 || s == 302 || s == 307 || s == 308 {
        s as u16
    } else {
        crate::config::default_redirect_status()
    }
}

impl ConfigLoader {
    /// The snapshot the rows describe: every host with its locations and
    /// header rules, every access list with its clients and IP rules, and
    /// the header rules grouped by host id.
    pub fn assemble(
        hosts: &Vec<HostRow>,
        locations: &Vec<LocationRow>,
        access_lists: &Vec<AccessListRow>,
        clients: &Vec<AccessListClientRow>,
        ips: &Vec<AccessListIpRow>,
        headers: &Vec<HeaderRow>,
    ) -> (r: ProxyConfig)
        ensures
            r@.hosts == hosts_map(hosts@, locations@, headers@),
            r@.access_lists == acl_map(access_lists@, clients@, ips@),
            r@.headers == headers_map(headers@),
    {
        let mut host_map: StringHashMap<HostConfig> = StringHashMap::new();
        let mut k: usize = 0;
        assert(hosts@.subrange(0, 0) =~= Seq::<HostRow>::empty());
        assert(host_map@.map_values(|h: HostConfig| h@) =~= Map::<Seq<char>, HostView>::empty());
        while k < hosts.len()
            invariant
                k <= hosts@.len(),
                host_map@.map_values(|h: HostConfig| h@) == hosts_map(
                    hosts@.subrange(0, k as int),
                    locations@,
                    headers@,
                ),
            decreases hosts@.len() - k,
        {
            assert(hosts@.subrange(0, k + 1).drop_last() =~= hosts@.subrange(0, k as int));
            let row = &hosts[k];
            let host = HostConfig {
                id: row.id,
                domain: row.domain.clone(),
                targets: split_list(row.target.as_str()),
                scheme: row.scheme.clone(),
                locations: locations_for(locations, row.id),
                ssl_forced: row.ssl_forced,
                verify_ssl: true,
                upstream_sni: None,
                redirect_to: copy_opt(&row.redirect_to),
                redirect_status: redirect_status_from_row(row.redirect_status),
                access_list_id: row.access_list_id,
                headers: headers_for(headers, row.id),
            };
            assert(host@ == host_of_row(*row, locations@, headers@));
            let ghost before = host_map@;
            host_map.insert(row.domain.clone(), host);
            assert(host_map@.map_values(|h: HostConfig| h@) =~= before.map_values(
                |h: HostConfig| h@,
            ).insert(row.domain@, host@));
            k = k + 1;
        }
        assert(hosts@.subrange(0, hosts@.len() as int) =~= hosts@);

        let mut list_map: HashMapWithView<i64, AccessListConfig> = HashMapWithView::new();
        let mut k: usize = 0;
        assert(access_lists@.subrange(0, 0) =~= Seq::<AccessListRow>::empty());
        assert(list_map@.map_values(|a: AccessListConfig| a@) =~= Map::<
            i64,
            AccessListView,
        >::empty());
        while k < access_lists.len()
            invariant
                k <= access_lists@.len(),
                list_map@.map_values(|a: AccessListConfig| a@) == acl_map(
                    access_lists@.subrange(0, k as int),
                    clients@,
                    ips@,
                ),
            decreases access_lists@.len() - k,
        {
            assert(access_lists@.subrange(0, k + 1).drop_last() =~= access_lists@.subrange(
                0,
                k as int,
            ));
            let row = &access_lists[k];
            let acl = AccessListConfig {
                id: row.id,
                name: row.name.clone(),
                clients: clients_for(clients, row.id),
                ips: ips_for(ips, row.id),
            };
            let ghost before = list_map@;
            list_map.insert(row.id, acl);
            assert(list_map@.map_values(|a: AccessListConfig| a@) =~= before.map_values(
                |a: AccessListConfig| a@,
            ).insert(row.id, acl@));
            k = k + 1;
        }
        assert(access_lists@.subrange(0, access_lists@.len() as int) =~= access_lists@);

        let mut header_map: HashMapWithView<i64, Vec<HeaderConfig>> = HashMapWithView::new();
        let mut k: usize = 0;
        assert(header_map@.map_values(|v: Vec<HeaderConfig>| header_views(v@)) =~= headers_map(
            headers@.subrange(0, 0),
        ));
        while k < headers.len()
            invariant
                k <= headers@.len(),
                header_map@.map_values(|v: Vec<HeaderConfig>| header_views(v@)) == headers_map(
                    headers@.subrange(0, k as int),
                ),
            decreases headers@.len() - k,
        {
            let ghost pre = headers@.subrange(0, k as int);
            let ghost nxt = headers@.subrange(0, k + 1);
            assert(nxt.drop_last() =~= pre);
            let row = &headers[k];
            let ghost before = header_map@;
            let mut list = match header_map.remove(&row.host_id) {
                Some(v) => v,
                None => Vec::new(),
            };
            let ghost old_list = list@;
            assert(header_views(old_list) == headers_of(pre, row.host_id)) by {
                if !before.contains_key(row.host_id) {
                    assert(header_views(old_list) =~= Seq::<HeaderView>::empty());
                    assert forall|j: int| 0 <= j < pre.len() implies pre[j].host_id != row.host_id by {
                        if pre[j].host_id == row.host_id {
                            assert(headers_map(pre).contains_key(row.host_id));
                        }
                    }
                    lemma_no_rows_no_headers(pre, row.host_id);
                } else {
                    assert(before.map_values(|v: Vec<HeaderConfig>| header_views(v@)).contains_key(
                        row.host_id,
                    ));
                    assert(before.map_values(|v: Vec<HeaderConfig>| header_views(v@))[row.host_id]
                        == header_views(before[row.host_id]@));
                    assert(headers_map(pre).contains_key(row.host_id));
                    assert(headers_map(pre)[row.host_id] == headers_of(pre, row.host_id));
                }
            }
            list.push(header_from_row(row));
            assert(header_views(list@) =~= header_views(old_list).push(header_of_row(*row)));
            header_map.insert(row.host_id, list);
            assert forall|id: i64|
                #![auto]
                header_map@.map_values(|v: Vec<HeaderConfig>| header_views(v@)).contains_key(id)
                    == headers_map(nxt).contains_key(id) by {
                if id != row.host_id && headers_map(nxt).contains_key(id) {
                    let j = choose|j: int| 0 <= j < nxt.len() && nxt[j].host_id == id;
                    assert(j < pre.len());
                    assert(pre[j].host_id == id);
                    assert(headers_map(pre).contains_key(id));
                }
                if id != row.host_id && headers_map(pre).contains_key(id) {
                    let j = choose|j: int| 0 <= j < pre.len() && pre[j].host_id == id;
                    assert(nxt[j].host_id == id);
                }
                if id == row.host_id {
                    assert(nxt[k as int].host_id == id);
                }
            }
            assert forall|id: i64|
                #![auto]
                header_map@.map_values(|v: Vec<HeaderConfig>| header_views(v@)).contains_key(id)
                    implies header_map@.map_values(|v: Vec<HeaderConfig>| header_views(v@))[id]
                    == headers_map(nxt)[id] by {
                assert(nxt.last() == *row);
                if id == row.host_id {
                    assert(nxt[k as int].host_id == id);
                } else {
                    assert(before.contains_key(id));
                    assert(before.map_values(|v: Vec<HeaderConfig>| header_views(v@)).contains_key(id));
                    assert(headers_map(pre).contains_key(id));
                    let j = choose|j: int| 0 <= j < pre.len() && pre[j].host_id == id;
                    assert(nxt[j].host_id == id);
                }
                assert(headers_map(nxt).contains_key(id));
                assert(headers_map(nxt)[id] == headers_of(nxt, id));
                if id != row.host_id {
                    assert(before.contains_key(id));
                    assert(before.map_values(|v: Vec<HeaderConfig>| header_views(v@)).contains_key(id));
                    assert(headers_map(pre)[id] == headers_of(pre, id));
                }
            }
            assert(header_map@.map_values(|v: Vec<HeaderConfig>| header_views(v@)) =~= headers_map(
                nxt,
            ));
            k = k + 1;
        }
        assert(headers@.subrange(0, headers@.len() as int) =~= headers@);
        let r = ProxyConfig { hosts: host_map, access_lists: list_map, headers: header_map };
        r
    }
}

/// Rows that never name host `id` give it no header rules.
proof fn lemma_no_rows_no_headers(rows: Seq<HeaderRow>, id: i64)
    requires
        forall|j: int| 0 <= j < rows.len() ==> rows[j].host_id != id,
    ensures
        headers_of(rows, id) == Seq::<HeaderView>::empty(),
    decreases rows.len(),
{
    if rows.len() > 0 {
        lemma_no_rows_no_headers(rows.drop_last(), id);
    }
}

} // verus!
