//! Rows of the persisted tables, as the store hands them to the data plane.
use vstd::prelude::*;

verus! {

/// A virtual host. `target` holds the upstream targets as a comma-separated
/// list.
#[derive(Clone, Debug)]
pub struct HostRow {
    pub id: i64,
    pub domain: String,
    pub target: String,
    pub scheme: String,
    pub ssl_forced: bool,
    pub redirect_to: Option<String>,
    pub redirect_status: i64,
    pub access_list_id: Option<i64>,
}

/// A per-path location of a host. `target` is a comma-separated list.
#[derive(Clone, Debug)]
pub struct LocationRow {
    pub id: i64,
    pub host_id: i64,
    pub path: String,
    pub target: String,
    pub scheme: String,
    pub rewrite: bool,
}

/// An L4 port forward.
#[derive(Clone, Debug)]
pub struct StreamRow {
    pub id: i64,
    pub listen_port: i64,
    pub forward_host: String,
    pub forward_port: i64,
    pub protocol: String,
}

/// An access list.
#[derive(Clone, Debug)]
pub struct AccessListRow {
    pub id: i64,
    pub name: String,
}

/// A basic-auth client of an access list.
#[derive(Clone, Debug)]
pub struct AccessListClientRow {
    pub id: i64,
    pub list_id: i64,
    pub username: String,
    pub password_hash: String,
}

/// An IP rule of an access list; `action` is `allow` or `deny`.
#[derive(Clone, Debug)]
pub struct AccessListIpRow {
    pub id: i64,
    pub list_id: i64,
    pub ip_address: String,
    pub action: String,
}

/// A header rule of a host; `target` is `request` or `response`.
#[derive(Clone, Debug)]
pub struct HeaderRow {
    pub id: i64,
    pub host_id: i64,
    pub name: String,
    pub value: String,
    pub target: String,
}

/// A stored certificate and its expiry, in unix seconds.
#[derive(Clone, Debug)]
pub struct CertRow {
    pub id: i64,
    pub domain: String,
    pub expires_at: i64,
    pub provider_id: Option<i64>,
}

/// A DNS provider used for DNS-01 issuance; `credentials` is handed to
/// the ACME client verbatim.
#[derive(Clone, Debug)]
pub struct DnsProviderRow {
    pub id: i64,
    pub name: String,
    pub provider_type: String,
    pub credentials: String,
    pub created_at: i64,
}

/// Traffic counters flushed from the in-memory metrics.
#[derive(Clone, Debug)]
pub struct TrafficStatRow {
    pub id: i64,
    pub timestamp: i64,
    pub total_requests: i64,
    pub total_bytes: i64,
    pub status_2xx: i64,
    pub status_4xx: i64,
    pub status_5xx: i64,
}

} // verus!

verus! {

/// A control-plane user.
#[derive(Clone, Debug)]
pub struct UserRow {
    pub id: i64,
    pub username: String,
    pub password_hash: String,
    pub role: String,
    pub created_at: i64,
    pub last_login: Option<i64>,
}

/// A recorded control-plane action.
#[derive(Clone, Debug)]
pub struct AuditLogRow {
    pub id: i64,
    pub timestamp: i64,
    pub user_id: Option<i64>,
    pub username: String,
    pub action: String,
    pub resource_type: String,
    pub resource_id: Option<String>,
    pub details: Option<String>,
    pub ip_address: Option<String>,
}

} // verus!
