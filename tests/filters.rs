use proxy_manager::auth::verify_password;
use proxy_manager::config::ProxyConfig;
use proxy_manager::filters::{
    access_verdict, acme_token, check_basic_auth, effective_host, https_url, strip_port, ip_is_refused,
    is_unsafe_token, match_location, redirect_location, request_filter, rewrite_uri, Reply,
    RequestDecision, RequestInfo,
};
use proxy_manager::config::{AccessListClientConfig, AccessListConfig, AccessListIpConfig, LocationConfig};
use proxy_manager::loader::ConfigLoader;
use proxy_manager::rows::{AccessListClientRow, AccessListIpRow, AccessListRow, HostRow, LocationRow};

fn host_row(id: i64, domain: &str) -> HostRow {
    HostRow {
        id,
        domain: domain.to_string(),
        target: "127.0.0.1:9000".to_string(),
        scheme: "http".to_string(),
        ssl_forced: false,
        redirect_to: None,
        redirect_status: 301,
        access_list_id: None,
    }
}

fn request(path: &str, query: Option<&str>, host: &str) -> RequestInfo {
    RequestInfo {
        path: path.to_string(),
        query: query.map(|q| q.to_string()),
        uri_host: None,
        host_header: Some(host.to_string()),
        client_ip: Some("192.0.2.1".to_string()),
        is_tls: false,
        authorization: None,
    }
}

fn config(hosts: Vec<HostRow>, locs: Vec<LocationRow>, acls: Vec<AccessListRow>, clients: Vec<AccessListClientRow>, ips: Vec<AccessListIpRow>) -> ProxyConfig {
    ConfigLoader::assemble(&hosts, &locs, &acls, &clients, &ips, &vec![])
}

fn location(path: &str) -> LocationConfig {
    LocationConfig {
        path: path.to_string(),
        targets: vec!["u:1".to_string()],
        scheme: "http".to_string(),
        rewrite: false,
        verify_ssl: true,
        upstream_sni: None,
    }
}

#[test]
fn redirect_keeps_path_and_query() {
    let mut h = host_row(1, "a.example");
    h.redirect_to = Some("https://b.example/".to_string());
    h.redirect_status = 302;
    let cfg = config(vec![h], vec![], vec![], vec![], vec![]);
    let d = request_filter(&cfg, &request("/x", Some("y=1"), "a.example"));
    match d {
        RequestDecision::Reply(Reply::Redirect { status, location }) => {
            assert_eq!(status, 302);
            assert_eq!(location, "https://b.example/x?y=1");
        }
        _ => panic!("expected a redirect"),
    }
}

#[test]
fn redirect_location_slash_handling() {
    assert_eq!(redirect_location("https://b.example/", "/x", &None), "https://b.example/x");
    assert_eq!(redirect_location("https://b.example", "/x", &None), "https://b.example/x");
    assert_eq!(redirect_location("https://b.example/", "", &Some("q".to_string())), "https://b.example/?q");
}

#[test]
fn ssl_forced_upgrades_plain_requests() {
    let mut h = host_row(1, "c.example");
    h.ssl_forced = true;
    let cfg = config(vec![h], vec![], vec![], vec![], vec![]);
    match request_filter(&cfg, &request("/k", None, "c.example")) {
        RequestDecision::Reply(Reply::Redirect { status, location }) => {
            assert_eq!(status, 301);
            assert_eq!(location, "https://c.example/k");
        }
        _ => panic!("expected an upgrade"),
    }
    let mut tls = request("/k", None, "c.example");
    tls.is_tls = true;
    assert!(matches!(request_filter(&cfg, &tls), RequestDecision::Forward(_)));
}

#[test]
fn https_url_with_query() {
    assert_eq!(https_url("c.example", "/k", &Some("a=b".to_string())), "https://c.example/k?a=b");
}

fn acl_host() -> HostRow {
    let mut h = host_row(1, "acl.example");
    h.access_list_id = Some(7);
    h
}

#[test]
fn ip_allow_rule_admits_only_listed_address() {
    let cfg = config(
        vec![acl_host()],
        vec![],
        vec![AccessListRow { id: 7, name: "office".to_string() }],
        vec![],
        vec![AccessListIpRow { id: 1, list_id: 7, ip_address: "10.0.0.0".to_string(), action: "allow".to_string() }],
    );
    let mut r = request("/", None, "acl.example");
    r.client_ip = Some("10.0.0.1".to_string());
    assert!(matches!(request_filter(&cfg, &r), RequestDecision::Reply(Reply::Status(403))));
    r.client_ip = Some("10.0.0.0".to_string());
    assert!(matches!(request_filter(&cfg, &r), RequestDecision::Forward(_)));
}

#[test]
fn ip_deny_rule_wins() {
    let rules = vec![
        AccessListIpConfig { ip: "10.0.0.5".to_string(), action: "allow".to_string() },
        AccessListIpConfig { ip: "10.0.0.5".to_string(), action: "deny".to_string() },
    ];
    assert!(ip_is_refused(&rules, "10.0.0.5"));
    let deny_only = vec![AccessListIpConfig { ip: "10.0.0.5".to_string(), action: "deny".to_string() }];
    assert!(!ip_is_refused(&deny_only, "10.0.0.6"));
    assert!(ip_is_refused(&deny_only, "10.0.0.5"));
    assert!(!ip_is_refused(&[], "10.0.0.5"));
}

#[test]
fn basic_auth_scenario() {
    let hash = bcrypt::hash("open", 4).unwrap();
    let cfg = config(
        vec![acl_host()],
        vec![],
        vec![AccessListRow { id: 7, name: "team".to_string() }],
        vec![AccessListClientRow { id: 1, list_id: 7, username: "alice".to_string(), password_hash: hash }],
        vec![],
    );
    let mut r = request("/", None, "acl.example");
    assert!(matches!(request_filter(&cfg, &r), RequestDecision::Reply(Reply::AuthRequired)));
    r.authorization = Some("Basic YWxpY2U6b3Blbg==".to_string());
    assert!(matches!(request_filter(&cfg, &r), RequestDecision::Forward(_)));
    r.authorization = Some("Basic YWxpY2U6d3Jvbmc=".to_string());
    assert!(matches!(request_filter(&cfg, &r), RequestDecision::Reply(Reply::AuthRequired)));
}

#[test]
fn basic_auth_rejects_malformed_headers() {
    let hash = bcrypt::hash("open", 4).unwrap();
    let clients = vec![AccessListClientConfig { username: "alice".to_string(), password_hash: hash }];
    assert!(!check_basic_auth(&clients, &Some("Bearer YWxpY2U6b3Blbg==".to_string())));
    assert!(!check_basic_auth(&clients, &Some("Basic !!!".to_string())));
    // "alice" without a colon
    assert!(!check_basic_auth(&clients, &Some("Basic YWxpY2U=".to_string())));
    // invalid UTF-8 (0xff)
    assert!(!check_basic_auth(&clients, &Some("Basic /w==".to_string())));
    // unknown user "bob:open"
    assert!(!check_basic_auth(&clients, &Some("Basic Ym9iOm9wZW4=".to_string())));
    assert!(check_basic_auth(&clients, &Some("Basic YWxpY2U6b3Blbg==".to_string())));
}

#[test]
fn verify_password_checks_hash() {
    let hash = bcrypt::hash("open", 4).unwrap();
    assert!(verify_password("open", &hash));
    assert!(!verify_password("closed", &hash));
    assert!(!verify_password("open", "not a hash"));
}

#[test]
fn access_verdict_order() {
    let acl = AccessListConfig {
        id: 1,
        name: "x".to_string(),
        clients: vec![AccessListClientConfig { username: "u".to_string(), password_hash: "h".to_string() }],
        ips: vec![AccessListIpConfig { ip: "1.1.1.1".to_string(), action: "deny".to_string() }],
    };
    assert!(matches!(access_verdict(&acl, &Some("1.1.1.1".to_string()), &None), Some(Reply::Status(403))));
    assert!(matches!(access_verdict(&acl, &Some("2.2.2.2".to_string()), &None), Some(Reply::AuthRequired)));
}

#[test]
fn acme_traversal_is_refused() {
    for token in ["..", "a..b", "a/b", "a\\b"] {
        let cfg = config(vec![], vec![], vec![], vec![], vec![]);
        let path = format!("/.well-known/acme-challenge/{}", token);
        assert!(matches!(request_filter(&cfg, &request(&path, None, "x")), RequestDecision::Reply(Reply::Status(403))));
        assert!(is_unsafe_token(token));
    }
    assert!(!is_unsafe_token("abc.def"));
}

#[test]
fn acme_challenge_comes_before_acl() {
    let mut h = acl_host();
    h.redirect_to = Some("https://elsewhere/".to_string());
    let cfg = config(
        vec![h],
        vec![],
        vec![AccessListRow { id: 7, name: "x".to_string() }],
        vec![],
        vec![AccessListIpRow { id: 1, list_id: 7, ip_address: "10.0.0.0".to_string(), action: "allow".to_string() }],
    );
    match request_filter(&cfg, &request("/.well-known/acme-challenge/tok-123", None, "acl.example")) {
        RequestDecision::ServeChallenge(t) => assert_eq!(t, "tok-123"),
        _ => panic!("expected the challenge"),
    }
    assert_eq!(acme_token("/.well-known/acme-challenge/abc"), Some("abc".to_string()));
    assert_eq!(acme_token("/other"), None);
}

#[test]
fn acl_precedes_redirect() {
    let mut h = acl_host();
    h.redirect_to = Some("https://elsewhere/".to_string());
    let cfg = config(
        vec![h],
        vec![],
        vec![AccessListRow { id: 7, name: "x".to_string() }],
        vec![],
        vec![AccessListIpRow { id: 1, list_id: 7, ip_address: "10.0.0.0".to_string(), action: "allow".to_string() }],
    );
    assert!(matches!(request_filter(&cfg, &request("/", None, "acl.example")), RequestDecision::Reply(Reply::Status(403))));
}

#[test]
fn unknown_host_is_forwarded_as_not_found() {
    let cfg = config(vec![host_row(1, "known.example")], vec![], vec![], vec![], vec![]);
    match request_filter(&cfg, &request("/", None, "other.example:8080")) {
        RequestDecision::Forward(ctx) => {
            assert_eq!(ctx.host, "other.example");
            assert!(!ctx.host_found);
        }
        _ => panic!("expected forward"),
    }
}

#[test]
fn host_resolution_prefers_uri_authority() {
    assert_eq!(effective_host(&Some("a.example".to_string()), &Some("b.example:80".to_string())), "a.example");
    assert_eq!(effective_host(&None, &Some("b.example:80".to_string())), "b.example");
    assert_eq!(effective_host(&None, &Some("b.example".to_string())), "b.example");
    assert_eq!(effective_host(&None, &None), "");
}

#[test]
fn longest_prefix_wins() {
    let locs = vec![location("/"), location("/api"), location("/api/v1"), location("/apx")];
    assert_eq!(match_location(&locs, "/api/v1/users"), Some(2));
    assert_eq!(match_location(&locs, "/api/v2"), Some(1));
    assert_eq!(match_location(&locs, "/static"), Some(0));
    let no_root = vec![location("/api")];
    assert_eq!(match_location(&no_root, "/static"), None);
    assert_eq!(match_location(&[], "/"), None);
}

#[test]
fn filter_chain_records_matched_location() {
    let cfg = config(
        vec![host_row(3, "loc.example")],
        vec![
            LocationRow { id: 1, host_id: 3, path: "/a".to_string(), target: "u1:80".to_string(), scheme: "http".to_string(), rewrite: true },
            LocationRow { id: 2, host_id: 3, path: "/a/b".to_string(), target: "u2:80".to_string(), scheme: "http".to_string(), rewrite: false },
        ],
        vec![],
        vec![],
        vec![],
    );
    match request_filter(&cfg, &request("/a/b/c", None, "loc.example")) {
        RequestDecision::Forward(ctx) => assert_eq!(ctx.matched_location, Some(1)),
        _ => panic!("expected forward"),
    }
    match request_filter(&cfg, &request("/zzz", None, "loc.example")) {
        RequestDecision::Forward(ctx) => assert_eq!(ctx.matched_location, None),
        _ => panic!("expected forward"),
    }
}

#[test]
fn rewrite_strips_prefix_and_keeps_query() {
    assert_eq!(rewrite_uri("/a", "/a/b", &Some("q=1".to_string())), Some("/b?q=1".to_string()));
    assert_eq!(rewrite_uri("/a", "/a", &None), Some("/".to_string()));
    assert_eq!(rewrite_uri("/a", "/a", &Some("x=%20&y".to_string())), Some("/?x=%20&y".to_string()));
    assert_eq!(rewrite_uri("/a", "/b", &None), None);
}

#[test]
fn redirect_precedes_ssl_upgrade() {
    let mut h = host_row(1, "r.example");
    h.redirect_to = Some("https://s.example".to_string());
    h.redirect_status = 308;
    h.ssl_forced = true;
    let cfg = config(vec![h], vec![], vec![], vec![], vec![]);
    match request_filter(&cfg, &request("/p", None, "r.example")) {
        RequestDecision::Reply(Reply::Redirect { status, location }) => {
            assert_eq!(status, 308);
            assert_eq!(location, "https://s.example/p");
        }
        _ => panic!("expected the host redirect"),
    }
}

#[test]
fn ssl_upgrade_precedes_location_match() {
    let mut h = host_row(1, "u.example");
    h.ssl_forced = true;
    let cfg = config(
        vec![h],
        vec![LocationRow { id: 1, host_id: 1, path: "/".to_string(), target: "x:1".to_string(), scheme: "http".to_string(), rewrite: false }],
        vec![],
        vec![],
        vec![],
    );
    assert!(matches!(request_filter(&cfg, &request("/a", Some("b=c"), "u.example")), RequestDecision::Reply(Reply::Redirect { status: 301, .. })));
}

#[test]
fn host_header_port_is_stripped() {
    assert_eq!(strip_port("[::1]:8080"), "[::1]");
    assert_eq!(strip_port("[::1]"), "[::1]");
    assert_eq!(strip_port("a.example:443"), "a.example");
    assert_eq!(strip_port("a.example"), "a.example");
    assert_eq!(effective_host(&None, &Some("[2001:db8::1]:80".to_string())), "[2001:db8::1]");
}

#[test]
fn location_order_does_not_change_the_match() {
    let a = vec![location("/"), location("/api"), location("/api/v1")];
    let b = vec![location("/api/v1"), location("/"), location("/api")];
    for path in ["/api/v1/x", "/api/x", "/x"] {
        let pa = match_location(&a, path).map(|i| a[i].path.clone());
        let pb = match_location(&b, path).map(|i| b[i].path.clone());
        assert_eq!(pa, pb);
    }
}
