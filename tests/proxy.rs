use proxy_manager::config::{HeaderConfig, ProxyConfig};
use proxy_manager::filters::ProxyCtx;
use proxy_manager::loader::ConfigLoader;
use proxy_manager::proxy::{
    apply_header_rules, header_rules_for, upstream_peer, upstream_peer_for, upstream_uri, UpstreamError, CONNECTION_MS,
    READ_SECS, WRITE_SECS,
};
use proxy_manager::rows::{HeaderRow, HostRow, LocationRow};

fn cfg(target: &str, scheme: &str, locs: Vec<LocationRow>, headers: Vec<HeaderRow>) -> ProxyConfig {
    let host = HostRow {
        id: 1,
        domain: "h.example".to_string(),
        target: target.to_string(),
        scheme: scheme.to_string(),
        ssl_forced: false,
        redirect_to: None,
        redirect_status: 301,
        access_list_id: None,
    };
    ConfigLoader::assemble(&vec![host], &locs, &vec![], &vec![], &vec![], &headers)
}

fn ctx(found: bool, matched: Option<usize>) -> ProxyCtx {
    ProxyCtx { host: "h.example".to_string(), host_found: found, matched_location: matched }
}

#[test]
fn random_selection_is_balanced() {
    let c = cfg("u1:80, u2:80", "http", vec![], vec![]);
    let mut first = 0;
    for _ in 0..1000 {
        let p = upstream_peer(&c, &ctx(true, None)).unwrap();
        assert!(p.address == "u1:80" || p.address == "u2:80");
        if p.address == "u1:80" {
            first += 1;
        }
    }
    assert!(first >= 450 && first <= 550, "u1 chosen {} times", first);
}

#[test]
fn chosen_target_by_index() {
    let c = cfg("u1:80,u2:80", "https", vec![], vec![]);
    let p = upstream_peer_for(&c, &ctx(true, None), 1).unwrap();
    assert_eq!(p.address, "u2:80");
    assert!(p.tls);
    assert_eq!(p.sni, "h.example");
    assert!(p.verify);
    assert_eq!(p.connection_timeout_ms, CONNECTION_MS);
    assert_eq!(p.read_timeout_secs, READ_SECS);
    assert_eq!(p.write_timeout_secs, WRITE_SECS);
    assert_eq!((CONNECTION_MS, READ_SECS, WRITE_SECS), (500, 10, 5));
    assert_eq!(upstream_peer_for(&c, &ctx(true, None), 2).unwrap().address, "u1:80");
}

#[test]
fn location_route_overrides_host() {
    let loc = LocationRow { id: 1, host_id: 1, path: "/api".to_string(), target: "api:8080".to_string(), scheme: "http".to_string(), rewrite: true };
    let c = cfg("u1:80", "https", vec![loc], vec![]);
    let p = upstream_peer_for(&c, &ctx(true, Some(0)), 0).unwrap();
    assert_eq!(p.address, "api:8080");
    assert!(!p.tls);
    assert_eq!(upstream_uri(&c, &ctx(true, Some(0)), "/api/users", &Some("q=1".to_string())), Some("/users?q=1".to_string()));
    assert_eq!(upstream_uri(&c, &ctx(true, Some(0)), "/api", &None), Some("/".to_string()));
    assert_eq!(upstream_uri(&c, &ctx(true, None), "/api", &None), None);
}

#[test]
fn upstream_errors() {
    let empty = cfg("", "http", vec![], vec![]);
    assert_eq!(upstream_peer(&empty, &ctx(true, None)).err(), Some(UpstreamError::NoUpstreamTargets));
    assert_eq!(UpstreamError::NoUpstreamTargets.status(), 500);
    let c = cfg("u1:80", "http", vec![], vec![]);
    assert_eq!(upstream_peer(&c, &ctx(false, None)).err(), Some(UpstreamError::HostNotFound));
    assert_eq!(UpstreamError::HostNotFound.status(), 404);
}

#[test]
fn header_rules_split_by_target() {
    let headers = vec![
        HeaderRow { id: 1, host_id: 1, name: "X-A".to_string(), value: "1".to_string(), target: "request".to_string() },
        HeaderRow { id: 2, host_id: 1, name: "X-B".to_string(), value: "2".to_string(), target: "response".to_string() },
        HeaderRow { id: 3, host_id: 1, name: "X-C".to_string(), value: "3".to_string(), target: "request".to_string() },
        HeaderRow { id: 4, host_id: 2, name: "X-D".to_string(), value: "4".to_string(), target: "request".to_string() },
    ];
    let c = cfg("u1:80", "http", vec![], headers);
    let req: Vec<String> = header_rules_for(&c, &ctx(true, None), "request").into_iter().map(|h| h.name).collect();
    assert_eq!(req, vec!["X-A".to_string(), "X-C".to_string()]);
    let resp: Vec<String> = header_rules_for(&c, &ctx(true, None), "response").into_iter().map(|h| h.value).collect();
    assert_eq!(resp, vec!["2".to_string()]);
    assert!(header_rules_for(&c, &ctx(false, None), "request").is_empty());
}

#[test]
fn header_rules_overwrite_case_insensitively() {
    let mut headers = vec![
        ("x-a".to_string(), "old".to_string()),
        ("Accept".to_string(), "*/*".to_string()),
        ("X-A".to_string(), "older".to_string()),
    ];
    let rules = vec![
        HeaderConfig { id: 1, name: "X-A".to_string(), value: "new".to_string(), target: "request".to_string() },
        HeaderConfig { id: 2, name: "X-B".to_string(), value: "b".to_string(), target: "request".to_string() },
        HeaderConfig { id: 3, name: "x-b".to_string(), value: "b2".to_string(), target: "request".to_string() },
    ];
    apply_header_rules(&mut headers, &rules);
    assert_eq!(
        headers,
        vec![
            ("Accept".to_string(), "*/*".to_string()),
            ("X-A".to_string(), "new".to_string()),
            ("x-b".to_string(), "b2".to_string()),
        ]
    );
}
