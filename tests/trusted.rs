use proxy_manager::trusted::{
    connection_is_tls, effective_client_ip, forwarded_candidates, forwarded_proto_is_https,
    IpBlockConnectionFilter, TrustedProxies,
};

#[test]
fn loopback_is_always_trusted() {
    let t = TrustedProxies::new(vec!["10.1.1.1".to_string()]);
    assert!(t.is_trusted_proxy_hop(&Some("127.0.0.1".to_string())));
    assert!(t.is_trusted_proxy_hop(&Some("::1".to_string())));
    assert!(t.is_trusted_proxy_hop(&Some("10.1.1.1".to_string())));
    assert!(!t.is_trusted_proxy_hop(&Some("10.1.1.2".to_string())));
    assert!(!t.is_trusted_proxy_hop(&None));
}

#[test]
fn forwarded_for_read_only_from_trusted_peer() {
    let header = Some("203.0.113.9, 10.0.0.1".to_string());
    assert!(forwarded_candidates(false, &header).is_empty());
    assert_eq!(forwarded_candidates(true, &header), vec!["203.0.113.9".to_string(), "10.0.0.1".to_string()]);
    let parsed = vec![Some("203.0.113.9".to_string()), Some("10.0.0.1".to_string())];
    let peer = Some("192.0.2.7".to_string());
    assert_eq!(effective_client_ip(false, &parsed, &peer), peer);
    assert_eq!(effective_client_ip(true, &parsed, &peer), Some("203.0.113.9".to_string()));
}

#[test]
fn first_valid_forwarded_entry_is_used() {
    let parsed = vec![None, Some("198.51.100.4".to_string())];
    let peer = Some("127.0.0.1".to_string());
    assert_eq!(effective_client_ip(true, &parsed, &peer), Some("198.51.100.4".to_string()));
    assert_eq!(effective_client_ip(true, &vec![None, None], &peer), peer);
    assert_eq!(forwarded_candidates(true, &Some("junk, ,x".to_string())), vec!["junk".to_string(), "".to_string(), "x".to_string()]);
}

#[test]
fn forwarded_proto_needs_trust() {
    let https = Some("HTTPS".to_string());
    assert!(forwarded_proto_is_https(true, &https));
    assert!(!forwarded_proto_is_https(false, &https));
    assert!(!forwarded_proto_is_https(true, &Some("http".to_string())));
    assert!(connection_is_tls(false, Some(443), 443));
    assert!(!connection_is_tls(false, Some(8080), 443));
    assert!(connection_is_tls(true, Some(8080), 443));
    assert!(!connection_is_tls(false, None, 443));
}

#[test]
fn blocked_addresses_are_refused() {
    let f = IpBlockConnectionFilter::new(vec!["10.9.9.9".to_string()]);
    assert!(!f.should_accept(&Some("10.9.9.9".to_string())));
    assert!(f.should_accept(&Some("10.9.9.8".to_string())));
    assert!(f.should_accept(&None));
}
