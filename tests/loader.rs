use proxy_manager::config::default_redirect_status;
use proxy_manager::loader::ConfigLoader;
use proxy_manager::rows::{AccessListClientRow, AccessListIpRow, AccessListRow, HeaderRow, HostRow, LocationRow};

#[test]
fn snapshot_groups_rows() {
    let hosts = vec![
        HostRow { id: 1, domain: "a.example".to_string(), target: "u1:80, u2:80".to_string(), scheme: "http".to_string(), ssl_forced: true, redirect_to: None, redirect_status: 999, access_list_id: Some(5) },
        HostRow { id: 2, domain: "b.example".to_string(), target: "v:80".to_string(), scheme: "https".to_string(), ssl_forced: false, redirect_to: Some("https://c/".to_string()), redirect_status: 307, access_list_id: None },
    ];
    let locs = vec![
        LocationRow { id: 1, host_id: 1, path: "/x".to_string(), target: "l:1".to_string(), scheme: "http".to_string(), rewrite: true },
        LocationRow { id: 2, host_id: 2, path: "/y".to_string(), target: "l:2".to_string(), scheme: "http".to_string(), rewrite: false },
    ];
    let acls = vec![AccessListRow { id: 5, name: "office".to_string() }];
    let clients = vec![AccessListClientRow { id: 1, list_id: 5, username: "u".to_string(), password_hash: "h".to_string() }];
    let ips = vec![
        AccessListIpRow { id: 1, list_id: 5, ip_address: "1.2.3.4".to_string(), action: "deny".to_string() },
        AccessListIpRow { id: 2, list_id: 6, ip_address: "5.6.7.8".to_string(), action: "allow".to_string() },
    ];
    let headers = vec![HeaderRow { id: 9, host_id: 2, name: "X".to_string(), value: "1".to_string(), target: "response".to_string() }];
    let cfg = ConfigLoader::assemble(&hosts, &locs, &acls, &clients, &ips, &headers);

    let a = cfg.get_host_config("a.example").unwrap();
    assert_eq!(a.targets, vec!["u1:80".to_string(), "u2:80".to_string()]);
    assert_eq!(a.redirect_status, default_redirect_status());
    assert_eq!(a.locations.len(), 1);
    assert_eq!(a.locations[0].path, "/x");
    assert!(a.locations[0].verify_ssl);
    assert!(a.headers.is_empty());
    let b = cfg.get_host_config("b.example").unwrap();
    assert_eq!(b.redirect_status, 307);
    assert_eq!(b.headers.len(), 1);
    assert!(cfg.get_host_config("c.example").is_none());

    let acl = cfg.get_access_list(5).unwrap();
    assert_eq!(acl.clients.len(), 1);
    assert_eq!(acl.ips.len(), 1);
    assert_eq!(acl.ips[0].ip, "1.2.3.4");
    assert!(cfg.get_access_list(6).is_none());

    assert_eq!(cfg.get_headers(2).len(), 1);
    assert!(cfg.get_headers(1).is_empty());
    assert_eq!(default_redirect_status(), 301);
}

#[test]
fn later_row_for_domain_wins() {
    let mk = |id: i64, target: &str| HostRow { id, domain: "d.example".to_string(), target: target.to_string(), scheme: "http".to_string(), ssl_forced: false, redirect_to: None, redirect_status: 301, access_list_id: None };
    let cfg = ConfigLoader::assemble(&vec![mk(1, "a:1"), mk(2, "b:2")], &vec![], &vec![], &vec![], &vec![], &vec![]);
    assert_eq!(cfg.get_host_config("d.example").unwrap().id, 2);
}
