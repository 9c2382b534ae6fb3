use proxy_manager::certs::{
    preload_domain, sni_name, wildcard_of, CertKeyPair, CertStep, DynamicCertManager,
};

fn pair(tag: u8) -> CertKeyPair {
    CertKeyPair { cert_pem: vec![tag], key_pem: vec![tag, tag] }
}

#[test]
fn wildcard_serves_one_level_below() {
    let mut m = DynamicCertManager::new("data/certs".to_string(), pair(0));
    m.insert_cert("*.bar.example".to_string(), pair(1));
    assert_eq!(m.lookup_cached("foo.bar.example").cert_pem, vec![1]);
    assert_eq!(m.lookup_cached("bar.example").cert_pem, vec![0]);
    assert_eq!(m.lookup_cached("a.foo.bar.example").cert_pem, vec![0]);
}

#[test]
fn exact_entry_beats_wildcard() {
    let mut m = DynamicCertManager::new("data/certs".to_string(), pair(0));
    m.insert_cert("*.bar.example".to_string(), pair(1));
    m.insert_cert("foo.bar.example".to_string(), pair(2));
    assert_eq!(m.lookup_cached("foo.bar.example").cert_pem, vec![2]);
    m.invalidate_cert("foo.bar.example");
    assert_eq!(m.lookup_cached("foo.bar.example").cert_pem, vec![1]);
    m.clear_cache();
    assert_eq!(m.lookup_cached("foo.bar.example").cert_pem, vec![0]);
}

#[test]
fn lookup_steps_through_candidates() {
    let mut m = DynamicCertManager::new("data/certs".to_string(), pair(0));
    match m.cert_step("foo.bar.example", 0) {
        CertStep::Load(name) => assert_eq!(name, "foo.bar.example"),
        _ => panic!("expected a load"),
    }
    match m.cert_step("foo.bar.example", 1) {
        CertStep::Load(name) => assert_eq!(name, "*.bar.example"),
        _ => panic!("expected a load"),
    }
    match m.cert_step("foo.bar.example", 2) {
        CertStep::Serve(p) => assert_eq!(p.cert_pem, vec![0]),
        _ => panic!("expected the default"),
    }
    match m.cert_step("localhost", 1) {
        CertStep::Serve(p) => assert_eq!(p.cert_pem, vec![0]),
        _ => panic!("expected the default"),
    }
    m.insert_cert("*.bar.example".to_string(), pair(5));
    match m.cert_step("foo.bar.example", 1) {
        CertStep::Serve(p) => assert_eq!(p.key_pem, vec![5, 5]),
        _ => panic!("expected the cached wildcard"),
    }
}

#[test]
fn cert_file_names() {
    let m = DynamicCertManager::new("data/certs".to_string(), pair(0));
    let (crt, key) = m.cert_files("a.example");
    assert_eq!(crt, "data/certs/a.example.crt");
    assert_eq!(key, "data/certs/a.example.key");
}

#[test]
fn wildcard_names() {
    assert_eq!(wildcard_of("foo.bar.example"), Some("*.bar.example".to_string()));
    assert_eq!(wildcard_of("localhost"), None);
}

#[test]
fn preload_skips_default_and_other_files() {
    assert_eq!(preload_domain("a.example.crt"), Some("a.example".to_string()));
    assert_eq!(preload_domain("default.crt"), None);
    assert_eq!(preload_domain("a.example.key"), None);
    assert_eq!(preload_domain(".crt"), None);
}

#[test]
fn missing_sni_uses_default_name() {
    assert_eq!(sni_name(None), "default");
    assert_eq!(sni_name(Some("x.example".to_string())), "x.example");
}
