use openssl::asn1::Asn1Time;
use openssl::hash::MessageDigest;
use openssl::pkey::PKey;
use openssl::rsa::Rsa;
use openssl::x509::{X509Name, X509};
use proxy_manager::acme::{
    issued_cert_row, live_dirs, local_cert_files, plan_certificate_request, provider_kind,
    renewal_jobs, run_outcome, strip_wildcard_labels, AcmeError, DnsProviderKind,
};
use proxy_manager::rows::{CertRow, DnsProviderRow};

fn provider(kind: &str) -> DnsProviderRow {
    DnsProviderRow { id: 4, name: "p".to_string(), provider_type: kind.to_string(), credentials: "token = abc\n".to_string(), created_at: 0 }
}

fn strs(v: &[&str]) -> Vec<String> {
    v.iter().map(|s| s.to_string()).collect()
}

#[test]
fn http01_plan() {
    let plan = plan_certificate_request("a.example", "ops@example.com", None, None, 5).unwrap();
    assert_eq!(plan.args, strs(&["certonly", "-d", "a.example", "--email", "ops@example.com", "--agree-tos", "--non-interactive", "--webroot", "-w", "data/acme-challenge"]));
    assert!(plan.credentials.is_none());
    assert_eq!(plan.webroot, Some("data/acme-challenge".to_string()));
}

#[test]
fn cloudflare_plan() {
    let p = provider("cloudflare");
    let plan = plan_certificate_request("a.example", "e@x", Some(4), Some(&p), 1700000000).unwrap();
    let path = "/tmp/dns-creds-cloudflare-1700000000.ini";
    assert_eq!(&plan.args[7..], &strs(&["--dns-cloudflare", "--dns-cloudflare-credentials", path, "--dns-cloudflare-propagation-seconds", "30"])[..]);
    assert_eq!(plan.credentials, Some((path.to_string(), "token = abc\n".to_string())));
    assert!(plan.env.is_none());
}

#[test]
fn route53_uses_environment() {
    let p = provider("route53");
    let plan = plan_certificate_request("a.example", "e@x", Some(4), Some(&p), 7).unwrap();
    assert_eq!(&plan.args[7..], &strs(&["--dns-route53"])[..]);
    assert_eq!(plan.env, Some(("AWS_SHARED_CREDENTIALS_FILE".to_string(), "/tmp/dns-creds-route53-7.ini".to_string())));
}

#[test]
fn plan_errors() {
    assert_eq!(plan_certificate_request("a", "e", Some(1), None, 0).err(), Some(AcmeError::ProviderNotFound));
    let p = provider("namecheap");
    assert_eq!(plan_certificate_request("a", "e", Some(1), Some(&p), 0).err(), Some(AcmeError::UnsupportedProvider));
    assert_eq!(provider_kind("google"), Some(DnsProviderKind::Google));
    assert_eq!(provider_kind("digitalocean"), Some(DnsProviderKind::DigitalOcean));
    assert_eq!(run_outcome(false, true), Err(AcmeError::ClientFailed));
    assert_eq!(run_outcome(true, false), Err(AcmeError::CertificatesNotFound));
    assert_eq!(run_outcome(true, true), Ok(()));
}

#[test]
fn output_locations() {
    assert_eq!(strip_wildcard_labels("*.example.com"), "example.com");
    let (first, second) = live_dirs("*.example.com");
    assert_eq!(first, "/etc/letsencrypt/live/example.com");
    assert_eq!(second, "/etc/letsencrypt/live/*.example.com");
    assert_eq!(local_cert_files("a.example"), ("data/certs/a.example.key".to_string(), "data/certs/a.example.crt".to_string()));
}

#[test]
fn renewal_selects_expiring() {
    let now = 1_000_000;
    let rows = vec![
        CertRow { id: 1, domain: "soon".to_string(), expires_at: now + 10, provider_id: Some(3) },
        CertRow { id: 2, domain: "later".to_string(), expires_at: now + 31 * 86400, provider_id: None },
        CertRow { id: 3, domain: "edge".to_string(), expires_at: now + 30 * 86400, provider_id: None },
        CertRow { id: 4, domain: "past".to_string(), expires_at: now - 5, provider_id: None },
    ];
    let jobs = renewal_jobs(&rows, now);
    let names: Vec<(String, Option<i64>)> = jobs.into_iter().map(|j| (j.domain, j.provider_id)).collect();
    assert_eq!(names, vec![("soon".to_string(), Some(3)), ("past".to_string(), None)]);
}

#[test]
fn expiry_read_from_certificate() {
    let key = PKey::from_rsa(Rsa::generate(2048).unwrap()).unwrap();
    let mut b = X509::builder().unwrap();
    b.set_version(2).unwrap();
    b.set_pubkey(&key).unwrap();
    let not_after = Asn1Time::from_unix(1_900_000_000).unwrap();
    b.set_not_before(&Asn1Time::from_unix(1_600_000_000).unwrap()).unwrap();
    b.set_not_after(&not_after).unwrap();
    let mut name = X509Name::builder().unwrap();
    name.append_entry_by_text("CN", "t").unwrap();
    let name = name.build();
    b.set_subject_name(&name).unwrap();
    b.set_issuer_name(&name).unwrap();
    b.sign(&key, MessageDigest::sha256()).unwrap();
    let pem = b.build().to_pem().unwrap();
    let row = issued_cert_row("a.example", &pem, Some(2)).unwrap();
    assert_eq!(row.expires_at, 1_900_000_000);
    assert_eq!(row.domain, "a.example");
    assert_eq!(row.provider_id, Some(2));
    assert!(issued_cert_row("a.example", &b"junk".to_vec(), None).is_none());
}
