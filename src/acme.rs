//! Certificate lifecycle: the plan for one ACME client run (HTTP-01 via the
//! webroot, DNS-01 via a provider plugin), where its output lands, and which
//! stored certificates are due for renewal.
use vstd::prelude::*;
use crate::rows::{CertRow, DnsProviderRow};
use crate::streams::{decimal, decimal_string};
use crate::text::{concat, same, slice};

verus! {

/// Seconds before expiry at which a certificate is renewed (30 days).
pub const RENEWAL_THRESHOLD_SECS: i64 = 2592000;

/// Why an issuance cannot go ahead.
#[derive(Debug, PartialEq, Eq, Structural)]
pub enum AcmeError {
    /// A provider id was given but no such provider is stored.
    ProviderNotFound,
    /// The provider's kind has no plugin.
    UnsupportedProvider,
    /// The ACME client exited with failure.
    ClientFailed,
    /// The client succeeded but the issued files are missing.
    CertificatesNotFound,
}

/// DNS provider plugins of the ACME client.
#[derive(Debug, Clone, Copy, PartialEq, Eq, Structural)]
pub enum DnsProviderKind {
    Cloudflare,
    Route53,
    DigitalOcean,
    Google,
}

/// The plugin for a provider type, if supported.
pub open spec fn provider_kind_of(t: Seq<char>) -> Option<DnsProviderKind> {
    if t == "cloudflare"@ {
        Some(DnsProviderKind::Cloudflare)
    } else if t == "route53"@ {
        Some(DnsProviderKind::Route53)
    } else if t == "digitalocean"@ {
        Some(DnsProviderKind::DigitalOcean)
    } else if t == "google"@ {
        Some(DnsProviderKind::Google)
    } else {
        None
    }
}

/// The plugin for a provider type.
pub fn provider_kind(provider_type: &str) -> (r: Option<DnsProviderKind>)
    ensures
        r == provider_kind_of(provider_type@),
{
    if same(provider_type, "cloudflare") {
        Some(DnsProviderKind::Cloudflare)
    } else if same(provider_type, "route53") {
        Some(DnsProviderKind::Route53)
    } else if same(provider_type, "digitalocean") {
        Some(DnsProviderKind::DigitalOcean)
    } else if same(provider_type, "google") {
        Some(DnsProviderKind::Google)
    } else {
        None
    }
}

/// Directory the HTTP filter serves challenge tokens from.
pub open spec fn webroot() -> Seq<char> {
    "data/acme-challenge"@
}

/// Arguments common to every run.
pub open spec fn base_args(domain: Seq<char>, email: Seq<char>) -> Seq<Seq<char>> {
    seq![
        "certonly"@,
        "-d"@,
        domain,
        "--email"@,
        email,
        "--agree-tos"@,
        "--non-interactive"@,
    ]
}

/// Arguments selecting the challenge: the webroot for HTTP-01, the
/// provider plugin and its credentials file for DNS-01.
pub open spec fn challenge_args(kind: Option<DnsProviderKind>, creds: Seq<char>) -> Seq<Seq<char>> {
    match kind {
        None => seq!["--webroot"@, "-w"@, webroot()],
        Some(DnsProviderKind::Cloudflare) => seq![
            "--dns-cloudflare"@,
            "--dns-cloudflare-credentials"@,
            creds,
            "--dns-cloudflare-propagation-seconds"@,
            "30"@,
        ],
        Some(DnsProviderKind::Route53) => seq!["--dns-route53"@],
        Some(DnsProviderKind::DigitalOcean) => seq![
            "--dns-digitalocean"@,
            "--dns-digitalocean-credentials"@,
            creds,
        ],
        Some(DnsProviderKind::Google) => seq!["--dns-google"@, "--dns-google-credentials"@, creds],
    }
}

/// `/tmp/dns-creds-<type>-<now>.ini`.
pub open spec fn creds_path_of(provider_type: Seq<char>, now: u64) -> Seq<char> {
    "/tmp/dns-creds-"@ + provider_type + "-"@ + decimal(now as nat) + ".ini"@
}

/// One run of the ACME client.
pub struct AcmePlan {
    /// Arguments after the program name.
    pub args: Vec<String>,
    /// An environment variable to set for the run.
    pub env: Option<(String, String)>,
    /// The credentials file to write (mode 0600) before the run and to
    /// remove after it, whatever the outcome, with its content.
    pub credentials: Option<(String, String)>,
    /// The webroot directory to create before the run.
    pub webroot: Option<String>,
}

fn push_str(v: &mut Vec<String>, s: &str)
    ensures
        final(v)@.len() == old(v)@.len() + 1,
        forall|i: int| 0 <= i < old(v)@.len() ==> final(v)@[i] == old(v)@[i],
        final(v)@[old(v)@.len() as int]@ == s@,
{
    v.push(s.to_owned());
}

/// The plan for issuing a certificate for `domain`: DNS-01 with the given
/// provider when `provider_id` is set (the caller has looked it up), else
/// HTTP-01 through the webroot.
pub fn plan_certificate_request(
    domain: &str,
    email: &str,
    provider_id: Option<i64>,
    provider: Option<&DnsProviderRow>,
    now: u64,
) -> (r: Result<AcmePlan, AcmeError>)
    ensures
        match provider_id {
            None => r matches Ok(plan) && {
                &&& crate::text::views(plan.args@) == base_args(domain@, email@) + challenge_args(
                    None,
                    Seq::<char>::empty(),
                )
                &&& plan.env is None
                &&& plan.credentials is None
                &&& (plan.webroot matches Some(w) && w@ == webroot())
            },
            Some(_) => match provider {
                None => r == Err::<AcmePlan, AcmeError>(AcmeError::ProviderNotFound),
                Some(p) => match provider_kind_of(p.provider_type@) {
                    None => r == Err::<AcmePlan, AcmeError>(AcmeError::UnsupportedProvider),
                    Some(kind) => r matches Ok(plan) && {
                        let creds = creds_path_of(p.provider_type@, now);
                        &&& crate::text::views(plan.args@) == base_args(domain@, email@)
                            + challenge_args(Some(kind), creds)
                        &&& (plan.credentials matches Some(c) && c.0@ == creds && c.1@
                            == p.credentials@)
                        &&& plan.webroot is None
                        &&& kind == DnsProviderKind::Route53 ==> (plan.env matches Some(e) && e.0@
                            == "AWS_SHARED_CREDENTIALS_FILE"@ && e.1@ == creds)
                        &&& kind != DnsProviderKind::Route53 ==> plan.env is None
                    },
                },
            },
        },
{
    let mut args: Vec<String> = Vec::new();
    push_str(&mut args, "certonly");
    push_str(&mut args, "-d");
    push_str(&mut args, domain);
    push_str(&mut args, "--email");
    push_str(&mut args, email);
    push_str(&mut args, "--agree-tos");
    push_str(&mut args, "--non-interactive");
    let ghost base = crate::text::views(args@);
    assert(base =~= base_args(domain@, email@));
    match provider_id {
        None => {
            push_str(&mut args, "--webroot");
            push_str(&mut args, "-w");
            push_str(&mut args, "data/acme-challenge");
            assert(crate::text::views(args@) =~= base_args(domain@, email@) + challenge_args(
                None,
                Seq::<char>::empty(),
            ));
            Ok(
                AcmePlan {
                    args,
                    env: None,
                    credentials: None,
                    webroot: Some("data/acme-challenge".to_owned()),
                },
            )
        },
        Some(_) => {
            let p = match provider {
                None => {
                    return Err(AcmeError::ProviderNotFound);
                },
                Some(p) => p,
            };
            let kind = match provider_kind(p.provider_type.as_str()) {
                None => {
                    return Err(AcmeError::UnsupportedProvider);
                },
                Some(k) => k,
            };
            let a = concat("/tmp/dns-creds-", p.provider_type.as_str());
            let b = concat(a.as_str(), "-");
            let stamp = decimal_string(now);
            let c = concat(b.as_str(), stamp.as_str());
            let path = concat(c.as_str(), ".ini");
            let mut env: Option<(String, String)> = None;
            match kind {
                DnsProviderKind::Cloudflare => {
                    push_str(&mut args, "--dns-cloudflare");
                    push_str(&mut args, "--dns-cloudflare-credentials");
                    push_str(&mut args, path.as_str());
                    push_str(&mut args, "--dns-cloudflare-propagation-seconds");
                    push_str(&mut args, "30");
                },
                DnsProviderKind::Route53 => {
                    push_str(&mut args, "--dns-route53");
                    env = Some(("AWS_SHARED_CREDENTIALS_FILE".to_owned(), path.clone()));
                },
                DnsProviderKind::DigitalOcean => {
                    push_str(&mut args, "--dns-digitalocean");
                    push_str(&mut args, "--dns-digitalocean-credentials");
                    push_str(&mut args, path.as_str());
                },
                DnsProviderKind::Google => {
                    push_str(&mut args, "--dns-google");
                    push_str(&mut args, "--dns-google-credentials");
                    push_str(&mut args, path.as_str());
                },
            }
            assert(crate::text::views(args@) =~= base_args(domain@, email@) + challenge_args(
                Some(kind),
                path@,
            ));
            Ok(
                AcmePlan {
                    args,
                    env,
                    credentials: Some((path, p.credentials.clone())),
                    webroot: None,
                },
            )
        },
    }
}

/// `s` with every `*.` removed, scanning left to right.
pub open spec fn strip_wildcards(s: Seq<char>) -> Seq<char>
    decreases s.len(),
{
    if s.len() >= 2 && s[0] == '*' && s[1] == '.' {
        strip_wildcards(s.subrange(2, s.len() as int))
    } else if s.len() == 0 {
        s
    } else {
        seq![s[0]] + strip_wildcards(s.drop_first())
    }
}

/// `s` with every `*.` removed.
pub fn strip_wildcard_labels(s: &str) -> (r: String)
    ensures
        r@ == strip_wildcards(s@),
    decreases s@.len(),
{
    let n = s.unicode_len();
    if n == 0 {
        return String::new();
    }
    if n >= 2 && s.get_char(0) == '*' && s.get_char(1) == '.' {
        let rest = slice(s, 2, n);
        return strip_wildcard_labels(rest.as_str());
    }
    let first = slice(s, 0, 1);
    let rest = slice(s, 1, n);
    assert(rest@ =~= s@.drop_first());
    let tail = strip_wildcard_labels(rest.as_str());
    assert(first@ =~= seq![s@[0]]);
    concat(first.as_str(), tail.as_str())
}

/// Where the ACME client leaves the issued files, in the order to try:
/// the directory named after the domain without wildcard labels, then the
/// one named after the domain itself.
pub fn live_dirs(domain: &str) -> (r: (String, String))
    ensures
        r.0@ == "/etc/letsencrypt/live/"@ + strip_wildcards(domain@),
        r.1@ == "/etc/letsencrypt/live/"@ + domain@,
{
    let clean = strip_wildcard_labels(domain);
    (concat("/etc/letsencrypt/live/", clean.as_str()), concat("/etc/letsencrypt/live/", domain))
}

/// The local copies of an issued pair: `data/certs/<domain>.key` and
/// `data/certs/<domain>.crt`.
pub fn local_cert_files(domain: &str) -> (r: (String, String))
    ensures
        r.0@ == "data/certs/"@ + domain@ + ".key"@,
        r.1@ == "data/certs/"@ + domain@ + ".crt"@,
{
    let base = concat("data/certs/", domain);
    (concat(base.as_str(), ".key"), concat(base.as_str(), ".crt"))
}

/// The leaf certificate's `notAfter`, in unix seconds, of a PEM file; none
/// when it does not parse.
pub uninterp spec fn x509_not_after(pem: Seq<u8>) -> Option<i64>;

/// Relies on `x509_parser::pem::parse_x509_pem` and `Pem::parse_x509`: the
/// first PEM block parsed as X.509, and its validity's `not_after` as a
/// unix timestamp.
#[verifier::external_body]
fn pem_not_after(pem: &Vec<u8>) -> (r: Option<i64>)
    ensures
        r == x509_not_after(pem@),
{
    match x509_parser::pem::parse_x509_pem(pem.as_slice()) {
        Ok((_, block)) => match block.parse_x509() {
            Ok(cert) => Some(cert.validity().not_after.timestamp()),
            Err(_) => None,
        },
        Err(_) => None,
    }
}

/// The row to store once a certificate for `domain` was issued: its expiry
/// read from the installed chain, and the provider that issued it. None
/// when the chain does not parse; nothing is stored then.
pub fn issued_cert_row(domain: &str, fullchain: &Vec<u8>, provider_id: Option<i64>) -> (r: Option<
    CertRow,
>)
    ensures
        match x509_not_after(fullchain@) {
            Some(t) => r matches Some(row) && row.domain@ == domain@ && row.expires_at == t
                && row.provider_id == provider_id,
            None => r is None,
        },
{
    match pem_not_after(fullchain) {
        Some(t) => Some(CertRow { id: 0, domain: domain.to_owned(), expires_at: t, provider_id }),
        None => None,
    }
}

/// The outcome of a run, from the client's exit status and whether the
/// issued files were found.
pub fn run_outcome(client_succeeded: bool, files_found: bool) -> (r: Result<(), AcmeError>)
    ensures
        !client_succeeded ==> r == Err::<(), AcmeError>(AcmeError::ClientFailed),
        client_succeeded && !files_found ==> r == Err::<(), AcmeError>(
            AcmeError::CertificatesNotFound,
        ),
        client_succeeded && files_found ==> r == Ok::<(), AcmeError>(()),
{
    if !client_succeeded {
        Err(AcmeError::ClientFailed)
    } else if !files_found {
        Err(AcmeError::CertificatesNotFound)
    } else {
        Ok(())
    }
}

/// A certificate to renew, and how.
pub struct RenewalJob {
    pub domain: String,
    /// DNS-01 with this provider when set, else HTTP-01.
    pub provider_id: Option<i64>,
}

/// Stored certificates expiring before `now` plus the renewal threshold.
pub open spec fn is_due(row: CertRow, now: i64) -> bool {
    (row.expires_at as int) < (now as int) + (RENEWAL_THRESHOLD_SECS as int)
}

/// The certificates due for renewal at `now`, in stored order.
pub open spec fn due_rows(rows: Seq<CertRow>, now: i64) -> Seq<CertRow>
    decreases rows.len(),
{
    if rows.len() == 0 {
        Seq::<CertRow>::empty()
    } else {
        let init = due_rows(rows.drop_last(), now);
        if is_due(rows.last(), now) {
            init.push(rows.last())
        } else {
            init
        }
    }
}

/// The renewal jobs of one scan: each certificate due at `now`, with its
/// provider.
pub fn renewal_jobs(certs: &Vec<CertRow>, now: i64) -> (r: Vec<RenewalJob>)
    ensures
        r@.len() == due_rows(certs@, now).len(),
        forall|i: int|
            0 <= i < r@.len() ==> #[trigger] r@[i].domain@ == due_rows(certs@, now)[i].domain@
                && r@[i].provider_id == due_rows(certs@, now)[i].provider_id,
{
    let mut out: Vec<RenewalJob> = Vec::new();
    let mut k: usize = 0;
    assert(certs@.subrange(0, 0) =~= Seq::<CertRow>::empty());
    while k < certs.len()
        invariant
            k <= certs@.len(),
            out@.len() == due_rows(certs@.subrange(0, k as int), now).len(),
            forall|i: int|
                0 <= i < out@.len() ==> #[trigger] out@[i].domain@ == due_rows(
                    certs@.subrange(0, k as int),
                    now,
                )[i].domain@ && out@[i].provider_id == due_rows(
                    certs@.subrange(0, k as int),
                    now,
                )[i].provider_id,
        decreases certs@.len() - k,
    {
        assert(certs@.subrange(0, k + 1).drop_last() =~= certs@.subrange(0, k as int));
        let c = &certs[k];
        if (c.expires_at as i128) < (now as i128) + (RENEWAL_THRESHOLD_SECS as i128) {
            out.push(RenewalJob { domain: c.domain.clone(), provider_id: c.provider_id });
        }
        k = k + 1;
    }
    assert(certs@.subrange(0, certs@.len() as int) =~= certs@);
    out
}

} // verus!
