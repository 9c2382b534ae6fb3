//! The SNI-keyed certificate cache: exact domain first, then the wildcard of
//! its parent, then the self-signed default. Misses are filled from disk
//! lazily by the caller, one candidate name at a time.
use vstd::prelude::*;
use vstd::hash_map::StringHashMap;
use crate::text::{concat, find_char, first_pos, has_char, same, slice};

verus! {

/// A certificate chain and its private key, both PEM.
pub struct CertKeyPair {
    pub cert_pem: Vec<u8>,
    pub key_pem: Vec<u8>,
}

impl View for CertKeyPair {
    type V = (Seq<u8>, Seq<u8>);

    open spec fn view(&self) -> (Seq<u8>, Seq<u8>) {
        (self.cert_pem@, self.key_pem@)
    }
}

/// The wildcard name covering `d`: `*.` and `d` without its leftmost label;
/// none when `d` has no dot.
pub open spec fn wildcard_name(d: Seq<char>) -> Option<Seq<char>> {
    if has_char(d, '.') {
        let i = choose|i: int| first_pos(d, '.', i);
        Some("*."@ + d.subrange(i + 1, d.len() as int))
    } else {
        None
    }
}

/// The names tried for `d`, in order.
pub open spec fn candidate_names(d: Seq<char>) -> Seq<Seq<char>> {
    match wildcard_name(d) {
        Some(w) => seq![d, w],
        None => seq![d],
    }
}

/// The cache entry that serves `d`: the exact name, else its wildcard;
/// none when the default certificate serves it.
pub open spec fn chosen_name(keys: Set<Seq<char>>, d: Seq<char>) -> Option<Seq<char>> {
    if keys.contains(d) {
        Some(d)
    } else {
        match wildcard_name(d) {
            Some(w) => if keys.contains(w) {
                Some(w)
            } else {
                None
            },
            None => None,
        }
    }
}

/// The next step of a certificate lookup.
pub enum CertStep<'a> {
    /// Serve this pair.
    Serve(&'a CertKeyPair),
    /// Try to load `<cert_dir>/<name>.crt` and `.key`; on success record the
    /// pair under `name` and serve it, otherwise ask again with one more miss.
    Load(String),
}

/// Certificate cache with its default pair.
pub struct DynamicCertManager {
    cert_cache: StringHashMap<CertKeyPair>,
    cert_dir: String,
    default_cert: CertKeyPair,
}

/// The wildcard name covering a domain, if it has a dot.
pub fn wildcard_of(domain: &str) -> (r: Option<String>)
    ensures
        match r {
            Some(w) => wildcard_name(domain@) == Some(w@),
            None => wildcard_name(domain@) is None,
        },
{
    match find_char(domain, '.') {
        None => None,
        Some(i) => {
            let ghost j = choose|j: int| first_pos(domain@, '.', j);
            assert(j == i as int) by {
                if j < i {
                    assert(domain@[j] != '.');
                } else if j > i {
                    assert(domain@[i as int] != '.');
                }
            }
            let n = domain.unicode_len();
            let parent = slice(domain, i + 1, n);
            Some(concat("*.", parent.as_str()))
        },
    }
}

/// The file-name stem of a certificate file to preload: the name without
/// `.crt`, unless that is empty or `default`.
pub open spec fn preload_stem(file: Seq<char>) -> Option<Seq<char>> {
    if file.len() > 4 && file.subrange(file.len() - 4, file.len() as int) == ".crt"@ && file.subrange(
        0,
        file.len() - 4,
    ) != "default"@ {
        Some(file.subrange(0, file.len() - 4))
    } else {
        None
    }
}

/// The domain a file in the certificate directory holds a certificate for,
/// if it is one to preload.
pub fn preload_domain(file: &str) -> (r: Option<String>)
    ensures
        match r {
            Some(d) => preload_stem(file@) == Some(d@),
            None => preload_stem(file@) is None,
        },
{
    let n = file.unicode_len();
    if n <= 4 {
        return None;
    }
    let ext = slice(file, n - 4, n);
    if !same(ext.as_str(), ".crt") {
        return None;
    }
    let stem = slice(file, 0, n - 4);
    if same(stem.as_str(), "default") {
        return None;
    }
    Some(stem)
}

/// The SNI name of a handshake; `default` when the client sent none.
pub fn sni_name(sni: Option<String>) -> (r: String)
    ensures
        r@ == match sni {
            Some(s) => s@,
            None => "default"@,
        },
{
    match sni {
        Some(s) => s,
        None => "default".to_owned(),
    }
}

impl DynamicCertManager {
    /// The cached pairs by name.
    pub closed spec fn cache(&self) -> Map<Seq<char>, (Seq<u8>, Seq<u8>)> {
        self.cert_cache@.map_values(|p: CertKeyPair| p@)
    }

    /// The default pair.
    pub closed spec fn default_pair(&self) -> (Seq<u8>, Seq<u8>) {
        self.default_cert@
    }

    /// The certificate directory.
    pub closed spec fn dir(&self) -> Seq<char> {
        self.cert_dir@
    }

    /// An empty cache over `cert_dir`, with the default pair already read.
    pub fn new(cert_dir: String, default_cert: CertKeyPair) -> (r: DynamicCertManager)
        ensures
            r.cache() == Map::<Seq<char>, (Seq<u8>, Seq<u8>)>::empty(),
            r.default_pair() == default_cert@,
            r.dir() == cert_dir@,
    {
        let r = DynamicCertManager { cert_cache: StringHashMap::new(), cert_dir, default_cert };
        assert(r.cache() =~= Map::<Seq<char>, (Seq<u8>, Seq<u8>)>::empty());
        r
    }

    /// `<cert_dir>/<name>.crt` and `<cert_dir>/<name>.key`.
    pub fn cert_files(&self, name: &str) -> (r: (String, String))
        ensures
            r.0@ == self.dir() + "/"@ + name@ + ".crt"@,
            r.1@ == self.dir() + "/"@ + name@ + ".key"@,
    {
        let base = concat(self.cert_dir.as_str(), "/");
        let stem = concat(base.as_str(), name);
        (concat(stem.as_str(), ".crt"), concat(stem.as_str(), ".key"))
    }

    /// Records a pair loaded from disk under `name`.
    pub fn insert_cert(&mut self, name: String, pair: CertKeyPair)
        ensures
            final(self).cache() == old(self).cache().insert(name@, pair@),
            final(self).default_pair() == old(self).default_pair(),
            final(self).dir() == old(self).dir(),
    {
        let ghost pv = pair@;
        self.cert_cache.insert(name, pair);
        assert(self.cache() =~= old(self).cache().insert(name@, pv));
    }

    /// Drops the cached pair of `domain`, so that the next handshake for it
    /// reads the files again.
    pub fn invalidate_cert(&mut self, domain: &str)
        ensures
            final(self).cache() == old(self).cache().remove(domain@),
            final(self).default_pair() == old(self).default_pair(),
            final(self).dir() == old(self).dir(),
    {
        self.cert_cache.remove(domain);
        assert(self.cache() =~= old(self).cache().remove(domain@));
    }

    /// Drops every cached pair.
    pub fn clear_cache(&mut self)
        ensures
            final(self).cache() == Map::<Seq<char>, (Seq<u8>, Seq<u8>)>::empty(),
            final(self).default_pair() == old(self).default_pair(),
            final(self).dir() == old(self).dir(),
    {
        self.cert_cache.clear();
        assert(self.cache() =~= Map::<Seq<char>, (Seq<u8>, Seq<u8>)>::empty());
    }

    /// The pair serving `domain` from the cache alone: exact name, else the
    /// wildcard of its parent, else the default.
    pub fn lookup_cached(&self, domain: &str) -> (r: &CertKeyPair)
        ensures
            r@ == match chosen_name(self.cache().dom(), domain@) {
                Some(n) => self.cache()[n],
                None => self.default_pair(),
            },
    {
        match self.cert_cache.get(domain) {
            Some(p) => {
                return p;
            },
            None => {},
        }
        match wildcard_of(domain) {
            Some(w) => match self.cert_cache.get(w.as_str()) {
                Some(p) => p,
                None => &self.default_cert,
            },
            None => &self.default_cert,
        }
    }

    /// The next step of the lookup for `domain` after `misses` candidate
    /// names were found neither cached nor on disk: serve the cached pair of
    /// the next candidate, load that candidate, or serve the default once
    /// every candidate missed.
    pub fn cert_step(&self, domain: &str, misses: usize) -> (r: CertStep<'_>)
        ensures
            misses >= candidate_names(domain@).len() ==> (r matches CertStep::Serve(p) && p@
                == self.default_pair()),
            misses < candidate_names(domain@).len() ==> {
                let n = candidate_names(domain@)[misses as int];
                &&& self.cache().contains_key(n) ==> (r matches CertStep::Serve(p) && p@
                    == self.cache()[n])
                &&& !self.cache().contains_key(n) ==> (r matches CertStep::Load(m) && m@ == n)
            },
    {
        let name = if misses == 0 {
            domain.to_owned()
        } else if misses == 1 {
            match wildcard_of(domain) {
                Some(w) => w,
                None => {
                    return CertStep::Serve(&self.default_cert);
                },
            }
        } else {
            return CertStep::Serve(&self.default_cert);
        };
        match self.cert_cache.get(name.as_str()) {
            Some(p) => CertStep::Serve(p),
            None => CertStep::Load(name),
        }
    }
}

/// Wildcard fallback: with only `*.<parent>` cached, a name one label below
/// `<parent>` is served by the wildcard, while `<parent>` itself is not
/// (its own wildcard is a different name).
pub proof fn lemma_wildcard_fallback(label: Seq<char>, parent: Seq<char>)
    requires
        label.len() > 0,
        !has_char(label, '.'),
        !has_char(label, '*'),
        has_char(parent, '.'),
    ensures
        chosen_name(set!["*."@ + parent], label + "."@ + parent) == Some("*."@ + parent),
        chosen_name(set!["*."@ + parent], parent) is None,
{
    let w = "*."@ + parent;
    let d = label + "."@ + parent;
    reveal_strlit("*.");
    reveal_strlit(".");
    let n = label.len() as int;
    assert(d[n] == '.');
    assert(first_pos(d, '.', n)) by {
        assert forall|k: int| 0 <= k < n implies d[k] != '.' by {
            assert(d[k] == label[k]);
        }
    }
    let i = choose|i: int| first_pos(d, '.', i);
    assert(i == n) by {
        if i < n {
            assert(d[i] == label[i]);
        } else if i > n {
            assert(d[n] != '.');
        }
    }
    assert(d.subrange(i + 1, d.len() as int) =~= parent);
    assert(d != w) by {
        assert(w[0] == '*');
        assert(d[0] == label[0]);
    }
    crate::text::lemma_first_pos_exists(parent, '.');
    let j = choose|j: int| first_pos(parent, '.', j);
    assert(("*."@ + parent.subrange(j + 1, parent.len() as int)).len() < w.len());
    assert(parent.len() != w.len());
}

} // verus!
