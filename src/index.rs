//! The signed repository index: its entries, asset selection for the host,
//! the signature policy, and the checksum of downloads.
use vstd::prelude::*;
use crate::arch::{accepted_key_norms, accepted_tokens, key_matches, norm_key, normalize_key, same_token};
use crate::text::{contains_str, has_sub, lower_of, lowercase, lower_ascii, opt_view, range_eq, to_chars, trim, trim_bounds};
use crate::trust::{
    base64_decoded, decode_base64_trimmed, hex_of, sha256, sha256_hex, signature_valid,
    verify_ed25519_index,
};

verus! {

/// The download of one architecture's build.
#[derive(Debug, Clone)]
pub struct ArchAsset {
    pub download_url: String,
    pub sha256: Option<String>,
}

/// A package in the index: per-architecture assets, or the legacy single asset.
#[derive(Debug, Clone)]
pub struct PackageEntry {
    pub latest_version: String,
    pub description: String,
    pub download_url: Option<String>,
    pub sha256: Option<String>,
    /// Architecture token and asset, one pair per token (`unique_keys`).
    pub architectures: Option<Vec<(String, ArchAsset)>>,
}

/// The index: package name and entry, one pair per name (`unique_keys`).
#[derive(Debug, Clone)]
pub struct RepoIndex {
    pub packages: Vec<(String, PackageEntry)>,
}

/// Why an index is refused.
#[derive(Debug, Clone, Copy, PartialEq, Eq, Structural)]
pub enum IndexError {
    /// A signature is required and no public key is configured.
    NoPublicKey,
    /// A signature is required and none was served.
    SignatureMissing,
    /// The served signature is not valid base64.
    SignatureEncoding,
    /// The configured public key is not valid base64.
    KeyEncoding,
    /// A signature is required and it does not verify.
    SignatureInvalid,
}

/// A download whose content does not have the expected digest.
#[derive(Debug, Clone, Copy, PartialEq, Eq, Structural)]
pub enum DownloadError {
    ChecksumMismatch,
}

pub open spec fn keys_of<T>(m: Seq<(String, T)>) -> Seq<Seq<char>> {
    m.map_values(|p: (String, T)| p.0@)
}

/// The first position at or after `i` whose key matches `token`.
pub open spec fn key_index_from(keys: Seq<Seq<char>>, token: Seq<char>, i: int) -> Option<int>
    decreases keys.len() - i,
{
    if i < 0 || i >= keys.len() {
        None
    } else if key_matches(keys[i], token) {
        Some(i)
    } else {
        key_index_from(keys, token, i + 1)
    }
}

/// The key chosen for the first token, from position `j` on, that some key matches.
pub open spec fn token_pick(keys: Seq<Seq<char>>, tokens: Seq<Seq<char>>, j: int) -> Option<int>
    decreases tokens.len() - j,
{
    if j < 0 || j >= tokens.len() {
        None
    } else {
        match key_index_from(keys, tokens[j], 0) {
            Some(i) => Some(i),
            None => token_pick(keys, tokens, j + 1),
        }
    }
}

/// The asset for `host`: from the per-architecture map, preferring the host's aliases
/// in order, then `any`, then `noarch`; else the legacy fields. Keys are compared in
/// ASCII lower case with `-` read as `_`, and are not trimmed.
pub open spec fn resolved_asset(entry: PackageEntry, host: Seq<char>) -> Option<
    (String, Option<String>),
> {
    let picked = match entry.architectures {
        Some(m) => token_pick(keys_of(m@), accepted_tokens(host), 0),
        None => None,
    };
    if picked is Some {
        let a = entry.architectures->0@[picked->0].1;
        Some((a.download_url, a.sha256))
    } else {
        match entry.download_url {
            Some(u) => Some((u, entry.sha256)),
            None => None,
        }
    }
}

fn clone_opt(o: &Option<String>) -> (r: Option<String>)
    ensures
        r == *o,
{
    match o {
        Some(s) => Some(s.clone()),
        None => None,
    }
}

/// Selects the asset of `entry` for the host architecture `host`, with its checksum.
pub fn resolve_asset_for_current_arch(entry: &PackageEntry, host: &str) -> (r: Option<
    (String, Option<String>),
>)
    ensures
        r == resolved_asset(*entry, host@),
{
    if let Some(m) = &entry.architectures {
        let ghost keys = keys_of(m@);
        let ghost toks = accepted_tokens(host@);
        let acc = accepted_key_norms(host);
        let mut j: usize = 0;
        while j < acc.len()
            invariant
                keys == keys_of(m@),
                toks == accepted_tokens(host@),
                entry.architectures == Some(*m),
                j <= acc@.len() == toks.len(),
                forall|q: int| 0 <= q < acc@.len() ==> (#[trigger] acc@[q])@ == norm_key(toks[q]),
                token_pick(keys, toks, 0) == token_pick(keys, toks, j as int),
            decreases acc@.len() - j,
        {
            let mut i: usize = 0;
            while i < m.len()
                invariant
                    keys == keys_of(m@),
                    toks == accepted_tokens(host@),
                    entry.architectures == Some(*m),
                    token_pick(keys, toks, 0) == token_pick(keys, toks, j as int),
                    j < acc@.len() == toks.len(),
                    acc@[j as int]@ == norm_key(toks[j as int]),
                    i <= m@.len(),
                    key_index_from(keys, toks[j as int], 0) == key_index_from(keys, toks[j as int], i as int),
                decreases m@.len() - i,
            {
                let nk = normalize_key(m[i].0.as_str());
                assert(keys[i as int] == m@[i as int].0@);
                if same_token(&nk, &acc[j]) {
                    assert(key_matches(keys[i as int], toks[j as int]));
                    assert(key_index_from(keys, toks[j as int], i as int) == Some(i as int));
                    assert(token_pick(keys, toks, j as int) == Some(i as int));
                    let a = &m[i].1;
                    return Some((a.download_url.clone(), clone_opt(&a.sha256)));
                }
                i += 1;
            }
            j += 1;
        }
    }
    match &entry.download_url {
        Some(u) => Some((u.clone(), clone_opt(&entry.sha256))),
        None => None,
    }
}

/// The policy on a fetched index: `pubkey` is the configured key's base64 text, `sig`
/// the served signature's base64 text, each when there is one.
pub open spec fn index_verdict(
    index: Seq<u8>,
    require: bool,
    pubkey: Option<Seq<char>>,
    sig: Option<Seq<char>>,
) -> Result<(), IndexError> {
    match pubkey {
        None => if require {
            Err(IndexError::NoPublicKey)
        } else {
            Ok(())
        },
        Some(pk_text) => match sig {
            None => if require {
                Err(IndexError::SignatureMissing)
            } else {
                Ok(())
            },
            Some(sig_text) => match base64_decoded(trim(sig_text)) {
                None => Err(IndexError::SignatureEncoding),
                Some(s) => match base64_decoded(trim(pk_text)) {
                    None => Err(IndexError::KeyEncoding),
                    Some(k) => if require && !signature_valid(index, s, k) {
                        Err(IndexError::SignatureInvalid)
                    } else {
                        Ok(())
                    },
                },
            },
        },
    }
}

/// Decides whether the fetched `index` bytes may be used.
pub fn admit_index(
    index: &[u8],
    require_signature: bool,
    pubkey: Option<&str>,
    sig: Option<&str>,
) -> (r: Result<(), IndexError>)
    ensures
        r == index_verdict(index@, require_signature, opt_view(pubkey), opt_view(sig)),
{
    match pubkey {
        None => if require_signature {
            Err(IndexError::NoPublicKey)
        } else {
            Ok(())
        },
        Some(pk_text) => match sig {
            None => if require_signature {
                Err(IndexError::SignatureMissing)
            } else {
                Ok(())
            },
            Some(sig_text) => match decode_base64_trimmed(sig_text) {
                None => Err(IndexError::SignatureEncoding),
                Some(s) => match decode_base64_trimmed(pk_text) {
                    None => Err(IndexError::KeyEncoding),
                    Some(k) => {
                        if require_signature && !verify_ed25519_index(index, s.as_slice(), k.as_slice()) {
                            Err(IndexError::SignatureInvalid)
                        } else {
                            Ok(())
                        }
                    },
                },
            },
        },
    }
}

/// With a signature required, an index is admitted exactly when a public key is
/// configured, a signature was served, both decode from base64, and the signature
/// verifies over the exact bytes served.
pub proof fn lemma_signature_enforced(index: Seq<u8>, pubkey: Option<Seq<char>>, sig: Option<Seq<char>>)
    ensures
        index_verdict(index, true, pubkey, sig) is Ok <==> {
            &&& pubkey is Some
            &&& sig is Some
            &&& base64_decoded(trim(sig->0)) is Some
            &&& base64_decoded(trim(pubkey->0)) is Some
            &&& signature_valid(
                index,
                base64_decoded(trim(sig->0))->0,
                base64_decoded(trim(pubkey->0))->0,
            )
        },
{
}

/// Checks a downloaded body against the expected SHA-256, given as hexadecimal text
/// (surrounding white space and letter case do not matter).
pub fn check_download(body: &[u8], expected: Option<&str>) -> (r: Result<(), DownloadError>)
    ensures
        r is Ok <==> (expected is None || hex_of(sha256(body@)) == lower_ascii(trim(expected->0@))),
{
    match expected {
        None => Ok(()),
        Some(e) => {
            let actual = to_chars(sha256_hex(body).as_str());
            let v = to_chars(e);
            let (a, b) = trim_bounds(&v, 0, v.len());
            assert(v@.subrange(0, v@.len() as int) == e@);
            let mut low: Vec<char> = Vec::new();
            let mut i = a;
            while i < b
                invariant
                    a <= i <= b <= v@.len(),
                    low@ == lower_ascii(v@.subrange(a as int, i as int)),
                decreases b - i,
            {
                let c = v[i];
                low.push(if 'A' <= c && c <= 'Z' { ((c as u8) + 32) as char } else { c });
                assert(lower_ascii(v@.subrange(a as int, i + 1)) =~= lower_ascii(v@.subrange(a as int, i as int)).push(low@.last()));
                i += 1;
            }
            assert(actual@.subrange(0, actual@.len() as int) == actual@);
            if range_eq(&actual, 0, actual.len(), &low) {
                Ok(())
            } else {
                Err(DownloadError::ChecksumMismatch)
            }
        },
    }
}

/// The positions of the packages whose name or description holds `term`, all in
/// lower case, in index order.
pub open spec fn index_hits(pkgs: Seq<(String, PackageEntry)>, term: Seq<char>) -> Seq<int>
    decreases pkgs.len(),
{
    if pkgs.len() == 0 {
        Seq::empty()
    } else {
        let r = index_hits(pkgs.drop_last(), term);
        let p = pkgs.last();
        if has_sub(lower_of(p.0@), lower_of(term)) || has_sub(lower_of(p.1.description@), lower_of(term)) {
            r.push(pkgs.len() - 1)
        } else {
            r
        }
    }
}

/// Searches the index by name and description, ignoring case; gives positions.
pub fn search_index(index: &RepoIndex, term: &str) -> (r: Vec<usize>)
    ensures
        r@.map_values(|i: usize| i as int) == index_hits(index.packages@, term@),
{
    let t = lowercase(term);
    let ghost ps = index.packages@;
    let mut out: Vec<usize> = Vec::new();
    let mut i: usize = 0;
    while i < index.packages.len()
        invariant
            i <= ps.len(),
            ps == index.packages@,
            t@ == lower_of(term@),
            out@.map_values(|k: usize| k as int) == index_hits(ps.take(i as int), term@),
        decreases ps.len() - i,
    {
        assert(ps.take(i + 1).drop_last() == ps.take(i as int));
        assert(ps.take(i + 1).last() == ps[i as int]);
        let n = lowercase(index.packages[i].0.as_str());
        let d = lowercase(index.packages[i].1.description.as_str());
        if contains_str(n.as_str(), t.as_str()) || contains_str(d.as_str(), t.as_str()) {
            let ghost before = out@;
            out.push(i);
            assert(out@.drop_last() == before);
            assert(out@.map_values(|k: usize| k as int) =~= before.map_values(|k: usize| k as int).push(i as int));
        }
        i += 1;
    }
    assert(ps.take(i as int) == ps);
    out
}

} // verus!
