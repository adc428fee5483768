//! Publishing: where an archive is uploaded, how the index takes in the new asset,
//! and the detached signature over the index body.
use vstd::prelude::*;
use crate::index::{ArchAsset, PackageEntry, RepoIndex};
use crate::text::{push_str, slice_string, to_chars};
use crate::trust::{base64_decoded, base64_text, decode_base64_trimmed, ed25519_signature, encode_base64, sign_with_keypair};

verus! {

/// Why publishing stops.
#[derive(Debug, Clone, Copy, PartialEq, Eq, Structural)]
pub enum PublishError {
    /// The signing keypair is not valid base64.
    KeypairEncoding,
    /// The signing keypair does not decode to 64 bytes.
    KeypairLength,
}

/// `s` without trailing `c` characters.
pub open spec fn strip_trailing(s: Seq<char>, c: char) -> Seq<char>
    decreases s.len(),
{
    if s.len() > 0 && s.last() == c {
        strip_trailing(s.drop_last(), c)
    } else {
        s
    }
}

/// The URL of `file` under the repository base URL.
pub open spec fn url_under(base: Seq<char>, file: Seq<char>) -> Seq<char> {
    strip_trailing(base, '/') + "/"@ + file
}

/// `base` with trailing slashes removed, then `/` and `file` appended.
pub fn join_url(base: &str, file: &str) -> (r: String)
    ensures
        r@ == url_under(base@, file@),
{
    let v = to_chars(base);
    let mut n = v.len();
    assert(v@.subrange(0, n as int) == v@);
    while n > 0 && v[n - 1] == '/'
        invariant
            n <= v@.len(),
            strip_trailing(v@, '/') == strip_trailing(v@.subrange(0, n as int), '/'),
        decreases n,
    {
        assert(v@.subrange(0, n as int).drop_last() == v@.subrange(0, n - 1));
        n -= 1;
    }
    assert(v@.subrange(0, v@.len() as int) == v@);
    let mut s = slice_string(&v, 0, n);
    push_str(&mut s, "/");
    push_str(&mut s, file);
    s
}

/// The architecture token under which this host publishes.
pub open spec fn canonical_arch(host: Seq<char>) -> Seq<char> {
    if host == "x86"@ {
        "i686"@
    } else {
        host
    }
}

pub fn canonical_arch_of(host: &str) -> (r: String)
    ensures
        r@ == canonical_arch(host@),
{
    let h = String::from_str(host);
    let x86 = String::from_str("x86");
    if h == x86 {
        String::from_str("i686")
    } else {
        h
    }
}

/// The first position whose key is `key`.
pub open spec fn key_pos<T>(m: Seq<(String, T)>, key: Seq<char>) -> Option<int>
    decreases m.len(),
{
    if m.len() == 0 {
        None
    } else {
        let r = key_pos(m.drop_last(), key);
        if r is Some {
            r
        } else if m.last().0@ == key {
            Some(m.len() - 1)
        } else {
            None
        }
    }
}

/// The value under the first occurrence of `key`.
pub open spec fn first_with_key<T>(m: Seq<(String, T)>, key: Seq<char>) -> Option<T> {
    match key_pos(m, key) {
        Some(i) => Some(m[i].1),
        None => None,
    }
}

/// `m` without the pairs whose key is `key`.
pub open spec fn drop_key<T>(m: Seq<(String, T)>, key: Seq<char>) -> Seq<(String, T)>
    decreases m.len(),
{
    if m.len() == 0 {
        Seq::empty()
    } else {
        let r = drop_key(m.drop_last(), key);
        if m.last().0@ == key {
            r
        } else {
            r.push(m.last())
        }
    }
}

/// `m` with `key` mapped to `value`: in place when the key is there, else appended.
pub open spec fn set_key<T>(m: Seq<(String, T)>, key: String, value: T) -> Seq<(String, T)> {
    match key_pos(m, key@) {
        Some(i) => m.update(i, (key, value)),
        None => m.push((key, value)),
    }
}

/// No two pairs share a key.
pub open spec fn unique_keys<T>(m: Seq<(String, T)>) -> bool {
    forall|i: int, j: int| 0 <= i < j < m.len() ==> m[i].0@ != m[j].0@
}

/// What `drop_key` keeps: pairs of `m` without `key`, in order; keys stay unique.
pub proof fn lemma_drop_key<T>(m: Seq<(String, T)>, key: Seq<char>)
    ensures
        forall|i: int| 0 <= i < drop_key(m, key).len() ==> (#[trigger] drop_key(m, key)[i]).0@ != key,
        forall|i: int|
            0 <= i < drop_key(m, key).len() ==> exists|j: int|
                0 <= j < m.len() && m[j] == #[trigger] drop_key(m, key)[i],
        unique_keys(m) ==> unique_keys(drop_key(m, key)),
    decreases m.len(),
{
    if m.len() > 0 {
        let init = m.drop_last();
        lemma_drop_key(init, key);
        let d0 = drop_key(init, key);
        assert forall|i: int| 0 <= i < d0.len() implies exists|j: int|
            0 <= j < m.len() && m[j] == #[trigger] d0[i] by {
            let j = choose|j: int| 0 <= j < init.len() && init[j] == d0[i];
            assert(m[j] == init[j]);
        }
        if unique_keys(m) {
            assert(unique_keys(init)) by {
                assert forall|i: int, j: int| 0 <= i < j < init.len() implies init[i].0@ != init[j].0@ by {
                    assert(init[i] == m[i] && init[j] == m[j]);
                }
            }
            if m.last().0@ != key {
                assert forall|i: int| 0 <= i < d0.len() implies (#[trigger] d0[i]).0@ != m.last().0@ by {
                    let j = choose|j: int| 0 <= j < init.len() && init[j] == d0[i];
                    assert(m[j] == init[j]);
                    assert(m[m.len() - 1] == m.last());
                }
            }
        }
    }
}

proof fn lemma_key_pos_bounds<T>(m: Seq<(String, T)>, key: Seq<char>)
    ensures
        key_pos(m, key) matches Some(i) ==> 0 <= i < m.len() && m[i].0@ == key && forall|j: int|
            0 <= j < i ==> m[j].0@ != key,
        key_pos(m, key) is None ==> forall|j: int| 0 <= j < m.len() ==> m[j].0@ != key,
    decreases m.len(),
{
    if m.len() > 0 {
        lemma_key_pos_bounds(m.drop_last(), key);
        assert forall|j: int| 0 <= j < m.len() - 1 implies m.drop_last()[j] == m[j] by {}

    }
}

/// `set_key` keeps keys unique.
pub proof fn lemma_set_key_unique<T>(m: Seq<(String, T)>, key: String, value: T)
    requires
        unique_keys(m),
    ensures
        unique_keys(set_key(m, key, value)),
{
    lemma_key_pos_bounds(m, key@);
    let r = set_key(m, key, value);
    match key_pos(m, key@) {
        Some(p) => {
            assert forall|i: int, j: int| 0 <= i < j < r.len() implies r[i].0@ != r[j].0@ by {
                if i != p && j != p {
                    assert(r[i] == m[i] && r[j] == m[j]);
                } else if i == p {
                    assert(r[j] == m[j]);
                } else {
                    assert(r[i] == m[i]);
                }
            }
        },
        None => {
            assert forall|i: int, j: int| 0 <= i < j < r.len() implies r[i].0@ != r[j].0@ by {
                if j < m.len() {
                    assert(r[i] == m[i] && r[j] == m[j]);
                } else {
                    assert(r[i] == m[i]);
                }
            }
        },
    }
}

fn set_key_exec(m: &mut Vec<(String, ArchAsset)>, key: &String, value: ArchAsset)
    ensures
        final(m)@ == set_key(old(m)@, *key, value),
{
    proof {
        lemma_key_pos_bounds(m@, key@);
    }
    let mut i: usize = 0;
    while i < m.len()
        invariant
            i <= m@.len(),
            m@ == old(m)@,
            forall|j: int| 0 <= j < i ==> m@[j].0@ != key@,
            key_pos(m@, key@) matches Some(p) ==> 0 <= p < m@.len() && forall|j: int|
                0 <= j < p ==> m@[j].0@ != key@,
            key_pos(m@, key@) matches Some(p) ==> i <= p,
            key_pos(m@, key@) matches Some(p) ==> m@[p].0@ == key@,
            key_pos(m@, key@) is None ==> forall|j: int| 0 <= j < m@.len() ==> m@[j].0@ != key@,
        decreases m@.len() - i,
    {
        if m[i].0 == *key {
            assert(key_pos(m@, key@) == Some(i as int));
            m.set(i, (key.clone(), value));
            return;
        }
        i += 1;
    }
    m.push((key.clone(), value));
}

/// The per-architecture map of the first entry named `name`, or an empty map.
pub open spec fn base_of(m: Seq<(String, PackageEntry)>, name: Seq<char>) -> Seq<(String, ArchAsset)> {
    match first_with_key(m, name) {
        Some(e) => match e.architectures {
            Some(a) => a@,
            None => Seq::empty(),
        },
        None => Seq::empty(),
    }
}

impl RepoIndex {
    /// Takes a published asset into the index: the package's entry (if any) leaves its
    /// place and comes back last, with `arch` mapped to the new asset, the version and
    /// description updated, and the legacy fields set to the same asset.
    pub fn merge_published(
        &mut self,
        name: &String,
        version: &String,
        description: &String,
        url: &String,
        checksum: &String,
        arch: &String,
    )
        ensures
            ({
                let base = base_of(old(self).packages@, name@);
                let asset = ArchAsset { download_url: *url, sha256: Some(*checksum) };
                let last = final(self).packages@.last();
                &&& final(self).packages@.len() > 0
                &&& final(self).packages@.drop_last() == drop_key(old(self).packages@, name@)
                &&& last.0 == *name
                &&& last.1.latest_version == *version
                &&& last.1.description == *description
                &&& last.1.download_url == Some(*url)
                &&& last.1.sha256 == Some(*checksum)
                &&& last.1.architectures is Some
                &&& last.1.architectures->0@ == set_key(base, *arch, asset)
                &&& unique_keys(old(self).packages@) ==> unique_keys(final(self).packages@)
                &&& unique_keys(base) ==> unique_keys(last.1.architectures->0@)
            }),
    {
        let total = self.packages.len();
        let ghost orig = self.packages@;
        let ghost n = orig.len();
        assert(n == total);
        let mut rest: Vec<(String, PackageEntry)> = Vec::new();
        std::mem::swap(&mut rest, &mut self.packages);
        let mut rev: Vec<(String, PackageEntry)> = Vec::new();
        while rest.len() > 0
            invariant
                n == orig.len(),
                rest@ == orig.take(rest@.len() as int),
                rev@.len() + rest@.len() == n,
                forall|j: int| 0 <= j < rev@.len() ==> rev@[j] == orig[n - 1 - j],
            decreases rest@.len(),
        {
            let p = rest.pop().unwrap();
            rev.push(p);
            assert(orig.take(rest@.len() as int) == orig.take(rest@.len() as int + 1).drop_last());
        }
        let mut kept: Vec<(String, PackageEntry)> = Vec::new();
        let mut found: Option<PackageEntry> = None;
        let mut k: usize = 0;
        while rev.len() > 0
            invariant
                n == orig.len(),
                n == total,
                k + rev@.len() == n,
                forall|j: int| 0 <= j < rev@.len() ==> rev@[j] == orig[n - 1 - j],
                kept@ == drop_key(orig.take(k as int), name@),
                found == first_with_key(orig.take(k as int), name@),
            decreases rev@.len(),
        {
            let p = rev.pop().unwrap();
            assert(p == orig[k as int]);
            let ghost pre = orig.take(k as int);
            assert(orig.take(k + 1).drop_last() == pre);
            assert(orig.take(k + 1).last() == p);
            proof {
                lemma_key_pos_bounds(pre, name@);
                lemma_key_pos_bounds(orig.take(k + 1), name@);
            }
            assert(forall|j: int| 0 <= j < k ==> orig.take(k + 1)[j] == pre[j]);
            if p.0 == *name {
                if found.is_none() {
                    found = Some(p.1);
                }
            } else {
                kept.push(p);
            }
            k += 1;
        }
        assert(orig.take(k as int) == orig);
        let mut map: Vec<(String, ArchAsset)> = match found {
            Some(e) => match e.architectures {
                Some(m) => m,
                None => Vec::new(),
            },
            None => Vec::new(),
        };
        let asset = ArchAsset { download_url: url.clone(), sha256: Some(checksum.clone()) };
        let ghost asset_v = asset;
        assert(map@ == base_of(orig, name@));
        set_key_exec(&mut map, arch, asset);
        let entry = PackageEntry {
            latest_version: version.clone(),
            description: description.clone(),
            download_url: Some(url.clone()),
            sha256: Some(checksum.clone()),
            architectures: Some(map),
        };
        let ghost before = kept@;
        proof {
            lemma_drop_key(orig, name@);
            if unique_keys(base_of(orig, name@)) {
                lemma_set_key_unique(base_of(orig, name@), *arch, asset_v);
            }
        }
        kept.push((name.clone(), entry));
        assert(kept@.drop_last() == before);
        assert(unique_keys(orig) ==> unique_keys(kept@)) by {
            if unique_keys(orig) {
                assert forall|i: int, j: int| 0 <= i < j < kept@.len() implies kept@[i].0@ != kept@[j].0@ by {
                    if j == kept@.len() - 1 {
                        assert(kept@[i] == before[i]);
                    } else {
                        assert(kept@[i] == before[i] && kept@[j] == before[j]);
                    }
                }
            }
        }
        self.packages = kept;
    }
}

/// The detached signature for an index body: the body signed with a base64 64-byte
/// Ed25519 keypair, in base64.
pub fn sign_index(body: &[u8], keypair_b64: &str) -> (r: Result<String, PublishError>)
    ensures
        ({
            let kp = base64_decoded(crate::text::trim(keypair_b64@));
            &&& kp is None ==> r == Err::<String, PublishError>(PublishError::KeypairEncoding)
            &&& (kp is Some && kp->0.len() != 64) ==> r == Err::<String, PublishError>(
                PublishError::KeypairLength,
            )
            &&& (kp is Some && kp->0.len() == 64) ==> (r is Ok && r->Ok_0@ == base64_text(
                ed25519_signature(kp->0.subrange(0, 32), body@),
            ))
        }),
{
    match decode_base64_trimmed(keypair_b64) {
        None => Err(PublishError::KeypairEncoding),
        Some(kp) => {
            if kp.len() != 64 {
                return Err(PublishError::KeypairLength);
            }
            let sig = sign_with_keypair(kp.as_slice(), body);
            Ok(encode_base64(sig.as_slice()))
        },
    }
}

} // verus!
