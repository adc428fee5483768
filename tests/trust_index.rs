use base64::Engine;
use nxpkg::index::{
    admit_index, check_download, resolve_asset_for_current_arch, ArchAsset, DownloadError,
    IndexError, PackageEntry, RepoIndex,
};
use nxpkg::publish::{canonical_arch_of, join_url, sign_index, PublishError};
use nxpkg::trust::{decode_base64_trimmed, sha256_hex, sign_with_keypair, verify_ed25519_index};

fn b64(b: &[u8]) -> String {
    base64::engine::general_purpose::STANDARD.encode(b)
}

fn keys() -> (ed25519_dalek::SigningKey, String, String) {
    let sk = ed25519_dalek::SigningKey::from_bytes(&[7u8; 32]);
    let pk = b64(&sk.verifying_key().to_bytes());
    let kp = b64(&sk.to_keypair_bytes());
    (sk, pk, kp)
}

#[test]
fn sha256_hex_of_known_inputs() {
    assert_eq!(sha256_hex(b"abc"), "ba7816bf8f01cfea414140de5dae2223b00361a396177a9cb410ff61f20015ad");
    assert_eq!(sha256_hex(b""), "e3b0c44298fc1c149afbf4c8996fb92427ae41e4649b934ca495991b7852b855");
}

#[test]
fn checksum_enforced() {
    let good = "BA7816BF8F01CFEA414140DE5DAE2223B00361A396177A9CB410FF61F20015AD\n";
    assert_eq!(check_download(b"abc", Some(good)), Ok(()));
    assert_eq!(check_download(b"abd", Some(good)), Err(DownloadError::ChecksumMismatch));
    assert_eq!(check_download(b"anything", None), Ok(()));
}

#[test]
fn base64_decoding_trims() {
    assert_eq!(decode_base64_trimmed("  aGk=\n"), Some(b"hi".to_vec()));
    assert_eq!(decode_base64_trimmed("!!"), None);
}

#[test]
fn signed_index_is_admitted() {
    let (_, pk, kp) = keys();
    let body = br#"{"packages":{}}"#.to_vec();
    let sig = sign_index(&body, &kp).unwrap();
    assert_eq!(admit_index(&body, true, Some(&pk), Some(&sig)), Ok(()));
}

#[test]
fn tampered_index_is_refused() {
    let (_, pk, kp) = keys();
    let body = br#"{"packages":{"demo":{}}}"#.to_vec();
    let sig = sign_index(&body, &kp).unwrap();
    let mut tampered = body.clone();
    tampered[3] ^= 1;
    assert_eq!(admit_index(&tampered, true, Some(&pk), Some(&sig)), Err(IndexError::SignatureInvalid));
    assert_eq!(admit_index(&tampered, false, Some(&pk), Some(&sig)), Ok(()));
}

#[test]
fn tampered_signature_is_refused() {
    let (sk, pk, _) = keys();
    let body = b"index".to_vec();
    let mut raw = sk.to_keypair_bytes().to_vec();
    let mut sig = sign_with_keypair(&raw, &body);
    sig[0] ^= 0x80;
    raw.clear();
    assert_eq!(
        admit_index(&body, true, Some(&pk), Some(&b64(&sig))),
        Err(IndexError::SignatureInvalid)
    );
}

#[test]
fn signature_policy_errors() {
    let (_, pk, _) = keys();
    assert_eq!(admit_index(b"x", true, None, None), Err(IndexError::NoPublicKey));
    assert_eq!(admit_index(b"x", false, None, None), Ok(()));
    assert_eq!(admit_index(b"x", true, Some(&pk), None), Err(IndexError::SignatureMissing));
    assert_eq!(admit_index(b"x", false, Some(&pk), None), Ok(()));
    assert_eq!(admit_index(b"x", false, Some(&pk), Some("%%%")), Err(IndexError::SignatureEncoding));
    assert_eq!(admit_index(b"x", true, Some("%%%"), Some("aGk=")), Err(IndexError::KeyEncoding));
    assert_eq!(admit_index(b"x", true, Some(&pk), Some("aGk=")), Err(IndexError::SignatureInvalid));
}

#[test]
fn verify_rejects_wrong_lengths() {
    let (sk, _, _) = keys();
    let vk = sk.verifying_key().to_bytes();
    let sig = sign_with_keypair(&sk.to_keypair_bytes(), b"m");
    assert!(verify_ed25519_index(b"m", &sig, &vk));
    assert!(!verify_ed25519_index(b"m", &sig[..63], &vk));
    assert!(!verify_ed25519_index(b"m", &sig, &vk[..31]));
}

#[test]
fn sign_index_errors() {
    assert_eq!(sign_index(b"x", "%%%"), Err(PublishError::KeypairEncoding));
    assert_eq!(sign_index(b"x", &b64(&[1u8; 32])), Err(PublishError::KeypairLength));
}

fn asset(url: &str) -> ArchAsset {
    ArchAsset { download_url: url.to_string(), sha256: Some(format!("sum-{}", url)) }
}

fn entry(map: Option<Vec<(&str, &str)>>, legacy: Option<&str>) -> PackageEntry {
    PackageEntry {
        latest_version: "1".to_string(),
        description: String::new(),
        download_url: legacy.map(|s| s.to_string()),
        sha256: None,
        architectures: map.map(|m| m.into_iter().map(|(k, u)| (k.to_string(), asset(u))).collect()),
    }
}

#[test]
fn resolves_host_alias_case_insensitively() {
    let e = entry(Some(vec![("noarch", "n"), ("AMD64", "a")]), Some("legacy"));
    assert_eq!(
        resolve_asset_for_current_arch(&e, "x86_64"),
        Some(("a".to_string(), Some("sum-a".to_string())))
    );
}

#[test]
fn resolves_universal_then_legacy() {
    let e = entry(Some(vec![("noarch", "n"), ("aarch64", "b")]), Some("legacy"));
    assert_eq!(resolve_asset_for_current_arch(&e, "x86_64").unwrap().0, "n");
    let e = entry(Some(vec![("aarch64", "b")]), Some("legacy"));
    assert_eq!(resolve_asset_for_current_arch(&e, "x86_64"), Some(("legacy".to_string(), None)));
    let e = entry(None, None);
    assert_eq!(resolve_asset_for_current_arch(&e, "x86_64"), None);
}

#[test]
fn publish_merges_asset_into_index() {
    let mut idx = RepoIndex {
        packages: vec![
            ("demo".to_string(), entry(Some(vec![("aarch64", "old-arm")]), Some("old"))),
            ("other".to_string(), entry(None, Some("o"))),
        ],
    };
    let s = |x: &str| x.to_string();
    idx.merge_published(&s("demo"), &s("2.0"), &s("new"), &s("http://r/demo-2.0.nxpkg"), &s("abc"), &s("x86_64"));
    assert_eq!(idx.packages.len(), 2);
    assert_eq!(idx.packages[0].0, "other");
    let (name, e) = &idx.packages[1];
    assert_eq!(name, "demo");
    assert_eq!(e.latest_version, "2.0");
    assert_eq!(e.description, "new");
    assert_eq!(e.download_url.as_deref(), Some("http://r/demo-2.0.nxpkg"));
    assert_eq!(e.sha256.as_deref(), Some("abc"));
    let map = e.architectures.as_ref().unwrap();
    assert_eq!(map.len(), 2);
    assert_eq!(map[1].0, "x86_64");
    assert_eq!(map[1].1.sha256.as_deref(), Some("abc"));
}

#[test]
fn publish_urls_and_arch() {
    assert_eq!(join_url("http://h/repo//", "index.json"), "http://h/repo/index.json");
    assert_eq!(canonical_arch_of("x86"), "i686");
    assert_eq!(canonical_arch_of("aarch64"), "aarch64");
}

#[test]
fn index_keys_are_not_trimmed() {
    let e = entry(Some(vec![(" x86_64", "spaced")]), None);
    assert_eq!(resolve_asset_for_current_arch(&e, "x86_64"), None);
    let e = entry(Some(vec![("X86-64", "dashed")]), None);
    assert_eq!(resolve_asset_for_current_arch(&e, "x86_64").unwrap().0, "dashed");
    assert_eq!(sha256_hex(b"any bytes").len(), 64);
}

#[test]
fn index_search_ignores_case() {
    let mut a = entry(None, Some("u"));
    a.description = "A Demo tool".to_string();
    let idx = RepoIndex { packages: vec![("Zlib".to_string(), entry(None, Some("z"))), ("tool".to_string(), a)] };
    assert_eq!(nxpkg::index::search_index(&idx, "DEMO"), vec![1]);
    assert_eq!(nxpkg::index::search_index(&idx, "zl"), vec![0]);
    assert!(nxpkg::index::search_index(&idx, "none").is_empty());
}
