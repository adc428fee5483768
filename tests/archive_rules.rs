use nxpkg::archive::{
    check_layout, is_contained, is_gzip, package_file_name, path_components, recipe_for_host,
    recipe_from_member, Action, ArchiveError, EntryKind, Existing, UnpackSession,
};
use nxpkg::arch::supports_arch;
use nxpkg::recipe::PackageRecipe;

fn plan_and_commit(
    s: &mut UnpackSession,
    kind: EntryKind,
    path: &str,
    target: Option<&str>,
    existing: Existing,
) -> Result<Option<Action>, ArchiveError> {
    match s.plan_entry(kind, path, target, 0o100644)? {
        None => Ok(None),
        Some(plan) => s.commit_entry(&plan, false, existing).map(Some),
    }
}

#[test]
fn symlink_to_root_is_rejected() {
    let s = UnpackSession::new("/tmp/dest");
    let r = s.plan_entry(EntryKind::Symlink, "victim", Some("/"), 0o777);
    assert!(matches!(r, Err(ArchiveError::PathUnsafe)));
}

#[test]
fn symlink_parent_attack_is_stopped() {
    let mut s = UnpackSession::new("/tmp/dest");
    let first = plan_and_commit(&mut s, EntryKind::Symlink, "victim", Some("etc"), Existing::Missing);
    assert_eq!(first, Ok(Some(Action::MakeSymlink { replace: false })));
    let second = s.plan_entry(EntryKind::Regular, "victim/passwd", None, 0o644);
    assert!(matches!(second, Err(ArchiveError::PathUnsafe)));
}

#[test]
fn symlink_parent_is_stopped_under_live_root_too() {
    let mut s = UnpackSession::new("/");
    plan_and_commit(&mut s, EntryKind::Symlink, "a/link", Some("b"), Existing::Missing).unwrap();
    let r = s.plan_entry(EntryKind::Directory, "a/link/x", None, 0o755);
    assert!(matches!(r, Err(ArchiveError::PathUnsafe)));
}

#[test]
fn parent_symlink_on_disk_is_refused_except_under_root() {
    let mut s = UnpackSession::new("/tmp/dest");
    let plan = s.plan_entry(EntryKind::Regular, "usr/bin/x", None, 0o755).unwrap().unwrap();
    assert_eq!(s.commit_entry(&plan, true, Existing::Missing), Err(ArchiveError::PathUnsafe));
    let mut live = UnpackSession::new("/");
    let plan = live.plan_entry(EntryKind::Regular, "usr/bin/x", None, 0o755).unwrap().unwrap();
    assert_eq!(
        live.commit_entry(&plan, true, Existing::Missing),
        Ok(Action::WriteFile { replace: false, mode: 0o755 })
    );
}

#[test]
fn traversal_and_absolute_paths_are_rejected() {
    let s = UnpackSession::new("/tmp/dest");
    for p in ["../etc/passwd", "a/../../b", "/etc/passwd", "C:/x"] {
        let r = s.plan_entry(EntryKind::Regular, p, None, 0o644);
        assert!(matches!(r, Err(ArchiveError::PathUnsafe)), "{}", p);
    }
}

#[test]
fn empty_path_is_malformed() {
    let s = UnpackSession::new("/tmp/dest");
    assert!(matches!(s.plan_entry(EntryKind::Regular, "", None, 0), Err(ArchiveError::Malformed)));
    assert!(matches!(s.plan_entry(EntryKind::Directory, "./", None, 0), Err(ArchiveError::Malformed)));
}

#[test]
fn link_targets_with_parent_components_are_rejected() {
    let s = UnpackSession::new("/tmp/dest");
    let r = s.plan_entry(EntryKind::Symlink, "lib/x", Some("../../etc"), 0o777);
    assert!(matches!(r, Err(ArchiveError::PathUnsafe)));
    let r = s.plan_entry(EntryKind::Symlink, "lib/x", None, 0o777);
    assert!(matches!(r, Err(ArchiveError::Malformed)));
}

#[test]
fn special_entries_are_rejected_and_metadata_skipped() {
    let s = UnpackSession::new("/tmp/dest");
    assert!(matches!(s.plan_entry(EntryKind::HardLink, "a", None, 0), Err(ArchiveError::Malformed)));
    assert!(matches!(s.plan_entry(EntryKind::Special, "a", None, 0), Err(ArchiveError::Malformed)));
    assert!(matches!(s.plan_entry(EntryKind::Metadata, "../x", None, 0), Ok(None)));
}

#[test]
fn plan_normalizes_and_masks_mode() {
    let s = UnpackSession::new("/tmp/dest/");
    let plan = s.plan_entry(EntryKind::Regular, "./usr//bin/demo", None, 0o104755).unwrap().unwrap();
    assert_eq!(plan.rel, "usr/bin/demo");
    assert_eq!(plan.dest, "/tmp/dest/usr/bin/demo");
    assert_eq!(plan.parents, vec!["/tmp/dest/usr".to_string(), "/tmp/dest/usr/bin".to_string()]);
    assert_eq!(plan.mode, 0o755);
}

#[test]
fn type_coercion_is_refused() {
    let mut s = UnpackSession::new("/tmp/dest");
    let f = s.plan_entry(EntryKind::Regular, "d", None, 0o644).unwrap().unwrap();
    assert_eq!(s.commit_entry(&f, false, Existing::Directory), Err(ArchiveError::Malformed));
    let d = s.plan_entry(EntryKind::Directory, "d", None, 0o755).unwrap().unwrap();
    assert_eq!(s.commit_entry(&d, false, Existing::Symlink), Err(ArchiveError::PathUnsafe));
    assert_eq!(s.commit_entry(&d, false, Existing::Directory), Ok(Action::MakeDir { mode: 0o755 }));
    assert_eq!(
        s.commit_entry(&f, false, Existing::File),
        Ok(Action::WriteFile { replace: true, mode: 0o644 })
    );
}

#[test]
fn gzip_magic_is_detected() {
    assert!(is_gzip(&[0x1f, 0x8b, 0x08]));
    assert!(!is_gzip(&[0x1f]));
    assert!(!is_gzip(b"package.cfg"));
}

#[test]
fn layout_must_be_exact() {
    let good = vec!["package.cfg".to_string(), "data.tar.gz".to_string()];
    assert_eq!(check_layout(&good), Ok(()));
    let swapped = vec!["data.tar.gz".to_string(), "package.cfg".to_string()];
    assert_eq!(check_layout(&swapped), Err(ArchiveError::Malformed));
    assert_eq!(check_layout(&vec!["package.cfg".to_string()]), Err(ArchiveError::Malformed));
}

#[test]
fn recipe_member_errors() {
    assert!(matches!(recipe_from_member(None), Err(ArchiveError::Malformed)));
    assert!(matches!(recipe_from_member(Some("")), Err(ArchiveError::Malformed)));
    assert!(matches!(recipe_from_member(Some("[package]\n")), Err(ArchiveError::RecipeInvalid)));
    let r = recipe_from_member(Some("[package]\nname=a\nversion=1\n")).unwrap();
    assert_eq!(r.package.name, "a");
}

#[test]
fn architecture_mismatch_is_refused() {
    let cfg = "[package]\nname = demo\nversion = 1\narchitectures = aarch64, arm64\n";
    assert!(matches!(recipe_for_host(cfg, "x86_64"), Err(ArchiveError::ArchUnsupported)));
    assert!(recipe_for_host(cfg, "aarch64").is_ok());
    assert!(matches!(recipe_for_host("[package]\n", "x86_64"), Err(ArchiveError::RecipeInvalid)));
}

#[test]
fn architecture_tokens_are_normalized() {
    let v = |items: &[&str]| items.iter().map(|s| s.to_string()).collect::<Vec<_>>();
    assert!(supports_arch(&v(&["X86-64"]), "x86_64"));
    assert!(supports_arch(&v(&["AMD64"]), "x86_64"));
    assert!(supports_arch(&v(&["noarch"]), "riscv64"));
    assert!(supports_arch(&v(&[]), "riscv64"));
    assert!(supports_arch(&v(&["armhf"]), "arm"));
    assert!(supports_arch(&v(&["ppc64le"]), "powerpc64"));
    assert!(!supports_arch(&v(&["i386"]), "x86_64"));
}

#[test]
fn archive_file_name() {
    let r = PackageRecipe::from_str("[package]\nname = demo-x86_64\nversion = 1.2.3\n").unwrap();
    assert_eq!(package_file_name(&r), "demo-x86_64-1.2.3.nxpkg");
}

#[test]
fn path_helpers() {
    assert_eq!(path_components("a/./b//c/"), vec!["a", "b", "c"]);
    assert!(is_contained("a/b"));
    assert!(!is_contained("a/../b"));
    assert!(!is_contained(""));
}
