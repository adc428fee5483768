use nxpkg::pipeline::{packaged_recipe, phase_for_stage};
use nxpkg::archive::{package_file_name, Action, EntryKind, Existing, UnpackSession};
use nxpkg::recipe::PackageRecipe;
use nxpkg::buildsys::{
    build_commands, detect_candidates, kind_for_file, select_build_system, BuildKind, BuildProfile,
    Phase,
};
use nxpkg::isolation::{
    child_plan, exit_status_of, may_isolate, on_failure, resolve_command, unprivileged_uid,
    ChildStep, OnFailure, WaitOutcome,
};
use nxpkg::pipeline::{
    cargo_manifest_version, derive_package_name, next_stage, package_name_for, resolve_version,
    step_verdict, BuildFailure, Stage,
};
use nxpkg::sandbox::{files_to_copy, parse_ldd_output, ChrootEnv};

fn v(items: &[&str]) -> Vec<String> {
    items.iter().map(|s| s.to_string()).collect()
}

#[test]
fn detection_prefers_meson_over_cmake() {
    let c = detect_candidates(&v(&["meson.build", "CMakeLists.txt", "src/main.c"]));
    assert_eq!(c.len(), 2);
    assert_eq!(select_build_system(&c, None).unwrap().kind, BuildKind::Meson);
    assert_eq!(select_build_system(&c, Some(BuildKind::CMake)).unwrap().kind, BuildKind::CMake);
}

#[test]
fn detection_prefers_shallow_and_priority() {
    let c = detect_candidates(&v(&["sub/deep/Cargo.toml", "Makefile", "x/Cargo.toml"]));
    let s = select_build_system(&c, None).unwrap();
    assert_eq!(s.kind, BuildKind::Cargo);
    assert_eq!(s.dir, "x");
    assert_eq!(s.depth, 1);
}

#[test]
fn forced_kind_without_candidates_uses_root() {
    let c = detect_candidates(&v(&["README"]));
    assert!(select_build_system(&c, None).is_none());
    let s = select_build_system(&c, Some(BuildKind::Make)).unwrap();
    assert_eq!((s.kind, s.dir.as_str(), s.depth), (BuildKind::Make, "", 0));
}

#[test]
fn signature_files() {
    assert_eq!(kind_for_file("GNUmakefile"), Some(BuildKind::Make));
    assert_eq!(kind_for_file("SConscript"), Some(BuildKind::SCons));
    assert_eq!(kind_for_file("cargo.toml"), None);
}

#[test]
fn cargo_commands() {
    let mut p = BuildProfile::new("demo");
    p.build_args = v(&["--locked"]);
    let cmds = build_commands(BuildKind::Cargo, &"/build/demo".to_string(), &"/pkg".to_string(), &p, false);
    assert_eq!(cmds.len(), 2);
    assert_eq!(cmds[0].program, "cargo");
    assert_eq!(cmds[0].args, v(&["build", "--release", "--locked"]));
    assert_eq!(cmds[0].cwd.as_deref(), Some("/build/demo"));
    assert_eq!(cmds[1].phase, Phase::Install);
    assert_eq!(cmds[1].args, v(&["install", "--path", "/build/demo", "--root", "/pkg"]));
}

#[test]
fn cmake_and_make_commands() {
    let mut p = BuildProfile::new("x");
    let cm = build_commands(BuildKind::CMake, &"/s".to_string(), &"/pkg".to_string(), &p, false);
    assert_eq!(cm[1].args, v(&["--build", "/s/build"]));
    assert_eq!(cm[2].program, "env");
    assert_eq!(cm[2].args, v(&["DESTDIR=/pkg", "cmake", "--install", "/s/build", "--prefix", "/usr"]));
    p.build_args = v(&["-j4"]);
    let cm = build_commands(BuildKind::CMake, &"/s".to_string(), &"/pkg".to_string(), &p, false);
    assert_eq!(cm[1].args, v(&["--build", "/s/build", "--", "-j4"]));
    let mk = build_commands(BuildKind::Make, &"/s".to_string(), &"/pkg".to_string(), &p, true);
    assert_eq!(mk.len(), 3);
    assert_eq!(mk[0].program, "./configure");
    assert_eq!(mk[2].args, v(&["install", "DESTDIR=/pkg", "PREFIX=/usr"]));
    let mk = build_commands(BuildKind::Make, &"/s".to_string(), &"/pkg".to_string(), &p, false);
    assert_eq!(mk.len(), 2);
}

#[test]
fn meson_commands() {
    let p = BuildProfile::new("x");
    let m = build_commands(BuildKind::Meson, &"/s".to_string(), &"/pkg".to_string(), &p, false);
    assert_eq!(m[0].args, v(&["setup", "/s/build", "/s", "--prefix=/usr"]));
    assert_eq!(m[2].args, v(&["install", "-C", "/s/build", "--destdir", "/pkg"]));
}

#[test]
fn manifest_version_and_name() {
    let toml = "[package]\nname = \"demo\"\nversion = \"1.2.3\"\n[dependencies]\nversion = \"9\"\n";
    assert_eq!(cargo_manifest_version(toml).as_deref(), Some("1.2.3"));
    assert_eq!(cargo_manifest_version("[lib]\nversion = \"1\"\n"), None);
    assert_eq!(resolve_version(None, Some(toml), None), "1.2.3");
    assert_eq!(resolve_version(None, None, Some(" v2-3-gabc\n")), "v2-3-gabc");
    assert_eq!(resolve_version(None, None, Some("  ")), "0.0.0");
    assert_eq!(resolve_version(Some("5"), Some(toml), None), "5");
}

#[test]
fn package_names_from_folders() {
    assert_eq!(derive_package_name("Mesa-Drivers", "x86_64").as_deref(), Some("mesa-x86_64"));
    assert_eq!(derive_package_name("linux", "aarch64").as_deref(), Some("linux-aarch64"));
    assert_eq!(derive_package_name("my-KERNEL", "arm").as_deref(), Some("linux-arm"));
    assert_eq!(derive_package_name("demo", "arm"), None);
    assert_eq!(package_name_for("linuxish", "x"), None);
}

#[test]
fn stages_and_verdicts() {
    assert_eq!(next_stage(Stage::Selected, true), Stage::Cloned);
    assert_eq!(next_stage(Stage::Built, false), Stage::CleanedUp);
    assert_eq!(next_stage(Stage::Packaged, true), Stage::CleanedUp);
    assert_eq!(step_verdict(Phase::Build, 0), None);
    assert_eq!(step_verdict(Phase::Install, 2), Some(BuildFailure::InstallFailed));
    assert_eq!(step_verdict(Phase::Configure, 1), Some(BuildFailure::BuildFailed));
}

#[test]
fn isolation_plan_and_codes() {
    let p = child_plan(Some("/build"));
    assert_eq!(p.len(), 13);
    assert_eq!(p[1], ChildStep::PrivatePropagation);
    assert_eq!(p[11], ChildStep::ChdirCwd);
    assert_eq!(p[12], ChildStep::Exec);
    let bad = child_plan(Some("build"));
    assert_eq!(bad.last(), Some(&ChildStep::RejectCwd));
    assert_eq!(on_failure(ChildStep::RejectCwd), OnFailure::Exit(110));
    assert_eq!(on_failure(ChildStep::BindSys), OnFailure::Warn);
    assert_eq!(on_failure(ChildStep::SetUid), OnFailure::Exit(109));
    assert_eq!(unprivileged_uid(), 65534);
    assert!(may_isolate(0) && !may_isolate(1000));
}

#[test]
fn command_resolution_and_status() {
    assert_eq!(resolve_command("make", true, true), "/usr/bin/make");
    assert_eq!(resolve_command("make", false, true), "/bin/make");
    assert_eq!(resolve_command("make", false, false), "make");
    assert_eq!(resolve_command("./configure", true, true), "./configure");
    assert_eq!(exit_status_of(WaitOutcome::Exited(3)), 3);
    assert_eq!(exit_status_of(WaitOutcome::Signaled(9)), 9);
    assert_eq!(exit_status_of(WaitOutcome::Other), 1);
}

#[test]
fn ldd_listing_is_parsed() {
    let out = "\tlinux-vdso.so.1 (0x00007ffc)\n\tlibc.so.6 => /lib/x86_64-linux-gnu/libc.so.6 (0x00007f)\n\t/lib64/ld-linux-x86-64.so.2 (0x00007f)\n\tlibm.so.6 => not found\n";
    assert_eq!(
        parse_ldd_output(out),
        v(&["/lib/x86_64-linux-gnu/libc.so.6", "/lib64/ld-linux-x86-64.so.2", "not"])
    );
}

#[test]
fn copy_list_skips_known_files() {
    let out = "libc.so.6 => /lib/libc.so.6 (0x1)\nlibc.so.6 => /lib/libc.so.6 (0x1)\n/lib64/ld.so (0x2)\n";
    let copied = v(&["/lib64/ld.so"]);
    assert_eq!(files_to_copy(&"/usr/bin/make".to_string(), out, &copied), v(&["/usr/bin/make", "/lib/libc.so.6"]));
}

#[test]
fn sandbox_paths() {
    let env = ChrootEnv::new("/tmp/nxpkg-chroot");
    assert_eq!(env.host_file_dest("/usr/lib/libz.so"), "/tmp/nxpkg-chroot/usr/lib/libz.so");
    assert_eq!(env.mount_points(), v(&["/tmp/nxpkg-chroot/proc", "/tmp/nxpkg-chroot/dev", "/tmp/nxpkg-chroot/sys"]));
    assert_eq!(env.layout_dirs().len(), 10);
    assert_eq!(env.layout_dirs()[9], "/tmp/nxpkg-chroot/tmp");
    assert_eq!(env.toolchain().len(), 14);
}

#[test]
fn cargo_build_and_package_scenario() {
    let arch = "x86_64";
    let files = v(&["Cargo.toml", "src/main.rs"]);
    let chosen = select_build_system(&detect_candidates(&files), None).unwrap();
    assert_eq!(chosen.kind, BuildKind::Cargo);
    let manifest = "[package]\nname = \"demo\"\nversion = \"1.2.3\"";
    let version = resolve_version(None, Some(manifest), None);
    assert_eq!(version, "1.2.3");
    let name = format!("demo-{}", arch);
    let cfg = format!("[package]\nname = {}\nversion = {}\narchitectures = {}\n", name, version, arch);
    let recipe = PackageRecipe::from_str(&cfg).unwrap();
    assert_eq!(package_file_name(&recipe), "demo-x86_64-1.2.3.nxpkg");
    let back = PackageRecipe::from_str(&recipe.to_cfg()).unwrap();
    assert_eq!(back.package.name, "demo-x86_64");
    assert_eq!(back.package.version, "1.2.3");
    let mut session = UnpackSession::new("/tmp/root");
    let plan = session.plan_entry(EntryKind::Regular, "bin/demo", None, 0o100755).unwrap().unwrap();
    assert_eq!(plan.dest, "/tmp/root/bin/demo");
    assert_eq!(
        session.commit_entry(&plan, false, Existing::Missing),
        Ok(Action::WriteFile { replace: false, mode: 0o755 })
    );
}

#[test]
fn stage_phases_and_packaged_recipe() {
    assert_eq!(phase_for_stage(Stage::Detected), Some(Phase::Configure));
    assert_eq!(phase_for_stage(Stage::Configured), Some(Phase::Build));
    assert_eq!(phase_for_stage(Stage::Built), Some(Phase::Install));
    assert_eq!(phase_for_stage(Stage::Packaged), None);
    let p = BuildProfile::new("demo");
    let cmds = build_commands(BuildKind::Make, &"/s".to_string(), &"/pkg".to_string(), &p, false);
    let r = packaged_recipe("demo-x86_64", "1.2.3", "x86_64", &cmds);
    assert_eq!(r.package.name, "demo-x86_64");
    assert_eq!(r.package.architectures, v(&["x86_64"]));
    assert_eq!(r.build.commands, v(&["make", "make install DESTDIR=/pkg PREFIX=/usr"]));
}
