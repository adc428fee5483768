use nxpkg::recipe::{BuildInfo, InstallInfo, PackageInfo, PackageRecipe};
use nxpkg::store::{recipe_from_row, recipe_row};

fn strings(items: &[&str]) -> Vec<String> {
    items.iter().map(|s| s.to_string()).collect()
}

fn sample() -> PackageRecipe {
    PackageRecipe {
        package: PackageInfo {
            name: "demo".to_string(),
            version: "1.2.3".to_string(),
            architectures: strings(&["x86_64", "aarch64"]),
        },
        build: BuildInfo {
            dependencies: strings(&["gcc", "make"]),
            commands: strings(&["make", "make install"]),
        },
        install: InstallInfo { install_params: strings(&["--prefix=/usr"]), installed_files: vec![] },
    }
}

#[test]
fn parses_all_sections() {
    let text = "# comment\n[package]\nname = demo\nversion = 1.0\narchitectures = x86_64, , arm64\n\n[build]\ndependencies = a,b\ncommands = make; make check ;\n[install]\ninstall_params = --x, --y\n";
    let r = PackageRecipe::from_str(text).unwrap();
    assert_eq!(r.package.name, "demo");
    assert_eq!(r.package.version, "1.0");
    assert_eq!(r.package.architectures, strings(&["x86_64", "arm64"]));
    assert_eq!(r.build.dependencies, strings(&["a", "b"]));
    assert_eq!(r.build.commands, strings(&["make", "make check"]));
    assert_eq!(r.install.install_params, strings(&["--x", "--y"]));
    assert!(r.install.installed_files.is_empty());
}

#[test]
fn ignores_unknown_sections_and_comments() {
    let text = "[other]\nname = wrong\n; note\n[package]\nname = right\nversion=2\ncolor = blue\n";
    let r = PackageRecipe::from_str(text).unwrap();
    assert_eq!(r.package.name, "right");
    assert_eq!(r.package.version, "2");
}

#[test]
fn value_keeps_later_equals_signs() {
    let r = PackageRecipe::from_str("[package]\nname = a=b\nversion = 1\n").unwrap();
    assert_eq!(r.package.name, "a=b");
}

#[test]
fn missing_name_is_rejected() {
    let e = PackageRecipe::from_str("[package]\nversion = 1\n").unwrap_err();
    assert_eq!(e, "Recipe is missing 'name' in [package]");
}

#[test]
fn missing_version_is_rejected() {
    let e = PackageRecipe::from_str("[package]\nname = x\n").unwrap_err();
    assert_eq!(e, "Recipe is missing 'version' in [package]");
}

#[test]
fn empty_text_is_rejected() {
    assert!(PackageRecipe::from_str("").is_err());
}

#[test]
fn renders_exact_text() {
    let cfg = sample().to_cfg();
    assert_eq!(
        cfg,
        "[package]\nname = demo\nversion = 1.2.3\narchitectures = x86_64, aarch64\n\n[build]\ndependencies = gcc, make\ncommands = make; make install\n\n[install]\ninstall_params = --prefix=/usr\n"
    );
}

#[test]
fn renders_without_empty_lists() {
    let mut r = sample();
    r.package.architectures.clear();
    r.build.dependencies.clear();
    r.build.commands.clear();
    r.install.install_params.clear();
    assert_eq!(r.to_cfg(), "[package]\nname = demo\nversion = 1.2.3\n\n[build]\n\n[install]\n");
}

#[test]
fn render_then_parse_round_trips() {
    let r = sample();
    let back = PackageRecipe::from_str(&r.to_cfg()).unwrap();
    assert_eq!(back.package.name, r.package.name);
    assert_eq!(back.package.version, r.package.version);
    assert_eq!(back.package.architectures, r.package.architectures);
    assert_eq!(back.build.dependencies, r.build.dependencies);
    assert_eq!(back.build.commands, r.build.commands);
    assert_eq!(back.install.install_params, r.install.install_params);
}

#[test]
fn store_row_round_trips() {
    let mut r = sample();
    r.install.installed_files = strings(&["/usr/bin/demo", "/usr/share/demo/readme"]);
    let row = recipe_row(&r);
    assert_eq!(row.architectures, "x86_64,aarch64");
    assert_eq!(row.build_commands, "make;make install");
    assert_eq!(row.installed_files, "/usr/bin/demo;/usr/share/demo/readme");
    let back = recipe_from_row("demo", &row);
    assert_eq!(back.package.name, "demo");
    assert_eq!(back.package.architectures, r.package.architectures);
    assert_eq!(back.build.commands, r.build.commands);
    assert_eq!(back.install.installed_files, r.install.installed_files);
}
