use nxpkg::config::{AppConfig, ConfigError, EnvSettings};
use nxpkg::repo::{
    add_repo_entry, parse_choice, parse_repo_cfg, remove_repo_entry, search_config_repos,
    selection_for, Selection,
};
use nxpkg::store::{cleanup_dirs, parent_of};

fn no_env() -> EnvSettings {
    EnvSettings { repo_url: None, db_path: None, cache_dir: None, require_signed_index: None, pubkey_path: None }
}

#[test]
fn defaults_apply() {
    let c = AppConfig::from_sources(None, None, None, None, &no_env());
    assert_eq!(c.repo_url, "");
    assert_eq!(c.db_path, "/var/lib/nxpkg/nxpkg_meta.db");
    assert!(c.require_signed_index);
}

#[test]
fn layering_order() {
    let sys = "[repo]\nurl = http://sys\n[security]\nrequire_signed_index = no\n";
    let user = "[ Storage ]\ncache_dir = /home/u/cache\n[repo]\nurl = http://user\n";
    let c = AppConfig::from_sources(Some(sys), Some(user), None, None, &no_env());
    assert_eq!(c.repo_url, "http://user");
    assert_eq!(c.cache_dir, "/home/u/cache");
    assert!(!c.require_signed_index);
    let env = EnvSettings { repo_url: Some("http://env".to_string()), require_signed_index: Some("TRUE".to_string()), ..no_env() };
    let c = AppConfig::from_sources(Some(sys), Some(user), None, None, &env);
    assert_eq!(c.repo_url, "http://env");
    assert!(c.require_signed_index);
}

#[test]
fn remotes_and_fallback() {
    let remotes = "[repo_remotes]\nmain = http://main\nalt = http://alt\n[active]\nName = alt\n";
    let c = AppConfig::from_sources(None, None, Some(remotes), None, &no_env());
    assert_eq!(c.repo_url, "http://alt");
    assert_eq!(c.active_repo.as_deref(), Some("alt"));
    let single = "[repo_remotes]\nonly = http://only\n";
    let c = AppConfig::from_sources(None, None, None, Some(single), &no_env());
    assert_eq!(c.repo_url, "http://only");
}

#[test]
fn remote_edits_render_files() {
    let c = AppConfig::from_sources(None, None, Some("[repo_remotes]\nmain = http://m\n[active]\nname = main\n"), None, &no_env());
    assert_eq!(c.add_repo_remote(" alt ", " http://a "), "[repo_remotes]\nalt = http://a\nmain = http://m\n\n[active]\nname = main\n");
    assert_eq!(c.remove_repo_remote("main"), "[repo_remotes]\n");
    assert_eq!(c.set_active_repo("nope"), Err(ConfigError::UnknownRemote));
    assert_eq!(c.set_active_repo("main").unwrap(), "[repo_remotes]\nmain = http://m\n\n[active]\nname = main\n");
}

#[test]
fn repo_list_is_parsed() {
    let text = "[Repos]\nfoo = https://github.com/Owner/Foo.git\nbar = https://example.org/bar\n[other]\nx = y\n";
    let r = parse_repo_cfg(text);
    assert_eq!(r.len(), 2);
    assert_eq!(r[0].name, "Owner/Foo");
    assert_eq!(r[0].owner, "Owner");
    assert_eq!(r[0].source, "GitHub");
    assert_eq!(r[1].name, "bar");
    assert_eq!(r[1].source, "Custom");
    let found = search_config_repos(&r, "FOO");
    assert_eq!(found.len(), 1);
    assert_eq!(found[0].clone_url, "https://github.com/Owner/Foo.git");
    assert!(search_config_repos(&r, "zzz").is_empty());
}

#[test]
fn repo_list_edits() {
    let cur = "[repos]\na = 1\nb = 2\n";
    assert_eq!(add_repo_entry(Some(cur), " c ", " 3 "), "[repos]\na = 1\nb = 2\nc = 3\n");
    assert_eq!(add_repo_entry(Some(cur), "a", "9"), "[repos]\na = 9\nb = 2\n");
    assert_eq!(remove_repo_entry(Some(cur), "a"), "[repos]\nb = 2\n");
    assert_eq!(add_repo_entry(None, "x", "y"), "[repos]\nx = y\n");
    assert_eq!(add_repo_entry(Some("[repos]\nz = 1\nb = 2\n"), "m", "3"), "[repos]\nb = 2\nm = 3\nz = 1\n");
}

#[test]
fn selection_decisions() {
    assert_eq!(selection_for(0, Some(10)), Selection::NoMatch);
    assert_eq!(selection_for(1, Some(10)), Selection::Only);
    assert_eq!(selection_for(25, Some(10)), Selection::Prompt(10));
    assert_eq!(selection_for(3, None), Selection::Prompt(3));
    assert_eq!(parse_choice(" 2\n", 3), Some(1));
    assert_eq!(parse_choice("+1", 3), Some(0));
    assert_eq!(parse_choice("0", 3), None);
    assert_eq!(parse_choice("4", 3), None);
    assert_eq!(parse_choice("x", 3), None);
    assert_eq!(parse_choice("99999999999999999999999", 3), None);
}

#[test]
fn uninstall_cleanup_order() {
    let files = vec!["/usr/bin/demo".to_string(), "/usr/share/demo/readme".to_string(), "/usr/bin/other".to_string()];
    assert_eq!(cleanup_dirs(&files), vec!["/usr/share/demo".to_string(), "/usr/bin".to_string()]);
    assert_eq!(parent_of("/demo").as_deref(), Some("/"));
    assert_eq!(parent_of("demo"), None);
}
