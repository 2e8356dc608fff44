use ox::config::{
    config_candidates, config_name, default_heartbeat_grace, default_triggers, defaults_are_current,
    embedded_fingerprint, find_config, is_workflow_file, load_all_configs, load_config, load_triggers, make_writable,
    mark_readonly, resolve_search_path, search_path_candidates, ConfigLayer, OxConfig,
};
use ox::strmap::StringMap;
use ox::workflow::{TriggerDef, TriggersFile};

fn strings(v: &[&str]) -> Vec<String> {
    v.iter().map(|s| s.to_string()).collect()
}

fn loaded(triggers: &[&str], heartbeat_grace: u64, watchers: &[&str]) -> ConfigLayer {
    ConfigLayer::Loaded(OxConfig {
        triggers: strings(triggers),
        heartbeat_grace,
        watchers: strings(watchers),
    })
}

#[test]
fn load_config_parses_watchers_from_config_toml() {
    let cfg = load_config(&vec![("/repo/.ox".to_string(), loaded(&[], 60, &["cx"]))]);
    assert_eq!(cfg.watchers, vec!["cx".to_string()]);
}

#[test]
fn load_config_merges_watchers_additively_across_search_path() {
    let cfg = load_config(&vec![
        ("/a".to_string(), loaded(&[], 60, &["cx"])),
        ("/b".to_string(), loaded(&[], 60, &["linear", "github"])),
    ]);
    assert_eq!(
        cfg.watchers,
        vec!["cx".to_string(), "linear".to_string(), "github".to_string()]
    );
}

/// A project that declares the same watcher in both its local
/// config.toml and the embedded defaults must only spawn ONE
/// watcher process. De-dup is first-wins, so the repo-local
/// ordering is preserved.
#[test]
fn load_config_dedups_watchers_declared_in_two_layers() {
    let cfg = load_config(&vec![
        ("/a".to_string(), loaded(&[], 60, &["cx"])),
        ("/b".to_string(), loaded(&[], 60, &["cx"])),
    ]);
    assert_eq!(cfg.watchers, vec!["cx".to_string()]);
}

#[test]
fn load_config_watchers_defaults_to_empty() {
    let cfg = load_config(&vec![("/a".to_string(), loaded(&[], 60, &[]))]);
    assert!(cfg.watchers.is_empty());
}

#[test]
fn triggers_add_up_and_the_first_heartbeat_wins() {
    let cfg = load_config(&vec![
        ("/a".to_string(), ConfigLayer::Missing { default_triggers_exist: true }),
        ("/b".to_string(), loaded(&["t.toml", "/abs.toml"], 5, &[])),
        ("/c".to_string(), ConfigLayer::Broken),
        ("/d".to_string(), loaded(&["u.toml"], 9, &[])),
    ]);
    assert_eq!(cfg.triggers, vec!["/b/t.toml", "/abs.toml", "/d/u.toml"]);
    assert_eq!(cfg.heartbeat_grace, 5);
}

#[test]
fn without_config_the_default_trigger_files_count() {
    let cfg = load_config(&vec![
        ("/a".to_string(), ConfigLayer::Missing { default_triggers_exist: true }),
        ("/b".to_string(), ConfigLayer::Missing { default_triggers_exist: false }),
    ]);
    assert_eq!(cfg.triggers, vec!["/a/workflows/triggers.toml"]);
    assert_eq!(cfg.heartbeat_grace, 60);
    let broken = load_config(&vec![("/a".to_string(), ConfigLayer::Broken)]);
    assert!(broken.triggers.is_empty(), "a broken config is a config");
}

#[test]
fn config_defaults() {
    let c = OxConfig::default();
    assert_eq!(c.triggers, default_triggers());
    assert_eq!(c.triggers, vec!["workflows/triggers.toml"]);
    assert_eq!(c.heartbeat_grace, default_heartbeat_grace());
    assert!(c.watchers.is_empty());
}

#[test]
fn search_path_order() {
    assert_eq!(
        search_path_candidates("/repo", Some("~/x:/y"), Some("/home/u")),
        vec!["/repo/.ox", "/home/u/x", "/y", "/home/u/.ox/defaults"]
    );
    assert_eq!(search_path_candidates("/repo", Some("~/x"), None), vec!["/repo/.ox", "~/x"]);
    assert_eq!(search_path_candidates("/repo", None, None), vec!["/repo/.ox"]);
}

#[test]
fn resolve_search_path_includes_extracted_defaults() {
    let existing = strings(&["/tmp/searchpath-home/.ox/defaults"]);
    let path = resolve_search_path("/tmp/searchpath-repo", None, Some("/tmp/searchpath-home"), &existing);
    let expected = "/tmp/searchpath-home/.ox/defaults";
    assert!(
        path.iter().any(|p| p == expected),
        "search path {path:?} should include {expected:?}"
    );
}

#[test]
fn search_path_holds_existing_directories_only() {
    let existing = strings(&["/home/u/.ox/defaults", "/y", "/elsewhere", "/repo/.ox"]);
    assert_eq!(
        resolve_search_path("/repo", Some("~/x:/y"), Some("/home/u"), &existing),
        vec!["/repo/.ox", "/y", "/home/u/.ox/defaults"]
    );
    assert!(resolve_search_path("/repo", None, None, &vec![]).is_empty());
}

#[test]
fn find_config_first_match_wins() {
    // The file stands in both directories.
    let files = strings(&["/tmp/ox-config-test/b/runtimes/codex.toml", "/tmp/ox-config-test/a/runtimes/codex.toml"]);

    let search = strings(&["/tmp/ox-config-test/a", "/tmp/ox-config-test/b"]);
    let found = find_config(&search, "runtimes", "codex", &files).unwrap();
    assert_eq!(found, "/tmp/ox-config-test/a/runtimes/codex.toml");
}

#[test]
fn find_config_passes_over_what_is_not_there() {
    let search = strings(&["/a", "/b"]);
    assert_eq!(
        config_candidates(&search, "runtimes", "codex"),
        vec!["/a/runtimes/codex.toml", "/b/runtimes/codex.toml"]
    );
    let files = strings(&["/b/runtimes/codex.toml", "/a/runtimes/other.toml"]);
    assert_eq!(find_config(&search, "runtimes", "codex", &files), Some("/b/runtimes/codex.toml".to_string()));
    assert_eq!(find_config(&search, "runtimes", "shell", &files), None);
    assert_eq!(find_config(&search, "runtimes", "codex", &vec![]), None);
}

#[test]
fn named_configs_are_found() {
    let search = strings(&["/a", "/b"]);
    let listed = strings(&["/a/w/x.toml", "/a/w/n.txt", "/b/w/y.toml", "/b/w/x.toml"]);
    for (name, path) in load_all_configs(&listed) {
        assert_eq!(find_config(&search, "w", &name, &listed), Some(path));
    }
}

#[test]
fn configs_are_named_after_their_files() {
    assert_eq!(config_name("/x/workflows/code-task.toml"), Some("code-task".to_string()));
    assert_eq!(config_name("/x/.toml"), None);
    assert_eq!(config_name("/x/readme.md"), None);
    let found = load_all_configs(&strings(&["/a/w/x.toml", "/a/w/n.txt", "/b/w/y.toml", "/b/w/x.toml"]));
    assert_eq!(
        found,
        vec![("x".to_string(), "/a/w/x.toml".to_string()), ("y".to_string(), "/b/w/y.toml".to_string())]
    );
}

#[test]
fn is_workflow_file_true_for_file_with_workflow_table() {
    let content = r#"
[workflow]
name = "code-task"

[[step]]
name = "one"
"#;
    assert!(is_workflow_file(content).unwrap());
}

#[test]
fn is_workflow_file_false_for_triggers_toml() {
    // A triggers file has no [workflow] table — it's a [[trigger]]
    // array. Loader should skip silently without warning.
    let content = r#"
[[trigger]]
on       = "cx.task_ready"
tag      = "workflow:code-task"
workflow = "code-task"
"#;
    assert!(!is_workflow_file(content).unwrap());
}

#[test]
fn is_workflow_file_err_on_invalid_toml() {
    // Broken TOML is a real problem — the loader should still warn
    // loudly rather than silently skipping.
    assert!(is_workflow_file("[this is not = valid = toml").is_err());
}

#[test]
fn is_workflow_file_asks_for_a_table() {
    assert!(!is_workflow_file("workflow = \"code-task\"\n").unwrap());
    assert!(!is_workflow_file("[[workflow]]\nname = \"x\"\n").unwrap());
    assert!(!is_workflow_file("[other.workflow]\n").unwrap());
    assert!(is_workflow_file("workflow = { name = \"x\" }\n").unwrap());
}

#[test]
fn extracted_defaults_are_stamped() {
    let want = embedded_fingerprint("0.1.0", 0xdeadbeef);
    assert_eq!(want, "0.1.0-deadbeef");
    assert!(defaults_are_current(Some("0.1.0-deadbeef\n"), &want));
    assert!(!defaults_are_current(Some("bogus"), &want));
    assert!(!defaults_are_current(None, &want));
    assert_eq!(mark_readonly(false), 0o444);
    assert_eq!(mark_readonly(true), 0o555);
    assert_eq!(make_writable(false), 0o644);
    assert_eq!(make_writable(true), 0o755);
}

#[test]
fn trigger_files_add_up() {
    let t = |workflow: &str| TriggerDef {
        on: "node.ready".into(),
        source: None,
        where_: StringMap::new(),
        workflow: workflow.into(),
        poll_interval: None,
        vars: StringMap::new(),
    };
    let all = load_triggers(vec![
        Some(TriggersFile { trigger: vec![t("a"), t("b")] }),
        None,
        Some(TriggersFile { trigger: vec![t("c")] }),
    ]);
    let names: Vec<&str> = all.iter().map(|t| t.workflow.as_str()).collect();
    assert_eq!(names, vec!["a", "b", "c"]);
}
