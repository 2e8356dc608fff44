use ox::ctl::up::{
    count_alive, credential_sources, find_in_path, is_runner_workspace, parse_pidfile, path_candidates, project_name,
    refuse_reset, refuse_up, required_binaries, resolve_binaries_in, sccache_cache_dir, seguro_runner_argv, Binaries, PidEntry,
    RunPaths, UpConfig,
};

#[test]
fn run_paths_lays_out_run_dir_correctly() {
    let paths = RunPaths::for_repo("/tmp/fake-repo");
    assert_eq!(paths.run_dir, "/tmp/fake-repo/.ox/run");
    assert_eq!(paths.log_dir, "/tmp/fake-repo/.ox/run/logs");
    assert_eq!(paths.pidfile, "/tmp/fake-repo/.ox/run/ox.pids");
    assert_eq!(paths.db, "/tmp/fake-repo/.ox/run/ox.db");
    assert_eq!(paths.scripts_dir, "/tmp/fake-repo/.ox/run/scripts");
    assert_eq!(paths.runner_workspace(2), "/tmp/fake-repo/.ox/run/runner-2");
}

#[test]
fn pidfile_roundtrip() {
    let entries = vec![
        PidEntry { pid: 123, name: "server".into() },
        PidEntry { pid: 456, name: "herder".into() },
        PidEntry { pid: 789, name: "runner-1".into() },
    ];
    let content: String = entries.iter().map(|e| e.format_line()).collect();
    let parsed = parse_pidfile(&content);
    assert_eq!(parsed, entries);
}

#[test]
fn pidfile_skips_malformed_lines() {
    let content = "\
        123 server\n\
        \n\
        garbage\n\
        456\n\
        789 runner-1\n\
    ";
    let parsed = parse_pidfile(content);
    assert_eq!(parsed.len(), 2);
    assert_eq!(parsed[0].name, "server");
    assert_eq!(parsed[1].name, "runner-1");
}

#[test]
fn pidfile_entries_survive_what_stands_between_them() {
    let entries = vec![
        PidEntry { pid: 0, name: "server".into() },
        PidEntry { pid: u32::MAX, name: "herder of repo".into() },
        PidEntry { pid: 7, name: "runner-1".into() },
    ];
    let between = ["\n", "  \t\r\n", "garbage\n", "456\n", "456 \n", "-1 x\n", "4294967296 x\n", "x 1\n"];
    for other in between {
        let mut content = other.to_string();
        for e in &entries {
            content.push_str(&e.format_line());
            content.push_str(other);
        }
        assert_eq!(parse_pidfile(&content), entries, "with {other:?} between");
    }
}

#[test]
fn resolve_binaries_finds_siblings() {
    let bins = resolve_binaries_in("/bins-ok", &[true, true, true, true]).unwrap();
    assert_eq!(bins.ox_server, "/bins-ok/ox-server");
    assert_eq!(bins.ox_herder, "/bins-ok/ox-herder");
    assert_eq!(bins.bin_dir, "/bins-ok");
    let places: Vec<String> = required_binaries("/bins-ok").into_iter().map(|(_, place)| place).collect();
    assert_eq!(places, vec!["/bins-ok/ox-server", "/bins-ok/ox-herder", "/bins-ok/ox-runner", "/bins-ok/ox-rt"]);
}

#[test]
fn resolve_binaries_errors_when_any_missing() {
    // no herder, runner, or rt
    let err = resolve_binaries_in("/bins-missing", &[true, false, false, false]).unwrap_err();
    assert!(err.contains("ox-herder"), "got: {err}");
}

#[test]
fn resolve_binaries_errors_when_ox_rt_missing() {
    // ox-rt deliberately missing
    let err = resolve_binaries_in("/bins-no-rt", &[true, true, true, false]).unwrap_err();
    assert!(err.contains("ox-rt"), "got: {err}");
}

#[test]
fn seguro_runner_argv_builds_expected_shape() {
    let args = seguro_runner_argv("/ox-bin", "/ox-scripts", "/sccache-host", "http://10.0.2.2:4840");
    assert_eq!(args[0], "run");
    // Shares in the correct order and format.
    let joined = args.join(" ");
    assert!(joined.contains("--share /ox-bin:/ox/bin:ro"));
    assert!(joined.contains("--share /ox-scripts:/ox/scripts:ro"));
    // sccache share is writable (no :ro suffix).
    assert!(
        joined.contains("--share /sccache-host:/cache/sccache"),
        "missing sccache share in: {joined}"
    );
    assert!(
        !joined.contains("/sccache-host:/cache/sccache:ro"),
        "sccache share must not be read-only"
    );
    // Dev bridge + unsafe flags present.
    assert!(joined.contains("--net dev-bridge"));
    assert!(joined.contains("--unsafe-dev-bridge"));
    assert!(joined.contains("--persistent"));
    // End-of-options sentinel, then bash -c <guest-cmd>.
    let sep = args.iter().position(|a| a == "--").expect("-- sentinel");
    assert_eq!(args[sep + 1], "bash");
    assert_eq!(args[sep + 2], "-c");
    let guest = &args[sep + 3];
    assert!(guest.contains("/ox/bin/ox-runner"));
    assert!(guest.contains("--server http://10.0.2.2:4840"));
    assert!(guest.contains("--environment seguro"));
    assert!(guest.contains("HOME=/home/agent"));
    // sccache env vars for rustc wrapping inside the guest.
    assert!(
        guest.contains("SCCACHE_DIR=/cache/sccache"),
        "missing SCCACHE_DIR export in guest cmd: {guest}"
    );
    assert!(
        guest.contains("RUSTC_WRAPPER=sccache"),
        "missing RUSTC_WRAPPER export in guest cmd: {guest}"
    );
}

#[test]
fn ensemble_is_planned_in_order() {
    let cfg = UpConfig {
        repo: "/r".into(),
        bins: Binaries { ox_server: "/b/ox-server".into(), ox_herder: "/b/ox-herder".into(), bin_dir: "/b".into() },
        sccache_dir: "/c".into(),
        port: 4840,
        runners: 2,
        watchers: vec!["cx".into()],
    };
    assert_eq!(cfg.server_url(), "http://localhost:4840");
    let plan = cfg.plan();
    let names: Vec<&str> = plan.iter().map(|l| l.name.as_str()).collect();
    assert_eq!(names, vec!["server", "herder", "cx-watcher", "runner-1", "runner-2"]);
    assert_eq!(plan[0].program, "/b/ox-server");
    assert_eq!(plan[0].args, vec!["--port", "4840", "--repo", "/r", "--db", "/r/.ox/run/ox.db"]);
    assert_eq!(plan[1].args, vec!["--server", "http://localhost:4840"]);
    assert_eq!(plan[2].program, "/b/ox-cx-watcher");
    assert_eq!(plan[2].log, "/r/.ox/run/logs/cx-watcher.log");
    assert_eq!(plan[3].program, "seguro");
    assert_eq!(plan[4].workspace.as_deref(), Some("/r/.ox/run/runner-2"));
    assert_eq!(plan[4].args, seguro_runner_argv("/b", "/r/.ox/run/scripts", "/c", "http://10.0.2.2:4840"));
}

#[test]
fn running_ensembles_are_left_alone() {
    assert_eq!(count_alive(&vec![true, false, true]), 2);
    assert!(refuse_up(0).is_none());
    assert!(refuse_up(2).unwrap().starts_with("ox is already running (2 "));
    assert!(refuse_reset(0).is_none());
    assert!(refuse_reset(1).unwrap().starts_with("ox is still running (1 "));
}

#[test]
fn places_of_the_ensemble() {
    assert_eq!(project_name("/home/u/proj/"), "proj");
    assert_eq!(project_name("/"), "unknown");
    assert!(is_runner_workspace("runner-7"));
    assert!(!is_runner_workspace("logs"));
    assert_eq!(path_candidates("/a:/b", "cx"), vec!["/a/cx", "/b/cx"]);
    let files = vec!["/b/cx".to_string(), "/c/cx".to_string()];
    assert_eq!(find_in_path("/a:/b:/c", "cx", &files), Some("/b/cx".to_string()));
    assert_eq!(find_in_path("/a", "cx", &files), None);
    assert_eq!(sccache_cache_dir("/home/u"), "/home/u/.cache/ox/sccache");
    let files = RunPaths::for_repo("/r").database_files();
    assert_eq!(files[0], "/r/.ox/run/ox.db");
    let sources = credential_sources("/home/u");
    assert_eq!(sources[1], ("codex_auth".to_string(), "/home/u/.codex/auth.json".to_string()));
    assert_eq!(sources[0].0, "claude_credentials");
}
