use indexmap::IndexMap;
use ox::runtime::{
    collect_secret_refs, compile_signals, default_file_mode, default_metric_source, default_signal_retriable,
    default_signal_tail_bytes, file_candidates, find_and_read_file, resolve_step_spec, source_names,
    toml_value_to_string, CommandDef, FileMappingDef, MetricSource, OptionalArgsDef, ProxyDef, RuntimeDef, RuntimeFailureSignal,
};
use ox::strmap::StringMap;
use ox::workflow::{RuntimeSpec, TomlValue, VarDef, VarType};

fn map(pairs: &[(&str, &str)]) -> StringMap<String> {
    let mut m = StringMap::new();
    for (k, v) in pairs {
        m.insert(k.to_string(), v.to_string());
    }
    m
}

fn var(default: Option<&str>) -> VarDef {
    VarDef {
        var_type: VarType::String,
        required: false,
        default: default.map(String::from),
        description: None,
        search_dir: None,
    }
}

fn runtime(vars: IndexMap<String, VarDef>, cmd: &[&str]) -> RuntimeDef {
    RuntimeDef {
        name: "test".into(),
        vars,
        command: CommandDef {
            cmd: cmd.iter().map(|s| s.to_string()).collect(),
            interactive_cmd: None,
            optional: vec![],
        },
        files: vec![],
        env: StringMap::new(),
        proxy: vec![],
        metrics: vec![],
        failure_signals: vec![],
    }
}

fn step() -> RuntimeSpec {
    RuntimeSpec {
        runtime: "test".into(),
        tty: false,
        env: StringMap::new(),
        timeout: None,
        fields: StringMap::new(),
    }
}

#[test]
fn metric_source_default() {
    assert_eq!(default_metric_source(), MetricSource::Runtime);
}

#[test]
fn resolve_step_spec_scoped_vars() {
    // Runtime with a "prompt" var
    let mut runtime_def = runtime(
        IndexMap::from([("prompt".to_string(), var(Some("default-prompt")))]),
        &["echo", "{var.prompt}"],
    );
    runtime_def.files = vec![FileMappingDef {
        from: None,
        content: Some("{workflow.task_id} says {var.prompt}".into()),
        to: "{tmp_dir}/test.txt".into(),
        mode: "0644".into(),
    }];

    let step_runtime = step();

    // Context vars (workflow vars already prefixed by dispatch handler)
    let context_vars = map(&[("workflow.task_id", "aJuO")]);

    let resolved = resolve_step_spec(
        &runtime_def,
        &step_runtime,
        &StringMap::new(),
        &StringMap::new(),
        &context_vars,
    )
    .unwrap();

    // Command should resolve {var.prompt} to the default
    assert_eq!(resolved.command, vec!["echo", "default-prompt"]);

    // File content should resolve both scopes
    assert_eq!(resolved.files.len(), 1);
    assert_eq!(resolved.files[0].content, "aJuO says default-prompt");
    assert_eq!(resolved.files[0].to, "{tmp_dir}/test.txt", "runner placeholders are left for the runner");
}

#[test]
fn resolve_step_spec_step_override() {
    let runtime_def = runtime(
        IndexMap::from([("prompt".to_string(), var(Some("default")))]),
        &["echo", "{var.prompt}"],
    );

    // Step overrides prompt
    let mut step_runtime = step();
    step_runtime.fields.insert("prompt".to_string(), TomlValue::String("overridden".into()));

    let resolved = resolve_step_spec(
        &runtime_def,
        &step_runtime,
        &StringMap::new(),
        &StringMap::new(),
        &StringMap::new(),
    )
    .unwrap();

    assert_eq!(resolved.command, vec!["echo", "overridden"]);
}

#[test]
fn optional_args_follow_their_variable() {
    let mut def = runtime(
        IndexMap::from([("model".to_string(), var(None)), ("seed".to_string(), var(None))]),
        &["tool", "{unknown}"],
    );
    def.command.interactive_cmd = Some(vec!["tool".into(), "-i".into()]);
    def.command.optional = vec![
        OptionalArgsDef { when: "model".into(), args: vec!["--model".into(), "{var.model}".into()] },
        OptionalArgsDef { when: "seed".into(), args: vec!["--seed".into()] },
    ];
    let mut s = step();
    s.fields.insert("model".to_string(), TomlValue::Integer(-4));
    let r = resolve_step_spec(&def, &s, &StringMap::new(), &StringMap::new(), &StringMap::new()).unwrap();
    assert_eq!(r.command, vec!["tool", "{unknown}", "--model", "-4"], "what does not resolve stays");
    assert_eq!(r.interactive_command, Some(vec!["tool".to_string(), "-i".to_string()]));
    assert!(!r.tty);

    s.tty = true;
    let r = resolve_step_spec(&def, &s, &StringMap::new(), &StringMap::new(), &StringMap::new()).unwrap();
    assert_eq!(r.command, vec!["tool", "-i", "--model", "-4"]);
    assert_eq!(r.interactive_command, None);
    assert!(r.tty);
}

#[test]
fn environment_resolves_with_secrets_and_step_overrides() {
    let mut def = runtime(IndexMap::new(), &["true"]);
    def.env = map(&[("KEY", "{secret.k}"), ("GONE", "{secret.absent}"), ("MODE", "runtime")]);
    def.proxy = vec![ProxyDef { env: "URL".into(), provider: "openai".into(), target: "http://t".into() }];
    let mut s = step();
    s.env = map(&[("MODE", "step"), ("TOK", "{secret.k}{secret.t}")]);
    let r = resolve_step_spec(&def, &s, &map(&[("k", "sk")]), &StringMap::new(), &StringMap::new()).unwrap();
    assert_eq!(r.env.get("KEY").map(String::as_str), Some("sk"));
    assert_eq!(r.env.get("MODE").map(String::as_str), Some("step"));
    assert!(!r.env.contains_key("GONE"));
    assert!(!r.env.contains_key("TOK"));
    assert_eq!(r.proxy.len(), 1);
    assert_eq!(r.proxy[0].target, "http://t");
    assert_eq!(collect_secret_refs(&def, &s), vec!["k", "absent", "t"]);
}

#[test]
fn file_content_is_resolved_twice() {
    let mut def = runtime(IndexMap::new(), &["true"]);
    let file = |content: Option<&str>| FileMappingDef {
        from: None,
        content: content.map(String::from),
        to: "out".into(),
        mode: default_file_mode(),
    };
    def.files = vec![file(Some("{workflow.persona}")), file(None), file(Some("{secret.none}"))];
    let ctx = map(&[("workflow.persona", "You do {workflow.task_id}"), ("workflow.task_id", "T1")]);
    let r = resolve_step_spec(&def, &step(), &StringMap::new(), &StringMap::new(), &ctx).unwrap();
    assert_eq!(r.files.len(), 1, "a mapping without content, or that does not resolve, places no file");
    assert_eq!(r.files[0].content, "You do T1");
    assert_eq!(r.files[0].mode, "0644");
    let ctx = map(&[("workflow.persona", "You do {unknown}")]);
    let r = resolve_step_spec(&def, &step(), &StringMap::new(), &StringMap::new(), &ctx).unwrap();
    assert_eq!(r.files[0].content, "You do {unknown}");
}

#[test]
fn context_wins_over_runtime_vars() {
    let def = runtime(IndexMap::from([("x".to_string(), var(Some("d")))]), &["{var.x}"]);
    let r = resolve_step_spec(&def, &step(), &StringMap::new(), &StringMap::new(), &map(&[("var.x", "c")])).unwrap();
    assert_eq!(r.command, vec!["c"]);
}

#[test]
fn toml_values_as_text() {
    assert_eq!(toml_value_to_string(&TomlValue::String("s".into())), "s");
    assert_eq!(toml_value_to_string(&TomlValue::Integer(-12)), "-12");
    assert_eq!(toml_value_to_string(&TomlValue::Float("0.7".into())), "0.7");
    assert_eq!(toml_value_to_string(&TomlValue::Boolean(true)), "true");
    assert_eq!(toml_value_to_string(&TomlValue::Other("[1, 2]".into())), "[1, 2]");
}

#[test]
fn compile_failure_signals_rejects_invalid_regex() {
    let mut rt = runtime(IndexMap::new(), &["true"]);
    rt.failure_signals = vec![RuntimeFailureSignal {
        name: "broken".into(),
        pattern: "(unclosed".into(),
        retriable: false,
        tail_bytes: 1024,
    }];
    assert!(rt.compile_failure_signals().is_err());
    let err = rt.compile_failure_signals().unwrap_err();
    assert_eq!(err.signal, "broken");
    assert!(err.message.contains("unclosed"), "got {:?}", err.message);
}

#[test]
fn compile_failure_signals_returns_compiled_set() {
    let mut rt = runtime(IndexMap::new(), &["true"]);
    rt.failure_signals = vec![
        RuntimeFailureSignal {
            name: "auth_failed".into(),
            pattern: r#""error":"authentication_error""#.into(),
            retriable: false,
            tail_bytes: 4096,
        },
        RuntimeFailureSignal {
            name: "rate_limited".into(),
            pattern: "rate_limit_exceeded".into(),
            retriable: true,
            tail_bytes: 8192,
        },
    ];
    let compiled = rt.compile_failure_signals().expect("valid patterns compile");
    assert_eq!(compiled.len(), 2);
    assert_eq!(compiled[0].name, "auth_failed");
    assert!(!compiled[0].retriable);
    assert_eq!(compiled[0].tail_bytes, 4096);
    assert!(compiled[0].regex.is_match(r#"x"error":"authentication_error"y"#));
    assert_eq!(compiled[1].name, "rate_limited");
    assert!(compiled[1].regex.is_match("foo rate_limit_exceeded bar"));
    assert_eq!(compile_signals(&rt.failure_signals).unwrap().len(), 2);
}

#[test]
fn signal_defaults() {
    assert!(default_signal_retriable());
    assert_eq!(default_signal_tail_bytes(), 65_536);
    assert_eq!(default_file_mode(), "0644");
}

#[test]
fn named_files_are_tried_with_common_extensions() {
    let path = vec!["/a".to_string(), "/b/".to_string()];
    assert_eq!(
        file_candidates(&path, "personas", "eng"),
        vec![
            "/a/personas/eng",
            "/a/personas/eng.md",
            "/a/personas/eng.toml",
            "/a/personas/eng.txt",
            "/b/personas/eng",
            "/b/personas/eng.md",
            "/b/personas/eng.toml",
            "/b/personas/eng.txt",
        ]
    );
    let mut files = StringMap::new();
    assert_eq!(find_and_read_file(&path, "personas", "eng", &files), None);
    files.insert("/b/personas/eng".to_string(), Some("later".to_string()));
    files.insert("/a/personas/eng.txt".to_string(), Some("T".to_string()));
    assert_eq!(find_and_read_file(&path, "personas", "eng", &files), Some("T".to_string()));
    files.insert("/a/personas/eng.md".to_string(), None);
    assert_eq!(find_and_read_file(&path, "personas", "eng", &files), None, "the first file decides, readable or not");
}

#[test]
fn mappings_place_the_files_they_name() {
    let mut def = runtime(IndexMap::from([("persona".to_string(), var(Some("eng")))]), &["true"]);
    def.files = vec![
        FileMappingDef {
            from: Some("{var.persona}".into()),
            content: None,
            to: "{workspace}/config.md".into(),
            mode: "0600".into(),
        },
        FileMappingDef { from: Some("absent".into()), content: None, to: "x".into(), mode: "0644".into() },
        FileMappingDef { from: Some("{unknown}".into()), content: None, to: "y".into(), mode: "0644".into() },
    ];
    assert_eq!(source_names(&def, &step(), &StringMap::new(), &StringMap::new()), vec!["eng", "absent"]);
    let texts = map(&[("eng", "You are {var.persona}.")]);
    let r = resolve_step_spec(&def, &step(), &StringMap::new(), &texts, &StringMap::new()).unwrap();
    assert_eq!(r.files.len(), 1);
    assert_eq!(r.files[0].content, "You are {var.persona}.");
    assert_eq!(r.files[0].to, "{workspace}/config.md");
    assert_eq!(r.files[0].mode, "0600");
}

#[test]
fn secrets_of_every_template_are_collected() {
    let mut def = runtime(IndexMap::new(), &["run", "{secret.cmd}"]);
    def.files = vec![FileMappingDef {
        from: None,
        content: Some("{secret.k}".into()),
        to: "{secret.to}".into(),
        mode: "0644".into(),
    }];
    assert_eq!(collect_secret_refs(&def, &step()), vec!["k", "to", "cmd"]);
    def.command.interactive_cmd = Some(vec!["{secret.tty}".into()]);
    def.command.optional = vec![OptionalArgsDef { when: "x".into(), args: vec!["{secret.opt}{secret.k}".into()] }];
    def.files[0].from = Some("{secret.from}".into());
    assert_eq!(collect_secret_refs(&def, &step()), vec!["k", "from", "to", "cmd", "tty", "opt"]);
}
