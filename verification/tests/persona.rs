use indexmap::IndexMap;
use ox::persona::{
    assemble_persona, load_personas, persona_name, split_frontmatter, validate_personas, yaml_value_to_string,
    PersonaDef, PersonaFrontmatter, YamlValue,
};
use ox::runtime::{CommandDef, RuntimeDef};
use ox::strmap::StringMap;
use ox::workflow::VarDef;

/// The fields of frontmatter, with the structural ones told apart.
fn read_frontmatter(yaml: &str) -> Option<PersonaFrontmatter> {
    let fields: serde_yaml::Mapping = serde_yaml::from_str(yaml).ok()?;
    let mut f = PersonaFrontmatter::default();
    for (k, v) in fields {
        let key = k.as_str()?.to_string();
        let list = || {
            v.as_sequence().map(|s| s.iter().filter_map(|x| x.as_str().map(String::from)).collect::<Vec<_>>())
        };
        match key.as_str() {
            "runtime" => f.runtime = v.as_str().map(String::from),
            "skills" => f.skills = list()?,
            "secrets" => f.secrets = list()?,
            _ => {
                let value = match &v {
                    serde_yaml::Value::String(s) => YamlValue::String(s.clone()),
                    serde_yaml::Value::Bool(b) => YamlValue::Bool(*b),
                    serde_yaml::Value::Number(n) => YamlValue::Number(n.to_string()),
                    other => YamlValue::Other(format!("{other:?}")),
                };
                f.vars.insert(key, value);
            }
        }
    }
    Some(f)
}

fn parse_persona(name: &str, content: &str) -> PersonaDef {
    let (yaml, instructions) = split_frontmatter(content);
    assemble_persona(name, yaml.and_then(|y| read_frontmatter(&y)), instructions)
}

#[test]
fn parse_with_full_frontmatter() {
    let content = r#"---
runtime: codex
model: sonnet
skills: [shell, web-search]
secrets: [api_key]
---

You are a software engineer."#;

    let persona = parse_persona("test/engineer", content);
    assert_eq!(persona.name, "test/engineer");
    assert_eq!(persona.runtime.as_deref(), Some("codex"));
    assert_eq!(persona.vars.get("model").map(|s| s.as_str()), Some("sonnet"));
    assert_eq!(persona.skills, vec!["shell", "web-search"]);
    assert_eq!(persona.secrets, vec!["api_key"]);
    assert_eq!(persona.instructions, "You are a software engineer.");
}

#[test]
fn parse_no_frontmatter() {
    let content = "You are a plain persona with no metadata.";
    let persona = parse_persona("plain", content);
    assert_eq!(persona.name, "plain");
    assert!(persona.runtime.is_none());
    assert!(persona.vars.is_empty());
    assert!(persona.skills.is_empty());
    assert_eq!(persona.instructions, content);
}

#[test]
fn parse_empty_frontmatter() {
    let content = "---\n---\nJust instructions.";
    let persona = parse_persona("empty-fm", content);
    assert!(persona.runtime.is_none());
    assert!(persona.vars.is_empty());
    assert_eq!(persona.instructions, "Just instructions.");
}

#[test]
fn parse_partial_frontmatter() {
    let content = "---\nruntime: codex\n---\n\nYou use codex.";
    let persona = parse_persona("partial", content);
    assert_eq!(persona.runtime.as_deref(), Some("codex"));
    assert!(persona.vars.is_empty());
    assert!(persona.skills.is_empty());
    assert_eq!(persona.instructions, "You use codex.");
}

#[test]
fn parse_arbitrary_vars() {
    let content = "---\nruntime: codex\nmodel: opus\ntemperature: 0.7\nmax_tokens: 4096\n---\n\nYou are creative.";
    let persona = parse_persona("custom", content);
    assert_eq!(persona.runtime.as_deref(), Some("codex"));
    assert_eq!(persona.vars.get("model").map(|s| s.as_str()), Some("opus"));
    assert_eq!(persona.vars.get("temperature").map(|s| s.as_str()), Some("0.7"));
    assert_eq!(persona.vars.get("max_tokens").map(|s| s.as_str()), Some("4096"));
}

#[test]
fn parse_frontmatter_preserves_body_formatting() {
    let content = "---\nruntime: codex\n---\n\n# Heading\n\n- bullet one\n- bullet two\n";
    let persona = parse_persona("formatted", content);
    assert!(persona.instructions.contains("# Heading"));
    assert!(persona.instructions.contains("- bullet one"));
    assert_eq!(persona.instructions, "# Heading\n\n- bullet one\n- bullet two\n");
}

#[test]
fn parse_no_closing_delimiter_treated_as_plain() {
    let content = "---\nThis looks like frontmatter but has no closing delimiter.";
    let persona = parse_persona("broken", content);
    assert!(persona.runtime.is_none());
    assert_eq!(persona.instructions, content);
}

#[test]
fn frontmatter_edges() {
    assert_eq!(split_frontmatter(""), (None, "".to_string()));
    assert_eq!(split_frontmatter("  ---\na: 1\n---"), (Some("a: 1".to_string()), "".to_string()));
    assert_eq!(
        split_frontmatter("---abc\nx: 1\n---\nbody"),
        (None, "---abc\nx: 1\n---\nbody".to_string()),
        "the opening fence is a line of its own"
    );
    assert_eq!(
        split_frontmatter("---\nx: 1\n---y\n----\n---\nbody"),
        (Some("x: 1\n---y\n----".to_string()), "body".to_string()),
        "so is the closing one"
    );
    assert_eq!(split_frontmatter("---\r\na: 1\r\n---\r\nx"), (Some("a: 1".to_string()), "\r\nx".to_string()));
    assert_eq!(split_frontmatter("--- "), (None, "--- ".to_string()));
    assert_eq!(split_frontmatter("--- \nx: 1\n---\t\nbody"), (Some("x: 1".to_string()), "\t\nbody".to_string()));
    assert_eq!(split_frontmatter("---\nx: 1\n---  \r\nbody"), (Some("x: 1".to_string()), "  \r\nbody".to_string()));
    assert_eq!(split_frontmatter("---\t\n--- \n"), (Some("".to_string()), " \n".to_string()));
    assert_eq!(split_frontmatter("---\nx: 1\n--- "), (Some("x: 1".to_string()), " ".to_string()));
    assert_eq!(
        split_frontmatter("--- y\nx: 1\n---\nbody"),
        (None, "--- y\nx: 1\n---\nbody".to_string())
    );
}

#[test]
fn frontmatter_that_does_not_parse_counts_as_empty() {
    let p = assemble_persona("p", None, "body".to_string());
    assert!(p.runtime.is_none());
    assert!(p.secrets.is_empty());
    assert_eq!(p.instructions, "body");
}

#[test]
fn yaml_values_as_text() {
    assert_eq!(yaml_value_to_string(&YamlValue::Bool(true)), "true");
    assert_eq!(yaml_value_to_string(&YamlValue::Bool(false)), "false");
    assert_eq!(yaml_value_to_string(&YamlValue::Other("Null".into())), "Null");
}

#[test]
fn persona_names_come_from_paths() {
    assert_eq!(persona_name("inspired/software-engineer.md"), Some("inspired/software-engineer".to_string()));
    assert_eq!(persona_name("a\\b.md"), Some("a/b".to_string()));
    assert_eq!(persona_name("notes.txt"), None);
    assert_eq!(persona_name(".md"), None);
    assert_eq!(persona_name("x/.md"), None);
    assert_eq!(persona_name("v1.2.md"), Some("v1.2".to_string()));
}

fn persona(name: &str, runtime: Option<&str>, vars: &[(&str, &str)]) -> PersonaDef {
    let mut m = StringMap::new();
    for (k, v) in vars {
        m.insert(k.to_string(), v.to_string());
    }
    PersonaDef {
        name: name.into(),
        runtime: runtime.map(String::from),
        skills: vec![],
        secrets: vec![],
        vars: m,
        instructions: String::new(),
    }
}

#[test]
fn first_persona_of_a_name_wins() {
    let mut first = persona("team/lead", Some("codex"), &[]);
    first.instructions = "from the repository".into();
    let found = vec![first, persona("other", None, &[]), persona("team/lead", None, &[])];
    let all = load_personas(found);
    assert_eq!(all.len(), 2);
    assert_eq!(all.get("team/lead").unwrap().instructions, "from the repository");
}

fn var_def(default: Option<String>) -> VarDef {
    VarDef {
        var_type: Default::default(),
        required: false,
        default,
        description: None,
        search_dir: None,
    }
}

fn runtimes(vars: IndexMap<String, VarDef>) -> StringMap<RuntimeDef> {
    let mut m = StringMap::new();
    m.insert("codex".to_string(), RuntimeDef {
        name: "codex".into(),
        vars,
        command: CommandDef {
            cmd: vec!["codex".into()],
            interactive_cmd: None,
            optional: vec![],
        },
        files: vec![],
        env: StringMap::new(),
        proxy: vec![],
        metrics: vec![],
        failure_signals: vec![],
    });
    m
}

fn personas(p: PersonaDef) -> StringMap<PersonaDef> {
    let mut m = StringMap::new();
    m.insert(p.name.clone(), p);
    m
}

#[test]
fn validate_catches_unknown_var() {
    let p = persona("test/eng", Some("codex"), &[("model", "sonnet"), ("modle", "typo")]);
    let mut vars = IndexMap::new();
    vars.insert("model".to_string(), var_def(None));

    let errors = validate_personas(&personas(p), &runtimes(vars));
    assert_eq!(errors.len(), 1);
    assert!(errors[0].contains("modle"));
    assert!(errors[0].contains("does not declare"));
    assert_eq!(errors[0], "persona 'test/eng': sets var 'modle' which runtime 'codex' does not declare");
}

#[test]
fn validate_catches_unknown_runtime() {
    let p = persona("test/eng", Some("nonexistent"), &[]);
    let errors = validate_personas(&personas(p), &StringMap::new());
    assert_eq!(errors.len(), 1);
    assert!(errors[0].contains("unknown runtime"));
    assert_eq!(errors[0], "persona 'test/eng': references unknown runtime 'nonexistent'");
}

#[test]
fn validate_skips_persona_without_runtime() {
    let p = persona("plain", None, &[("anything", "value")]);
    let errors = validate_personas(&personas(p), &StringMap::new());
    assert!(errors.is_empty());
}

#[test]
fn validate_passes_valid_persona() {
    let p = persona("test/eng", Some("codex"), &[("model", "sonnet")]);
    let mut vars = IndexMap::new();
    vars.insert("model".to_string(), var_def(None));
    vars.insert("prompt".to_string(), var_def(Some(String::new())));

    let errors = validate_personas(&personas(p), &runtimes(vars));
    assert!(errors.is_empty());
}
