//! Runtime definitions and their resolution into what a runner executes.

use vstd::prelude::*;

use indexmap::IndexMap;

use crate::interpolation::{
    all_secret_refs, collected_secrets_are_distinct_and_complete, interpolate_spec, pieces, secret_refs,
    InterpolationContext,
};
use crate::paths::{join_path, joined};
use crate::strmap::StringMap;
use crate::text::{cat, copy_option, copy_texts, dec_i64, dec_int, dedup_spec, on_boundary, text_option, views};
use crate::workflow::{RuntimeSpec, TomlValue, VarDef};

verus! {

/// A runtime definition, loaded from TOML.
/// Defines how to build a command, what files to place, what env to set, etc.
#[derive(Debug)]
pub struct RuntimeDef {
    pub name: String,
    pub vars: IndexMap<String, VarDef>,
    pub command: CommandDef,
    pub files: Vec<FileMappingDef>,
    pub env: StringMap<String>,
    pub proxy: Vec<ProxyDef>,
    pub metrics: Vec<MetricDef>,
    pub failure_signals: Vec<RuntimeFailureSignal>,
}

/// Declarative log-pattern signal. After process exit the runner scans
/// the tail of the step log for `pattern`; a match emits `name` as a signal.
/// `retriable = false` lets the workflow engine bypass max_retries and
/// escalate the step on the first failure.
#[derive(Debug)]
pub struct RuntimeFailureSignal {
    pub name: String,
    pub pattern: String,
    pub retriable: bool,
    pub tail_bytes: usize,
}

impl Clone for RuntimeFailureSignal {
    fn clone(&self) -> (r: Self)
        ensures
            r == *self,
    {
        RuntimeFailureSignal {
            name: self.name.clone(),
            pattern: self.pattern.clone(),
            retriable: self.retriable,
            tail_bytes: self.tail_bytes,
        }
    }
}

/// Signals allow further retries unless they say otherwise.
pub fn default_signal_retriable() -> (r: bool)
    ensures
        r,
{
    true
}

/// Signals look at the last 64 KiB of a log unless they say otherwise.
pub fn default_signal_tail_bytes() -> (r: usize)
    ensures
        r == 65_536,
{
    65_536
}

/// A `RuntimeFailureSignal` with its regex compiled. Built once per config
/// load (initial + SIGHUP reload) so a bad pattern fails the load instead
/// of crashing a step mid-execution.
#[derive(Debug)]
pub struct CompiledFailureSignal {
    pub name: String,
    pub regex: regex::Regex,
    pub retriable: bool,
    pub tail_bytes: usize,
}

/// Command definition — base command + optional conditional args.
#[derive(Debug, Clone)]
pub struct CommandDef {
    pub cmd: Vec<String>,
    pub interactive_cmd: Option<Vec<String>>,
    pub optional: Vec<OptionalArgsDef>,
}

/// Conditional arguments appended when a field has a value.
#[derive(Debug, Clone)]
pub struct OptionalArgsDef {
    pub when: String,
    pub args: Vec<String>,
}

/// File placement rule — copy a file into the workspace before runtime starts.
#[derive(Debug, Clone)]
pub struct FileMappingDef {
    /// Source file path (resolved via search path for `file` type fields).
    /// Mutually exclusive with `content`.
    pub from: Option<String>,
    /// Inline content (used with secrets). Mutually exclusive with `from`.
    pub content: Option<String>,
    /// Destination path, typically relative to `{workspace}`.
    pub to: String,
    /// POSIX permission string (default: "0644").
    pub mode: String,
}

/// The permissions of a placed file unless its mapping says otherwise.
pub fn default_file_mode() -> (r: String)
    ensures
        r@ == "0644"@,
{
    "0644".to_owned()
}

/// API proxy declaration.
#[derive(Debug)]
pub struct ProxyDef {
    /// Environment variable to override with proxy address.
    pub env: String,
    /// API provider format (e.g. "anthropic", "openai").
    pub provider: String,
    /// Upstream URL the proxy forwards requests to.
    pub target: String,
}

impl Clone for ProxyDef {
    fn clone(&self) -> (r: Self)
        ensures
            r == *self,
    {
        ProxyDef { env: self.env.clone(), provider: self.provider.clone(), target: self.target.clone() }
    }
}

/// Metric declaration in a runtime definition.
#[derive(Debug)]
pub struct MetricDef {
    pub name: String,
    pub metric_type: MetricType,
    pub source: MetricSource,
    pub description: Option<String>,
}

impl Clone for MetricDef {
    fn clone(&self) -> (r: Self)
        ensures
            r == *self,
    {
        MetricDef {
            name: self.name.clone(),
            metric_type: self.metric_type,
            source: self.source,
            description: copy_option(&self.description),
        }
    }
}

#[derive(Debug, Clone, Copy, PartialEq, Eq, Structural)]
pub enum MetricType {
    Gauge,
    Counter,
    Histogram,
    Label,
}

#[derive(Debug, Clone, Copy, PartialEq, Eq, Structural)]
pub enum MetricSource {
    Runtime,
    Proxy,
}

/// Metrics come from the runtime unless they say otherwise.
pub fn default_metric_source() -> (r: MetricSource)
    ensures
        r == MetricSource::Runtime,
{
    MetricSource::Runtime
}

/// The fully-resolved step spec that ox-server sends to the runner.
/// Contains everything the runner needs to execute a step — no config lookup required.
#[derive(Debug, Clone)]
pub struct ResolvedStepSpec {
    /// The command to spawn.
    pub command: Vec<String>,
    /// Alternate command for TTY mode.
    pub interactive_command: Option<Vec<String>>,
    /// Whether to allocate a TTY.
    pub tty: bool,
    /// Environment variables to set on the spawned process.
    pub env: StringMap<String>,
    /// Files to place in the workspace before spawning.
    pub files: Vec<ResolvedFile>,
    /// API proxy declarations.
    pub proxy: Vec<ProxyDef>,
    /// Metric declarations.
    pub metrics: Vec<MetricDef>,
    /// Raw failure-signal patterns from the runtime. The runner
    /// re-compiles these per step (server already validated them at
    /// config load) and scans the step log tail after process exit.
    pub failure_signals: Vec<RuntimeFailureSignal>,
}

/// A file to place before the runtime runs.
///
/// The `to` path uses placeholders the runner resolves:
///   - `{workspace}/...` — relative to the step workspace (work_dir)
///   - `{tmp_dir}/...`   — runner's temp directory (not in git)
///   - `{home}/...`      — runner's HOME directory
///   - bare name         — placed in tmp_dir by default
#[derive(Debug, Clone)]
pub struct ResolvedFile {
    /// The file content.
    pub content: String,
    /// Destination path with placeholders ({workspace}, {tmp_dir}, {home}).
    pub to: String,
    /// POSIX permission string.
    pub mode: String,
}

// ── Failure signals ─────────────────────────────────────────────────

/// `regex::Regex`, a compiled pattern.
#[verifier::external_type_specification]
#[verifier::external_body]
pub struct ExRegex(regex::Regex);

/// What `regex::Regex::new` says against a pattern; nothing where it compiles.
pub uninterp spec fn regex_error(pattern: Seq<char>) -> Option<Seq<char>>;

/// The byte at which the first match of the regex that `regex::Regex::new` makes of a
/// pattern starts in a text; nothing where it matches nowhere.
pub uninterp spec fn pattern_start(pattern: Seq<char>, text: Seq<char>) -> Option<nat>;

/// The byte at which the first match of a compiled regex starts in a text, as
/// `Regex::find` says; nothing where it matches nowhere.
pub uninterp spec fn regex_start(re: regex::Regex, text: Seq<char>) -> Option<nat>;

/// A compiled regex matches somewhere in a text.
pub open spec fn regex_finds(re: regex::Regex, text: Seq<char>) -> bool {
    regex_start(re, text) is Some
}

/// Calls `regex::Regex::new`: a pattern compiles, or is refused with a message; which
/// of the two, and what the regex matches, depends on the pattern alone.
#[verifier::external_body]
fn regex_new(pattern: &str) -> (r: Result<regex::Regex, String>)
    ensures
        match r {
            Ok(re) => {
                &&& regex_error(pattern@) is None
                &&& forall|text: Seq<char>| #[trigger] regex_start(re, text) == pattern_start(pattern@, text)
            },
            Err(message) => regex_error(pattern@) == Some(message@),
        },
{
    regex::Regex::new(pattern).map_err(|e| e.to_string())
}

/// Calls `regex::Regex::find` and takes the start of the match: where the first match
/// starts depends on the regex and the text alone, and is the start of a character or the
/// end of the text.
#[verifier::external_body]
pub(crate) fn regex_find(re: &regex::Regex, text: &str) -> (r: Option<usize>)
    ensures
        match r {
            Some(i) => regex_start(*re, text@) == Some(i as nat) && on_boundary(text@, i as nat),
            None => regex_start(*re, text@) is None,
        },
{
    re.find(text).map(|m| m.start())
}

/// A failure signal whose pattern does not compile.
#[derive(Debug, Clone, PartialEq, Eq)]
pub struct PatternError {
    /// The name of the signal.
    pub signal: String,
    /// What the pattern compiler says.
    pub message: String,
}

/// A compiled signal stands for its declaration.
pub open spec fn compiled_from(c: CompiledFailureSignal, s: RuntimeFailureSignal) -> bool {
    &&& c.name == s.name
    &&& forall|text: Seq<char>| #[trigger] regex_start(c.regex, text) == pattern_start(s.pattern@, text)
    &&& c.retriable == s.retriable
    &&& c.tail_bytes == s.tail_bytes
}

/// Compiles failure signals: all of them, or the error of the first whose pattern
/// does not compile.
pub fn compile_signals(signals: &Vec<RuntimeFailureSignal>) -> (r: Result<Vec<CompiledFailureSignal>, PatternError>)
    ensures
        match r {
            Ok(v) => {
                &&& v@.len() == signals@.len()
                &&& forall|i: int| 0 <= i < v@.len() ==> compiled_from(#[trigger] v@[i], signals@[i])
                &&& forall|i: int|
                    0 <= i < signals@.len() ==> regex_error((#[trigger] signals@[i]).pattern@) is None
            },
            Err(e) => exists|i: int|
                {
                    &&& 0 <= i < signals@.len()
                    &&& regex_error((#[trigger] signals@[i]).pattern@) == Some(e.message@)
                    &&& e.signal@ == signals@[i].name@
                    &&& forall|j: int| 0 <= j < i ==> regex_error((#[trigger] signals@[j]).pattern@) is None
                },
        },
{
    let mut out: Vec<CompiledFailureSignal> = Vec::new();
    let mut i: usize = 0;
    while i < signals.len()
        invariant
            0 <= i <= signals@.len(),
            out@.len() == i,
            forall|j: int| 0 <= j < i ==> compiled_from(#[trigger] out@[j], signals@[j]),
            forall|j: int| 0 <= j < i ==> regex_error((#[trigger] signals@[j]).pattern@) is None,
        decreases signals@.len() - i,
    {
        let s = &signals[i];
        match regex_new(s.pattern.as_str()) {
            Ok(regex) => out.push(
                CompiledFailureSignal {
                    name: s.name.clone(),
                    regex,
                    retriable: s.retriable,
                    tail_bytes: s.tail_bytes,
                },
            ),
            Err(message) => {
                assert(regex_error(signals@[i as int].pattern@) == Some(message@));
                return Err(PatternError { signal: s.name.clone(), message });
            },
        }
        i += 1;
    }
    Ok(out)
}

impl RuntimeDef {
    /// Compile every declared failure signal's regex. Call this on every
    /// config load (initial + SIGHUP reload) so a malformed pattern is
    /// rejected before any step references it.
    pub fn compile_failure_signals(&self) -> (r: Result<Vec<CompiledFailureSignal>, PatternError>)
        ensures
            match r {
                Ok(v) => {
                    &&& v@.len() == self.failure_signals@.len()
                    &&& forall|i: int| 0 <= i < v@.len() ==> compiled_from(#[trigger] v@[i], self.failure_signals@[i])
                    &&& forall|i: int|
                        0 <= i < self.failure_signals@.len() ==> regex_error(
                            (#[trigger] self.failure_signals@[i]).pattern@,
                        ) is None
                },
                Err(e) => exists|i: int|
                    {
                        &&& 0 <= i < self.failure_signals@.len()
                        &&& regex_error((#[trigger] self.failure_signals@[i]).pattern@) == Some(e.message@)
                        &&& e.signal@ == self.failure_signals@[i].name@
                        &&& forall|j: int|
                            0 <= j < i ==> regex_error((#[trigger] self.failure_signals@[j]).pattern@) is None
                    },
            },
    {
        compile_signals(&self.failure_signals)
    }
}

// ── Resolution ──────────────────────────────────────────────────────

/// The text of a runtime field.
pub open spec fn toml_text(v: TomlValue) -> Seq<char> {
    match v {
        TomlValue::String(s) => s@,
        TomlValue::Integer(i) => dec_int(i as int),
        TomlValue::Float(s) => s@,
        TomlValue::Boolean(b) => if b { "true"@ } else { "false"@ },
        TomlValue::Other(s) => s@,
    }
}

/// Writes the text of a runtime field.
pub fn toml_value_to_string(v: &TomlValue) -> (s: String)
    ensures
        s@ == toml_text(*v),
{
    match v {
        TomlValue::String(s) => s.clone(),
        TomlValue::Integer(i) => dec_i64(*i),
        TomlValue::Float(s) => s.clone(),
        TomlValue::Boolean(b) => if *b { "true".to_owned() } else { "false".to_owned() },
        TomlValue::Other(s) => s.clone(),
    }
}

/// The variables that an `IndexMap` declares, in order, each with its name.
pub uninterp spec fn var_entries(m: IndexMap<String, VarDef>) -> Seq<(Seq<char>, VarDef)>;

/// Calls `IndexMap::get_index`: the declaration at a position.
#[verifier::external_body]
fn vars_at(m: &IndexMap<String, VarDef>, i: usize) -> (r: Option<(&String, &VarDef)>)
    ensures
        match r {
            Some((name, def)) => i < var_entries(*m).len() <= usize::MAX && var_entries(*m)[i as int] == (name@, *def),
            None => i >= var_entries(*m).len(),
        },
{
    m.get_index(i)
}

/// The value of a runtime variable: what the step sets, else the default.
pub open spec fn var_value(fields: Map<Seq<char>, TomlValue>, name: Seq<char>, def: VarDef) -> Option<Seq<char>> {
    if fields.dom().contains(name) {
        Some(toml_text(fields[name]))
    } else {
        match def.default {
            Some(default) => Some(default@),
            None => None,
        }
    }
}

/// The runtime variables that have a value, each under `var.` and its name.
pub open spec fn var_values(
    vars: Seq<(Seq<char>, VarDef)>,
    fields: Map<Seq<char>, TomlValue>,
) -> Map<Seq<char>, Seq<char>>
    decreases vars.len(),
{
    if vars.len() == 0 {
        Map::empty()
    } else {
        let head = var_values(vars.drop_last(), fields);
        match var_value(fields, vars.last().0, vars.last().1) {
            Some(value) => head.insert("var."@ + vars.last().0, value),
            None => head,
        }
    }
}

/// What templates of a step may refer to: the runtime variables, and over them the
/// context.
pub open spec fn field_values(
    vars: Seq<(Seq<char>, VarDef)>,
    fields: Map<Seq<char>, TomlValue>,
    context: Map<Seq<char>, Seq<char>>,
) -> Map<Seq<char>, Seq<char>> {
    var_values(vars, fields).union_prefer_right(context)
}

/// The values and secrets that templates are resolved with.
pub struct Bindings {
    pub values: Map<Seq<char>, Seq<char>>,
    pub secrets: Map<Seq<char>, Seq<char>>,
}

impl Bindings {
    /// A template resolved, where each of its references has a value.
    pub open spec fn resolved(self, template: Seq<char>) -> Option<Seq<char>> {
        match interpolate_spec(template, self.values, self.secrets) {
            Ok(s) => Some(s),
            Err(_) => None,
        }
    }

    /// A template resolved, or as it is.
    pub open spec fn or_self(self, template: Seq<char>) -> Seq<char> {
        match self.resolved(template) {
            Some(s) => s,
            None => template,
        }
    }
}

/// What a resolved file is.
pub struct FileView {
    pub content: Seq<char>,
    pub to: Seq<char>,
    pub mode: Seq<char>,
}

impl View for ResolvedFile {
    type V = FileView;

    open spec fn view(&self) -> FileView {
        FileView { content: self.content@, to: self.to@, mode: self.mode@ }
    }
}

/// The name of the file that a mapping takes its content from: what its `from` resolves
/// to, where it has no content of its own.
pub open spec fn source_name(m: FileMappingDef, b: Bindings) -> Option<Seq<char>> {
    match (m.content, m.from) {
        (None, Some(from)) => b.resolved(from@),
        _ => None,
    }
}

/// The file of a mapping, given the texts of the files that can be named. A mapping's own
/// content is resolved twice, so that references in what the first pass brought in resolve
/// too; else the mapping places the text of the file that it names. A mapping whose content
/// does not resolve, or whose file is not there, places no file.
pub open spec fn mapped_file(m: FileMappingDef, b: Bindings, texts: Map<Seq<char>, Seq<char>>) -> Option<FileView> {
    match m.content {
        Some(template) => match b.resolved(template@) {
            None => None,
            Some(content) => Some(
                FileView { content: b.or_self(content), to: b.or_self(m.to@), mode: m.mode@ },
            ),
        },
        None => match source_name(m, b) {
            Some(name) => if texts.dom().contains(name) {
                Some(FileView { content: texts[name], to: b.or_self(m.to@), mode: m.mode@ })
            } else {
                None
            },
            None => None,
        },
    }
}

/// The files of the mappings that place one, in order.
pub open spec fn mapped_files(
    ms: Seq<FileMappingDef>,
    b: Bindings,
    texts: Map<Seq<char>, Seq<char>>,
) -> Seq<FileView>
    decreases ms.len(),
{
    if ms.len() == 0 {
        seq![]
    } else {
        let head = mapped_files(ms.drop_last(), b, texts);
        match mapped_file(ms.last(), b, texts) {
            Some(f) => head.push(f),
            None => head,
        }
    }
}

/// The names of the files that mappings take their content from, in order.
pub open spec fn source_names_spec(ms: Seq<FileMappingDef>, b: Bindings) -> Seq<Seq<char>>
    decreases ms.len(),
{
    if ms.len() == 0 {
        seq![]
    } else {
        let head = source_names_spec(ms.drop_last(), b);
        match source_name(ms.last(), b) {
            Some(name) => head.push(name),
            None => head,
        }
    }
}

/// Arguments resolved one by one, each as it is where it does not resolve.
pub open spec fn resolved_args(args: Seq<String>, b: Bindings) -> Seq<Seq<char>> {
    args.map_values(|a: String| b.or_self(a@))
}

/// The arguments of the optional groups whose variable has a value, in order.
pub open spec fn optional_args(groups: Seq<OptionalArgsDef>, b: Bindings) -> Seq<Seq<char>>
    decreases groups.len(),
{
    if groups.len() == 0 {
        seq![]
    } else {
        let head = optional_args(groups.drop_last(), b);
        if b.values.dom().contains("var."@ + groups.last().when@) {
            head + resolved_args(groups.last().args@, b)
        } else {
            head
        }
    }
}

/// The command of a step: the interactive one on a terminal where there is one, and
/// the optional arguments behind it.
pub open spec fn resolved_command(c: CommandDef, tty: bool, b: Bindings) -> Seq<Seq<char>> {
    let base = match c.interactive_cmd {
        Some(cmd) => if tty {
            cmd@
        } else {
            c.cmd@
        },
        None => c.cmd@,
    };
    resolved_args(base, b) + optional_args(c.optional@, b)
}

/// The variables of an environment whose value resolves.
pub open spec fn resolved_env(env: Map<Seq<char>, Seq<char>>, b: Bindings) -> Map<Seq<char>, Seq<char>> {
    Map::new(
        |k: Seq<char>| env.dom().contains(k) && b.resolved(env[k]) is Some,
        |k: Seq<char>| b.resolved(env[k])->0,
    )
}

/// Builds the context that a step's templates are resolved in.
fn step_context(
    runtime_def: &RuntimeDef,
    step_runtime: &RuntimeSpec,
    secrets: &StringMap<String>,
    context_vars: &StringMap<String>,
) -> (ctx: InterpolationContext)
    ensures
        ctx.value_map() == field_values(var_entries(runtime_def.vars), step_runtime.fields@, context_vars.texts()),
        ctx.secret_map() == secrets.texts(),
{
    let mut values: StringMap<String> = StringMap::new();
    let ghost vars = var_entries(runtime_def.vars);
    let ghost fields = step_runtime.fields@;
    let mut i: usize = 0;
    assert(vars.take(0) =~= seq![]);
    assert(values.texts() =~= var_values(vars.take(0), fields));
    loop
        invariant_except_break
            0 <= i <= vars.len(),
            values.texts() == var_values(vars.take(i as int), fields),
        invariant
            vars == var_entries(runtime_def.vars),
            fields == step_runtime.fields@,
        ensures
            values.texts() == var_values(vars, fields),
        decreases vars.len() - i,
    {
        match vars_at(&runtime_def.vars, i) {
            Some((name, def)) => {
                let ghost before = values.texts();
                let ghost next = vars.take(i + 1);
                assert(next.drop_last() =~= vars.take(i as int));
                assert(next.last() == (name@, *def));
                let key = cat("var.", name.as_str());
                let ghost k = key@;
                match step_runtime.fields.get(name.as_str()) {
                    Some(val) => {
                        let text = toml_value_to_string(val);
                        values.insert(key, text);
                        assert(values.texts() =~= before.insert(k, text@));
                    },
                    None => match &def.default {
                        Some(default) => {
                            values.insert(key, default.clone());
                            assert(values.texts() =~= before.insert(k, default@));
                        },
                        None => {},
                    },
                }
                i += 1;
            },
            None => {
                assert(vars.take(i as int) =~= vars);
                break;
            },
        }
    }
    values.overlay(context_vars);
    InterpolationContext::new(values, secrets.duplicate())
}

/// The bindings of a context.
pub open spec fn bindings(ctx: InterpolationContext) -> Bindings {
    Bindings { values: ctx.value_map(), secrets: ctx.secret_map() }
}

fn resolve_or_self(ctx: &InterpolationContext, template: &str) -> (s: String)
    ensures
        s@ == bindings(*ctx).or_self(template@),
{
    match ctx.interpolate(template) {
        Ok(s) => s,
        Err(_) => template.to_owned(),
    }
}

fn push_args(ctx: &InterpolationContext, args: &Vec<String>, out: &mut Vec<String>)
    ensures
        views(final(out)@) == views(old(out)@) + resolved_args(args@, bindings(*ctx)),
{
    let mut i: usize = 0;
    let ghost b = bindings(*ctx);
    let ghost before = views(out@);
    assert(views(out@) =~= before + resolved_args(args@, b).take(0));
    while i < args.len()
        invariant
            0 <= i <= args@.len(),
            b == bindings(*ctx),
            views(out@) == before + resolved_args(args@, b).take(i as int),
        decreases args@.len() - i,
    {
        let ghost so_far = views(out@);
        let arg = resolve_or_self(ctx, args[i].as_str());
        out.push(arg);
        assert(views(out@) =~= so_far.push(arg@));
        assert(views(out@) =~= before + resolved_args(args@, b).take(i + 1));
        i += 1;
    }
    assert(resolved_args(args@, b).take(i as int) =~= resolved_args(args@, b));
}

fn resolve_source(ctx: &InterpolationContext, mapping: &FileMappingDef) -> (r: Option<String>)
    ensures
        text_option(r) == source_name(*mapping, bindings(*ctx)),
{
    if mapping.content.is_some() {
        return None;
    }
    match &mapping.from {
        Some(from) => match ctx.interpolate(from.as_str()) {
            Ok(name) => Some(name),
            Err(_) => None,
        },
        None => None,
    }
}

fn resolve_file(ctx: &InterpolationContext, mapping: &FileMappingDef, texts: &StringMap<String>) -> (r: Option<
    ResolvedFile,
>)
    ensures
        match r {
            Some(f) => mapped_file(*mapping, bindings(*ctx), texts.texts()) == Some(f@),
            None => mapped_file(*mapping, bindings(*ctx), texts.texts()) is None,
        },
{
    let content = match &mapping.content {
        Some(template) => match ctx.interpolate(template.as_str()) {
            Ok(content) => resolve_or_self(ctx, content.as_str()),
            Err(_) => {
                return None;
            },
        },
        None => match resolve_source(ctx, mapping) {
            Some(name) => match texts.get(name.as_str()) {
                Some(text) => text.clone(),
                None => {
                    return None;
                },
            },
            None => {
                return None;
            },
        },
    };
    Some(ResolvedFile { content, to: resolve_or_self(ctx, mapping.to.as_str()), mode: mapping.mode.clone() })
}

fn resolve_files(
    ctx: &InterpolationContext,
    mappings: &Vec<FileMappingDef>,
    texts: &StringMap<String>,
) -> (files: Vec<ResolvedFile>)
    ensures
        files@.map_values(|f: ResolvedFile| f@) == mapped_files(mappings@, bindings(*ctx), texts.texts()),
{
    let mut files: Vec<ResolvedFile> = Vec::new();
    let mut i: usize = 0;
    let ghost b = bindings(*ctx);
    let ghost t = texts.texts();
    assert(mappings@.take(0) =~= seq![]);
    assert(files@.map_values(|f: ResolvedFile| f@) =~= seq![]);
    while i < mappings.len()
        invariant
            0 <= i <= mappings@.len(),
            b == bindings(*ctx),
            t == texts.texts(),
            files@.map_values(|f: ResolvedFile| f@) == mapped_files(mappings@.take(i as int), b, t),
        decreases mappings@.len() - i,
    {
        let ghost before = files@.map_values(|f: ResolvedFile| f@);
        let ghost next = mappings@.take(i + 1);
        assert(next.drop_last() =~= mappings@.take(i as int));
        assert(next.last() == mappings@[i as int]);
        if let Some(file) = resolve_file(ctx, &mappings[i], texts) {
            files.push(file);
            assert(files@.map_values(|f: ResolvedFile| f@) =~= before.push(file@));
        }
        i += 1;
    }
    assert(mappings@.take(i as int) =~= mappings@);
    files
}

fn resolve_command(ctx: &InterpolationContext, command: &CommandDef, tty: bool) -> (out: Vec<String>)
    ensures
        views(out@) == resolved_command(*command, tty, bindings(*ctx)),
{
    let ghost b = bindings(*ctx);
    let mut out: Vec<String> = Vec::new();
    let base = match &command.interactive_cmd {
        Some(cmd) => if tty { cmd } else { &command.cmd },
        None => &command.cmd,
    };
    push_args(ctx, base, &mut out);
    let ghost head = resolved_args(base@, b);
    let ghost groups = command.optional@;
    assert(groups.take(0) =~= seq![]);
    assert(views(out@) =~= head + optional_args(groups.take(0), b));
    // Append optional args where the runtime var has a value
    let mut i: usize = 0;
    while i < command.optional.len()
        invariant
            0 <= i <= groups.len(),
            groups == command.optional@,
            b == bindings(*ctx),
            views(out@) == head + optional_args(groups.take(i as int), b),
        decreases groups.len() - i,
    {
        let ghost next = groups.take(i + 1);
        assert(next.drop_last() =~= groups.take(i as int));
        let opt = &command.optional[i];
        assert(next.last() == *opt);
        if ctx.has_field(cat("var.", opt.when.as_str()).as_str()) {
            push_args(ctx, &opt.args, &mut out);
            assert(views(out@) =~= head + optional_args(next, b));
        }
        i += 1;
    }
    assert(groups.take(i as int) =~= groups);
    out
}

fn resolve_env(ctx: &InterpolationContext, env: &StringMap<String>) -> (out: StringMap<String>)
    ensures
        out.texts() == resolved_env(env.texts(), bindings(*ctx)),
{
    let mut out: StringMap<String> = StringMap::new();
    let mut i: usize = 0;
    let ghost b = bindings(*ctx);
    let ghost all = env.texts();
    while i < env.len()
        invariant
            0 <= i <= env.list().len(),
            b == bindings(*ctx),
            all == env.texts(),
            forall|k: Seq<char>| #[trigger]
                out@.dom().contains(k) ==> all.dom().contains(k) && b.resolved(all[k]) == Some(out@[k]@),
            forall|j: int|
                0 <= j < i && b.resolved(all[#[trigger] env.keys()[j]]) is Some ==> out@.dom().contains(env.keys()[j]),
        decreases env.list().len() - i,
    {
        let e = env.entry(i);
        if let Ok(value) = ctx.interpolate(e.1.as_str()) {
            out.insert(e.0.clone(), value);
        }
        i += 1;
    }
    proof {
        assert forall|k: Seq<char>| #[trigger] all.dom().contains(k) && b.resolved(all[k]) is Some implies out@.dom().contains(k) by {
            let j = env.keys().index_of(k);
            assert(env.keys()[j] == k);
        }
        assert(out.texts() =~= resolved_env(all, b));
    }
    out
}

/// The values and secrets that a step's templates are resolved with.
pub open spec fn step_bindings(
    runtime_def: RuntimeDef,
    step_runtime: RuntimeSpec,
    secrets: Map<Seq<char>, Seq<char>>,
    context: Map<Seq<char>, Seq<char>>,
) -> Bindings {
    Bindings { values: field_values(var_entries(runtime_def.vars), step_runtime.fields@, context), secrets }
}

/// Lists the names of the files that a step takes content from: those to be looked up on
/// the search path before the step is resolved.
pub fn source_names(
    runtime_def: &RuntimeDef,
    step_runtime: &RuntimeSpec,
    secrets: &StringMap<String>,
    context_vars: &StringMap<String>,
) -> (r: Vec<String>)
    ensures
        views(r@) == source_names_spec(
            runtime_def.files@,
            step_bindings(*runtime_def, *step_runtime, secrets.texts(), context_vars.texts()),
        ),
{
    let ctx = step_context(runtime_def, step_runtime, secrets, context_vars);
    let mut out: Vec<String> = Vec::new();
    let mut i: usize = 0;
    let ghost b = bindings(ctx);
    let ghost ms = runtime_def.files@;
    assert(ms.take(0) =~= seq![]);
    assert(views(out@) =~= seq![]);
    while i < runtime_def.files.len()
        invariant
            0 <= i <= ms.len(),
            ms == runtime_def.files@,
            b == bindings(ctx),
            views(out@) == source_names_spec(ms.take(i as int), b),
        decreases ms.len() - i,
    {
        let ghost before = views(out@);
        let ghost next = ms.take(i + 1);
        assert(next.drop_last() =~= ms.take(i as int));
        assert(next.last() == ms[i as int]);
        if let Some(name) = resolve_source(&ctx, &runtime_def.files[i]) {
            out.push(name);
            assert(views(out@) =~= before.push(name@));
        }
        i += 1;
    }
    assert(ms.take(i as int) =~= ms);
    out
}

/// A resolved step stands for a runtime definition and a step's choices, given the texts
/// of the files that its mappings name.
pub open spec fn step_resolved(
    r: ResolvedStepSpec,
    runtime_def: RuntimeDef,
    step_runtime: RuntimeSpec,
    secrets: Map<Seq<char>, Seq<char>>,
    texts: Map<Seq<char>, Seq<char>>,
    context: Map<Seq<char>, Seq<char>>,
) -> bool {
    let b = step_bindings(runtime_def, step_runtime, secrets, context);
    &&& views(r.command@) == resolved_command(runtime_def.command, step_runtime.tty, b)
    &&& match r.interactive_command {
        Some(cmd) => !step_runtime.tty && runtime_def.command.interactive_cmd is Some && cmd@
            == runtime_def.command.interactive_cmd->0@,
        None => step_runtime.tty || runtime_def.command.interactive_cmd is None,
    }
    &&& r.tty == step_runtime.tty
    &&& r.env.texts() == resolved_env(runtime_def.env.texts(), b).union_prefer_right(
        resolved_env(step_runtime.env.texts(), b),
    )
    &&& r.files@.map_values(|f: ResolvedFile| f@) == mapped_files(runtime_def.files@, b, texts)
    &&& r.proxy@ == runtime_def.proxy@
    &&& r.metrics@ == runtime_def.metrics@
    &&& r.failure_signals@ == runtime_def.failure_signals@
}

/// Resolve a workflow step's runtime spec against a runtime definition,
/// producing a fully-resolved spec the runner can execute.
///
/// Runtime vars are visible to templates as `{var.NAME}`; context vars (workflow
/// vars and builtins) under the names that the caller gave them. `texts` holds the
/// files that mappings name, as they were found on the search path (see
/// [`source_names`]), each under its name.
pub fn resolve_step_spec(
    runtime_def: &RuntimeDef,
    step_runtime: &RuntimeSpec,
    secrets: &StringMap<String>,
    texts: &StringMap<String>,
    context_vars: &StringMap<String>,
) -> (r: Result<ResolvedStepSpec, String>)
    ensures
        r is Ok,
        step_resolved(
            r->Ok_0,
            *runtime_def,
            *step_runtime,
            secrets.texts(),
            texts.texts(),
            context_vars.texts(),
        ),
{
    let ctx = step_context(runtime_def, step_runtime, secrets, context_vars);
    let files = resolve_files(&ctx, &runtime_def.files, texts);
    let command = resolve_command(&ctx, &runtime_def.command, step_runtime.tty);
    let mut env = resolve_env(&ctx, &runtime_def.env);
    let step_env = resolve_env(&ctx, &step_runtime.env);
    env.overlay(&step_env);
    let interactive_command = if step_runtime.tty {
        None  // already used as the main command
    } else {
        match &runtime_def.command.interactive_cmd {
            Some(cmd) => Some(copy_texts(cmd)),
            None => None,
        }
    };
    let proxy = runtime_def.proxy.clone();
    let metrics = runtime_def.metrics.clone();
    let failure_signals = runtime_def.failure_signals.clone();
    assert(proxy@ =~= runtime_def.proxy@);
    assert(metrics@ =~= runtime_def.metrics@);
    assert(failure_signals@ =~= runtime_def.failure_signals@);
    Ok(
        ResolvedStepSpec {
            command,
            interactive_command,
            tty: step_runtime.tty,
            env,
            files,
            proxy,
            metrics,
            failure_signals,
        },
    )
}

/// The values of a map, in the order of its keys.
pub open spec fn values_in_order(m: StringMap<String>) -> Seq<Seq<char>> {
    m.list().map_values(|e: (String, String)| e.1@)
}

/// The templates of a file mapping.
pub open spec fn file_templates(m: FileMappingDef) -> Seq<Seq<char>> {
    (match m.content {
        Some(t) => seq![t@],
        None => seq![],
    }) + (match m.from {
        Some(t) => seq![t@],
        None => seq![],
    }) + seq![m.to@]
}

/// The templates of file mappings, mapping by mapping.
pub open spec fn all_file_templates(ms: Seq<FileMappingDef>) -> Seq<Seq<char>>
    decreases ms.len(),
{
    if ms.len() == 0 {
        seq![]
    } else {
        all_file_templates(ms.drop_last()) + file_templates(ms.last())
    }
}

/// The templates of optional arguments, group by group.
pub open spec fn optional_templates(groups: Seq<OptionalArgsDef>) -> Seq<Seq<char>>
    decreases groups.len(),
{
    if groups.len() == 0 {
        seq![]
    } else {
        optional_templates(groups.drop_last()) + views(groups.last().args@)
    }
}

/// Every template that resolving a step may resolve: those of the environments, of the
/// files, and of the commands.
pub open spec fn step_templates(runtime_def: RuntimeDef, step_runtime: RuntimeSpec) -> Seq<Seq<char>> {
    values_in_order(runtime_def.env) + values_in_order(step_runtime.env) + all_file_templates(runtime_def.files@)
        + views(runtime_def.command.cmd@) + (match runtime_def.command.interactive_cmd {
        Some(cmd) => views(cmd@),
        None => seq![],
    }) + optional_templates(runtime_def.command.optional@)
}

/// The views of borrowed texts.
pub open spec fn str_views(v: Seq<&str>) -> Seq<Seq<char>> {
    v.map_values(|t: &str| t@)
}

fn push_values<'a>(templates: &mut Vec<&'a str>, env: &'a StringMap<String>)
    ensures
        str_views(final(templates)@) == str_views(old(templates)@) + values_in_order(*env),
{
    let ghost before = str_views(templates@);
    let ghost all = values_in_order(*env);
    let mut i: usize = 0;
    assert(str_views(templates@) =~= before + all.take(0));
    while i < env.len()
        invariant
            0 <= i <= env.list().len(),
            all == values_in_order(*env),
            str_views(templates@) == before + all.take(i as int),
        decreases env.list().len() - i,
    {
        let e = env.entry(i);
        let ghost so_far = str_views(templates@);
        templates.push(e.1.as_str());
        assert(str_views(templates@) =~= so_far.push(e.1@));
        assert(str_views(templates@) =~= before + all.take(i + 1));
        i += 1;
    }
    assert(all.take(i as int) =~= all);
}

fn push_texts<'a>(templates: &mut Vec<&'a str>, texts: &'a Vec<String>)
    ensures
        str_views(final(templates)@) == str_views(old(templates)@) + views(texts@),
{
    let ghost before = str_views(templates@);
    let ghost all = views(texts@);
    let mut i: usize = 0;
    assert(str_views(templates@) =~= before + all.take(0));
    while i < texts.len()
        invariant
            0 <= i <= texts@.len(),
            all == views(texts@),
            str_views(templates@) == before + all.take(i as int),
        decreases texts@.len() - i,
    {
        let ghost so_far = str_views(templates@);
        templates.push(texts[i].as_str());
        assert(str_views(templates@) =~= so_far.push(texts@[i as int]@));
        assert(str_views(templates@) =~= before + all.take(i + 1));
        i += 1;
    }
    assert(all.take(i as int) =~= all);
}

fn push_file_templates<'a>(templates: &mut Vec<&'a str>, mappings: &'a Vec<FileMappingDef>)
    ensures
        str_views(final(templates)@) == str_views(old(templates)@) + all_file_templates(mappings@),
{
    let ghost before = str_views(templates@);
    let ghost ms = mappings@;
    let mut i: usize = 0;
    assert(ms.take(0) =~= seq![]);
    assert(str_views(templates@) =~= before + all_file_templates(ms.take(0)));
    while i < mappings.len()
        invariant
            0 <= i <= ms.len(),
            ms == mappings@,
            str_views(templates@) == before + all_file_templates(ms.take(i as int)),
        decreases ms.len() - i,
    {
        let ghost so_far = str_views(templates@);
        let ghost next = ms.take(i + 1);
        assert(next.drop_last() =~= ms.take(i as int));
        assert(next.last() == ms[i as int]);
        let m = &mappings[i];
        if let Some(t) = &m.content {
            templates.push(t.as_str());
        }
        if let Some(t) = &m.from {
            templates.push(t.as_str());
        }
        templates.push(m.to.as_str());
        assert(str_views(templates@) =~= so_far + file_templates(*m));
        assert(str_views(templates@) =~= before + all_file_templates(next));
        i += 1;
    }
    assert(ms.take(i as int) =~= ms);
}

fn push_optional_templates<'a>(templates: &mut Vec<&'a str>, groups: &'a Vec<OptionalArgsDef>)
    ensures
        str_views(final(templates)@) == str_views(old(templates)@) + optional_templates(groups@),
{
    let ghost before = str_views(templates@);
    let ghost gs = groups@;
    let mut i: usize = 0;
    assert(gs.take(0) =~= seq![]);
    assert(str_views(templates@) =~= before + optional_templates(gs.take(0)));
    while i < groups.len()
        invariant
            0 <= i <= gs.len(),
            gs == groups@,
            str_views(templates@) == before + optional_templates(gs.take(i as int)),
        decreases gs.len() - i,
    {
        let ghost next = gs.take(i + 1);
        assert(next.drop_last() =~= gs.take(i as int));
        assert(next.last() == gs[i as int]);
        push_texts(templates, &groups[i].args);
        assert(str_views(templates@) =~= before + optional_templates(next));
        i += 1;
    }
    assert(gs.take(i as int) =~= gs);
}

/// Collect all secret names referenced by a runtime def + step spec.
pub fn collect_secret_refs(runtime_def: &RuntimeDef, step_runtime: &RuntimeSpec) -> (r: Vec<String>)
    ensures
        views(r@) == dedup_spec(all_secret_refs(step_templates(*runtime_def, *step_runtime))),
{
    let mut templates: Vec<&str> = Vec::new();
    push_values(&mut templates, &runtime_def.env);
    push_values(&mut templates, &step_runtime.env);
    push_file_templates(&mut templates, &runtime_def.files);
    push_texts(&mut templates, &runtime_def.command.cmd);
    if let Some(cmd) = &runtime_def.command.interactive_cmd {
        push_texts(&mut templates, cmd);
    }
    push_optional_templates(&mut templates, &runtime_def.command.optional);
    assert(str_views(templates@) =~= step_templates(*runtime_def, *step_runtime));
    InterpolationContext::collect_all_secret_refs(templates.as_slice())
}

/// The places where a named file may stand: for each directory of the search path
/// the name itself, then the name with `.md`, with `.toml` and with `.txt`.
pub open spec fn candidate_paths(search_path: Seq<Seq<char>>, subdir: Seq<char>, name: Seq<char>) -> Seq<Seq<char>>
    decreases search_path.len(),
{
    if search_path.len() == 0 {
        seq![]
    } else {
        let base = joined(search_path.last(), subdir);
        candidate_paths(search_path.drop_last(), subdir, name) + seq![
            joined(base, name),
            joined(base, name + ".md"@),
            joined(base, name + ".toml"@),
            joined(base, name + ".txt"@),
        ]
    }
}

/// Lists the places where a named file may stand, in the order in which they are
/// tried.
pub fn file_candidates(search_path: &Vec<String>, subdir: &str, name: &str) -> (r: Vec<String>)
    ensures
        views(r@) == candidate_paths(views(search_path@), subdir@, name@),
{
    let mut out: Vec<String> = Vec::new();
    let md = cat(name, ".md");
    let toml = cat(name, ".toml");
    let txt = cat(name, ".txt");
    let mut i: usize = 0;
    let ghost dirs = views(search_path@);
    assert(dirs.take(0) =~= seq![]);
    assert(views(out@) =~= seq![]);
    while i < search_path.len()
        invariant
            0 <= i <= search_path@.len(),
            dirs == views(search_path@),
            md@ == name@ + ".md"@,
            toml@ == name@ + ".toml"@,
            txt@ == name@ + ".txt"@,
            views(out@) == candidate_paths(dirs.take(i as int), subdir@, name@),
        decreases search_path@.len() - i,
    {
        let ghost next = dirs.take(i + 1);
        let ghost before = views(out@);
        assert(next.drop_last() =~= dirs.take(i as int));
        assert(next.last() == search_path@[i as int]@);
        let base = join_path(search_path[i].as_str(), subdir);
        let exact = join_path(base.as_str(), name);
        let with_md = join_path(base.as_str(), md.as_str());
        let with_toml = join_path(base.as_str(), toml.as_str());
        let with_txt = join_path(base.as_str(), txt.as_str());
        out.push(exact);
        out.push(with_md);
        out.push(with_toml);
        out.push(with_txt);
        assert(views(out@) =~= before + seq![exact@, with_md@, with_toml@, with_txt@]);
        i += 1;
    }
    assert(dirs.take(i as int) =~= dirs);
    out
}

/// The outcome of reading a named file: the text of the first place that is a file,
/// where it can be read; nothing where no place is.
pub open spec fn first_text(
    places: Seq<Seq<char>>,
    files: Map<Seq<char>, Option<String>>,
    r: Option<Seq<char>>,
) -> bool {
    ||| exists|i: int|
        {
            &&& 0 <= i < places.len()
            &&& files.dom().contains(#[trigger] places[i])
            &&& forall|j: int| 0 <= j < i ==> !files.dom().contains(#[trigger] places[j])
            &&& r == text_option(files[places[i]])
        }
    ||| r is None && forall|i: int| 0 <= i < places.len() ==> !files.dom().contains(#[trigger] places[i])
}

/// Find a file by name in the search path under a subdirectory, given the files that
/// exist, each with its text where it can be read.
/// Tries with and without common extensions (.md, .toml, .txt).
pub fn find_and_read_file(
    search_path: &Vec<String>,
    subdir: &str,
    name: &str,
    files: &StringMap<Option<String>>,
) -> (r: Option<String>)
    ensures
        first_text(candidate_paths(views(search_path@), subdir@, name@), files@, text_option(r)),
{
    let places = file_candidates(search_path, subdir, name);
    let ghost all = views(places@);
    let mut i: usize = 0;
    while i < places.len()
        invariant
            0 <= i <= places@.len(),
            all == views(places@),
            all == candidate_paths(views(search_path@), subdir@, name@),
            forall|j: int| 0 <= j < i ==> !files@.dom().contains(#[trigger] all[j]),
        decreases places@.len() - i,
    {
        assert(all[i as int] == places@[i as int]@);
        if let Some(text) = files.get(places[i].as_str()) {
            assert(files@.dom().contains(all[i as int]));
            return copy_option(text);
        }
        i += 1;
    }
    None
}

/// Context values win over runtime variables, and a step's own field wins over the
/// default of its variable.
pub proof fn context_wins_over_runtime_vars(
    vars: Seq<(Seq<char>, VarDef)>,
    fields: Map<Seq<char>, TomlValue>,
    context: Map<Seq<char>, Seq<char>>,
    key: Seq<char>,
)
    ensures
        context.dom().contains(key) ==> field_values(vars, fields, context).dom().contains(key) && field_values(
            vars,
            fields,
            context,
        )[key] == context[key],
        !context.dom().contains(key) && field_values(vars, fields, context).dom().contains(key) ==> exists|i: int|
            0 <= i < vars.len() && key == "var."@ + (#[trigger] vars[i]).0 && var_value(fields, vars[i].0, vars[i].1)
                == Some(field_values(vars, fields, context)[key]),
{
    if !context.dom().contains(key) && var_values(vars, fields).dom().contains(key) {
        lemma_var_values(vars, fields, key);
    }
}

proof fn lemma_var_values(vars: Seq<(Seq<char>, VarDef)>, fields: Map<Seq<char>, TomlValue>, key: Seq<char>)
    requires
        var_values(vars, fields).dom().contains(key),
    ensures
        exists|i: int|
            0 <= i < vars.len() && key == "var."@ + (#[trigger] vars[i]).0 && var_value(fields, vars[i].0, vars[i].1)
                == Some(var_values(vars, fields)[key]),
    decreases vars.len(),
{
    let last = vars.last();
    if var_value(fields, last.0, last.1) is Some && key == "var."@ + last.0 {
        assert(vars[vars.len() - 1] == last);
    } else {
        lemma_var_values(vars.drop_last(), fields, key);
        let i = choose|i: int|
            0 <= i < vars.drop_last().len() && key == "var."@ + (#[trigger] vars.drop_last()[i]).0 && var_value(
                fields,
                vars.drop_last()[i].0,
                vars.drop_last()[i].1,
            ) == Some(var_values(vars.drop_last(), fields)[key]);
        assert(vars[i] == vars.drop_last()[i]);
    }
}

/// Every secret that a template of a step refers to is collected, once.
pub proof fn step_secrets_are_collected(
    runtime_def: RuntimeDef,
    step_runtime: RuntimeSpec,
    i: int,
    secret: Seq<char>,
)
    requires
        0 <= i < step_templates(runtime_def, step_runtime).len(),
        secret_refs(pieces(step_templates(runtime_def, step_runtime)[i])).contains(secret),
    ensures
        dedup_spec(all_secret_refs(step_templates(runtime_def, step_runtime))).contains(secret),
        dedup_spec(all_secret_refs(step_templates(runtime_def, step_runtime))).no_duplicates(),
{
    collected_secrets_are_distinct_and_complete(step_templates(runtime_def, step_runtime), i, secret);
}

/// The file that a mapping names is placed with its text, where it is there.
pub proof fn named_files_are_placed(
    ms: Seq<FileMappingDef>,
    b: Bindings,
    texts: Map<Seq<char>, Seq<char>>,
    i: int,
)
    requires
        0 <= i < ms.len(),
        source_name(ms[i], b) is Some,
        texts.dom().contains(source_name(ms[i], b)->0),
    ensures
        mapped_files(ms, b, texts).contains(
            (FileView { content: texts[source_name(ms[i], b)->0], to: b.or_self(ms[i].to@), mode: ms[i].mode@ }),
        ),
        source_names_spec(ms, b).contains(source_name(ms[i], b)->0),
    decreases ms.len(),
{
    let f = FileView { content: texts[source_name(ms[i], b)->0], to: b.or_self(ms[i].to@), mode: ms[i].mode@ };
    let name = source_name(ms[i], b)->0;
    let files = mapped_files(ms.drop_last(), b, texts);
    let names = source_names_spec(ms.drop_last(), b);
    let all = mapped_files(ms, b, texts);
    let all_names = source_names_spec(ms, b);
    if i == ms.len() - 1 {
        assert(all[files.len() as int] == f);
        assert(all_names[names.len() as int] == name);
    } else {
        assert(ms.drop_last()[i] == ms[i]);
        named_files_are_placed(ms.drop_last(), b, texts, i);
        let j = files.index_of(f);
        assert(all[j] == f);
        let k = names.index_of(name);
        assert(all_names[k] == name);
    }
}

/// The optional groups of a command contribute one by one, in the order of their
/// declaration: none is lost to those behind it.
pub proof fn optional_groups_add_up(a: Seq<OptionalArgsDef>, c: Seq<OptionalArgsDef>, b: Bindings)
    ensures
        optional_args(a + c, b) == optional_args(a, b) + optional_args(c, b),
    decreases c.len(),
{
    if c.len() == 0 {
        assert(a + c =~= a);
        assert(optional_args(c, b) =~= seq![]);
        assert(optional_args(a, b) + optional_args(c, b) =~= optional_args(a, b));
    } else {
        let all = a + c;
        assert(all.drop_last() =~= a + c.drop_last());
        assert(all.last() == c.last());
        optional_groups_add_up(a, c.drop_last(), b);
        assert(optional_args(all, b) =~= optional_args(a, b) + optional_args(c, b));
    }
}

/// A group whose variable has a value gives all its arguments, each interpolated where its
/// references resolve and as it is where they do not; any other group gives none.
pub proof fn optional_groups_follow_their_variable(g: OptionalArgsDef, b: Bindings)
    ensures
        b.values.dom().contains("var."@ + g.when@) ==> {
            &&& optional_args(seq![g], b).len() == g.args@.len()
            &&& forall|i: int|
                0 <= i < g.args@.len() ==> #[trigger] optional_args(seq![g], b)[i] == (match interpolate_spec(
                    g.args@[i]@,
                    b.values,
                    b.secrets,
                ) {
                    Ok(s) => s,
                    Err(_) => g.args@[i]@,
                })
        },
        !b.values.dom().contains("var."@ + g.when@) ==> optional_args(seq![g], b).len() == 0,
{
    let gs = seq![g];
    assert(gs.drop_last() =~= seq![]);
    assert(gs.last() == g);
    assert(optional_args(gs.drop_last(), b) =~= seq![]);
    if b.values.dom().contains("var."@ + g.when@) {
        assert(optional_args(gs, b) =~= resolved_args(g.args@, b));
    }
}

/// A command starts with the words of its base, each interpolated where its references
/// resolve: the interactive one exactly where the step wants a terminal and the runtime has
/// one. Behind them stands each argument of each optional group whose variable has a value.
pub proof fn commands_hold_base_and_options(c: CommandDef, tty: bool, b: Bindings, k: int, i: int)
    requires
        0 <= k < c.optional@.len(),
        0 <= i < c.optional@[k].args@.len(),
    ensures
        ({
            let base = if tty && c.interactive_cmd is Some {
                c.interactive_cmd->0@
            } else {
                c.cmd@
            };
            let command = resolved_command(c, tty, b);
            let before = base.len() + optional_args(c.optional@.take(k), b).len();
            &&& command.len() >= base.len()
            &&& forall|j: int|
                0 <= j < base.len() ==> #[trigger] command[j] == (match interpolate_spec(base[j]@, b.values, b.secrets) {
                    Ok(s) => s,
                    Err(_) => base[j]@,
                })
            &&& b.values.dom().contains("var."@ + c.optional@[k].when@) ==> {
                &&& before + i < command.len()
                &&& command[before + i] == (match interpolate_spec(c.optional@[k].args@[i]@, b.values, b.secrets) {
                    Ok(s) => s,
                    Err(_) => c.optional@[k].args@[i]@,
                })
            }
        }),
{
    let gs = c.optional@;
    let front = gs.take(k);
    let g = gs[k];
    let rest = gs.skip(k + 1);
    assert(gs =~= front + (seq![g] + rest));
    optional_groups_add_up(front, seq![g] + rest, b);
    optional_groups_add_up(seq![g], rest, b);
    optional_groups_follow_their_variable(g, b);
    if b.values.dom().contains("var."@ + g.when@) {
        assert(optional_args(gs, b)[optional_args(front, b).len() + i] == optional_args(seq![g], b)[i]);
    }
}

/// A command without optional groups is its base and nothing else.
pub proof fn commands_without_options_are_their_base(c: CommandDef, tty: bool, b: Bindings)
    requires
        c.optional@.len() == 0,
    ensures
        resolved_command(c, tty, b).len() == (if tty && c.interactive_cmd is Some {
            c.interactive_cmd->0@.len()
        } else {
            c.cmd@.len()
        }),
        forall|j: int|
            0 <= j < resolved_command(c, tty, b).len() ==> #[trigger] resolved_command(c, tty, b)[j] == ({
                let word = if tty && c.interactive_cmd is Some {
                    c.interactive_cmd->0@[j]@
                } else {
                    c.cmd@[j]@
                };
                match interpolate_spec(word, b.values, b.secrets) {
                    Ok(s) => s,
                    Err(_) => word,
                }
            }),
{
}

/// A declared variable that the context does not set has the value that the step gives it,
/// else its default; one with neither has no value.
pub proof fn declared_vars_have_their_value(
    vars: Seq<(Seq<char>, VarDef)>,
    fields: Map<Seq<char>, TomlValue>,
    context: Map<Seq<char>, Seq<char>>,
    i: int,
)
    requires
        0 <= i < vars.len(),
        forall|j: int| 0 <= j < vars.len() && j != i ==> (#[trigger] vars[j]).0 != vars[i].0,
        !context.dom().contains("var."@ + vars[i].0),
    ensures
        ({
            let key = "var."@ + vars[i].0;
            let values = field_values(vars, fields, context);
            if fields.dom().contains(vars[i].0) {
                values.dom().contains(key) && values[key] == toml_text(fields[vars[i].0])
            } else {
                match vars[i].1.default {
                    Some(d) => values.dom().contains(key) && values[key] == d@,
                    None => !values.dom().contains(key),
                }
            }
        }),
    decreases vars.len(),
{
    let n = vars.len() - 1;
    let key = "var."@ + vars[i].0;
    let last = vars.last();
    let head = vars.drop_last();
    if i < n {
        assert(vars[n].0 != vars[i].0);
        assert("var."@ + last.0 != key) by {
            if "var."@ + last.0 == key {
                let at = "var."@.len() as int;
                assert(("var."@ + last.0).skip(at) =~= last.0);
                assert(key.skip(at) =~= vars[i].0);
            }
        }
        assert(head[i] == vars[i]);
        assert forall|j: int| 0 <= j < head.len() && j != i implies (#[trigger] head[j]).0 != head[i].0 by {
            assert(head[j] == vars[j]);
        }
        declared_vars_have_their_value(head, fields, context, i);
        assert(var_values(vars, fields).dom().contains(key) == var_values(head, fields).dom().contains(key));
    } else {
        if var_values(head, fields).dom().contains(key) {
            lemma_var_values(head, fields, key);
            let j = choose|j: int|
                0 <= j < head.len() && key == "var."@ + (#[trigger] head[j]).0 && var_value(fields, head[j].0, head[j].1)
                    == Some(var_values(head, fields)[key]);
            let at = "var."@.len() as int;
            assert(key.skip(at) =~= head[j].0);
            assert(key.skip(at) =~= vars[i].0);
            assert(vars[j] == head[j]);
            assert(vars[j].0 != vars[i].0);
        }
    }
}

/// Each text of a runtime field reads as it was set.
pub proof fn runtime_fields_keep_their_text(text: String, n: i64, b: bool)
    ensures
        toml_text(TomlValue::String(text)) == text@,
        toml_text(TomlValue::Integer(n)) == dec_int(n as int),
        toml_text(TomlValue::Boolean(b)) == (if b {
            "true"@
        } else {
            "false"@
        }),
{
}

/// A variable of the step's environment wins over that of the runtime where its value
/// resolves, and both give their interpolated value; what does not resolve is left out.
pub proof fn step_env_wins_over_runtime_env(
    r: ResolvedStepSpec,
    runtime_def: RuntimeDef,
    step_runtime: RuntimeSpec,
    secrets: Map<Seq<char>, Seq<char>>,
    texts: Map<Seq<char>, Seq<char>>,
    context: Map<Seq<char>, Seq<char>>,
    key: Seq<char>,
)
    requires
        step_resolved(r, runtime_def, step_runtime, secrets, texts, context),
    ensures
        ({
            let values = field_values(var_entries(runtime_def.vars), step_runtime.fields@, context);
            let own = step_runtime.env.texts();
            let base = runtime_def.env.texts();
            let of_own = interpolate_spec(own[key], values, secrets);
            let of_base = interpolate_spec(base[key], values, secrets);
            let env = r.env.texts();
            if own.dom().contains(key) && of_own is Ok {
                env.dom().contains(key) && env[key] == of_own->Ok_0
            } else if base.dom().contains(key) && of_base is Ok {
                env.dom().contains(key) && env[key] == of_base->Ok_0
            } else {
                !env.dom().contains(key)
            }
        }),
{
}

/// What a runtime declares for its proxies, metrics and failure signals reaches the
/// runner, and so does the terminal that the step wants. The interactive command goes along
/// as it is declared where it is not the command already.
pub proof fn resolved_steps_carry_what_the_runtime_declares(
    r: ResolvedStepSpec,
    runtime_def: RuntimeDef,
    step_runtime: RuntimeSpec,
    secrets: Map<Seq<char>, Seq<char>>,
    texts: Map<Seq<char>, Seq<char>>,
    context: Map<Seq<char>, Seq<char>>,
)
    requires
        step_resolved(r, runtime_def, step_runtime, secrets, texts, context),
    ensures
        r.tty == step_runtime.tty,
        r.proxy@ == runtime_def.proxy@,
        r.metrics@ == runtime_def.metrics@,
        r.failure_signals@ == runtime_def.failure_signals@,
        step_runtime.tty || runtime_def.command.interactive_cmd is None ==> r.interactive_command is None,
        !step_runtime.tty && runtime_def.command.interactive_cmd is Some ==> r.interactive_command is Some
            && r.interactive_command->0@ == runtime_def.command.interactive_cmd->0@,
        ({
            let b = Bindings {
                values: field_values(var_entries(runtime_def.vars), step_runtime.fields@, context),
                secrets,
            };
            &&& views(r.command@) == resolved_command(runtime_def.command, step_runtime.tty, b)
            &&& r.files@.len() == mapped_files(runtime_def.files@, b, texts).len()
            &&& forall|i: int|
                0 <= i < r.files@.len() ==> (#[trigger] r.files@[i])@ == mapped_files(runtime_def.files@, b, texts)[i]
        }),
{
    let b = step_bindings(runtime_def, step_runtime, secrets, context);
    let placed = r.files@.map_values(|f: ResolvedFile| f@);
    assert(placed == mapped_files(runtime_def.files@, b, texts));
    assert forall|i: int| 0 <= i < r.files@.len() implies (#[trigger] r.files@[i])@ == mapped_files(
        runtime_def.files@,
        b,
        texts,
    )[i] by {
        assert(placed[i] == r.files@[i]@);
    }
}

/// File mappings place their files one by one, in the order of their declaration.
pub proof fn file_mappings_add_up(
    a: Seq<FileMappingDef>,
    c: Seq<FileMappingDef>,
    b: Bindings,
    texts: Map<Seq<char>, Seq<char>>,
)
    ensures
        mapped_files(a + c, b, texts) == mapped_files(a, b, texts) + mapped_files(c, b, texts),
        source_names_spec(a + c, b) == source_names_spec(a, b) + source_names_spec(c, b),
    decreases c.len(),
{
    if c.len() == 0 {
        assert(a + c =~= a);
        assert(mapped_files(c, b, texts) =~= seq![]);
        assert(source_names_spec(c, b) =~= seq![]);
        assert(mapped_files(a, b, texts) + mapped_files(c, b, texts) =~= mapped_files(a, b, texts));
        assert(source_names_spec(a, b) + source_names_spec(c, b) =~= source_names_spec(a, b));
    } else {
        let all = a + c;
        assert(all.drop_last() =~= a + c.drop_last());
        assert(all.last() == c.last());
        file_mappings_add_up(a, c.drop_last(), b, texts);
        assert(mapped_files(all, b, texts) =~= mapped_files(a, b, texts) + mapped_files(c, b, texts));
        assert(source_names_spec(all, b) =~= source_names_spec(a, b) + source_names_spec(c, b));
    }
}

/// A mapping with content of its own places it, interpolated, and interpolated once more
/// where that resolves too; it names no file. One without places the text of the file that
/// its `from` interpolates to. What does not resolve or is not there is not placed. The
/// destination is interpolated where it resolves, and the permissions are those declared.
pub proof fn a_mapping_places_its_content(
    m: FileMappingDef,
    b: Bindings,
    texts: Map<Seq<char>, Seq<char>>,
)
    ensures
        ({
            let files = mapped_files(seq![m], b, texts);
            let names = source_names_spec(seq![m], b);
            &&& files.len() <= 1
            &&& files.len() == 1 ==> files[0].mode == m.mode@ && files[0].to == (match interpolate_spec(
                m.to@,
                b.values,
                b.secrets,
            ) {
                Ok(to) => to,
                Err(_) => m.to@,
            })
            &&& match (m.content, m.from) {
                (Some(c), _) => {
                    &&& names.len() == 0
                    &&& match interpolate_spec(c@, b.values, b.secrets) {
                        Err(_) => files.len() == 0,
                        Ok(first) => files.len() == 1 && files[0].content == (match interpolate_spec(
                            first,
                            b.values,
                            b.secrets,
                        ) {
                            Ok(second) => second,
                            Err(_) => first,
                        }),
                    }
                },
                (None, Some(from)) => match interpolate_spec(from@, b.values, b.secrets) {
                    Err(_) => names.len() == 0 && files.len() == 0,
                    Ok(name) => {
                        &&& names == seq![name]
                        &&& texts.dom().contains(name) ==> files.len() == 1 && files[0].content == texts[name]
                        &&& !texts.dom().contains(name) ==> files.len() == 0
                    },
                },
                (None, None) => names.len() == 0 && files.len() == 0,
            }
        }),
{
    let ms = seq![m];
    assert(ms.drop_last() =~= seq![]);
    assert(ms.last() == m);
    assert(mapped_files(ms.drop_last(), b, texts) =~= seq![]);
    assert(source_names_spec(ms.drop_last(), b) =~= seq![]);
    if let Some(name) = source_name(m, b) {
        assert(source_names_spec(ms, b) =~= seq![name]);
    }
}

/// Every template of a step is among those that secrets are collected from: the values
/// of both environments, what file mappings declare, both commands and every optional
/// argument.
pub proof fn every_template_is_searched_for_secrets(runtime_def: RuntimeDef, step_runtime: RuntimeSpec, i: int, k: int)
    ensures
        ({
            let all = step_templates(runtime_def, step_runtime);
            let files = runtime_def.files@;
            let groups = runtime_def.command.optional@;
            &&& 0 <= i < runtime_def.env.list().len() ==> all.contains(runtime_def.env.list()[i].1@)
            &&& 0 <= i < step_runtime.env.list().len() ==> all.contains(step_runtime.env.list()[i].1@)
            &&& 0 <= i < files.len() ==> all.contains(files[i].to@)
            &&& 0 <= i < files.len() && files[i].content is Some ==> all.contains(files[i].content->0@)
            &&& 0 <= i < files.len() && files[i].from is Some ==> all.contains(files[i].from->0@)
            &&& 0 <= i < runtime_def.command.cmd@.len() ==> all.contains(runtime_def.command.cmd@[i]@)
            &&& runtime_def.command.interactive_cmd is Some && 0 <= i < runtime_def.command.interactive_cmd->0@.len()
                ==> all.contains(runtime_def.command.interactive_cmd->0@[i]@)
            &&& 0 <= i < groups.len() && 0 <= k < groups[i].args@.len() ==> all.contains(groups[i].args@[k]@)
        }),
{
    let a = values_in_order(runtime_def.env);
    let b = values_in_order(step_runtime.env);
    let c = all_file_templates(runtime_def.files@);
    let d = views(runtime_def.command.cmd@);
    let e = match runtime_def.command.interactive_cmd {
        Some(cmd) => views(cmd@),
        None => seq![],
    };
    let f = optional_templates(runtime_def.command.optional@);
    let all = a + b + c + d + e + f;
    assert(all == step_templates(runtime_def, step_runtime));
    let files = runtime_def.files@;
    let groups = runtime_def.command.optional@;
    if 0 <= i < runtime_def.env.list().len() {
        assert(a[i] == runtime_def.env.list()[i].1@);
        assert(all[i] == a[i]);
    }
    if 0 <= i < step_runtime.env.list().len() {
        assert(b[i] == step_runtime.env.list()[i].1@);
        assert(all[a.len() + i] == b[i]);
    }
    if 0 <= i < files.len() {
        lemma_file_templates(files, i);
        let n = (a + b).len() as int;
        assert forall|t: Seq<char>| #[trigger] c.contains(t) implies all.contains(t) by {
            let at = c.index_of(t);
            assert(all[n + at] == c[at]);
        }
    }
    if 0 <= i < runtime_def.command.cmd@.len() {
        assert(d[i] == runtime_def.command.cmd@[i]@);
        assert(all[(a + b + c).len() + i] == d[i]);
    }
    if runtime_def.command.interactive_cmd is Some && 0 <= i < runtime_def.command.interactive_cmd->0@.len() {
        assert(e[i] == runtime_def.command.interactive_cmd->0@[i]@);
        assert(all[(a + b + c + d).len() + i] == e[i]);
    }
    if 0 <= i < groups.len() && 0 <= k < groups[i].args@.len() {
        lemma_optional_templates(groups, i, k);
        let at = f.index_of(groups[i].args@[k]@);
        assert(all[(a + b + c + d + e).len() + at] == f[at]);
    }
}

proof fn lemma_file_templates(ms: Seq<FileMappingDef>, i: int)
    requires
        0 <= i < ms.len(),
    ensures
        all_file_templates(ms).contains(ms[i].to@),
        ms[i].content is Some ==> all_file_templates(ms).contains(ms[i].content->0@),
        ms[i].from is Some ==> all_file_templates(ms).contains(ms[i].from->0@),
    decreases ms.len(),
{
    let head = all_file_templates(ms.drop_last());
    let own = file_templates(ms.last());
    let all = head + own;
    if i == ms.len() - 1 {
        let m = ms[i];
        assert(own[own.len() - 1] == m.to@);
        assert(all[head.len() + own.len() - 1] == m.to@);
        if m.content is Some {
            assert(own[0] == m.content->0@);
            assert(all[head.len() as int] == own[0]);
        }
        if m.from is Some {
            assert(own[own.len() - 2] == m.from->0@);
            assert(all[head.len() + own.len() - 2] == own[own.len() - 2]);
        }
    } else {
        assert(ms.drop_last()[i] == ms[i]);
        lemma_file_templates(ms.drop_last(), i);
        assert forall|t: Seq<char>| #[trigger] head.contains(t) implies all.contains(t) by {
            let at = head.index_of(t);
            assert(all[at] == head[at]);
        }
    }
}

proof fn lemma_optional_templates(groups: Seq<OptionalArgsDef>, i: int, k: int)
    requires
        0 <= i < groups.len(),
        0 <= k < groups[i].args@.len(),
    ensures
        optional_templates(groups).contains(groups[i].args@[k]@),
    decreases groups.len(),
{
    let head = optional_templates(groups.drop_last());
    let own = views(groups.last().args@);
    let all = head + own;
    if i == groups.len() - 1 {
        assert(own[k] == groups[i].args@[k]@);
        assert(all[head.len() + k] == own[k]);
    } else {
        assert(groups.drop_last()[i] == groups[i]);
        lemma_optional_templates(groups.drop_last(), i, k);
        let at = head.index_of(groups[i].args@[k]@);
        assert(all[at] == head[at]);
    }
}

/// A named file is looked for directory by directory, in the order of the search path, and
/// in each under its own name before the names with an extension.
pub proof fn directories_are_searched_in_order(
    search_path: Seq<Seq<char>>,
    subdir: Seq<char>,
    name: Seq<char>,
    i: int,
)
    requires
        0 <= i < search_path.len(),
    ensures
        ({
            let places = candidate_paths(search_path, subdir, name);
            let base = joined(search_path[i], subdir);
            &&& places.len() == 4 * search_path.len()
            &&& places[4 * i] == joined(base, name)
            &&& places[4 * i + 1] == joined(base, name + ".md"@)
            &&& places[4 * i + 2] == joined(base, name + ".toml"@)
            &&& places[4 * i + 3] == joined(base, name + ".txt"@)
        }),
    decreases search_path.len(),
{
    let head = search_path.drop_last();
    if head.len() > 0 {
        let j = if i < head.len() { i } else { 0 };
        directories_are_searched_in_order(head, subdir, name, j);
        if i < head.len() {
            assert(head[i] == search_path[i]);
        }
    } else {
        assert(candidate_paths(head, subdir, name) =~= seq![]);
    }
}

} // verus!
