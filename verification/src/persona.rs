//! Personas: markdown instructions with frontmatter that selects a runtime.

use vstd::prelude::*;

use indexmap::IndexMap;

use crate::runtime::{var_entries, RuntimeDef};
use crate::strmap::StringMap;
use crate::text::{
    chars_of, has_suffix, is_white, lemma_trim_drops_trailing, occurs, occurs_at, replace, replace_spec, strip_suffix, text_range,
    texts_without_an_occurrence_stay, trim, trim_spec, trim_start, trim_start_char, trim_start_char_spec, trim_start_spec, views, white,
};
use crate::workflow::{lemma_position, position_of, VarDef};

verus! {

/// A persona definition, loaded from a markdown file with YAML frontmatter.
///
/// The frontmatter declares structural fields (runtime, skills, secrets)
/// plus arbitrary vars that flow through to the runtime as defaults.
/// The markdown body is the agent's instructions.
#[derive(Debug, Clone)]
pub struct PersonaDef {
    /// Persona name, derived from file path (e.g. "inspired/software-engineer").
    pub name: String,
    /// Runtime to use (e.g. "codex"). If None, must be specified at the step level.
    pub runtime: Option<String>,
    /// Skills this persona needs.
    pub skills: Vec<String>,
    /// Secrets this persona expects (informational).
    pub secrets: Vec<String>,
    /// Runtime variable defaults from frontmatter (e.g. model, temperature,
    /// max_tokens — anything the runtime definition declares as a var).
    /// These are injected into the runtime spec as defaults, overridable
    /// at the step level.
    pub vars: StringMap<String>,
    /// The markdown body — everything after the frontmatter.
    pub instructions: String,
}

/// A value in YAML frontmatter, as far as runtime variables read it.
#[derive(Debug, Clone)]
pub enum YamlValue {
    String(String),
    Bool(bool),
    /// A number, as it is printed.
    Number(String),
    /// Anything else, in its debug form.
    Other(String),
}

/// Raw YAML frontmatter fields.
///
/// Structural fields are parsed explicitly. Everything else is captured
/// by the `vars` map and passed through as runtime var defaults.
#[derive(Debug)]
pub struct PersonaFrontmatter {
    pub runtime: Option<String>,
    pub skills: Vec<String>,
    pub secrets: Vec<String>,
    /// All other frontmatter fields become runtime var defaults.
    pub vars: StringMap<YamlValue>,
}

impl Default for PersonaFrontmatter {
    fn default() -> (f: Self)
        ensures
            f.runtime is None,
            f.skills@.len() == 0,
            f.secrets@.len() == 0,
            f.vars@ == Map::<Seq<char>, YamlValue>::empty(),
    {
        PersonaFrontmatter { runtime: None, skills: Vec::new(), secrets: Vec::new(), vars: StringMap::new() }
    }
}

/// The text of a frontmatter value.
pub open spec fn yaml_text(v: YamlValue) -> Seq<char> {
    match v {
        YamlValue::String(s) => s@,
        YamlValue::Bool(b) => if b { "true"@ } else { "false"@ },
        YamlValue::Number(n) => n@,
        YamlValue::Other(s) => s@,
    }
}

/// Convert a frontmatter value to a string for use as a runtime var.
pub fn yaml_value_to_string(v: &YamlValue) -> (s: String)
    ensures
        s@ == yaml_text(*v),
{
    match v {
        YamlValue::String(s) => s.clone(),
        YamlValue::Bool(b) => if *b { "true".to_owned() } else { "false".to_owned() },
        YamlValue::Number(n) => n.clone(),
        YamlValue::Other(s) => s.clone(),
    }
}

/// A persona is made of a name, parsed frontmatter and instructions.
pub open spec fn assembled(
    p: PersonaDef,
    name: Seq<char>,
    frontmatter: Option<PersonaFrontmatter>,
    instructions: String,
) -> bool {
    &&& p.name@ == name
    &&& p.instructions == instructions
    &&& match frontmatter {
        Some(f) => {
            &&& p.runtime == f.runtime
            &&& p.skills == f.skills
            &&& p.secrets == f.secrets
            &&& p.vars@.dom() == f.vars@.dom()
            &&& forall|k: Seq<char>| #[trigger] f.vars@.dom().contains(k) ==> p.vars@[k]@ == yaml_text(f.vars@[k])
        },
        None => {
            &&& p.runtime is None
            &&& p.skills@.len() == 0
            &&& p.secrets@.len() == 0
            &&& p.vars@ == Map::<Seq<char>, String>::empty()
        },
    }
}

/// A persona made of its name, its parsed frontmatter and its instructions. A file
/// without frontmatter, or with one that does not parse, has the fields of an empty
/// one.
pub fn assemble_persona(name: &str, frontmatter: Option<PersonaFrontmatter>, instructions: String) -> (p: PersonaDef)
    ensures
        assembled(p, name@, frontmatter, instructions),
{
    let f = match frontmatter {
        Some(f) => f,
        None => PersonaFrontmatter::default(),
    };
    let mut vars: StringMap<String> = StringMap::new();
    let mut i: usize = 0;
    while i < f.vars.len()
        invariant
            0 <= i <= f.vars.list().len(),
            forall|k: Seq<char>| #[trigger]
                vars@.dom().contains(k) ==> f.vars@.dom().contains(k) && vars@[k]@ == yaml_text(f.vars@[k]),
            forall|j: int| 0 <= j < i ==> vars@.dom().contains(#[trigger] f.vars.keys()[j]),
        decreases f.vars.list().len() - i,
    {
        let e = f.vars.entry(i);
        vars.insert(e.0.clone(), yaml_value_to_string(&e.1));
        i += 1;
    }
    proof {
        assert forall|k: Seq<char>| #[trigger] f.vars@.dom().contains(k) implies vars@.dom().contains(k) by {
            let j = f.vars.keys().index_of(k);
            assert(f.vars.keys()[j] == k);
        }
        assert(vars@.dom() =~= f.vars@.dom());
        if f.vars@ == Map::<Seq<char>, YamlValue>::empty() {
            assert(vars@ =~= Map::<Seq<char>, String>::empty());
        }
    }
    PersonaDef { name: name.to_owned(), runtime: f.runtime, skills: f.skills, secrets: f.secrets, vars, instructions }
}

/// From `i` to the end of its line there is white space at most.
pub open spec fn blank_from(s: Seq<char>, i: int) -> bool
    decreases s.len() - i,
{
    i >= s.len() || s[i] == '\n' || (white(s[i]) && blank_from(s, i + 1))
}

/// A line that starts at `i` is a fence: `---`, and nothing behind it but white space.
pub open spec fn fence_at(s: Seq<char>, i: int) -> bool {
    occurs_at(s, "---"@, i) && blank_from(s, i + 3)
}

/// A line starts at `i`, and is a fence.
pub open spec fn fence_line(s: Seq<char>, i: int) -> bool {
    0 <= i < s.len() && (i == 0 || s[i - 1] == '\n') && fence_at(s, i)
}

/// The first fence at or behind a position; the length of the text where there is none.
pub open spec fn find_fence(s: Seq<char>, from: int) -> int
    decreases s.len() - from,
{
    if from < 0 || from >= s.len() {
        s.len() as int
    } else if fence_line(s, from) {
        from
    } else {
        find_fence(s, from + 1)
    }
}

/// The text behind an opening `---` and one line end.
pub open spec fn behind_opening(content: Seq<char>) -> Seq<char> {
    let rest = trim_start_spec(content).skip(3);
    if rest.len() > 0 && rest[0] == '\n' {
        rest.skip(1)
    } else {
        rest
    }
}

/// The frontmatter and the body of a markdown file. Both fences are lines of their own;
/// without both there is no frontmatter.
pub open spec fn frontmatter_spec(content: Seq<char>) -> (Option<Seq<char>>, Seq<char>) {
    let rest = behind_opening(content);
    let close = find_fence(rest, 0);
    if !fence_at(trim_start_spec(content), 0) || close >= rest.len() {
        (None, content)
    } else {
        (Some(trim_spec(rest.take(close))), trim_start_char_spec(rest.skip(close + 3), '\n'))
    }
}

fn is_fence(v: &Vec<char>, fence: &Vec<char>, i: usize) -> (r: bool)
    requires
        i <= v@.len(),
        fence@ == "---"@,
    ensures
        r == fence_at(v@, i as int),
{
    proof {
        reveal_strlit("---");
    }
    if !occurs(v, fence, i) {
        return false;
    }
    let n: usize = v.len();
    assert(fence@.len() == 3);
    assert(i + 3 <= n);
    let mut j: usize = i + 3;
    while j < n && v[j] != '\n'
        invariant
            j <= n == v@.len(),
            blank_from(v@, i + 3) == blank_from(v@, j as int),
        decreases v@.len() - j,
    {
        if !is_white(v[j]) {
            return false;
        }
        j += 1;
    }
    true
}

/// Split markdown content into optional YAML frontmatter and body.
///
/// Frontmatter is delimited by `---` on its own line at the start of the file.
/// Returns (Some(yaml_str), body) if frontmatter found, (None, full_content) otherwise.
pub fn split_frontmatter(content: &str) -> (r: (Option<String>, String))
    ensures
        match r.0 {
            Some(yaml) => frontmatter_spec(content@) == (Some(yaml@), r.1@),
            None => frontmatter_spec(content@) == (None::<Seq<char>>, r.1@),
        },
{
    proof {
        reveal_strlit("---");
    }
    let trimmed = chars_of(trim_start(content).as_str());
    let fence = chars_of("---");
    if !is_fence(&trimmed, &fence, 0) {
        return (None, content.to_owned());
    }
    let from: usize = if trimmed.len() > 3 && trimmed[3] == '\n' { 4 } else { 3 };
    let rest = chars_of(text_range(&trimmed, from, trimmed.len()).as_str());
    assert(rest@ =~= behind_opening(content@));
    let mut i: usize = 0;
    while i < rest.len()
        invariant
            0 <= i <= rest@.len(),
            fence@ == "---"@,
            rest@ == behind_opening(content@),
            fence_at(trim_start_spec(content@), 0),
            find_fence(rest@, 0) == find_fence(rest@, i as int),
        decreases rest@.len() - i,
    {
        if (i == 0 || rest[i - 1] == '\n') && is_fence(&rest, &fence, i) {
            proof {
                reveal_strlit("---");
            }
            let yaml = trim(text_range(&rest, 0, i).as_str());
            let text = trim_start_char(text_range(&rest, i + 3, rest.len()).as_str(), '\n');
            assert(rest@.subrange(0, i as int) =~= rest@.take(i as int));
            return (Some(yaml), text);
        }
        i += 1;
    }
    // Opening --- but no closing --- : treat whole thing as content
    (None, content.to_owned())
}

/// Content whose first line is not `---` is all body, as it is.
pub proof fn content_without_frontmatter_is_the_body(content: Seq<char>)
    requires
        !fence_at(trim_start_spec(content), 0),
    ensures
        frontmatter_spec(content) == (None::<Seq<char>>, content),
{
}

/// Frontmatter between fences comes out trimmed, and the body without the line ends
/// in front of it. No line of the frontmatter is a fence itself, and behind the closing
/// fence its line is blank.
pub proof fn fenced_frontmatter_is_found(yaml: Seq<char>, body: Seq<char>)
    requires
        forall|i: int| !fence_line(yaml + "\n"@, i),
        blank_from(body, 0),
    ensures
        frontmatter_spec("---\n"@ + yaml + "\n---"@ + body) == (
            Some(trim_spec(yaml)),
            trim_start_char_spec(body, '\n'),
        ),
{
    reveal_strlit("---");
    reveal_strlit("---\n");
    reveal_strlit("\n---");
    reveal_strlit("\n");
    let t = "---\n"@ + yaml + "\n---"@ + body;
    assert(t[0] == '-');
    assert(trim_start_spec(t) == t);
    assert(t.subrange(0, 3) =~= "---"@);
    assert(t[3] == '\n');
    let rest = behind_opening(t);
    assert(t.skip(3)[0] == '\n');
    assert(rest =~= yaml + "\n---"@ + body);
    let n = yaml.len() as int;
    let front = yaml + "\n"@;
    assert(rest[n] == '\n');
    assert forall|i: int| 0 <= i < n + 1 implies rest[i] == front[i] by {}
    assert(rest.subrange(n + 1, n + 4) =~= "---"@);
    assert(rest =~= (yaml + "\n---"@) + body);
    lemma_blank_behind(yaml + "\n---"@, body, 0);
    assert(fence_line(rest, n + 1));
    assert forall|i: int| 0 <= i <= n implies !fence_line(rest, i) by {
        if fence_line(rest, i) {
            let w = rest.subrange(i, i + 3);
            assert(w[0] == '-' && w[1] == '-' && w[2] == '-');
            if i + 3 > n {
                assert(w[n - i] == '\n');
            }
            assert(front.subrange(i, i + 3) =~= w);
            lemma_blank_within(rest, front, i + 3, n);
            assert(fence_line(front, i));
        }
    }
    lemma_find_fence_is(rest, 0, n + 1);
    assert(rest.take(n + 1) =~= yaml + seq!['\n']);
    lemma_trim_drops_trailing(yaml, '\n');
    assert(rest.skip(n + 4) =~= body);
}

/// What stands in front makes no difference to the rest of a line.
proof fn lemma_blank_behind(front: Seq<char>, s: Seq<char>, i: int)
    requires
        0 <= i,
    ensures
        blank_from(front + s, front.len() + i) == blank_from(s, i),
    decreases s.len() - i,
{
    if i < s.len() {
        assert((front + s)[front.len() + i] == s[i]);
        lemma_blank_behind(front, s, i + 1);
    }
}

/// What stands behind a line makes no difference to it.
proof fn lemma_blank_within(a: Seq<char>, b: Seq<char>, i: int, end: int)
    requires
        0 <= i <= end < a.len(),
        end < b.len(),
        a[end] == '\n',
        forall|j: int| 0 <= j <= end ==> a[j] == b[j],
    ensures
        blank_from(a, i) == blank_from(b, i),
    decreases end - i,
{
    assert(a[i] == b[i]);
    if i < end {
        lemma_blank_within(a, b, i + 1, end);
    }
}

proof fn lemma_find_fence_is(s: Seq<char>, from: int, at: int)
    requires
        0 <= from <= at < s.len(),
        fence_line(s, at),
        forall|i: int| from <= i < at ==> !fence_line(s, i),
    ensures
        find_fence(s, from) == at,
    decreases at - from,
{
    if from < at {
        assert(!fence_line(s, from));
        lemma_find_fence_is(s, from + 1, at);
    }
}

/// The persona name of a file: the path below the personas directory without its
/// `.md`, with `/` between components. Other files hold no persona.
pub open spec fn persona_name_spec(rel: Seq<char>) -> Option<Seq<char>> {
    let n = rel.len() - 3;
    if has_suffix(rel, ".md"@) && n > 0 && rel[n - 1] != '/' {
        Some(replace_spec(rel.take(n), "\\"@, "/"@))
    } else {
        None
    }
}

/// Derives the persona name of a file from its path below the personas directory.
pub fn persona_name(rel: &str) -> (r: Option<String>)
    ensures
        match r {
            Some(name) => persona_name_spec(rel@) == Some(name@),
            None => persona_name_spec(rel@) is None,
        },
{
    proof {
        reveal_strlit(".md");
        reveal_strlit("\\");
    }
    match strip_suffix(rel, ".md") {
        Some(stem) => {
            let v = chars_of(stem.as_str());
            if v.len() > 0 && v[v.len() - 1] != '/' {
                Some(replace(stem.as_str(), "\\", "/"))
            } else {
                None
            }
        },
        None => None,
    }
}

/// The position of the first persona with a name; the length where there is none.
pub open spec fn first_named(found: Seq<PersonaDef>, name: Seq<char>) -> int
    decreases found.len(),
{
    if found.len() == 0 {
        0
    } else if found[0].name@ == name {
        0
    } else {
        1 + first_named(found.skip(1), name)
    }
}

proof fn lemma_first_named_push(found: Seq<PersonaDef>, p: PersonaDef, name: Seq<char>)
    ensures
        0 <= first_named(found, name) <= found.len(),
        first_named(found.push(p), name) == (if first_named(found, name) < found.len() || p.name@ == name {
            first_named(found, name)
        } else {
            found.len() as int + 1
        }),
    decreases found.len(),
{
    let all = found.push(p);
    assert(all[0] == (if found.len() == 0 { p } else { found[0] }));
    if found.len() > 0 {
        assert(all.skip(1) =~= found.skip(1).push(p));
        lemma_first_named_push(found.skip(1), p, name);
    } else {
        assert(all.skip(1) =~= seq![]);
        assert(first_named(all.skip(1), name) == 0);
    }
}

/// Personas are known by name; of those with one name the first that was found.
pub open spec fn personas_gathered(m: Map<Seq<char>, PersonaDef>, found: Seq<PersonaDef>) -> bool {
    &&& forall|name: Seq<char>| #[trigger] m.dom().contains(name) <==> first_named(found, name) < found.len()
    &&& forall|name: Seq<char>| #[trigger] m.dom().contains(name) ==> m[name] == found[first_named(found, name)]
}

/// Gathers the personas found along the search path, in its order.
///
/// First match per name wins (higher-priority directories shadow lower ones).
pub fn load_personas(found: Vec<PersonaDef>) -> (m: StringMap<PersonaDef>)
    ensures
        personas_gathered(m@, found@),
{
    let mut m: StringMap<PersonaDef> = StringMap::new();
    let mut rest = found;
    let ghost all = rest@;
    let ghost mut done: int = 0;
    assert(all.skip(0) =~= all);
    assert(all.take(0) =~= seq![]);
    while rest.len() > 0
        invariant
            0 <= done <= all.len(),
            rest@ == all.skip(done),
            forall|name: Seq<char>| #[trigger]
                m@.dom().contains(name) <==> first_named(all.take(done), name) < done,
            forall|name: Seq<char>| #[trigger]
                m@.dom().contains(name) ==> m@[name] == all[first_named(all.take(done), name)],
        decreases rest@.len(),
    {
        let persona = rest.remove(0);
        assert(rest@ =~= all.skip(done + 1));
        assert(all.take(done + 1) =~= all.take(done).push(persona));
        assert(persona == all[done]);
        proof {
            assert forall|name: Seq<char>| first_named(all.take(done + 1), name) == (if #[trigger] first_named(
                all.take(done),
                name,
            ) < done || persona.name@ == name {
                first_named(all.take(done), name)
            } else {
                done + 1
            }) && 0 <= first_named(all.take(done), name) <= done by {
                lemma_first_named_push(all.take(done), persona, name);
            }
        }
        let ghost before = m@;
        let ghost name = persona.name@;
        if !m.contains_key(persona.name.as_str()) {
            assert(first_named(all.take(done), name) == done);
            m.insert(persona.name.clone(), persona);
        }
        proof {
            assert forall|k: Seq<char>| #[trigger]
                m@.dom().contains(k) <==> first_named(all.take(done + 1), k) < done + 1 by {
                let a = first_named(all.take(done), k);
                assert(before.dom().contains(k) <==> a < done);
            }
            assert forall|k: Seq<char>| #[trigger] m@.dom().contains(k) implies m@[k] == all[first_named(
                all.take(done + 1),
                k,
            )] by {
                let a = first_named(all.take(done), k);
                assert(before.dom().contains(k) <==> a < done);
            }
            done = done + 1;
        }
    }
    assert(all.take(done) =~= all);
    m
}

/// Calls `IndexMap::contains_key`: whether a variable is declared.
#[verifier::external_body]
fn vars_contain(m: &IndexMap<String, VarDef>, name: &str) -> (r: bool)
    ensures
        r == (position_of(var_entries(*m), name@) < var_entries(*m).len()),
{
    m.contains_key(name)
}

/// The complaint about a persona whose runtime is not loaded.
pub open spec fn unknown_runtime_text(name: Seq<char>, runtime: Seq<char>) -> Seq<char> {
    "persona '"@ + name + "': references unknown runtime '"@ + runtime + "'"@
}

/// The complaint about a persona that sets a variable its runtime does not declare.
pub open spec fn unknown_var_text(name: Seq<char>, var: Seq<char>, runtime: Seq<char>) -> Seq<char> {
    "persona '"@ + name + "': sets var '"@ + var + "' which runtime '"@ + runtime + "' does not declare"@
}

/// The complaints about variables that a runtime does not declare, in order.
pub open spec fn var_errors(
    name: Seq<char>,
    runtime: Seq<char>,
    vars: Seq<Seq<char>>,
    declared: Seq<(Seq<char>, VarDef)>,
) -> Seq<Seq<char>>
    decreases vars.len(),
{
    if vars.len() == 0 {
        seq![]
    } else {
        let head = var_errors(name, runtime, vars.drop_last(), declared);
        if position_of(declared, vars.last()) < declared.len() {
            head
        } else {
            head.push(unknown_var_text(name, vars.last(), runtime))
        }
    }
}

/// The complaints about one persona.
pub open spec fn persona_errors(
    name: Seq<char>,
    p: PersonaDef,
    runtimes: Map<Seq<char>, RuntimeDef>,
) -> Seq<Seq<char>> {
    match p.runtime {
        None => seq![],
        Some(rt) => if runtimes.dom().contains(rt@) {
            var_errors(name, rt@, p.vars.keys(), var_entries(runtimes[rt@].vars))
        } else {
            seq![unknown_runtime_text(name, rt@)]
        },
    }
}

/// The complaints about all personas, persona by persona.
pub open spec fn all_persona_errors(
    personas: Seq<(String, PersonaDef)>,
    runtimes: Map<Seq<char>, RuntimeDef>,
) -> Seq<Seq<char>>
    decreases personas.len(),
{
    if personas.len() == 0 {
        seq![]
    } else {
        all_persona_errors(personas.drop_last(), runtimes) + persona_errors(
            personas.last().0@,
            personas.last().1,
            runtimes,
        )
    }
}

fn push_var_errors(name: &str, runtime: &str, persona: &PersonaDef, def: &RuntimeDef, errors: &mut Vec<String>)
    ensures
        views(final(errors)@) == views(old(errors)@) + var_errors(
            name@,
            runtime@,
            persona.vars.keys(),
            var_entries(def.vars),
        ),
{
    let ghost before = views(errors@);
    let ghost vars = persona.vars.keys();
    let ghost declared = var_entries(def.vars);
    let mut i: usize = 0;
    assert(vars.take(0) =~= seq![]);
    assert(views(errors@) =~= before + seq![]);
    while i < persona.vars.len()
        invariant
            0 <= i <= vars.len(),
            vars == persona.vars.keys(),
            declared == var_entries(def.vars),
            views(errors@) == before + var_errors(name@, runtime@, vars.take(i as int), declared),
        decreases vars.len() - i,
    {
        let var = &persona.vars.entry(i).0;
        let ghost so_far = views(errors@);
        let ghost next = vars.take(i + 1);
        assert(next.drop_last() =~= vars.take(i as int));
        assert(next.last() == var@);
        if !vars_contain(&def.vars, var.as_str()) {
            let mut e = "persona '".to_owned();
            e.append(name);
            e.append("': sets var '");
            e.append(var.as_str());
            e.append("' which runtime '");
            e.append(runtime);
            e.append("' does not declare");
            errors.push(e);
            assert(views(errors@) =~= so_far.push(e@));
            assert(views(errors@) =~= before + var_errors(name@, runtime@, next, declared));
        }
        i += 1;
    }
    assert(vars.take(i as int) =~= vars);
}

/// Validate all personas against the loaded runtime definitions.
///
/// Errors if a persona sets a var that its runtime doesn't declare
/// (catches typos like `modle` instead of `model`). Personas that
/// don't specify a runtime are skipped.
pub fn validate_personas(personas: &StringMap<PersonaDef>, runtimes: &StringMap<RuntimeDef>) -> (errors: Vec<String>)
    ensures
        views(errors@) == all_persona_errors(personas.list(), runtimes@),
{
    let mut errors: Vec<String> = Vec::new();
    let ghost all = personas.list();
    let mut i: usize = 0;
    assert(all.take(0) =~= seq![]);
    assert(views(errors@) =~= seq![]);
    while i < personas.len()
        invariant
            0 <= i <= all.len(),
            all == personas.list(),
            views(errors@) == all_persona_errors(all.take(i as int), runtimes@),
        decreases all.len() - i,
    {
        let e = personas.entry(i);
        let ghost before = views(errors@);
        let ghost next = all.take(i + 1);
        assert(next.drop_last() =~= all.take(i as int));
        assert(next.last() == (*e.0, *e.1));
        match &e.1.runtime {
            Some(rt_name) => match runtimes.get(rt_name.as_str()) {
                Some(def) => {
                    push_var_errors(e.0.as_str(), rt_name.as_str(), &e.1, def, &mut errors);
                },
                None => {
                    let mut msg = "persona '".to_owned();
                    msg.append(e.0.as_str());
                    msg.append("': references unknown runtime '");
                    msg.append(rt_name.as_str());
                    msg.append("'");
                    errors.push(msg);
                    assert(views(errors@) =~= before + seq![msg@]);
                },
            },
            None => {
                assert(views(errors@) =~= before + seq![]);
            },
        }
        i += 1;
    }
    assert(all.take(i as int) =~= all);
    errors
}

/// A persona is accepted exactly where it names no runtime, or a loaded one that
/// declares all the variables it sets.
pub proof fn accepted_personas_set_declared_vars_only(
    name: Seq<char>,
    p: PersonaDef,
    runtimes: Map<Seq<char>, RuntimeDef>,
)
    ensures
        persona_errors(name, p, runtimes).len() == 0 <==> match p.runtime {
            None => true,
            Some(rt) => runtimes.dom().contains(rt@) && forall|i: int|
                0 <= i < p.vars.keys().len() ==> position_of(
                    var_entries(runtimes[rt@].vars),
                    #[trigger] p.vars.keys()[i],
                ) < var_entries(runtimes[rt@].vars).len(),
        },
{
    match p.runtime {
        None => {},
        Some(rt) => {
            lemma_var_errors(name, rt@, p.vars.keys(), var_entries(runtimes[rt@].vars));
        },
    }
}

proof fn lemma_var_errors(
    name: Seq<char>,
    runtime: Seq<char>,
    vars: Seq<Seq<char>>,
    declared: Seq<(Seq<char>, VarDef)>,
)
    ensures
        var_errors(name, runtime, vars, declared).len() == 0 <==> forall|i: int|
            0 <= i < vars.len() ==> position_of(declared, #[trigger] vars[i]) < declared.len(),
    decreases vars.len(),
{
    if vars.len() > 0 {
        lemma_var_errors(name, runtime, vars.drop_last(), declared);
        assert(vars.last() == vars[vars.len() - 1]);
        assert forall|i: int| 0 <= i < vars.len() - 1 implies vars.drop_last()[i] == vars[i] by {}
        if var_errors(name, runtime, vars, declared).len() == 0 {
            assert forall|i: int| 0 <= i < vars.len() implies position_of(declared, #[trigger] vars[i])
                < declared.len() by {
                if i < vars.len() - 1 {
                    assert(vars.drop_last()[i] == vars[i]);
                }
            }
        }
    }
}

/// Complaints add up persona by persona: one for a runtime that is not loaded, and else one for
/// each variable, in order, that the runtime does not declare.
pub proof fn complaints_add_up(
    personas: Seq<(String, PersonaDef)>,
    name: String,
    p: PersonaDef,
    runtimes: Map<Seq<char>, RuntimeDef>,
)
    ensures
        all_persona_errors(personas.push((name, p)), runtimes) == all_persona_errors(personas, runtimes)
            + persona_errors(name@, p, runtimes),
        all_persona_errors(Seq::empty(), runtimes).len() == 0,
        p.runtime is Some && !runtimes.dom().contains(p.runtime->0@) ==> persona_errors(name@, p, runtimes) == seq![
            "persona '"@ + name@ + "': references unknown runtime '"@ + p.runtime->0@ + "'"@,
        ],
{
    let all = personas.push((name, p));
    assert(all.drop_last() =~= personas);
    assert(all.last() == (name, p));
}

/// Every variable that a runtime does not declare is complained about, by name.
pub proof fn undeclared_variables_are_named(
    name: Seq<char>,
    p: PersonaDef,
    runtimes: Map<Seq<char>, RuntimeDef>,
    i: int,
)
    requires
        p.runtime is Some,
        runtimes.dom().contains(p.runtime->0@),
        0 <= i < p.vars.keys().len(),
        forall|j: int|
            0 <= j < var_entries(runtimes[p.runtime->0@].vars).len() ==> (#[trigger] var_entries(
                runtimes[p.runtime->0@].vars,
            )[j]).0 != p.vars.keys()[i],
    ensures
        persona_errors(name, p, runtimes).contains(
            "persona '"@ + name + "': sets var '"@ + p.vars.keys()[i] + "' which runtime '"@ + p.runtime->0@
                + "' does not declare"@,
        ),
{
    let declared = var_entries(runtimes[p.runtime->0@].vars);
    lemma_position(declared, p.vars.keys()[i]);
    lemma_var_named(name, p.runtime->0@, p.vars.keys(), declared, i);
}

proof fn lemma_var_named(
    name: Seq<char>,
    runtime: Seq<char>,
    vars: Seq<Seq<char>>,
    declared: Seq<(Seq<char>, VarDef)>,
    i: int,
)
    requires
        0 <= i < vars.len(),
        position_of(declared, vars[i]) >= declared.len(),
    ensures
        var_errors(name, runtime, vars, declared).contains(unknown_var_text(name, vars[i], runtime)),
    decreases vars.len(),
{
    let head = var_errors(name, runtime, vars.drop_last(), declared);
    let all = var_errors(name, runtime, vars, declared);
    let text = unknown_var_text(name, vars[i], runtime);
    if i == vars.len() - 1 {
        assert(all[head.len() as int] == text);
    } else {
        assert(vars.drop_last()[i] == vars[i]);
        lemma_var_named(name, runtime, vars.drop_last(), declared, i);
        let at = head.index_of(text);
        assert(all[at] == text);
    }
}

/// Of several personas of one name the first counts.
pub proof fn the_first_persona_of_a_name_counts(found: Seq<PersonaDef>, name: Seq<char>, i: int)
    ensures
        0 <= i < found.len() && found[i].name@ == name && (forall|j: int|
            0 <= j < i ==> (#[trigger] found[j]).name@ != name) ==> first_named(found, name) == i,
        (forall|j: int| 0 <= j < found.len() ==> (#[trigger] found[j]).name@ != name) ==> first_named(found, name)
            == found.len(),
    decreases found.len(),
{
    if found.len() > 0 {
        let rest = found.skip(1);
        the_first_persona_of_a_name_counts(rest, name, i - 1);
        assert(forall|j: int| 0 <= j < rest.len() ==> rest[j] == found[j + 1]);
        if 0 < i < found.len() && found[i].name@ == name && (forall|j: int|
            0 <= j < i ==> (#[trigger] found[j]).name@ != name) {
            assert(found[0].name@ != name);
            assert forall|j: int| 0 <= j < i - 1 implies (#[trigger] rest[j]).name@ != name by {
                assert(found[j + 1].name@ != name);
            }
        }
        if forall|j: int| 0 <= j < found.len() ==> (#[trigger] found[j]).name@ != name {
            assert(found[0].name@ != name);
            assert forall|j: int| 0 <= j < rest.len() implies (#[trigger] rest[j]).name@ != name by {
                assert(found[j + 1].name@ != name);
            }
        }
    }
}

/// A persona goes by the path of its file below the personas directory, without `.md`; other
/// files, and those without a name, hold none.
pub proof fn personas_go_by_their_path(stem: Seq<char>, other: Seq<char>)
    requires
        !stem.contains('\\'),
    ensures
        stem.len() > 0 && stem.last() != '/' ==> persona_name_spec(stem + ".md"@) == Some(stem),
        stem.len() == 0 || stem.last() == '/' ==> persona_name_spec(stem + ".md"@) is None,
        !has_suffix(other, ".md"@) ==> persona_name_spec(other) is None,
{
    reveal_strlit(".md");
    reveal_strlit("\\");
    let rel = stem + ".md"@;
    let n = stem.len() as int;
    assert(rel.subrange(rel.len() - 3, rel.len() as int) =~= ".md"@);
    assert(rel.take(n) =~= stem);
    if n > 0 {
        assert(rel[n - 1] == stem.last());
    }
    assert forall|i: int| !occurs_at(stem, "\\"@, i) by {
        if occurs_at(stem, "\\"@, i) {
            assert(stem.subrange(i, i + 1)[0] == stem[i]);
            assert(stem.contains(stem[i]));
        }
    }
    texts_without_an_occurrence_stay(stem, "\\"@, "/"@);
}

/// A persona keeps its name, its instructions, and what its frontmatter declares: runtime,
/// skills, secrets, and every variable as text. One without frontmatter has none of these.
pub proof fn personas_keep_what_they_declare(
    p: PersonaDef,
    name: Seq<char>,
    frontmatter: Option<PersonaFrontmatter>,
    instructions: String,
    k: Seq<char>,
)
    requires
        assembled(p, name, frontmatter, instructions),
    ensures
        p.name@ == name,
        p.instructions@ == instructions@,
        frontmatter is Some ==> {
            let f = frontmatter->0;
            &&& p.runtime == f.runtime
            &&& p.skills@ == f.skills@
            &&& p.secrets@ == f.secrets@
            &&& p.vars@.dom().contains(k) == f.vars@.dom().contains(k)
            &&& f.vars@.dom().contains(k) ==> p.vars@[k]@ == yaml_text(f.vars@[k])
        },
        frontmatter is None ==> p.runtime is None && p.skills@.len() == 0 && p.secrets@.len() == 0
            && !p.vars@.dom().contains(k),
{
}

/// A persona shadows those of its name that are found later, and every name that is found is
/// known.
pub proof fn earlier_personas_shadow_later_ones(m: Map<Seq<char>, PersonaDef>, found: Seq<PersonaDef>, i: int)
    requires
        personas_gathered(m, found),
        0 <= i < found.len(),
        forall|j: int| 0 <= j < i ==> (#[trigger] found[j]).name@ != found[i].name@,
    ensures
        m.dom().contains(found[i].name@),
        m[found[i].name@] == found[i],
{
    the_first_persona_of_a_name_counts(found, found[i].name@, i);
    assert(m.dom().contains(found[i].name@));
}

/// A variable of frontmatter reads as it was written: texts and numbers as they are, truth
/// values by their names.
pub proof fn frontmatter_values_read_as_written(text: String, b: bool)
    ensures
        yaml_text(YamlValue::String(text)) == text@,
        yaml_text(YamlValue::Number(text)) == text@,
        yaml_text(YamlValue::Bool(b)) == (if b {
            "true"@
        } else {
            "false"@
        }),
{
}

} // verus!
