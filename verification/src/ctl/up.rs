//! Local ensemble orchestration: server + herder + watchers + seguro runners.
//!
//! Path derivation, the pidfile, binary resolution, command lines and the plan of what is
//! launched. Processes are started and stopped elsewhere.

use vstd::prelude::*;

use crate::paths::{first_place, first_present, join_path, joined};
use crate::text::{
    behind_last, cat, chars_of, chomp_cr, dec, dec_u64, find_behind_last, find_char, find_from, has_prefix,
    lemma_find_is, lemma_trim_drops_trailing, lemma_trim_end, lemma_value_of_dec, lines, lines_spec, parse_uint, parse_uint_spec, split_char,
    split_once, split_once_spec, split_spec, splits_take_parts_apart, starts_with, text_option, text_range,
    trailing_characters_are_stripped, trim, trim_end_char, trim_end_char_spec, trim_spec, trim_start_spec, views, white,
};

verus! {

// ── Path layout ─────────────────────────────────────────────────────

/// All paths ox writes under a project's `.ox/run/` directory.
#[derive(Debug, Clone, PartialEq, Eq)]
pub struct RunPaths {
    pub run_dir: String,
    pub log_dir: String,
    pub scripts_dir: String,
    pub pidfile: String,
    pub db: String,
}

/// The directory that ox keeps its state in.
pub open spec fn run_dir_spec(repo: Seq<char>) -> Seq<char> {
    joined(joined(repo, ".ox"@), "run"@)
}

impl RunPaths {
    /// Build the standard layout for `repo/.ox/run/`.
    pub fn for_repo(repo: &str) -> (p: Self)
        ensures
            p.run_dir@ == run_dir_spec(repo@),
            p.log_dir@ == joined(run_dir_spec(repo@), "logs"@),
            p.scripts_dir@ == joined(run_dir_spec(repo@), "scripts"@),
            p.pidfile@ == joined(run_dir_spec(repo@), "ox.pids"@),
            p.db@ == joined(run_dir_spec(repo@), "ox.db"@),
    {
        let run_dir = join_path(join_path(repo, ".ox").as_str(), "run");
        RunPaths {
            log_dir: join_path(run_dir.as_str(), "logs"),
            scripts_dir: join_path(run_dir.as_str(), "scripts"),
            pidfile: join_path(run_dir.as_str(), "ox.pids"),
            db: join_path(run_dir.as_str(), "ox.db"),
            run_dir,
        }
    }

    /// Path of the runner workspace directory for runner `n` (1-indexed).
    pub fn runner_workspace(&self, n: usize) -> (r: String)
        ensures
            r@ == joined(self.run_dir@, "runner-"@ + dec(n as nat)),
    {
        join_path(self.run_dir.as_str(), runner_name(n).as_str())
    }

    /// The database files that a reset removes.
    pub fn database_files(&self) -> (r: Vec<String>)
        ensures
            views(r@) == seq![
                joined(self.run_dir@, "ox.db"@),
                joined(self.run_dir@, "ox.db-wal"@),
                joined(self.run_dir@, "ox.db-shm"@),
            ],
    {
        let mut v: Vec<String> = Vec::new();
        v.push(join_path(self.run_dir.as_str(), "ox.db"));
        v.push(join_path(self.run_dir.as_str(), "ox.db-wal"));
        v.push(join_path(self.run_dir.as_str(), "ox.db-shm"));
        assert(views(v@) =~= seq![
            joined(self.run_dir@, "ox.db"@),
            joined(self.run_dir@, "ox.db-wal"@),
            joined(self.run_dir@, "ox.db-shm"@),
        ]);
        v
    }
}

/// The name of a runner.
fn runner_name(n: usize) -> (r: String)
    ensures
        r@ == "runner-"@ + dec(n as nat),
{
    cat("runner-", dec_u64(n as u64).as_str())
}

/// Whether an entry of the run directory is a runner's workspace, to be wiped when the
/// ensemble stops.
pub fn is_runner_workspace(name: &str) -> (r: bool)
    ensures
        r == has_prefix(name@, "runner-"@),
{
    starts_with(name, "runner-")
}

/// The name of a project: the last component of its path.
pub open spec fn project_name_spec(repo: Seq<char>) -> Seq<char> {
    let path = trim_end_char_spec(repo, '/');
    let name = path.skip(behind_last(path, '/'));
    if name.len() == 0 {
        "unknown"@
    } else {
        name
    }
}

/// Derives the name of a project from its path.
pub fn project_name(repo: &str) -> (r: String)
    ensures
        r@ == project_name_spec(repo@),
{
    let path = chars_of(trim_end_char(repo, '/').as_str());
    let at = find_behind_last(&path, '/');
    let name = text_range(&path, at, path.len());
    if name.as_str().is_empty() {
        "unknown".to_owned()
    } else {
        name
    }
}

// ── Pidfile ─────────────────────────────────────────────────────────

/// A single process entry in the pidfile.
#[derive(Debug, Clone, PartialEq, Eq)]
pub struct PidEntry {
    pub pid: u32,
    pub name: String,
}

/// What a pidfile entry is.
pub struct PidView {
    pub pid: nat,
    pub name: Seq<char>,
}

impl View for PidEntry {
    type V = PidView;

    open spec fn view(&self) -> PidView {
        PidView { pid: self.pid as nat, name: self.name@ }
    }
}

/// The line of an entry.
pub open spec fn pid_line(e: PidView) -> Seq<char> {
    dec(e.pid) + " "@ + e.name + "\n"@
}

impl PidEntry {
    /// The line of the entry in the pidfile.
    pub fn format_line(&self) -> (r: String)
        ensures
            r@ == pid_line(self@),
    {
        let mut s = dec_u64(self.pid as u64);
        s.append(" ");
        s.append(self.name.as_str());
        s.append("\n");
        s
    }
}

/// The entry that a line stands for: a process id, a space and a name.
pub open spec fn pid_entry_of(line: Seq<char>) -> Option<PidView> {
    match split_once_spec(trim_spec(line), ' ') {
        Some((pid, name)) => match parse_uint_spec(pid, 10, 0xffff_ffff) {
            Some(n) => if trim_spec(name).len() > 0 {
                Some(PidView { pid: n, name: trim_spec(name) })
            } else {
                None
            },
            None => None,
        },
        None => None,
    }
}

/// The entries among lines, in order.
pub open spec fn pid_entries(lines: Seq<Seq<char>>) -> Seq<PidView>
    decreases lines.len(),
{
    if lines.len() == 0 {
        seq![]
    } else {
        let head = pid_entries(lines.drop_last());
        match pid_entry_of(lines.last()) {
            Some(e) => head.push(e),
            None => head,
        }
    }
}

/// The views of pidfile entries.
pub open spec fn pid_views(v: Seq<PidEntry>) -> Seq<PidView> {
    v.map_values(|e: PidEntry| e@)
}

fn read_entry(line: &str) -> (r: Option<PidEntry>)
    ensures
        match r {
            Some(e) => pid_entry_of(line@) == Some(e@),
            None => pid_entry_of(line@) is None,
        },
{
    match split_once(trim(line).as_str(), ' ') {
        Some((pid, name)) => match parse_uint(pid.as_str(), 10, 0xffff_ffff) {
            Some(n) => {
                let name = trim(name.as_str());
                if name.as_str().is_empty() {
                    None
                } else {
                    Some(PidEntry { pid: n as u32, name })
                }
            },
            None => None,
        },
        None => None,
    }
}

/// Parse the pidfile format: one entry per line, `<pid> <name>`. Blank
/// lines and malformed entries are skipped silently.
pub fn parse_pidfile(content: &str) -> (r: Vec<PidEntry>)
    ensures
        pid_views(r@) == pid_entries(lines_spec(content@)),
{
    let all = lines(content);
    let mut out: Vec<PidEntry> = Vec::new();
    let mut i: usize = 0;
    let ghost texts = views(all@);
    assert(texts.take(0) =~= seq![]);
    assert(pid_views(out@) =~= seq![]);
    while i < all.len()
        invariant
            0 <= i <= all@.len(),
            texts == views(all@),
            pid_views(out@) == pid_entries(texts.take(i as int)),
        decreases all@.len() - i,
    {
        let ghost before = pid_views(out@);
        let ghost next = texts.take(i + 1);
        assert(next.drop_last() =~= texts.take(i as int));
        assert(next.last() == all@[i as int]@);
        if let Some(e) = read_entry(all[i].as_str()) {
            out.push(e);
            assert(pid_views(out@) =~= before.push(e@));
        }
        i += 1;
    }
    assert(texts.take(i as int) =~= texts);
    out
}

/// A line of a pidfile: one that was written for an entry, or one that stands for none.
pub enum PidFileLine {
    Entry(PidView),
    Other(Seq<char>),
}

/// The text of a line, with its line end.
pub open spec fn pidfile_line(line: PidFileLine) -> Seq<char> {
    match line {
        PidFileLine::Entry(e) => pid_line(e),
        PidFileLine::Other(s) => s + "\n"@,
    }
}

/// The content of a pidfile with these lines.
pub open spec fn pidfile_text(lines: Seq<PidFileLine>) -> Seq<char>
    decreases lines.len(),
{
    if lines.len() == 0 {
        seq![]
    } else {
        pidfile_line(lines[0]) + pidfile_text(lines.skip(1))
    }
}

/// The entries that lines were written for, in order.
pub open spec fn written_entries(lines: Seq<PidFileLine>) -> Seq<PidView>
    decreases lines.len(),
{
    if lines.len() == 0 {
        seq![]
    } else {
        let rest = written_entries(lines.skip(1));
        match lines[0] {
            PidFileLine::Entry(e) => seq![e] + rest,
            PidFileLine::Other(_) => rest,
        }
    }
}

/// An entry that a pidfile can hold: its id fits, and its name is not empty, is on one
/// line, and has no white space around it.
pub open spec fn storable(e: PidView) -> bool {
    &&& e.pid <= 0xffff_ffff
    &&& e.name.len() > 0
    &&& trim_spec(e.name) == e.name
    &&& !e.name.contains('\n')
}

/// A line that a pidfile can hold: an entry, or one line of text that is blank or malformed.
pub open spec fn readable(line: PidFileLine) -> bool {
    match line {
        PidFileLine::Entry(e) => storable(e),
        PidFileLine::Other(s) => !s.contains('\n') && pid_entry_of(s) is None,
    }
}

/// The entries that are written to a pidfile are those that are read from it, in the same
/// order, whatever blank or malformed lines stand between them.
pub proof fn pidfiles_read_back(lines: Seq<PidFileLine>)
    requires
        forall|i: int| 0 <= i < lines.len() ==> readable(#[trigger] lines[i]),
    ensures
        pid_entries(lines_spec(pidfile_text(lines))) == written_entries(lines),
    decreases lines.len(),
{
    if lines.len() == 0 {
        assert(pidfile_text(lines) =~= seq![]);
        assert(lines_spec(pidfile_text(lines)) =~= seq![]);
        assert(pid_entries(lines_spec(pidfile_text(lines))) =~= seq![]);
    } else {
        let rest = lines.skip(1);
        assert forall|i: int| 0 <= i < rest.len() implies readable(#[trigger] rest[i]) by {
            assert(rest[i] == lines[i + 1]);
        }
        pidfiles_read_back(rest);
        let behind = pidfile_text(rest);
        match lines[0] {
            PidFileLine::Entry(e) => {
                lemma_entry_line(e, behind);
                lemma_entries_front(dec(e.pid) + " "@ + e.name, lines_spec(behind));
            },
            PidFileLine::Other(s) => {
                lemma_other_line(s, behind);
                lemma_entries_front(chomp_cr(s), lines_spec(behind));
            },
        }
    }
}

/// A blank line stands for no entry.
pub proof fn blank_lines_hold_no_entry(line: Seq<char>)
    requires
        trim_spec(line).len() == 0,
    ensures
        pid_entry_of(line) is None,
{
}

/// The first line gives its entry if it has one, the others theirs.
proof fn lemma_entries_front(line: Seq<char>, more: Seq<Seq<char>>)
    ensures
        pid_entries(seq![line] + more) == (match pid_entry_of(line) {
            Some(e) => seq![e] + pid_entries(more),
            None => pid_entries(more),
        }),
    decreases more.len(),
{
    let all = seq![line] + more;
    if more.len() == 0 {
        assert(all.drop_last().len() == 0);
        assert(pid_entries(all.drop_last()) =~= seq![]);
        assert(pid_entries(more) =~= seq![]);
        assert(all.last() == line);
        if let Some(e) = pid_entry_of(line) {
            assert(pid_entries(all) =~= seq![e] + pid_entries(more));
        }
    } else {
        assert(all.drop_last() =~= seq![line] + more.drop_last());
        assert(all.last() == more.last());
        lemma_entries_front(line, more.drop_last());
        if let Some(e) = pid_entry_of(line) {
            assert(pid_entries(all) =~= seq![e] + pid_entries(more));
        }
    }
}

/// A line without an entry is told from what follows, and stays one without its `\r`.
proof fn lemma_other_line(s: Seq<char>, rest: Seq<char>)
    requires
        !s.contains('\n'),
    ensures
        lines_spec(s + "\n"@ + rest) == seq![chomp_cr(s)] + lines_spec(rest),
        pid_entry_of(chomp_cr(s)) == pid_entry_of(s),
{
    reveal_strlit("\n");
    let t = s + "\n"@ + rest;
    let n = s.len() as int;
    assert forall|i: int| 0 <= i < n implies t[i] != '\n' by {
        assert(t[i] == s[i]);
        assert(s.contains(s[i]));
    }
    assert(t[n] == '\n');
    lemma_find_is(t, '\n', 0, n);
    assert(t.take(n) =~= s);
    assert(t.skip(n + 1) =~= rest);
    if n > 0 && s.last() == '\r' {
        lemma_trim_drops_trailing(s.drop_last(), '\r');
        assert(s.drop_last() + seq!['\r'] =~= s);
    }
}

/// The line of an entry is told from what follows, and reads back as the entry.
proof fn lemma_entry_line(e: PidView, rest: Seq<char>)
    requires
        storable(e),
    ensures
        lines_spec(pid_line(e) + rest) == seq![dec(e.pid) + " "@ + e.name] + lines_spec(rest),
        pid_entry_of(dec(e.pid) + " "@ + e.name) == Some(e),
{
    reveal_strlit(" ");
    reveal_strlit("\n");
    let d = dec(e.pid);
    let line = d + " "@ + e.name;
    let s = pid_line(e) + rest;
    lemma_value_of_dec(e.pid);
    lemma_trim_end(trim_start_spec(e.name));
    let n = line.len() as int;
    assert(s =~= line + "\n"@ + rest);
    assert forall|i: int| 0 <= i < n implies s[i] != '\n' by {
        if i < d.len() {
            assert(s[i] == d[i]);
            assert('0' <= d[i]);
        } else if i > d.len() {
            assert(s[i] == e.name[i - d.len() - 1]);
            assert(e.name.contains(e.name[i - d.len() - 1]));
        }
    }
    assert(s[n] == '\n');
    lemma_find_is(s, '\n', 0, n);
    assert(s.take(n) =~= line);
    assert(s.skip(n + 1) =~= rest);
    assert(line.last() == e.name.last());
    assert(!white(e.name.last()));
    assert(chomp_cr(line) == line);
    // The line as an entry
    assert(line[0] == d[0]);
    assert('0' <= d[0] <= '9');
    assert(trim_start_spec(line) == line);
    assert(trim_spec(line) == line);
    assert forall|i: int| 0 <= i < d.len() implies line[i] != ' ' by {
        assert(line[i] == d[i]);
        assert('0' <= d[i]);
    }
    assert(line[d.len() as int] == ' ');
    lemma_find_is(line, ' ', 0, d.len() as int);
    assert(line.take(d.len() as int) =~= d);
    assert(line.skip(d.len() as int + 1) =~= e.name);
    assert(d[0] != '+');
}

// ── Running ─────────────────────────────────────────────────────────

/// The number of processes that are alive.
pub open spec fn alive_count(alive: Seq<bool>) -> nat
    decreases alive.len(),
{
    if alive.len() == 0 {
        0
    } else {
        alive_count(alive.drop_last()) + (if alive.last() {
            1nat
        } else {
            0nat
        })
    }
}

/// Counts the processes that are alive.
pub fn count_alive(alive: &Vec<bool>) -> (n: usize)
    ensures
        n == alive_count(alive@),
        n <= alive@.len(),
{
    let mut n: usize = 0;
    let mut i: usize = 0;
    assert(alive@.take(0) =~= seq![]);
    while i < alive.len()
        invariant
            0 <= i <= alive@.len(),
            n <= i,
            n == alive_count(alive@.take(i as int)),
        decreases alive@.len() - i,
    {
        assert(alive@.take(i + 1).drop_last() =~= alive@.take(i as int));
        if alive[i] {
            n += 1;
        }
        i += 1;
    }
    assert(alive@.take(i as int) =~= alive@);
    n
}

/// Why the ensemble is not started: it runs. Nothing where it does not.
pub fn refuse_up(alive: usize) -> (r: Option<String>)
    ensures
        match r {
            Some(m) => alive > 0 && m@ == "ox is already running ("@ + dec(alive as nat)
                + " processes). Run `ox-ctl down` first."@,
            None => alive == 0,
        },
{
    if alive > 0 {
        let mut m = cat("ox is already running (", dec_u64(alive as u64).as_str());
        m.append(" processes). Run `ox-ctl down` first.");
        Some(m)
    } else {
        None
    }
}

/// Why the state is not wiped: the ensemble runs. Nothing where it does not.
pub fn refuse_reset(alive: usize) -> (r: Option<String>)
    ensures
        match r {
            Some(m) => alive > 0 && m@ == "ox is still running ("@ + dec(alive as nat)
                + " processes) — run `ox-ctl down` first"@,
            None => alive == 0,
        },
{
    if alive > 0 {
        let mut m = cat("ox is still running (", dec_u64(alive as u64).as_str());
        m.append(" processes) — run `ox-ctl down` first");
        Some(m)
    } else {
        None
    }
}

// ── Binary resolution ───────────────────────────────────────────────

/// Sibling binaries that `ox-ctl up` needs to launch. `ox-runner` and
/// `ox-rt` aren't spawned directly — they come along for the ride in the
/// `bin_dir` read-only mount seguro shares into each runner VM — but we
/// still verify their presence up front so the user gets a clean error
/// instead of a cryptic runner-VM failure later.
#[derive(Debug, Clone)]
pub struct Binaries {
    pub ox_server: String,
    pub ox_herder: String,
    pub bin_dir: String,
}

/// The binaries that have to be there, in the order in which they are looked for.
pub open spec fn binary_names() -> Seq<Seq<char>> {
    seq!["ox-server"@, "ox-herder"@, "ox-runner"@, "ox-rt"@]
}

/// Lists the places of the binaries that have to be there, each with its name.
pub fn required_binaries(bin_dir: &str) -> (r: Vec<(String, String)>)
    ensures
        r@.len() == 4,
        forall|i: int|
            0 <= i < 4 ==> (#[trigger] r@[i]).0@ == binary_names()[i] && r@[i].1@ == joined(bin_dir@, binary_names()[i]),
{
    let mut v: Vec<(String, String)> = Vec::new();
    v.push(("ox-server".to_owned(), join_path(bin_dir, "ox-server")));
    v.push(("ox-herder".to_owned(), join_path(bin_dir, "ox-herder")));
    v.push(("ox-runner".to_owned(), join_path(bin_dir, "ox-runner")));
    v.push(("ox-rt".to_owned(), join_path(bin_dir, "ox-rt")));
    v
}

/// What is said of a binary that is missing.
pub open spec fn missing_text(bin_dir: Seq<char>, name: Seq<char>) -> Seq<char> {
    name + " not found at "@ + joined(bin_dir, name)
        + "; run `cargo build` or install ox via `cargo install --git …`"@
}

/// Resolve the sibling binaries relative to a given `bin_dir`, given which of the
/// required ones are there. Returns an error that names the first that is missing.
pub fn resolve_binaries_in(bin_dir: &str, present: &[bool]) -> (r: Result<Binaries, String>)
    requires
        present@.len() == 4,
    ensures
        match r {
            Ok(b) => {
                &&& forall|i: int| 0 <= i < 4 ==> #[trigger] present@[i]
                &&& b.ox_server@ == joined(bin_dir@, "ox-server"@)
                &&& b.ox_herder@ == joined(bin_dir@, "ox-herder"@)
                &&& b.bin_dir@ == bin_dir@
            },
            Err(m) => exists|i: int|
                {
                    &&& 0 <= i < 4
                    &&& !(#[trigger] present@[i])
                    &&& forall|j: int| 0 <= j < i ==> #[trigger] present@[j]
                    &&& m@ == missing_text(bin_dir@, binary_names()[i])
                },
        },
{
    let wanted = required_binaries(bin_dir);
    let mut i: usize = 0;
    while i < 4
        invariant
            0 <= i <= 4,
            present@.len() == 4,
            wanted@.len() == 4,
            forall|j: int|
                0 <= j < 4 ==> (#[trigger] wanted@[j]).0@ == binary_names()[j] && wanted@[j].1@ == joined(
                    bin_dir@,
                    binary_names()[j],
                ),
            forall|j: int| 0 <= j < i ==> #[trigger] present@[j],
        decreases 4 - i,
    {
        if !present[i] {
            let mut m = cat(wanted[i].0.as_str(), " not found at ");
            m.append(wanted[i].1.as_str());
            m.append("; run `cargo build` or install ox via `cargo install --git …`");
            assert(!present@[i as int]);
            return Err(m);
        }
        i += 1;
    }
    Ok(
        Binaries {
            ox_server: join_path(bin_dir, "ox-server"),
            ox_herder: join_path(bin_dir, "ox-herder"),
            bin_dir: bin_dir.to_owned(),
        },
    )
}

/// The places where a program may stand on a search path, in order.
pub open spec fn path_places(path: Seq<char>, name: Seq<char>) -> Seq<Seq<char>> {
    split_spec(path, ':').map_values(|dir: Seq<char>| joined(dir, name))
}

/// Lists the places where a program may stand on a search path.
pub fn path_candidates(path: &str, name: &str) -> (r: Vec<String>)
    ensures
        views(r@) == path_places(path@, name@),
{
    let dirs = split_char(path, ':');
    let mut out: Vec<String> = Vec::new();
    let mut i: usize = 0;
    let ghost all = path_places(path@, name@);
    assert(views(out@) =~= all.take(0));
    while i < dirs.len()
        invariant
            0 <= i <= dirs@.len(),
            views(dirs@) == split_spec(path@, ':'),
            all == path_places(path@, name@),
            views(out@) == all.take(i as int),
        decreases dirs@.len() - i,
    {
        let ghost before = views(out@);
        let place = join_path(dirs[i].as_str(), name);
        assert(all[i as int] == joined(views(dirs@)[i as int], name@));
        out.push(place);
        assert(views(out@) =~= before.push(place@));
        assert(views(out@) =~= all.take(i + 1));
        i += 1;
    }
    assert(all.take(i as int) =~= all);
    out
}

/// Locates a program by name on a search path, given which files exist: the first place
/// that is one.
pub fn find_in_path(path: &str, name: &str, files: &Vec<String>) -> (r: Option<String>)
    ensures
        first_place(path_places(path@, name@), views(files@), text_option(r)),
{
    first_present(&path_candidates(path, name), files)
}

/// Per-user shared sccache cache directory: `$HOME/.cache/ox/sccache`.
/// Shared across every project the user runs ox in so
/// dependency builds (tokio, hyper, etc.) cache-hit across repositories.
pub fn sccache_cache_dir(home: &str) -> (r: String)
    ensures
        r@ == joined(home@, ".cache/ox/sccache"@),
{
    join_path(home, ".cache/ox/sccache")
}

// ── Seguro runner argv ──────────────────────────────────────────────

/// The command of a runner inside its VM. Variables expand there.
pub open spec fn guest_command(server_url: Seq<char>) -> Seq<char> {
    "export HOME=/home/agent && export PATH=/ox/bin:/ox/scripts:$HOME/.cargo/bin:$PATH && "@
        + "export SCCACHE_DIR=/cache/sccache && export RUSTC_WRAPPER=sccache && "@ + "/ox/bin/ox-runner --server "@
        + server_url + " --environment seguro --workspace-dir /tmp/ox-work"@
}

/// The arguments of `seguro run` for a runner.
pub open spec fn seguro_args(
    bin_dir: Seq<char>,
    scripts_dir: Seq<char>,
    sccache_dir: Seq<char>,
    server_url: Seq<char>,
) -> Seq<Seq<char>> {
    seq![
        "run"@,
        "--share"@,
        bin_dir + ":/ox/bin:ro"@,
        "--share"@,
        scripts_dir + ":/ox/scripts:ro"@,
        "--share"@,
        sccache_dir + ":/cache/sccache"@,
        "--net"@,
        "dev-bridge"@,
        "--unsafe-dev-bridge"@,
        "--persistent"@,
        "--"@,
        "bash"@,
        "-c"@,
        guest_command(server_url),
    ]
}

/// Arguments to pass to `seguro run` for one ox-runner VM.
///
/// The runner is invoked inside a guest bash so we can set HOME and PATH
/// before exec'ing `/ox/bin/ox-runner`: ox binaries at /ox/bin, cx at /ox/scripts. The
/// sccache directory is shared writable.
pub fn seguro_runner_argv(bin_dir: &str, scripts_dir: &str, sccache_dir: &str, server_url: &str) -> (r: Vec<String>)
    ensures
        views(r@) == seguro_args(bin_dir@, scripts_dir@, sccache_dir@, server_url@),
{
    let mut guest =
        "export HOME=/home/agent && export PATH=/ox/bin:/ox/scripts:$HOME/.cargo/bin:$PATH && ".to_owned();
    guest.append("export SCCACHE_DIR=/cache/sccache && export RUSTC_WRAPPER=sccache && ");
    guest.append("/ox/bin/ox-runner --server ");
    guest.append(server_url);
    guest.append(" --environment seguro --workspace-dir /tmp/ox-work");
    let mut v: Vec<String> = Vec::new();
    v.push("run".to_owned());
    v.push("--share".to_owned());
    v.push(cat(bin_dir, ":/ox/bin:ro"));
    v.push("--share".to_owned());
    v.push(cat(scripts_dir, ":/ox/scripts:ro"));
    v.push("--share".to_owned());
    v.push(cat(sccache_dir, ":/cache/sccache"));
    v.push("--net".to_owned());
    v.push("dev-bridge".to_owned());
    v.push("--unsafe-dev-bridge".to_owned());
    v.push("--persistent".to_owned());
    v.push("--".to_owned());
    v.push("bash".to_owned());
    v.push("-c".to_owned());
    v.push(guest);
    assert(views(v@) =~= seguro_args(bin_dir@, scripts_dir@, sccache_dir@, server_url@));
    v
}

// ── The plan of an ensemble ─────────────────────────────────────────

/// A process to start.
#[derive(Debug)]
pub struct Launch {
    /// The name of its pidfile entry.
    pub name: String,
    pub program: String,
    pub args: Vec<String>,
    /// Where its output goes.
    pub log: String,
    /// The directory to create for it first, where it needs one.
    pub workspace: Option<String>,
}

/// What a process to start is.
pub struct LaunchView {
    pub name: Seq<char>,
    pub program: Seq<char>,
    pub args: Seq<Seq<char>>,
    pub log: Seq<char>,
    pub workspace: Option<Seq<char>>,
}

impl View for Launch {
    type V = LaunchView;

    open spec fn view(&self) -> LaunchView {
        LaunchView {
            name: self.name@,
            program: self.program@,
            args: views(self.args@),
            log: self.log@,
            workspace: text_option(self.workspace),
        }
    }
}

/// What an ensemble is started from.
#[derive(Debug)]
pub struct UpConfig {
    pub repo: String,
    pub bins: Binaries,
    pub sccache_dir: String,
    pub port: u16,
    pub runners: usize,
    /// The watchers that the configuration names.
    pub watchers: Vec<String>,
}

/// The URL of the server on the host.
pub open spec fn host_url(port: u16) -> Seq<char> {
    "http://localhost:"@ + dec(port as nat)
}

/// The URL of the server as runners in their VMs reach it, over the gateway to the host.
pub open spec fn guest_url(port: u16) -> Seq<char> {
    "http://10.0.2.2:"@ + dec(port as nat)
}

impl UpConfig {
    /// Where a process logs to.
    pub open spec fn log_of(&self, name: Seq<char>) -> Seq<char> {
        joined(joined(run_dir_spec(self.repo@), "logs"@), name + ".log"@)
    }

    /// The server.
    pub open spec fn server_launch(&self) -> LaunchView {
        LaunchView {
            name: "server"@,
            program: self.bins.ox_server@,
            args: seq![
                "--port"@,
                dec(self.port as nat),
                "--repo"@,
                self.repo@,
                "--db"@,
                joined(run_dir_spec(self.repo@), "ox.db"@),
            ],
            log: self.log_of("server"@),
            workspace: None,
        }
    }

    /// The herder.
    pub open spec fn herder_launch(&self) -> LaunchView {
        LaunchView {
            name: "herder"@,
            program: self.bins.ox_herder@,
            args: seq!["--server"@, host_url(self.port)],
            log: self.log_of("herder"@),
            workspace: None,
        }
    }

    /// A watcher: its program stands beside the server.
    pub open spec fn watcher_launch(&self, watcher: Seq<char>) -> LaunchView {
        let name = watcher + "-watcher"@;
        LaunchView {
            name,
            program: joined(self.bins.bin_dir@, "ox-"@ + name),
            args: seq!["--server"@, host_url(self.port), "--repo"@, self.repo@],
            log: self.log_of(name),
            workspace: None,
        }
    }

    /// The `n`-th runner.
    pub open spec fn runner_launch(&self, n: nat) -> LaunchView {
        let name = "runner-"@ + dec(n);
        LaunchView {
            name,
            program: "seguro"@,
            args: seguro_args(
                self.bins.bin_dir@,
                joined(run_dir_spec(self.repo@), "scripts"@),
                self.sccache_dir@,
                guest_url(self.port),
            ),
            log: self.log_of(name),
            workspace: Some(joined(run_dir_spec(self.repo@), name)),
        }
    }

    /// All processes, in the order in which they are started.
    pub open spec fn plan_spec(&self) -> Seq<LaunchView> {
        seq![self.server_launch(), self.herder_launch()] + views(self.watchers@).map_values(
            |w: Seq<char>| self.watcher_launch(w),
        ) + Seq::new(self.runners as nat, |i: int| self.runner_launch((i + 1) as nat))
    }

    fn log_path(&self, name: &str) -> (r: String)
        ensures
            r@ == self.log_of(name@),
    {
        let paths = RunPaths::for_repo(self.repo.as_str());
        join_path(paths.log_dir.as_str(), cat(name, ".log").as_str())
    }

    /// The URL of the server on the host.
    pub fn server_url(&self) -> (r: String)
        ensures
            r@ == host_url(self.port),
    {
        cat("http://localhost:", dec_u64(self.port as u64).as_str())
    }

    fn server(&self) -> (r: Launch)
        ensures
            r@ == self.server_launch(),
    {
        let paths = RunPaths::for_repo(self.repo.as_str());
        let mut args: Vec<String> = Vec::new();
        args.push("--port".to_owned());
        args.push(dec_u64(self.port as u64));
        args.push("--repo".to_owned());
        args.push(self.repo.clone());
        args.push("--db".to_owned());
        args.push(paths.db);
        assert(views(args@) =~= self.server_launch().args);
        Launch {
            name: "server".to_owned(),
            program: self.bins.ox_server.clone(),
            args,
            log: self.log_path("server"),
            workspace: None,
        }
    }

    fn herder(&self) -> (r: Launch)
        ensures
            r@ == self.herder_launch(),
    {
        let mut args: Vec<String> = Vec::new();
        args.push("--server".to_owned());
        args.push(self.server_url());
        assert(views(args@) =~= self.herder_launch().args);
        Launch {
            name: "herder".to_owned(),
            program: self.bins.ox_herder.clone(),
            args,
            log: self.log_path("herder"),
            workspace: None,
        }
    }

    fn watcher(&self, watcher: &str) -> (r: Launch)
        ensures
            r@ == self.watcher_launch(watcher@),
    {
        let name = cat(watcher, "-watcher");
        let mut args: Vec<String> = Vec::new();
        args.push("--server".to_owned());
        args.push(self.server_url());
        args.push("--repo".to_owned());
        args.push(self.repo.clone());
        assert(views(args@) =~= self.watcher_launch(watcher@).args);
        Launch {
            program: join_path(self.bins.bin_dir.as_str(), cat("ox-", name.as_str()).as_str()),
            args,
            log: self.log_path(name.as_str()),
            name,
            workspace: None,
        }
    }

    fn runner(&self, n: usize) -> (r: Launch)
        ensures
            r@ == self.runner_launch(n as nat),
    {
        let paths = RunPaths::for_repo(self.repo.as_str());
        let name = runner_name(n);
        let url = cat("http://10.0.2.2:", dec_u64(self.port as u64).as_str());
        let args = seguro_runner_argv(
            self.bins.bin_dir.as_str(),
            paths.scripts_dir.as_str(),
            self.sccache_dir.as_str(),
            url.as_str(),
        );
        Launch {
            program: "seguro".to_owned(),
            args,
            log: self.log_path(name.as_str()),
            name,
            workspace: Some(paths.runner_workspace(n)),
        }
    }

    /// Plans the ensemble: the server, the herder, the watchers, then the runners.
    pub fn plan(&self) -> (r: Vec<Launch>)
        ensures
            r@.map_values(|l: Launch| l@) == self.plan_spec(),
    {
        let mut out: Vec<Launch> = Vec::new();
        let server = self.server();
        let herder = self.herder();
        out.push(server);
        out.push(herder);
        let ghost head = seq![self.server_launch(), self.herder_launch()];
        let ghost middle = views(self.watchers@).map_values(|w: Seq<char>| self.watcher_launch(w));
        let ghost tail = Seq::new(self.runners as nat, |i: int| self.runner_launch((i + 1) as nat));
        assert(out@.map_values(|l: Launch| l@) =~= head + middle.take(0));
        let mut i: usize = 0;
        while i < self.watchers.len()
            invariant
                0 <= i <= self.watchers@.len(),
                middle == views(self.watchers@).map_values(|w: Seq<char>| self.watcher_launch(w)),
                out@.map_values(|l: Launch| l@) == head + middle.take(i as int),
            decreases self.watchers@.len() - i,
        {
            let ghost before = out@.map_values(|l: Launch| l@);
            let w = self.watcher(self.watchers[i].as_str());
            assert(middle[i as int] == self.watcher_launch(views(self.watchers@)[i as int]));
            out.push(w);
            assert(out@.map_values(|l: Launch| l@) =~= before.push(w@));
            assert(out@.map_values(|l: Launch| l@) =~= head + middle.take(i + 1));
            i += 1;
        }
        assert(middle.take(i as int) =~= middle);
        assert(out@.map_values(|l: Launch| l@) =~= head + middle + tail.take(0));
        let mut n: usize = 0;
        while n < self.runners
            invariant
                0 <= n <= self.runners,
                tail == Seq::new(self.runners as nat, |i: int| self.runner_launch((i + 1) as nat)),
                out@.map_values(|l: Launch| l@) == head + middle + tail.take(n as int),
            decreases self.runners - n,
        {
            let ghost before = out@.map_values(|l: Launch| l@);
            let r = self.runner(n + 1);
            assert(tail[n as int] == self.runner_launch((n + 1) as nat));
            out.push(r);
            assert(out@.map_values(|l: Launch| l@) =~= before.push(r@));
            assert(out@.map_values(|l: Launch| l@) =~= head + middle + tail.take(n + 1));
            n += 1;
        }
        assert(tail.take(n as int) =~= tail);
        out
    }
}

/// The file in the home directory that a secret is seeded from: in the dot directory of
/// the agent that the secret is named after, up to its first `_`.
pub open spec fn credential_path(home: Seq<char>, secret: Seq<char>, file: Seq<char>) -> Seq<char> {
    joined(joined(home, "."@ + secret.take(find_from(secret, '_', 0))), file)
}

fn credential_file(home: &str, secret: &str, file: &str) -> (r: String)
    ensures
        r@ == credential_path(home@, secret@, file@),
{
    let v = chars_of(secret);
    let end = find_char(&v, '_', 0);
    let agent = text_range(&v, 0, end);
    assert(agent@ =~= secret@.take(end as int));
    join_path(join_path(home, cat(".", agent.as_str()).as_str()).as_str(), file)
}

/// The secrets that are seeded when the ensemble starts, each with the file that it is
/// read from.
pub fn credential_sources(home: &str) -> (r: Vec<(String, String)>)
    ensures
        r@.len() == 2,
        r@[0].0@ == "claude_credentials"@,
        r@[0].1@ == credential_path(home@, "claude_credentials"@, ".credentials.json"@),
        r@[1].0@ == "codex_auth"@,
        r@[1].1@ == credential_path(home@, "codex_auth"@, "auth.json"@),
{
    let mut v: Vec<(String, String)> = Vec::new();
    v.push(
        ("claude_credentials".to_owned(), credential_file(home, "claude_credentials", ".credentials.json")),
    );
    v.push(("codex_auth".to_owned(), credential_file(home, "codex_auth", "auth.json")));
    v
}

/// The whole ensemble is planned, in order: the server, the herder, every watcher that the
/// configuration names, and as many runners as are asked for. Each logs under its name.
pub proof fn the_whole_ensemble_is_planned(c: UpConfig, i: int)
    ensures
        ({
            let plan = c.plan_spec();
            let w = c.watchers@.len();
            let logs = joined(run_dir_spec(c.repo@), "logs"@);
            &&& plan.len() == 2 + w + c.runners
            &&& plan[0].name == "server"@
            &&& plan[0].program == c.bins.ox_server@
            &&& plan[1].name == "herder"@
            &&& plan[1].program == c.bins.ox_herder@
            &&& 0 <= i < w ==> {
                &&& plan[2 + i].name == c.watchers@[i]@ + "-watcher"@
                &&& plan[2 + i].program == joined(c.bins.bin_dir@, "ox-"@ + (c.watchers@[i]@ + "-watcher"@))
            }
            &&& 0 <= i < c.runners ==> {
                let r = plan[2 + w + i];
                &&& r.name == "runner-"@ + dec((i + 1) as nat)
                &&& r.program == "seguro"@
                &&& r.workspace == Some(joined(run_dir_spec(c.repo@), r.name))
            }
            &&& 0 <= i < plan.len() ==> plan[i].log == joined(logs, plan[i].name + ".log"@)
            &&& 0 <= i < 2 + w ==> plan[i].workspace is None
        }),
{
}

/// Everyone in an ensemble talks to the one server: it listens on the port, the herder and
/// the watchers reach it on the host, and the runners over the gateway of their machine.
pub proof fn everyone_talks_to_the_server(c: UpConfig, watcher: Seq<char>, n: nat)
    ensures
        ({
            let port = dec(c.port as nat);
            let server = c.server_launch().args;
            &&& server.len() == 6
            &&& server[0] == "--port"@ && server[1] == port
            &&& server[2] == "--repo"@ && server[3] == c.repo@
            &&& server[4] == "--db"@ && server[5] == joined(run_dir_spec(c.repo@), "ox.db"@)
            &&& c.herder_launch().args == seq!["--server"@, "http://localhost:"@ + port]
            &&& c.watcher_launch(watcher).args == seq![
                "--server"@,
                "http://localhost:"@ + port,
                "--repo"@,
                c.repo@,
            ]
            &&& c.runner_launch(n).args == seguro_args(
                c.bins.bin_dir@,
                joined(run_dir_spec(c.repo@), "scripts"@),
                c.sccache_dir@,
                "http://10.0.2.2:"@ + port,
            )
        }),
{
}

/// A runner's machine shares the binaries and the scripts read-only and the cache writable,
/// and its command reaches the server that it is given.
pub proof fn runner_machines_share_what_they_need(
    bin_dir: Seq<char>,
    scripts_dir: Seq<char>,
    sccache_dir: Seq<char>,
    server_url: Seq<char>,
)
    ensures
        ({
            let args = seguro_args(bin_dir, scripts_dir, sccache_dir, server_url);
            &&& args[0] == "run"@
            &&& args[1] == "--share"@ && args[2] == bin_dir + ":/ox/bin:ro"@
            &&& args[3] == "--share"@ && args[4] == scripts_dir + ":/ox/scripts:ro"@
            &&& args[5] == "--share"@ && args[6] == sccache_dir + ":/cache/sccache"@
            &&& args.contains("--persistent"@)
            &&& args[args.len() - 3] == "bash"@
            &&& args[args.len() - 2] == "-c"@
            &&& exists|front: Seq<char>|
                args.last() == #[trigger] (front + ("/ox/bin/ox-runner --server "@ + server_url
                    + " --environment seguro --workspace-dir /tmp/ox-work"@))
        }),
{
    let args = seguro_args(bin_dir, scripts_dir, sccache_dir, server_url);
    assert(args[10] == "--persistent"@);
    let front = "export HOME=/home/agent && export PATH=/ox/bin:/ox/scripts:$HOME/.cargo/bin:$PATH && "@
        + "export SCCACHE_DIR=/cache/sccache && export RUSTC_WRAPPER=sccache && "@;
    assert(args.last() =~= front + ("/ox/bin/ox-runner --server "@ + server_url
        + " --environment seguro --workspace-dir /tmp/ox-work"@));
}

/// Runners have names of their own.
pub proof fn runners_have_distinct_names(c: UpConfig, a: nat, b: nat)
    ensures
        c.runner_launch(a).name == c.runner_launch(b).name <==> a == b,
{
    let (x, y) = ("runner-"@ + dec(a), "runner-"@ + dec(b));
    let n = "runner-"@.len() as int;
    assert(x.skip(n) =~= dec(a));
    assert(y.skip(n) =~= dec(b));
    lemma_value_of_dec(a);
    lemma_value_of_dec(b);
}

/// Each process that is alive counts once, and no other.
pub proof fn living_processes_are_counted(alive: Seq<bool>, more: bool)
    ensures
        alive_count(alive.push(more)) == alive_count(alive) + (if more {
            1nat
        } else {
            0nat
        }),
        alive_count(Seq::empty()) == 0,
{
    assert(alive.push(more).drop_last() =~= alive);
}

/// A project goes by the last component of its path, with or without a `/` behind it.
pub proof fn projects_go_by_their_directory(dir: Seq<char>, name: Seq<char>)
    requires
        !name.contains('/'),
        name.len() > 0,
        dir.len() == 0 || dir.last() == '/',
    ensures
        project_name_spec(dir + name) == name,
        project_name_spec((dir + name).push('/')) == name,
{
    let path = dir + name;
    assert(path.last() == name.last());
    assert(name.contains(name.last()));
    trailing_characters_are_stripped(path, '/');
    let n = dir.len() as int;
    assert forall|i: int| n <= i < path.len() implies path[i] != '/' by {
        assert(path[i] == name[i - n]);
        assert(name.contains(name[i - n]));
    }
    lemma_behind_is(path, '/', n);
    assert(path.skip(n) =~= name);
}

proof fn lemma_behind_is(s: Seq<char>, c: char, at: int)
    requires
        0 <= at <= s.len(),
        at == 0 || s[at - 1] == c,
        forall|i: int| at <= i < s.len() ==> s[i] != c,
    ensures
        behind_last(s, c) == at,
    decreases s.len(),
{
    if at < s.len() {
        assert(s.last() != c);
        assert forall|i: int| at <= i < s.drop_last().len() implies s.drop_last()[i] != c by {
            assert(s.drop_last()[i] == s[i]);
        }
        lemma_behind_is(s.drop_last(), c, at);
    }
}

/// A program is looked for in every directory of a search path, from the first to the last.
pub proof fn programs_are_looked_for_in_order(dir: Seq<char>, rest: Seq<char>, name: Seq<char>)
    requires
        !dir.contains(':'),
    ensures
        path_places(dir, name) == seq![joined(dir, name)],
        path_places(dir + seq![':'] + rest, name) == seq![joined(dir, name)] + path_places(rest, name),
{
    splits_take_parts_apart(dir, rest, ':');
    let all = dir + seq![':'] + rest;
    assert(path_places(dir, name) =~= seq![joined(dir, name)]);
    assert(path_places(all, name) =~= seq![joined(dir, name)] + path_places(rest, name));
}

/// A secret is seeded from a file in the dot directory of its agent: what stands in front of
/// the first `_` of its name.
pub proof fn secrets_come_from_their_agent(
    home: Seq<char>,
    agent: Seq<char>,
    rest: Seq<char>,
    file: Seq<char>,
)
    requires
        !agent.contains('_'),
    ensures
        credential_path(home, agent + seq!['_'] + rest, file) == joined(joined(home, "."@ + agent), file),
{
    let secret = agent + seq!['_'] + rest;
    let n = agent.len() as int;
    assert forall|i: int| 0 <= i < n implies secret[i] != '_' by {
        assert(secret[i] == agent[i]);
        assert(agent.contains(agent[i]));
    }
    assert(secret[n] == '_');
    lemma_find_is(secret, '_', 0, n);
    assert(secret.take(n) =~= agent);
}

/// The state of a project lies below its `.ox/run`, whatever the project's path.
pub proof fn state_lies_below_the_repository(repo: Seq<char>)
    requires
        repo.len() > 0,
        repo.last() != '/',
    ensures
        run_dir_spec(repo) == repo + "/.ox/run"@,
{
    reveal_strlit(".ox");
    reveal_strlit("run");
    reveal_strlit("/");
    reveal_strlit("/.ox/run");
    let a = joined(repo, ".ox"@);
    assert(a =~= repo + "/.ox"@) by {
        reveal_strlit("/.ox");
    }
    assert(a.last() == 'x');
    assert(run_dir_spec(repo) =~= repo + "/.ox/run"@) by {
        reveal_strlit("/.ox");
    }
}

} // verus!
