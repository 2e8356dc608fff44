//! Where configuration is looked for, and how its layers combine.

use vstd::prelude::*;

use crate::paths::{first_place, first_present, join_path, joined, keep_present};
use crate::text::{
    behind_last, cat, chars_of, contains_text, dedup_spec, find_behind_last, has_suffix, hex, hex_u64,
    lemma_add_all_new, lemma_dedup, push_all_new, same, split_char, split_spec, strip_suffix, text_option, text_range,
    trim, trim_spec, views,
};
use crate::workflow::{TriggerDef, TriggersFile};

verus! {

// ── Embedded defaults ───────────────────────────────────────────────

/// The stamp of a set of embedded defaults.
pub open spec fn fingerprint_spec(version: Seq<char>, hash: nat) -> Seq<char> {
    version + "-"@ + hex(hash)
}

/// The stamp of a set of embedded defaults: the version of the program, and a hash
/// of the files.
pub fn embedded_fingerprint(version: &str, hash: u64) -> (s: String)
    ensures
        s@ == fingerprint_spec(version@, hash as nat),
{
    let mut s = version.to_owned();
    s.append("-");
    s.append(hex_u64(hash).as_str());
    s
}

/// Whether extracted defaults are those of the program: the stamp on disk, if there
/// is one, is the wanted one up to white space around it.
pub fn defaults_are_current(stamp: Option<&str>, want: &str) -> (r: bool)
    ensures
        r == match stamp {
            Some(s) => trim_spec(s@) == want@,
            None => false,
        },
{
    match stamp {
        Some(s) => same(trim(s).as_str(), want),
        None => false,
    }
}

/// The permissions of extracted defaults.
pub fn mark_readonly(is_dir: bool) -> (mode: u32)
    ensures
        mode == (if is_dir { 365u32 } else { 292u32 }),
{
    if is_dir { 0o555 } else { 0o444 }
}

/// The permissions of extracted defaults while they are replaced.
pub fn make_writable(is_dir: bool) -> (mode: u32)
    ensures
        mode == (if is_dir { 493u32 } else { 420u32 }),
{
    if is_dir { 0o755 } else { 0o644 }
}

// ── Search path ─────────────────────────────────────────────────────

/// A directory with a leading `~` replaced by the home directory, where one is known.
pub open spec fn expanded(dir: Seq<char>, home: Option<Seq<char>>) -> Seq<char> {
    if dir.len() > 0 && dir[0] == '~' && home is Some {
        home->0 + dir.skip(1)
    } else {
        dir
    }
}

/// The directories that configuration is looked for in, before those that do not
/// exist are left out.
pub open spec fn search_path_spec(
    repo_root: Seq<char>,
    ox_home: Option<Seq<char>>,
    home: Option<Seq<char>>,
) -> Seq<Seq<char>> {
    let first = seq![joined(repo_root, ".ox"@)];
    let middle = match ox_home {
        Some(dirs) => split_spec(dirs, ':').map_values(|d: Seq<char>| expanded(d, home)),
        None => seq![],
    };
    let last = match home {
        Some(h) => seq![joined(joined(h, ".ox"@), "defaults"@)],
        None => seq![],
    };
    first + middle + last
}

/// The view of an optional text.
pub open spec fn option_view(o: Option<&str>) -> Option<Seq<char>> {
    match o {
        Some(s) => Some(s@),
        None => None,
    }
}

fn expand(dir: &str, home: Option<&str>) -> (r: String)
    ensures
        r@ == expanded(dir@, option_view(home)),
{
    let v = chars_of(dir);
    match home {
        Some(h) => if v.len() > 0 && v[0] == '~' {
            let rest = text_range(&v, 1, v.len());
            cat(h, rest.as_str())
        } else {
            dir.to_owned()
        },
        None => dir.to_owned(),
    }
}

/// Lists the directories that configuration is looked for in, existing or not.
pub fn search_path_candidates(repo_root: &str, ox_home: Option<&str>, home: Option<&str>) -> (r: Vec<String>)
    ensures
        views(r@) == search_path_spec(repo_root@, option_view(ox_home), option_view(home)),
{
    let mut path: Vec<String> = Vec::new();
    let first = join_path(repo_root, ".ox");
    path.push(first);
    let ghost h = option_view(home);
    let ghost head = seq![first@];
    assert(views(path@) =~= head);
    let ghost middle: Seq<Seq<char>> = match ox_home {
        Some(dirs) => split_spec(dirs@, ':').map_values(|d: Seq<char>| expanded(d, h)),
        None => seq![],
    };
    if let Some(dirs) = ox_home {
        let parts = split_char(dirs, ':');
        let mut i: usize = 0;
        assert(views(path@) =~= head + middle.take(0));
        while i < parts.len()
            invariant
                0 <= i <= parts@.len(),
                h == option_view(home),
                views(parts@) == split_spec(dirs@, ':'),
                middle == split_spec(dirs@, ':').map_values(|d: Seq<char>| expanded(d, h)),
                views(path@) == head + middle.take(i as int),
            decreases parts@.len() - i,
        {
            let ghost before = views(path@);
            let dir = expand(parts[i].as_str(), home);
            assert(middle[i as int] == expanded(views(parts@)[i as int], h));
            path.push(dir);
            assert(views(path@) =~= before.push(dir@));
            assert(views(path@) =~= head + middle.take(i + 1));
            i += 1;
        }
        assert(middle.take(i as int) =~= middle);
    }
    assert(views(path@) =~= head + middle);
    if let Some(h) = home {
        let ghost before = views(path@);
        let last = join_path(join_path(h, ".ox").as_str(), "defaults");
        path.push(last);
        assert(views(path@) =~= before + seq![last@]);
    } else {
        assert(views(path@) =~= head + middle + seq![]);
    }
    path
}

/// Those of some directories that exist, in order.
pub open spec fn existing_dirs(dirs: Seq<Seq<char>>, existing: Seq<Seq<char>>) -> Seq<Seq<char>> {
    dirs.filter(|dir: Seq<char>| existing.contains(dir))
}

/// Resolve the configuration search path, given which of its directories exist.
/// 1. {repo}/.ox/
/// 2. Each directory in `$OX_HOME` (colon-separated, left to right)
/// 3. ~/.ox/defaults/ (extracted from the binary on first run)
pub fn resolve_search_path(
    repo_root: &str,
    ox_home: Option<&str>,
    home: Option<&str>,
    existing: &Vec<String>,
) -> (r: Vec<String>)
    ensures
        views(r@) == existing_dirs(
            search_path_spec(repo_root@, option_view(ox_home), option_view(home)),
            views(existing@),
        ),
{
    keep_present(&search_path_candidates(repo_root, ox_home, home), existing)
}

/// The places where a named configuration file may stand, in order.
pub open spec fn config_places(search_path: Seq<Seq<char>>, subdir: Seq<char>, name: Seq<char>) -> Seq<Seq<char>> {
    search_path.map_values(|dir: Seq<char>| joined(joined(dir, subdir), name + ".toml"@))
}

/// Lists the places where a named configuration file may stand.
pub fn config_candidates(search_path: &Vec<String>, subdir: &str, name: &str) -> (r: Vec<String>)
    ensures
        views(r@) == config_places(views(search_path@), subdir@, name@),
{
    let file = cat(name, ".toml");
    let mut out: Vec<String> = Vec::new();
    let mut i: usize = 0;
    let ghost all = config_places(views(search_path@), subdir@, name@);
    assert(views(out@) =~= all.take(0));
    while i < search_path.len()
        invariant
            0 <= i <= search_path@.len(),
            file@ == name@ + ".toml"@,
            all == config_places(views(search_path@), subdir@, name@),
            views(out@) == all.take(i as int),
        decreases search_path@.len() - i,
    {
        let ghost before = views(out@);
        let place = join_path(join_path(search_path[i].as_str(), subdir).as_str(), file.as_str());
        assert(all[i as int] == joined(joined(views(search_path@)[i as int], subdir@), file@));
        out.push(place);
        assert(views(out@) =~= before.push(place@));
        assert(views(out@) =~= all.take(i + 1));
        i += 1;
    }
    assert(all.take(i as int) =~= all);
    out
}

/// Find a named config file, given which files exist. First match wins.
pub fn find_config(search_path: &Vec<String>, subdir: &str, name: &str, files: &Vec<String>) -> (r: Option<String>)
    ensures
        first_place(config_places(views(search_path@), subdir@, name@), views(files@), text_option(r)),
{
    first_present(&config_candidates(search_path, subdir, name), files)
}

/// The name that a configuration file gives to what it defines: its file name
/// without `.toml`. Other files give none.
pub open spec fn config_name_spec(path: Seq<char>) -> Option<Seq<char>> {
    let file = path.skip(behind_last(path, '/'));
    if has_suffix(file, ".toml"@) && file.len() > 5 {
        Some(file.take(file.len() - 5))
    } else {
        None
    }
}

/// Derives the name that a configuration file gives to what it defines.
pub fn config_name(path: &str) -> (r: Option<String>)
    ensures
        match r {
            Some(name) => config_name_spec(path@) == Some(name@),
            None => config_name_spec(path@) is None,
        },
{
    proof {
        reveal_strlit(".toml");
    }
    let v = chars_of(path);
    let at = find_behind_last(&v, '/');
    let file = text_range(&v, at, v.len());
    match strip_suffix(file.as_str(), ".toml") {
        Some(stem) => if stem.as_str().is_empty() {
            None
        } else {
            Some(stem)
        },
        None => None,
    }
}

/// The configuration files among paths, each with its name; of those with one name
/// the first.
pub open spec fn named_configs(paths: Seq<Seq<char>>) -> Seq<(Seq<char>, Seq<char>)>
    decreases paths.len(),
{
    if paths.len() == 0 {
        seq![]
    } else {
        let head = named_configs(paths.drop_last());
        match config_name_spec(paths.last()) {
            Some(name) => if names_of(head).contains(name) {
                head
            } else {
                head.push((name, paths.last()))
            },
            None => head,
        }
    }
}

/// The names of named files.
pub open spec fn names_of(v: Seq<(Seq<char>, Seq<char>)>) -> Seq<Seq<char>> {
    v.map_values(|e: (Seq<char>, Seq<char>)| e.0)
}

/// The views of pairs of texts.
pub open spec fn pair_views(v: Seq<(String, String)>) -> Seq<(Seq<char>, Seq<char>)> {
    v.map_values(|e: (String, String)| (e.0@, e.1@))
}

/// Names the configuration files of a subdirectory, listed along the search path.
/// First match per name wins (higher-priority directories shadow lower ones).
pub fn load_all_configs(paths: &Vec<String>) -> (r: Vec<(String, String)>)
    ensures
        pair_views(r@) == named_configs(views(paths@)),
{
    let mut out: Vec<(String, String)> = Vec::new();
    let mut seen: Vec<String> = Vec::new();
    let mut i: usize = 0;
    let ghost all = views(paths@);
    assert(all.take(0) =~= seq![]);
    assert(pair_views(out@) =~= seq![]);
    assert(views(seen@) =~= names_of(named_configs(all.take(0))));
    while i < paths.len()
        invariant
            0 <= i <= paths@.len(),
            all == views(paths@),
            pair_views(out@) == named_configs(all.take(i as int)),
            views(seen@) == names_of(named_configs(all.take(i as int))),
        decreases paths@.len() - i,
    {
        let ghost next = all.take(i + 1);
        let ghost before = pair_views(out@);
        let ghost known = views(seen@);
        assert(next.drop_last() =~= all.take(i as int));
        assert(next.last() == paths@[i as int]@);
        if let Some(name) = config_name(paths[i].as_str()) {
            if !contains_text(&seen, name.as_str()) {
                let ghost n = name@;
                seen.push(name.clone());
                out.push((name, paths[i].clone()));
                assert(pair_views(out@) =~= before.push((n, paths@[i as int]@)));
                assert(views(seen@) =~= known.push(n));
                assert(names_of(named_configs(next)) =~= known.push(n));
            }
        }
        i += 1;
    }
    assert(all.take(i as int) =~= all);
    out
}

/// Each name comes once, and comes from the first file that gives it.
pub proof fn first_config_of_a_name_wins(paths: Seq<Seq<char>>, i: int)
    requires
        0 <= i < paths.len(),
        config_name_spec(paths[i]) is Some,
        forall|j: int| 0 <= j < i ==> config_name_spec(#[trigger] paths[j]) != config_name_spec(paths[i]),
    ensures
        named_configs(paths).contains((config_name_spec(paths[i])->0, paths[i])),
        names_of(named_configs(paths)).no_duplicates(),
    decreases paths.len(),
{
    lemma_names_distinct(paths);
    let head = named_configs(paths.drop_last());
    let all = named_configs(paths);
    let e = (config_name_spec(paths[i])->0, paths[i]);
    if i < paths.len() - 1 {
        assert forall|j: int| 0 <= j < i implies config_name_spec(#[trigger] paths.drop_last()[j]) != config_name_spec(
            paths[i],
        ) by {
            assert(paths.drop_last()[j] == paths[j]);
        }
        first_config_of_a_name_wins(paths.drop_last(), i);
        let k = head.index_of(e);
        assert(all[k] == e);
    } else {
        if names_of(head).contains(e.0) {
            lemma_named_from(paths.drop_last(), e.0);
            let j = choose|j: int|
                0 <= j < paths.drop_last().len() && config_name_spec(#[trigger] paths.drop_last()[j]) == Some(e.0);
            assert(paths[j] == paths.drop_last()[j]);
            assert(false);
        }
        assert(all[all.len() - 1] == e);
    }
}

proof fn lemma_names_distinct(paths: Seq<Seq<char>>)
    ensures
        names_of(named_configs(paths)).no_duplicates(),
    decreases paths.len(),
{
    if paths.len() > 0 {
        lemma_names_distinct(paths.drop_last());
        let head = named_configs(paths.drop_last());
        match config_name_spec(paths.last()) {
            Some(name) => if !names_of(head).contains(name) {
                assert(names_of(named_configs(paths)) =~= names_of(head).push(name));
            },
            None => {},
        }
    }
}

proof fn lemma_named_from(paths: Seq<Seq<char>>, name: Seq<char>)
    requires
        names_of(named_configs(paths)).contains(name),
    ensures
        exists|j: int| 0 <= j < paths.len() && config_name_spec(#[trigger] paths[j]) == Some(name),
    decreases paths.len(),
{
    let head = named_configs(paths.drop_last());
    if names_of(head).contains(name) {
        lemma_named_from(paths.drop_last(), name);
        let j = choose|j: int|
            0 <= j < paths.drop_last().len() && config_name_spec(#[trigger] paths.drop_last()[j]) == Some(name);
        assert(paths[j] == paths.drop_last()[j]);
    } else {
        let k = names_of(named_configs(paths)).index_of(name);
        assert(names_of(named_configs(paths))[k] == name);
        if k < head.len() {
            assert(names_of(head)[k] == name);
        }
        assert(paths[paths.len() - 1] == paths.last());
    }
}

/// The paths of the files of a subdirectory, directory by directory along the search
/// path, given the file names in each.
pub open spec fn listing(
    search_path: Seq<Seq<char>>,
    subdir: Seq<char>,
    files: Seq<Seq<Seq<char>>>,
) -> Seq<Seq<char>>
    decreases search_path.len(),
{
    if search_path.len() == 0 || files.len() != search_path.len() {
        seq![]
    } else {
        listing(search_path.drop_last(), subdir, files.drop_last()) + files.last().map_values(
            |file: Seq<char>| joined(joined(search_path.last(), subdir), file),
        )
    }
}

/// The file names in each directory of a search path are all there are: names without a
/// `/`, and a file that is listed for some directory is listed for every directory whose
/// path leads to it.
pub open spec fn listed_in_full(
    search_path: Seq<Seq<char>>,
    subdir: Seq<char>,
    files: Seq<Seq<Seq<char>>>,
) -> bool {
    &&& files.len() == search_path.len()
    &&& forall|i: int, k: int|
        0 <= i < files.len() && 0 <= k < files[i].len() ==> !(#[trigger] files[i][k]).contains('/')
    &&& forall|i: int, file: Seq<char>|
        0 <= i < files.len() && !file.contains('/') && listing(search_path, subdir, files).contains(
            #[trigger] joined(joined(search_path[i], subdir), file),
        ) ==> files[i].contains(file)
}

/// Each file that is named is the one that a search for its name finds: the earliest
/// directory shadows later ones. Names are distinct, and are those of all configuration
/// files.
pub proof fn named_configs_are_found(
    search_path: Seq<Seq<char>>,
    subdir: Seq<char>,
    files: Seq<Seq<Seq<char>>>,
    name: Seq<char>,
)
    requires
        listed_in_full(search_path, subdir, files),
    ensures
        ({
            let paths = listing(search_path, subdir, files);
            let named = named_configs(paths);
            &&& names_of(named).no_duplicates()
            &&& names_of(named).contains(name) <==> exists|i: int|
                0 <= i < files.len() && name.len() > 0 && (#[trigger] files[i]).contains(name + ".toml"@)
            &&& forall|j: int|
                0 <= j < named.len() && (#[trigger] named[j]).0 == name ==> first_place(
                    config_places(search_path, subdir, name),
                    paths,
                    Some(named[j].1),
                )
        }),
{
    let paths = listing(search_path, subdir, files);
    let named = named_configs(paths);
    let places = config_places(search_path, subdir, name);
    let file = name + ".toml"@;
    lemma_names_distinct(paths);
    if names_of(named).contains(name) {
        lemma_named_from(paths, name);
        let p = choose|p: int| 0 <= p < paths.len() && config_name_spec(#[trigger] paths[p]) == Some(name);
        lemma_listed_from(search_path, subdir, files, p);
        let (i, k) = choose|i: int, k: int|
            0 <= i < files.len() && 0 <= k < files[i].len() && paths[p] == joined(
                joined(search_path[i], subdir),
                #[trigger] files[i][k],
            );
        lemma_file_name(joined(search_path[i], subdir), files[i][k], name);
        assert(files[i].contains(files[i][k]));
        assert(name.len() > 0 && files[i].contains(file));
    }
    if exists|i: int| 0 <= i < files.len() && name.len() > 0 && (#[trigger] files[i]).contains(file) {
        let i = choose|i: int| 0 <= i < files.len() && name.len() > 0 && (#[trigger] files[i]).contains(file);
        lemma_listing_holds(search_path, subdir, files, i, file);
        let p = paths.index_of(joined(joined(search_path[i], subdir), file));
        let k = files[i].index_of(file);
        assert(!files[i][k].contains('/'));
        lemma_file_name(joined(search_path[i], subdir), file, name);
        lemma_has_name(paths, p, name);
    }
    assert forall|j: int| 0 <= j < named.len() && (#[trigger] named[j]).0 == name implies first_place(
        places,
        paths,
        Some(named[j].1),
    ) by {
        lemma_named_path(paths, j);
        let p = choose|p: int|
            {
                &&& 0 <= p < paths.len()
                &&& paths[p] == named[j].1
                &&& config_name_spec(#[trigger] paths[p]) == Some(name)
                &&& forall|q: int| 0 <= q < p ==> config_name_spec(#[trigger] paths[q]) != Some(name)
            };
        lemma_listed_in_order(search_path, subdir, files, p);
        let (i, k) = choose|i: int, k: int|
            {
                &&& 0 <= i < files.len()
                &&& 0 <= k < files[i].len()
                &&& paths[p] == joined(joined(search_path[i], subdir), #[trigger] files[i][k])
                &&& forall|h: int, f: Seq<char>|
                    0 <= h < i && #[trigger] files[h].contains(f) ==> paths.take(p).contains(
                        joined(joined(search_path[h], subdir), f),
                    )
            };
        lemma_file_name(joined(search_path[i], subdir), files[i][k], name);
        assert(files[i][k] == file);
        assert(places[i] == named[j].1);
        assert(paths.contains(paths[p]));
        assert forall|h: int| 0 <= h < i implies !paths.contains(#[trigger] places[h]) by {
            if paths.contains(places[h]) {
                assert(places[h] == joined(joined(search_path[h], subdir), file));
                assert(!file.contains('/')) by {
                    assert(!files[i][k].contains('/'));
                }
                assert(files[h].contains(file));
                let front = paths.take(p);
                let q = front.index_of(places[h]);
                assert(front[q] == places[h]);
                assert(paths[q] == places[h]);
                lemma_file_name(joined(search_path[h], subdir), file, name);
            }
        }
    }
}

/// The file name that a joined path ends with.
proof fn lemma_file_name(base: Seq<char>, file: Seq<char>, name: Seq<char>)
    requires
        !file.contains('/'),
    ensures
        config_name_spec(joined(base, file)) == Some(name) <==> name.len() > 0 && file == name + ".toml"@,
{
    reveal_strlit(".toml");
    reveal_strlit("/");
    let path = joined(base, file);
    if file.len() > 0 {
        assert(file.contains(file[0]));
    }
    let n = path.len() - file.len();
    assert(path.skip(n) =~= file);
    assert(n == 0 || path[n - 1] == '/');
    assert forall|i: int| n <= i < path.len() implies path[i] != '/' by {
        assert(path[i] == file[i - n]);
        assert(file.contains(file[i - n]));
    }
    lemma_behind_is(path, '/', n);
    if name.len() > 0 && file == name + ".toml"@ {
        assert(file.subrange(file.len() - 5, file.len() as int) =~= ".toml"@);
        assert(file.take(file.len() - 5) =~= name);
    }
    if config_name_spec(path) == Some(name) {
        assert(file =~= file.take(file.len() - 5) + file.subrange(file.len() - 5, file.len() as int));
    }
}

proof fn lemma_behind_is(s: Seq<char>, c: char, at: int)
    requires
        0 <= at <= s.len(),
        at == 0 || s[at - 1] == c,
        forall|i: int| at <= i < s.len() ==> s[i] != c,
    ensures
        behind_last(s, c) == at,
    decreases s.len(),
{
    if at < s.len() {
        assert(s.last() != c);
        assert forall|i: int| at <= i < s.drop_last().len() implies s.drop_last()[i] != c by {
            assert(s.drop_last()[i] == s[i]);
        }
        lemma_behind_is(s.drop_last(), c, at);
    } else if s.len() > 0 {
        assert(s.last() == c);
    }
}

proof fn lemma_listed_from(search_path: Seq<Seq<char>>, subdir: Seq<char>, files: Seq<Seq<Seq<char>>>, p: int)
    requires
        files.len() == search_path.len(),
        0 <= p < listing(search_path, subdir, files).len(),
    ensures
        exists|i: int, k: int|
            0 <= i < files.len() && 0 <= k < files[i].len() && listing(search_path, subdir, files)[p] == joined(
                joined(search_path[i], subdir),
                #[trigger] files[i][k],
            ),
{
    lemma_listed_in_order(search_path, subdir, files, p);
}

/// A listed path stands for a file of some directory, behind all files of the directories
/// in front of that.
proof fn lemma_listed_in_order(search_path: Seq<Seq<char>>, subdir: Seq<char>, files: Seq<Seq<Seq<char>>>, p: int)
    requires
        files.len() == search_path.len(),
        0 <= p < listing(search_path, subdir, files).len(),
    ensures
        exists|i: int, k: int|
            {
                &&& 0 <= i < files.len()
                &&& 0 <= k < files[i].len()
                &&& listing(search_path, subdir, files)[p] == joined(
                    joined(search_path[i], subdir),
                    #[trigger] files[i][k],
                )
                &&& forall|h: int, f: Seq<char>|
                    0 <= h < i && #[trigger] files[h].contains(f) ==> listing(search_path, subdir, files).take(
                        p,
                    ).contains(joined(joined(search_path[h], subdir), f))
            },
    decreases search_path.len(),
{
    let front = listing(search_path.drop_last(), subdir, files.drop_last());
    let all = listing(search_path, subdir, files);
    let last = search_path.len() - 1;
    if p < front.len() {
        lemma_listed_in_order(search_path.drop_last(), subdir, files.drop_last(), p);
        let (i, k) = choose|i: int, k: int|
            {
                &&& 0 <= i < files.drop_last().len()
                &&& 0 <= k < files.drop_last()[i].len()
                &&& front[p] == joined(
                    joined(search_path.drop_last()[i], subdir),
                    #[trigger] files.drop_last()[i][k],
                )
                &&& forall|h: int, f: Seq<char>|
                    0 <= h < i && #[trigger] files.drop_last()[h].contains(f) ==> front.take(p).contains(
                        joined(joined(search_path.drop_last()[h], subdir), f),
                    )
            };
        assert(files[i][k] == files.drop_last()[i][k]);
        assert(front.take(p) =~= all.take(p));
        assert forall|h: int, f: Seq<char>| 0 <= h < i && #[trigger] files[h].contains(f) implies all.take(p).contains(
            joined(joined(search_path[h], subdir), f),
        ) by {
            assert(files.drop_last()[h].contains(f));
        }
    } else {
        let k = p - front.len();
        assert(files[last][k] == files.last()[k]);
        assert forall|h: int, f: Seq<char>| 0 <= h < last && #[trigger] files[h].contains(f) implies all.take(
            p,
        ).contains(joined(joined(search_path[h], subdir), f)) by {
            assert(files.drop_last()[h] == files[h]);
            lemma_listing_holds(search_path.drop_last(), subdir, files.drop_last(), h, f);
            let q = front.index_of(joined(joined(search_path[h], subdir), f));
            assert(all.take(p)[q] == front[q]);
        }
    }
}

/// Each file of each directory is listed.
proof fn lemma_listing_holds(
    search_path: Seq<Seq<char>>,
    subdir: Seq<char>,
    files: Seq<Seq<Seq<char>>>,
    i: int,
    file: Seq<char>,
)
    requires
        files.len() == search_path.len(),
        0 <= i < files.len(),
        files[i].contains(file),
    ensures
        listing(search_path, subdir, files).contains(joined(joined(search_path[i], subdir), file)),
    decreases search_path.len(),
{
    let front = listing(search_path.drop_last(), subdir, files.drop_last());
    let all = listing(search_path, subdir, files);
    let path = joined(joined(search_path[i], subdir), file);
    if i < search_path.len() - 1 {
        assert(files.drop_last()[i] == files[i]);
        lemma_listing_holds(search_path.drop_last(), subdir, files.drop_last(), i, file);
        let q = front.index_of(path);
        assert(all[q] == path);
    } else {
        let k = files[i].index_of(file);
        assert(all[front.len() + k] == path);
    }
}

proof fn lemma_has_name(paths: Seq<Seq<char>>, p: int, name: Seq<char>)
    requires
        0 <= p < paths.len(),
        config_name_spec(paths[p]) == Some(name),
    ensures
        names_of(named_configs(paths)).contains(name),
    decreases paths.len(),
{
    let head = named_configs(paths.drop_last());
    let all = named_configs(paths);
    if p < paths.len() - 1 {
        assert(paths.drop_last()[p] == paths[p]);
        lemma_has_name(paths.drop_last(), p, name);
        let k = names_of(head).index_of(name);
        assert(names_of(all)[k] == names_of(head)[k]);
    } else if names_of(head).contains(name) {
    } else {
        assert(names_of(all)[head.len() as int] == name);
    }
}

/// A named file is the first one that gives the name.
proof fn lemma_named_path(paths: Seq<Seq<char>>, j: int)
    requires
        0 <= j < named_configs(paths).len(),
    ensures
        exists|p: int|
            {
                &&& 0 <= p < paths.len()
                &&& paths[p] == named_configs(paths)[j].1
                &&& config_name_spec(#[trigger] paths[p]) == Some(named_configs(paths)[j].0)
                &&& forall|q: int|
                    0 <= q < p ==> config_name_spec(#[trigger] paths[q]) != Some(named_configs(paths)[j].0)
            },
    decreases paths.len(),
{
    let front = paths.drop_last();
    let head = named_configs(front);
    let e = named_configs(paths)[j];
    if j < head.len() {
        lemma_named_path(front, j);
        let p = choose|p: int|
            {
                &&& 0 <= p < front.len()
                &&& front[p] == head[j].1
                &&& config_name_spec(#[trigger] front[p]) == Some(head[j].0)
                &&& forall|q: int| 0 <= q < p ==> config_name_spec(#[trigger] front[q]) != Some(head[j].0)
            };
        assert(e == head[j]);
        assert(paths[p] == front[p]);
        assert forall|q: int| 0 <= q < p implies config_name_spec(#[trigger] paths[q]) != Some(e.0) by {
            assert(front[q] == paths[q]);
        }
    } else {
        let p = paths.len() - 1;
        assert(paths[p] == paths.last());
        assert forall|q: int| 0 <= q < p implies config_name_spec(#[trigger] paths[q]) != Some(e.0) by {
            if config_name_spec(paths[q]) == Some(e.0) {
                assert(front[q] == paths[q]);
                lemma_has_name(front, q, e.0);
            }
        }
    }
}

/// `toml::Value`, the parser's own tree.
#[verifier::external_type_specification]
#[verifier::external_body]
pub struct ExTomlValue(toml::Value);

/// The keys at the top level of a TOML tree whose value is a table; none where the tree is
/// no table itself.
pub uninterp spec fn toml_tables(v: toml::Value) -> Set<Seq<char>>;

/// The keys at the top level of a document whose value is a table, as `toml::from_str` reads
/// it, or what it says against the document.
pub uninterp spec fn parsed_tables(document: Seq<char>) -> Result<Set<Seq<char>>, Seq<char>>;

/// Calls `toml::from_str`: whether a document is TOML, which tables it has at its top
/// level, and what the parser says where it is not, depend on the document alone.
#[verifier::external_body]
fn parse_toml(document: &str) -> (r: Result<toml::Value, String>)
    ensures
        match r {
            Ok(v) => parsed_tables(document@) == Ok::<Set<Seq<char>>, Seq<char>>(toml_tables(v)),
            Err(message) => parsed_tables(document@) == Err::<Set<Seq<char>>, Seq<char>>(message@),
        },
{
    toml::from_str(document).map_err(|e| e.to_string())
}

/// Calls `toml::Value::get` with a key, and tells whether what it finds is a table: it
/// finds the value of the key where the tree is a table that has the key.
#[verifier::external_body]
fn toml_has_table(v: &toml::Value, key: &str) -> (r: bool)
    ensures
        r == toml_tables(*v).contains(key@),
{
    matches!(v.get(key), Some(toml::Value::Table(_)))
}

/// Peek at the content of a TOML file to see if it looks like a workflow definition.
///
/// Returns `Ok(true)` if the content parses as TOML and has a top-level
/// `[workflow]` table, `Ok(false)` if it parses as TOML but has no such
/// table (e.g. a trigger file that legitimately lives in `workflows/`),
/// and `Err(_)` if it isn't valid TOML at all.
///
/// Callers use this to skip non-workflow files silently during workflow
/// loading while still surfacing real breakage — an `Ok(false)` result
/// means "intentionally not a workflow, don't warn"; an `Err` means
/// "something is actually wrong, warn about it."
pub fn is_workflow_file(content: &str) -> (r: Result<bool, String>)
    ensures
        match r {
            Ok(found) => parsed_tables(content@) is Ok && found == parsed_tables(content@)->Ok_0.contains("workflow"@),
            Err(message) => parsed_tables(content@) == Err::<Set<Seq<char>>, Seq<char>>(message@),
        },
{
    match parse_toml(content) {
        Ok(v) => Ok(toml_has_table(&v, "workflow")),
        Err(message) => Err(message),
    }
}

// ── OxConfig ────────────────────────────────────────────────────────

pub const DEFAULT_HEARTBEAT_GRACE: u64 = 60;

/// Top-level ox configuration, loaded from `config.toml` in the search path.
#[derive(Debug, Clone)]
pub struct OxConfig {
    /// Paths to trigger files (relative to the config file's parent directory).
    pub triggers: Vec<String>,
    /// Heartbeat grace period in seconds.
    pub heartbeat_grace: u64,
    /// Names of event-source watchers `ox-ctl up` should launch
    /// alongside the server. Each name resolves to `ox-<name>-watcher`
    /// in the same directory as `ox-server`. Additive across the
    /// config.toml search path and de-duplicated on name.
    pub watchers: Vec<String>,
}

/// The trigger files of a configuration that names none.
pub fn default_triggers() -> (r: Vec<String>)
    ensures
        views(r@) == seq!["workflows/triggers.toml"@],
{
    let mut v: Vec<String> = Vec::new();
    v.push("workflows/triggers.toml".to_owned());
    assert(views(v@) =~= seq!["workflows/triggers.toml"@]);
    v
}

/// The heartbeat grace period of a configuration that names none.
pub fn default_heartbeat_grace() -> (r: u64)
    ensures
        r == DEFAULT_HEARTBEAT_GRACE,
{
    DEFAULT_HEARTBEAT_GRACE
}

impl Default for OxConfig {
    fn default() -> (c: Self)
        ensures
            views(c.triggers@) == seq!["workflows/triggers.toml"@],
            c.heartbeat_grace == DEFAULT_HEARTBEAT_GRACE,
            c.watchers@.len() == 0,
    {
        OxConfig {
            triggers: default_triggers(),
            heartbeat_grace: DEFAULT_HEARTBEAT_GRACE,
            watchers: Vec::new(),
        }
    }
}

/// What a directory of the search path holds in the way of a `config.toml`.
#[derive(Debug)]
pub enum ConfigLayer {
    /// None; with it, whether the default trigger file stands there.
    Missing { default_triggers_exist: bool },
    /// One that cannot be read or parsed.
    Broken,
    /// One that was read.
    Loaded(OxConfig),
}

/// Some directory holds a `config.toml`.
pub open spec fn any_config(layers: Seq<(String, ConfigLayer)>) -> bool {
    exists|i: int| 0 <= i < layers.len() && !((#[trigger] layers[i]).1 is Missing)
}

/// The trigger files that the layers name, each relative to its own directory.
pub open spec fn configured_triggers(layers: Seq<(String, ConfigLayer)>) -> Seq<Seq<char>>
    decreases layers.len(),
{
    if layers.len() == 0 {
        seq![]
    } else {
        let head = configured_triggers(layers.drop_last());
        match layers.last().1 {
            ConfigLayer::Loaded(cfg) => head + views(cfg.triggers@).map_values(
                |rel: Seq<char>| joined(layers.last().0@, rel),
            ),
            _ => head,
        }
    }
}

/// The default trigger files that exist.
pub open spec fn fallback_triggers(layers: Seq<(String, ConfigLayer)>) -> Seq<Seq<char>>
    decreases layers.len(),
{
    if layers.len() == 0 {
        seq![]
    } else {
        let head = fallback_triggers(layers.drop_last());
        match layers.last().1 {
            ConfigLayer::Missing { default_triggers_exist } => if default_triggers_exist {
                head.push(joined(layers.last().0@, "workflows/triggers.toml"@))
            } else {
                head
            },
            _ => head,
        }
    }
}

/// The heartbeat grace period of the first layer that was read.
pub open spec fn first_heartbeat(layers: Seq<(String, ConfigLayer)>) -> Option<u64>
    decreases layers.len(),
{
    if layers.len() == 0 {
        None
    } else {
        match first_heartbeat(layers.drop_last()) {
            Some(h) => Some(h),
            None => match layers.last().1 {
                ConfigLayer::Loaded(cfg) => Some(cfg.heartbeat_grace),
                _ => None,
            },
        }
    }
}

/// The watchers that the layers name, one layer behind the other.
pub open spec fn named_watchers(layers: Seq<(String, ConfigLayer)>) -> Seq<Seq<char>>
    decreases layers.len(),
{
    if layers.len() == 0 {
        seq![]
    } else {
        let head = named_watchers(layers.drop_last());
        match layers.last().1 {
            ConfigLayer::Loaded(cfg) => head + views(cfg.watchers@),
            _ => head,
        }
    }
}

fn push_joined(out: &mut Vec<String>, dir: &str, rels: &Vec<String>)
    ensures
        views(final(out)@) == views(old(out)@) + views(rels@).map_values(|rel: Seq<char>| joined(dir@, rel)),
{
    let ghost before = views(out@);
    let ghost all = views(rels@).map_values(|rel: Seq<char>| joined(dir@, rel));
    let mut i: usize = 0;
    assert(views(out@) =~= before + all.take(0));
    while i < rels.len()
        invariant
            0 <= i <= rels@.len(),
            all == views(rels@).map_values(|rel: Seq<char>| joined(dir@, rel)),
            views(out@) == before + all.take(i as int),
        decreases rels@.len() - i,
    {
        let ghost so_far = views(out@);
        let abs = join_path(dir, rels[i].as_str());
        assert(all[i as int] == joined(dir@, views(rels@)[i as int]));
        out.push(abs);
        assert(views(out@) =~= so_far.push(abs@));
        assert(views(out@) =~= before + all.take(i + 1));
        i += 1;
    }
    assert(all.take(i as int) =~= all);
}

/// A configuration is what the layers of the search path come to.
pub open spec fn layers_merged(c: OxConfig, layers: Seq<(String, ConfigLayer)>) -> bool {
    &&& views(c.triggers@) == (if any_config(layers) {
        configured_triggers(layers)
    } else {
        fallback_triggers(layers)
    })
    &&& c.heartbeat_grace == (match first_heartbeat(layers) {
        Some(h) => h,
        None => DEFAULT_HEARTBEAT_GRACE,
    })
    &&& views(c.watchers@) == dedup_spec(named_watchers(layers))
}

/// Merge the `config.toml` of every directory in the search path.
/// Trigger file lists are concatenated (additive). Scalar values use first-wins.
/// If no config.toml is found, returns defaults (which resolve trigger paths
/// relative to each search-path directory).
///
/// Watchers: additive across the search path, de-duped on first
/// occurrence so two layers declaring `["cx"]` don't spawn two
/// processes.
pub fn load_config(layers: &Vec<(String, ConfigLayer)>) -> (c: OxConfig)
    ensures
        layers_merged(c, layers@),
{
    let mut found_any = false;
    let mut heartbeat: Option<u64> = None;
    let mut triggers: Vec<String> = Vec::new();
    let mut fallback: Vec<String> = Vec::new();
    let mut watchers: Vec<String> = Vec::new();
    let ghost all = layers@;
    let mut i: usize = 0;
    assert(all.take(0) =~= seq![]);
    assert(views(triggers@) =~= seq![]);
    assert(views(fallback@) =~= seq![]);
    assert(views(watchers@) =~= dedup_spec(seq![]));
    while i < layers.len()
        invariant
            0 <= i <= all.len(),
            all == layers@,
            found_any == exists|j: int| 0 <= j < i && !((#[trigger] all[j]).1 is Missing),
            heartbeat == first_heartbeat(all.take(i as int)),
            views(triggers@) == configured_triggers(all.take(i as int)),
            views(fallback@) == fallback_triggers(all.take(i as int)),
            views(watchers@) == dedup_spec(named_watchers(all.take(i as int))),
        decreases all.len() - i,
    {
        let ghost now = all.take(i as int);
        let ghost next = all.take(i + 1);
        assert(next.drop_last() =~= now);
        assert(next.last() == all[i as int]);
        let dir = layers[i].0.as_str();
        match &layers[i].1 {
            ConfigLayer::Missing { default_triggers_exist } => {
                if *default_triggers_exist {
                    let ghost before = views(fallback@);
                    let abs = join_path(dir, "workflows/triggers.toml");
                    fallback.push(abs);
                    assert(views(fallback@) =~= before.push(abs@));
                }
            },
            ConfigLayer::Broken => {
                assert(!(all[i as int].1 is Missing));
                found_any = true;
            },
            ConfigLayer::Loaded(cfg) => {
                assert(!(all[i as int].1 is Missing));
                found_any = true;
                // Resolve trigger paths relative to this config file's parent dir
                push_joined(&mut triggers, dir, &cfg.triggers);
                // Scalars: first wins
                if heartbeat.is_none() {
                    heartbeat = Some(cfg.heartbeat_grace);
                }
                push_all_new(&mut watchers, &cfg.watchers);
                proof {
                    lemma_add_all_new(named_watchers(now), views(cfg.watchers@));
                }
            },
        }
        i += 1;
    }
    assert(all.take(i as int) =~= all);
    OxConfig {
        triggers: if found_any { triggers } else { fallback },
        heartbeat_grace: match heartbeat {
            Some(h) => h,
            None => DEFAULT_HEARTBEAT_GRACE,
        },
        watchers,
    }
}

/// Watchers named in several layers are launched once, in the order in which they
/// are first named, and none is lost.
pub proof fn watchers_are_launched_once(layers: Seq<(String, ConfigLayer)>, name: Seq<char>)
    ensures
        dedup_spec(named_watchers(layers)).no_duplicates(),
        dedup_spec(named_watchers(layers)).contains(name) <==> named_watchers(layers).contains(name),
{
    lemma_dedup(named_watchers(layers));
}

/// The first layer that was read decides the heartbeat grace period, whatever the
/// layers behind it say.
pub proof fn first_layer_decides_the_heartbeat(front: Seq<(String, ConfigLayer)>, back: Seq<(String, ConfigLayer)>)
    requires
        first_heartbeat(front) is Some,
    ensures
        first_heartbeat(front + back) == first_heartbeat(front),
    decreases back.len(),
{
    if back.len() == 0 {
        assert(front + back =~= front);
    } else {
        assert((front + back).drop_last() =~= front + back.drop_last());
        first_layer_decides_the_heartbeat(front, back.drop_last());
    }
}

/// The triggers of the files that were read, one file behind the other.
pub open spec fn listed_triggers(files: Seq<Option<TriggersFile>>) -> Seq<TriggerDef>
    decreases files.len(),
{
    if files.len() == 0 {
        seq![]
    } else {
        let head = listed_triggers(files.drop_last());
        match files.last() {
            Some(f) => head + f.trigger@,
            None => head,
        }
    }
}

/// Gather all trigger definitions from the files listed in the config. A file that
/// is missing, or that cannot be read or parsed, is skipped.
pub fn load_triggers(files: Vec<Option<TriggersFile>>) -> (r: Vec<TriggerDef>)
    ensures
        r@ == listed_triggers(files@),
{
    let mut out: Vec<TriggerDef> = Vec::new();
    let mut rest = files;
    let ghost all = rest@;
    let ghost mut done: int = 0;
    assert(all.skip(0) =~= all);
    assert(all.take(0) =~= seq![]);
    while rest.len() > 0
        invariant
            0 <= done <= all.len(),
            rest@ == all.skip(done),
            out@ == listed_triggers(all.take(done)),
        decreases rest@.len(),
    {
        let file = rest.remove(0);
        let ghost next = all.take(done + 1);
        assert(rest@ =~= all.skip(done + 1));
        assert(next.drop_last() =~= all.take(done));
        assert(next.last() == file);
        if let Some(f) = file {
            let mut trigger = f.trigger;
            out.append(&mut trigger);
        }
        proof {
            done = done + 1;
        }
    }
    assert(all.take(done) =~= all);
    out
}

/// Configuration is looked for in the repository first, then in the directories of
/// `$OX_HOME` from left to right, and in the extracted defaults last.
pub proof fn the_repository_comes_first_and_defaults_last(
    repo_root: Seq<char>,
    ox_home: Option<Seq<char>>,
    home: Option<Seq<char>>,
    i: int,
)
    ensures
        ({
            let path = search_path_spec(repo_root, ox_home, home);
            let dirs = match ox_home {
                Some(d) => split_spec(d, ':'),
                None => seq![],
            };
            &&& path.len() == 1 + dirs.len() + (if home is Some {
                1int
            } else {
                0int
            })
            &&& path[0] == joined(repo_root, ".ox"@)
            &&& 0 <= i < dirs.len() ==> path[1 + i] == expanded(dirs[i], home)
            &&& home is Some ==> path.last() == joined(joined(home->0, ".ox"@), "defaults"@)
        }),
{
}

/// A leading `~` stands for the home directory where one is known; any other directory, and
/// any without a known home, stands for itself.
pub proof fn a_leading_tilde_is_the_home(rest: Seq<char>, home: Seq<char>)
    ensures
        expanded(seq!['~'] + rest, Some(home)) == home + rest,
        expanded(rest, None) == rest,
        rest.len() == 0 || rest[0] != '~' ==> expanded(rest, Some(home)) == rest,
{
    assert((seq!['~'] + rest).skip(1) =~= rest);
}

/// Trigger files and watchers add up over the layers of the configuration: no layer loses
/// what those before it name.
pub proof fn layers_add_up(a: Seq<(String, ConfigLayer)>, b: Seq<(String, ConfigLayer)>)
    ensures
        configured_triggers(a + b) == configured_triggers(a) + configured_triggers(b),
        fallback_triggers(a + b) == fallback_triggers(a) + fallback_triggers(b),
        named_watchers(a + b) == named_watchers(a) + named_watchers(b),
        any_config(a + b) <==> any_config(a) || any_config(b),
    decreases b.len(),
{
    if b.len() == 0 {
        assert(a + b =~= a);
        assert(configured_triggers(b) =~= seq![]);
        assert(fallback_triggers(b) =~= seq![]);
        assert(named_watchers(b) =~= seq![]);
        assert(configured_triggers(a) + configured_triggers(b) =~= configured_triggers(a));
        assert(fallback_triggers(a) + fallback_triggers(b) =~= fallback_triggers(a));
        assert(named_watchers(a) + named_watchers(b) =~= named_watchers(a));
    } else {
        let all = a + b;
        assert(all.drop_last() =~= a + b.drop_last());
        assert(all.last() == b.last());
        layers_add_up(a, b.drop_last());
        assert(configured_triggers(all) =~= configured_triggers(a) + configured_triggers(b));
        assert(fallback_triggers(all) =~= fallback_triggers(a) + fallback_triggers(b));
        assert(named_watchers(all) =~= named_watchers(a) + named_watchers(b));
    }
    let all = a + b;
    if any_config(all) {
        let i = choose|i: int| 0 <= i < all.len() && !((#[trigger] all[i]).1 is Missing);
        if i < a.len() {
            assert(all[i] == a[i]);
        } else {
            assert(all[i] == b[i - a.len()]);
        }
    }
    if any_config(a) {
        let i = choose|i: int| 0 <= i < a.len() && !((#[trigger] a[i]).1 is Missing);
        assert(all[i] == a[i]);
    }
    if any_config(b) {
        let i = choose|i: int| 0 <= i < b.len() && !((#[trigger] b[i]).1 is Missing);
        assert(all[a.len() + i] == b[i]);
    }
}

/// A layer that was read gives its trigger files, relative to its own directory, its watchers
/// and its grace period. One that is broken gives nothing, and one without configuration only
/// the default trigger file where that exists.
pub proof fn a_layer_gives_what_it_names(dir: String, cfg: OxConfig, exists_there: bool)
    ensures
        ({
            let read = seq![(dir, ConfigLayer::Loaded(cfg))];
            let broken = seq![(dir, ConfigLayer::Broken)];
            let missing = seq![(dir, ConfigLayer::Missing { default_triggers_exist: exists_there })];
            &&& configured_triggers(read).len() == cfg.triggers@.len()
            &&& forall|i: int|
                0 <= i < cfg.triggers@.len() ==> #[trigger] configured_triggers(read)[i] == joined(
                    dir@,
                    cfg.triggers@[i]@,
                )
            &&& named_watchers(read) == views(cfg.watchers@)
            &&& first_heartbeat(read) == Some(cfg.heartbeat_grace)
            &&& any_config(read)
            &&& fallback_triggers(read).len() == 0
            &&& configured_triggers(broken).len() == 0
            &&& named_watchers(broken).len() == 0
            &&& first_heartbeat(broken) is None
            &&& any_config(broken)
            &&& configured_triggers(missing).len() == 0
            &&& named_watchers(missing).len() == 0
            &&& first_heartbeat(missing) is None
            &&& !any_config(missing)
            &&& exists_there ==> fallback_triggers(missing) == seq![joined(dir@, "workflows/triggers.toml"@)]
            &&& !exists_there ==> fallback_triggers(missing).len() == 0
        }),
{
    let read = seq![(dir, ConfigLayer::Loaded(cfg))];
    let broken = seq![(dir, ConfigLayer::Broken)];
    let missing = seq![(dir, ConfigLayer::Missing { default_triggers_exist: exists_there })];
    assert(read.drop_last() =~= seq![]);
    assert(broken.drop_last() =~= seq![]);
    assert(missing.drop_last() =~= seq![]);
    assert(read.last() == (dir, ConfigLayer::Loaded(cfg)));
    assert(broken.last() == (dir, ConfigLayer::Broken));
    assert(missing.last() == (dir, ConfigLayer::Missing { default_triggers_exist: exists_there }));
    let none: Seq<(String, ConfigLayer)> = seq![];
    assert(configured_triggers(none) =~= seq![]);
    assert(fallback_triggers(none) =~= seq![]);
    assert(named_watchers(none) =~= seq![]);
    assert(first_heartbeat(none) is None);
    assert(named_watchers(read) =~= views(cfg.watchers@));
    assert(read[0].1 is Loaded);
    assert(broken[0].1 is Broken);
    if exists_there {
        assert(fallback_triggers(missing) =~= seq![joined(dir@, "workflows/triggers.toml"@)]);
    }
}

/// Layers that were not read leave the grace period to those behind them.
pub proof fn unread_layers_leave_the_heartbeat_open(
    front: Seq<(String, ConfigLayer)>,
    back: Seq<(String, ConfigLayer)>,
)
    requires
        first_heartbeat(front) is None,
    ensures
        first_heartbeat(front + back) == first_heartbeat(back),
    decreases back.len(),
{
    if back.len() == 0 {
        assert(front + back =~= front);
    } else {
        assert((front + back).drop_last() =~= front + back.drop_last());
        assert((front + back).last() == back.last());
        unread_layers_leave_the_heartbeat_open(front, back.drop_last());
    }
}

/// The triggers of the files that were read add up, file by file, and a file that was not
/// read adds none.
pub proof fn trigger_files_add_up(files: Seq<Option<TriggersFile>>, file: TriggersFile)
    ensures
        listed_triggers(files.push(Some(file))) == listed_triggers(files) + file.trigger@,
        listed_triggers(files.push(None)) == listed_triggers(files),
        listed_triggers(Seq::empty()).len() == 0,
{
    assert(files.push(Some(file)).drop_last() =~= files);
    assert(files.push(None).drop_last() =~= files);
}

/// The stamp of embedded defaults names both the version and the hash of the files.
pub proof fn stamps_name_version_and_hash(version: Seq<char>, hash: nat)
    ensures
        fingerprint_spec(version, hash).take(version.len() as int) == version,
        fingerprint_spec(version, hash).skip(version.len() as int) == "-"@ + hex(hash),
{
    let s = fingerprint_spec(version, hash);
    assert(s =~= version + ("-"@ + hex(hash)));
    assert(s.take(version.len() as int) =~= version);
    assert(s.skip(version.len() as int) =~= "-"@ + hex(hash));
}

/// The configuration of a project has every trigger file that a layer names, in the order of
/// the layers and relative to the layer's own directory. It has each watcher once, and the
/// grace period of the first layer that was read, or a minute where none was. The default
/// trigger files count only where no layer has a configuration.
pub proof fn configurations_are_merged_from_their_layers(
    c: OxConfig,
    layers: Seq<(String, ConfigLayer)>,
    i: int,
    k: int,
)
    requires
        layers_merged(c, layers),
        0 <= i < layers.len(),
    ensures
        layers[i].1 is Loaded && 0 <= k < layers[i].1->Loaded_0.triggers@.len() ==> views(c.triggers@).contains(
            joined(layers[i].0@, layers[i].1->Loaded_0.triggers@[k]@),
        ),
        layers[i].1 is Loaded && 0 <= k < layers[i].1->Loaded_0.watchers@.len() ==> views(c.watchers@).contains(
            layers[i].1->Loaded_0.watchers@[k]@,
        ),
        views(c.watchers@).no_duplicates(),
        layers[i].1 is Loaded && (forall|j: int| 0 <= j < i ==> !((#[trigger] layers[j]).1 is Loaded))
            ==> c.heartbeat_grace == layers[i].1->Loaded_0.heartbeat_grace,
        (forall|j: int| 0 <= j < layers.len() ==> !((#[trigger] layers[j]).1 is Loaded)) ==> c.heartbeat_grace == 60,
        (forall|j: int| 0 <= j < layers.len() ==> (#[trigger] layers[j]).1 is Missing) && layers[i].1
            == (ConfigLayer::Missing { default_triggers_exist: true }) ==> views(c.triggers@).contains(
            joined(layers[i].0@, "workflows/triggers.toml"@),
        ),
{
    let front = layers.take(i);
    let one = seq![layers[i]];
    let back = layers.skip(i + 1);
    assert(layers =~= front + (one + back));
    layers_add_up(front, one + back);
    layers_add_up(one, back);
    lemma_dedup(named_watchers(layers));
    if forall|j: int| 0 <= j < layers.len() ==> !((#[trigger] layers[j]).1 is Loaded) {
        lemma_no_heartbeat(layers);
    }
    match layers[i].1 {
        ConfigLayer::Loaded(cfg) => {
            assert(one =~= seq![(layers[i].0, ConfigLayer::Loaded(cfg))]);
            a_layer_gives_what_it_names(layers[i].0, cfg, false);
            assert(!(layers[i].1 is Missing));
            if 0 <= k < cfg.triggers@.len() {
                let t = configured_triggers(one)[k];
                assert(configured_triggers(layers)[configured_triggers(front).len() + k] == t);
            }
            if 0 <= k < cfg.watchers@.len() {
                let w = views(cfg.watchers@)[k];
                assert(named_watchers(layers)[named_watchers(front).len() + k] == w);
            }
            if forall|j: int| 0 <= j < i ==> !((#[trigger] layers[j]).1 is Loaded) {
                assert forall|j: int| 0 <= j < front.len() implies !((#[trigger] front[j]).1 is Loaded) by {
                    assert(front[j] == layers[j]);
                }
                lemma_no_heartbeat(front);
                unread_layers_leave_the_heartbeat_open(front, one + back);
                first_layer_decides_the_heartbeat(one, back);
            }
        },
        ConfigLayer::Missing { default_triggers_exist } => {
            if default_triggers_exist && forall|j: int| 0 <= j < layers.len() ==> (#[trigger] layers[j]).1 is Missing {
                assert(one.drop_last() =~= seq![]);
                assert(one.last() == layers[i]);
                let none: Seq<(String, ConfigLayer)> = seq![];
                assert(fallback_triggers(none) =~= seq![]);
                let t = joined(layers[i].0@, "workflows/triggers.toml"@);
                assert(fallback_triggers(one) =~= seq![t]);
                assert(!any_config(layers));
                assert(fallback_triggers(layers)[fallback_triggers(front).len() as int] == t);
            }
        },
        ConfigLayer::Broken => {},
    }
}

proof fn lemma_no_heartbeat(layers: Seq<(String, ConfigLayer)>)
    requires
        forall|j: int| 0 <= j < layers.len() ==> !((#[trigger] layers[j]).1 is Loaded),
    ensures
        first_heartbeat(layers) is None,
    decreases layers.len(),
{
    if layers.len() > 0 {
        let head = layers.drop_last();
        assert forall|j: int| 0 <= j < head.len() implies !((#[trigger] head[j]).1 is Loaded) by {
            assert(head[j] == layers[j]);
        }
        lemma_no_heartbeat(head);
        assert(layers[layers.len() - 1] == layers.last());
    }
}

/// A directory of the search path counts exactly where it exists, behind those before it.
pub proof fn existing_directories_are_searched(dirs: Seq<Seq<char>>, dir: Seq<char>, existing: Seq<Seq<char>>)
    ensures
        existing_dirs(Seq::empty(), existing).len() == 0,
        existing.contains(dir) ==> existing_dirs(dirs.push(dir), existing) == existing_dirs(dirs, existing).push(dir),
        !existing.contains(dir) ==> existing_dirs(dirs.push(dir), existing) == existing_dirs(dirs, existing),
{
    reveal(Seq::filter);
    assert(dirs.push(dir).drop_last() =~= dirs);
    assert(dirs.push(dir).last() == dir);
}

} // verus!
