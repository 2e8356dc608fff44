//! What the watcher reads of the `cx` command line tool.

use vstd::prelude::*;

use crate::client::{CxNodeSnapshot, CxStateSnapshot};
use crate::json::{parse_json_bytes, parsed_json_bytes, Json, JsonView};
use crate::text::{insert_sorted, same, strictly_sorted, text_option, views};

verus! {

/// One parsed entry from `cx log --json`. Only the fields the watcher
/// touches are read.
#[derive(Debug)]
pub struct CxLogEntry {
    pub changes: Vec<Json>,
    pub hash: String,
    pub date: String,
    pub subject: String,
}

/// Touched-nodes summary derived from a `cx log --json --since` diff.
#[derive(Debug)]
pub struct CxLogDiff {
    /// Node ids whose state or tags changed — each needs a `cx show`
    /// refresh to produce a source event.
    pub touched: Vec<String>,
    /// Comment-added events observed in the diff window. Comments are
    /// activity, not node state, so they surface directly without a
    /// round-trip.
    pub comments: Vec<CxCommentEntry>,
    /// SHA of the most recent commit in the diff window, or `None`
    /// when the window was empty.
    pub latest_hash: Option<String>,
}

/// A comment observed in the cx log diff. The stable idempotency
/// shape is `(node_id, tag, author, hash)` — same comment on the same
/// commit will dedup server-side.
#[derive(Debug, Clone, PartialEq, Eq)]
pub struct CxCommentEntry {
    pub node_id: String,
    pub tag: Option<String>,
    pub author: Option<String>,
    pub hash: String,
}

/// What a comment is.
pub struct CommentView {
    pub node_id: Seq<char>,
    pub tag: Option<Seq<char>>,
    pub author: Option<Seq<char>>,
    pub hash: Seq<char>,
}

impl View for CxCommentEntry {
    type V = CommentView;

    open spec fn view(&self) -> CommentView {
        CommentView {
            node_id: self.node_id@,
            tag: text_option(self.tag),
            author: text_option(self.author),
            hash: self.hash@,
        }
    }
}

/// A change is a comment.
pub open spec fn is_comment(change: JsonView) -> bool {
    change.at("action"@).str_or(seq![]) == "comment_added"@
}

/// The comment that a change of a commit is, where it is one on a node.
pub open spec fn comment_of(change: JsonView, hash: Seq<char>) -> Option<CommentView> {
    match change.at("node_id"@).as_str() {
        Some(node_id) => if is_comment(change) {
            Some(
                CommentView {
                    node_id,
                    tag: change.at("tag"@).as_str(),
                    author: change.at("author"@).as_str(),
                    hash,
                },
            )
        } else {
            None
        },
        None => None,
    }
}

/// A change touches a node other than by a comment.
pub open spec fn touches(change: JsonView, node_id: Seq<char>) -> bool {
    change.at("node_id"@).as_str() == Some(node_id) && !is_comment(change)
}

/// The comments among changes of a commit, in order.
pub open spec fn comments_of(changes: Seq<Json>, hash: Seq<char>) -> Seq<CommentView>
    decreases changes.len(),
{
    if changes.len() == 0 {
        seq![]
    } else {
        let head = comments_of(changes.drop_last(), hash);
        match comment_of(changes.last()@, hash) {
            Some(c) => head.push(c),
            None => head,
        }
    }
}

/// The comments in log entries, in order.
pub open spec fn all_comments(entries: Seq<CxLogEntry>) -> Seq<CommentView>
    decreases entries.len(),
{
    if entries.len() == 0 {
        seq![]
    } else {
        all_comments(entries.drop_last()) + comments_of(entries.last().changes@, entries.last().hash@)
    }
}

/// Some change in log entries touches a node.
pub open spec fn is_touched(entries: Seq<CxLogEntry>, node_id: Seq<char>) -> bool {
    exists|i: int, j: int|
        0 <= i < entries.len() && 0 <= j < entries[i].changes@.len() && touches(
            (#[trigger] entries[i].changes@[j])@,
            node_id,
        )
}

/// The views of comments.
pub open spec fn comment_views(v: Seq<CxCommentEntry>) -> Seq<CommentView> {
    v.map_values(|c: CxCommentEntry| c@)
}

fn copy_str(s: Option<&str>) -> (r: Option<String>)
    ensures
        text_option(r) == (match s {
            Some(t) => Some(t@),
            None => None,
        }),
{
    match s {
        Some(t) => Some(t.to_owned()),
        None => None,
    }
}

fn read_change(change: &Json, hash: &str, touched: &mut Vec<String>, comments: &mut Vec<CxCommentEntry>)
    requires
        strictly_sorted(views(old(touched)@)),
    ensures
        strictly_sorted(views(final(touched)@)),
        forall|t: Seq<char>| #[trigger]
            views(final(touched)@).contains(t) <==> views(old(touched)@).contains(t) || touches(change@, t),
        comment_views(final(comments)@) == (match comment_of(change@, hash@) {
            Some(c) => comment_views(old(comments)@).push(c),
            None => comment_views(old(comments)@),
        }),
{
    let node_id = match change.get_str("node_id") {
        Some(id) => id,
        None => {
            return ;
        },
    };
    let action = match change.get_str("action") {
        Some(a) => a.to_owned(),
        None => String::new(),
    };
    assert(action@ =~= change@.at("action"@).str_or(seq![]));
    if same(action.as_str(), "comment_added") {
        let ghost before = comment_views(comments@);
        let c = CxCommentEntry {
            node_id: node_id.to_owned(),
            tag: copy_str(change.get_str("tag")),
            author: copy_str(change.get_str("author")),
            hash: hash.to_owned(),
        };
        comments.push(c);
        assert(comment_views(comments@) =~= before.push(c@));
    } else {
        insert_sorted(touched, node_id.to_owned());
    }
}

/// A diff is what log entries, newest first, come to.
pub open spec fn summarised(r: CxLogDiff, entries: Seq<CxLogEntry>) -> bool {
    &&& strictly_sorted(views(r.touched@))
    &&& forall|t: Seq<char>| #[trigger] views(r.touched@).contains(t) <==> is_touched(entries, t)
    &&& comment_views(r.comments@) == all_comments(entries)
    &&& text_option(r.latest_hash) == (if entries.len() == 0 {
        None
    } else {
        Some(entries[0].hash@)
    })
}

/// Reduces `cx log` entries, newest first, into the touched set plus comment events.
/// The touched nodes stand in the order of their ids, each once; the comments in the
/// order of the log.
pub fn summarise_log_entries(entries: &Vec<CxLogEntry>) -> (r: CxLogDiff)
    ensures
        summarised(r, entries@),
{
    // `cx log` returns newest-first — the first entry is the head of
    // the diff window.
    let latest_hash = if entries.len() == 0 {
        None
    } else {
        Some(entries[0].hash.clone())
    };
    let mut touched: Vec<String> = Vec::new();
    let mut comments: Vec<CxCommentEntry> = Vec::new();
    let mut i: usize = 0;
    assert(entries@.take(0) =~= seq![]);
    assert(comment_views(comments@) =~= seq![]);
    while i < entries.len()
        invariant
            0 <= i <= entries@.len(),
            strictly_sorted(views(touched@)),
            forall|t: Seq<char>| #[trigger] views(touched@).contains(t) <==> is_touched(entries@.take(i as int), t),
            comment_views(comments@) == all_comments(entries@.take(i as int)),
        decreases entries@.len() - i,
    {
        let entry = &entries[i];
        let ghost now = entries@.take(i as int);
        let ghost next = entries@.take(i + 1);
        assert(next.drop_last() =~= now);
        assert(next.last() == *entry);
        let ghost changes = entry.changes@;
        let ghost earlier = comment_views(comments@);
        let ghost known = views(touched@);
        let mut j: usize = 0;
        assert(changes.take(0) =~= seq![]);
        assert(comment_views(comments@) =~= earlier + comments_of(changes.take(0), entry.hash@));
        while j < entry.changes.len()
            invariant
                0 <= j <= changes.len(),
                changes == entry.changes@,
                strictly_sorted(views(touched@)),
                forall|t: Seq<char>| #[trigger]
                    views(touched@).contains(t) <==> known.contains(t) || exists|k: int|
                        0 <= k < j && touches((#[trigger] changes[k])@, t),
                comment_views(comments@) == earlier + comments_of(changes.take(j as int), entry.hash@),
            decreases changes.len() - j,
        {
            let ghost part = changes.take(j + 1);
            let ghost was = views(touched@);
            assert(part.drop_last() =~= changes.take(j as int));
            assert(part.last() == changes[j as int]);
            read_change(&entry.changes[j], entry.hash.as_str(), &mut touched, &mut comments);
            assert(comment_views(comments@) =~= earlier + comments_of(part, entry.hash@));
            proof {
                assert forall|t: Seq<char>| #[trigger]
                    views(touched@).contains(t) <==> known.contains(t) || exists|k: int|
                        0 <= k < j + 1 && touches((#[trigger] changes[k])@, t) by {
                    assert(views(touched@).contains(t) <==> was.contains(t) || touches(changes[j as int]@, t));
                    if exists|k: int| 0 <= k < j + 1 && touches((#[trigger] changes[k])@, t) {
                        let k = choose|k: int| 0 <= k < j + 1 && touches((#[trigger] changes[k])@, t);
                        if k < j {
                            assert(was.contains(t));
                        }
                    }
                }
            }
            j += 1;
        }
        assert(changes.take(j as int) =~= changes);
        proof {
            assert forall|t: Seq<char>| #[trigger] views(touched@).contains(t) <==> is_touched(next, t) by {
                assert(known.contains(t) <==> is_touched(now, t));
                if is_touched(now, t) {
                    let (a, b) = choose|a: int, b: int|
                        0 <= a < now.len() && 0 <= b < now[a].changes@.len() && touches(
                            (#[trigger] now[a].changes@[b])@,
                            t,
                        );
                    assert(next[a].changes@[b] == now[a].changes@[b]);
                }
                if exists|k: int| 0 <= k < changes.len() && touches((#[trigger] changes[k])@, t) {
                    let k = choose|k: int| 0 <= k < changes.len() && touches((#[trigger] changes[k])@, t);
                    assert(next[i as int].changes@[k] == changes[k]);
                }
                if is_touched(next, t) {
                    let (a, b) = choose|a: int, b: int|
                        0 <= a < next.len() && 0 <= b < next[a].changes@.len() && touches(
                            (#[trigger] next[a].changes@[b])@,
                            t,
                        );
                    if a < i {
                        assert(now[a].changes@[b] == next[a].changes@[b]);
                        assert(is_touched(now, t));
                    } else {
                        assert(changes[b] == next[a].changes@[b]);
                    }
                }
            }
        }
        i += 1;
    }
    assert(entries@.take(i as int) =~= entries@);
    CxLogDiff { touched, comments, latest_hash }
}

/// What a node snapshot is.
pub struct SnapshotView {
    pub node_id: Seq<char>,
    pub state: Seq<char>,
    pub tags: Seq<Seq<char>>,
    pub shadowed: bool,
    pub shadow_reason: Option<Seq<char>>,
    pub comment_count: usize,
}

impl View for CxNodeSnapshot {
    type V = SnapshotView;

    open spec fn view(&self) -> SnapshotView {
        SnapshotView {
            node_id: self.node_id@,
            state: self.state@,
            tags: views(self.tags@),
            shadowed: self.shadowed,
            shadow_reason: text_option(self.shadow_reason),
            comment_count: self.comment_count,
        }
    }
}

/// The texts among array elements, in order.
pub open spec fn strings_in(items: Seq<JsonView>) -> Seq<Seq<char>>
    decreases items.len(),
{
    if items.len() == 0 {
        seq![]
    } else {
        let head = strings_in(items.drop_last());
        match items.last().as_str() {
            Some(s) => head.push(s),
            None => head,
        }
    }
}

/// The node that a JSON value describes: it has an id and a state.
pub open spec fn node_of(v: JsonView) -> Option<SnapshotView> {
    match (v.at("id"@).as_str(), v.at("state"@).as_str()) {
        (Some(id), Some(state)) => Some(
            SnapshotView {
                node_id: id,
                state,
                tags: strings_in(v.at("tags"@).elements()),
                shadowed: match v.at("shadowed"@).as_bool() {
                    Some(b) => b,
                    None => false,
                },
                shadow_reason: None,
                comment_count: 0,
            },
        ),
        _ => None,
    }
}

/// The nodes that JSON values describe, by id; of those with one id the last.
pub open spec fn nodes_in(items: Seq<JsonView>) -> Map<Seq<char>, SnapshotView>
    decreases items.len(),
{
    if items.len() == 0 {
        Map::empty()
    } else {
        let head = nodes_in(items.drop_last());
        match node_of(items.last()) {
            Some(n) => head.insert(n.node_id, n),
            None => head,
        }
    }
}

/// The views of node snapshots.
pub open spec fn snapshot_views(m: Map<Seq<char>, CxNodeSnapshot>) -> Map<Seq<char>, SnapshotView> {
    m.map_values(|n: CxNodeSnapshot| n@)
}

fn read_tags(v: &Json) -> (r: Vec<String>)
    ensures
        views(r@) == strings_in(v@.at("tags"@).elements()),
{
    let mut out: Vec<String> = Vec::new();
    assert(views(out@) =~= strings_in(seq![]));
    if let Some(tags) = v.get("tags") {
        if let Some(items) = tags.as_array() {
            let ghost all = tags@.elements();
            let mut i: usize = 0;
            assert(all.take(0) =~= seq![]);
            while i < items.len()
                invariant
                    0 <= i <= items@.len(),
                    all == items@.map_values(|v: Json| v@),
                    views(out@) == strings_in(all.take(i as int)),
                decreases items@.len() - i,
            {
                let ghost before = views(out@);
                let ghost next = all.take(i + 1);
                assert(next.drop_last() =~= all.take(i as int));
                assert(next.last() == items@[i as int]@);
                if let Some(s) = items[i].as_str() {
                    out.push(s.to_owned());
                    assert(views(out@) =~= before.push(s@));
                }
                i += 1;
            }
            assert(all.take(i as int) =~= all);
        } else {
            assert(tags@.elements() =~= seq![]);
        }
    } else {
        assert(v@.at("tags"@).elements() =~= seq![]);
    }
    out
}

/// Reads the node that a JSON value describes.
pub fn read_node(v: &Json) -> (r: Option<CxNodeSnapshot>)
    ensures
        match r {
            Some(n) => node_of(v@) == Some(n@),
            None => node_of(v@) is None,
        },
{
    let id = match v.get_str("id") {
        Some(s) => s.to_owned(),
        None => {
            return None;
        },
    };
    let state = match v.get_str("state") {
        Some(s) => s.to_owned(),
        None => {
            return None;
        },
    };
    let shadowed = match v.get("shadowed") {
        Some(b) => match b.as_bool() {
            Some(b) => b,
            None => false,
        },
        None => false,
    };
    Some(
        CxNodeSnapshot { node_id: id, state, tags: read_tags(v), shadowed, shadow_reason: None, comment_count: 0 },
    )
}

/// Reads the nodes that the elements of a JSON array describe. Elements without an id or
/// a state are left out.
pub fn read_nodes(v: &Json) -> (r: Option<CxStateSnapshot>)
    ensures
        match r {
            Some(s) => v@.is_array() && snapshot_views(s.nodes@) == nodes_in(v@.elements()),
            None => !v@.is_array(),
        },
{
    let items = match v.as_array() {
        Some(items) => items,
        None => {
            return None;
        },
    };
    let mut snap = CxStateSnapshot::default();
    let ghost all = v@.elements();
    let mut i: usize = 0;
    assert(all.take(0) =~= seq![]);
    assert(snapshot_views(snap.nodes@) =~= nodes_in(all.take(0)));
    while i < items.len()
        invariant
            0 <= i <= items@.len(),
            all == items@.map_values(|v: Json| v@),
            snapshot_views(snap.nodes@) == nodes_in(all.take(i as int)),
        decreases items@.len() - i,
    {
        let ghost before = snap.nodes@;
        let ghost next = all.take(i + 1);
        assert(next.drop_last() =~= all.take(i as int));
        assert(next.last() == items@[i as int]@);
        if let Some(node) = read_node(&items[i]) {
            let ghost n = node;
            snap.nodes.insert(node.node_id.clone(), node);
            assert(snapshot_views(snap.nodes@) =~= snapshot_views(before).insert(n@.node_id, n@));
        }
        i += 1;
    }
    assert(all.take(i as int) =~= all);
    Some(snap)
}

/// Parser for `cx list --json` output. Uses local `tags` (not
/// `effective_tags`) to match current trigger-evaluation semantics. Output that is not
/// a JSON array is refused.
pub fn parse_cx_list(stdout: &[u8]) -> (r: Option<CxStateSnapshot>)
    ensures
        match r {
            Some(s) => {
                &&& parsed_json_bytes(stdout@) is Some
                &&& parsed_json_bytes(stdout@)->0.is_array()
                &&& snapshot_views(s.nodes@) == nodes_in(parsed_json_bytes(stdout@)->0.elements())
            },
            None => parsed_json_bytes(stdout@) is Some ==> !parsed_json_bytes(stdout@)->0.is_array(),
        },
{
    match parse_json_bytes(stdout) {
        Some(v) => read_nodes(&v),
        None => None,
    }
}

/// Parser for `cx show <id> --json` output.
pub fn parse_cx_show(stdout: &[u8]) -> (r: Option<CxNodeSnapshot>)
    ensures
        match r {
            Some(n) => parsed_json_bytes(stdout@) is Some && node_of(parsed_json_bytes(stdout@)->0) == Some(n@),
            None => parsed_json_bytes(stdout@) is Some ==> node_of(parsed_json_bytes(stdout@)->0) is None,
        },
{
    match parse_json_bytes(stdout) {
        Some(v) => read_node(&v),
        None => None,
    }
}

/// A change of a node is a comment on it or touches it, and never both; a change without a
/// node is neither. A comment carries its tag, its author and the commit.
pub proof fn changes_are_comments_or_touch(change: JsonView, hash: Seq<char>, node_id: Seq<char>)
    ensures
        change.at("node_id"@).as_str() is None ==> comment_of(change, hash) is None && !touches(change, node_id),
        change.at("node_id"@).as_str() == Some(node_id) && change.at("action"@).as_str() == Some("comment_added"@) ==> {
            &&& !touches(change, node_id)
            &&& comment_of(change, hash) is Some
            &&& comment_of(change, hash)->0.node_id == node_id
            &&& comment_of(change, hash)->0.tag == change.at("tag"@).as_str()
            &&& comment_of(change, hash)->0.author == change.at("author"@).as_str()
            &&& comment_of(change, hash)->0.hash == hash
        },
        change.at("node_id"@).as_str() == Some(node_id) && change.at("action"@).as_str() != Some("comment_added"@)
            ==> touches(change, node_id) && comment_of(change, hash) is None,
        touches(change, node_id) ==> change.at("node_id"@).as_str() == Some(node_id),
{
    reveal_strlit("comment_added");
    assert("comment_added"@.len() > 0);
}

/// Comments are collected commit by commit and change by change, in the order of the log.
pub proof fn comments_add_up(
    entries: Seq<CxLogEntry>,
    entry: CxLogEntry,
    changes: Seq<Json>,
    change: Json,
    hash: Seq<char>,
)
    ensures
        all_comments(entries.push(entry)) == all_comments(entries) + comments_of(entry.changes@, entry.hash@),
        all_comments(Seq::empty()).len() == 0,
        comment_of(change@, hash) is Some ==> comments_of(changes.push(change), hash) == comments_of(
            changes,
            hash,
        ).push(comment_of(change@, hash)->0),
        comment_of(change@, hash) is None ==> comments_of(changes.push(change), hash) == comments_of(changes, hash),
        comments_of(Seq::empty(), hash).len() == 0,
{
    assert(entries.push(entry).drop_last() =~= entries);
    assert(changes.push(change).drop_last() =~= changes);
}

/// A node is touched exactly where some change of some commit touches it.
pub proof fn every_touched_node_counts(entries: Seq<CxLogEntry>, i: int, j: int, node_id: Seq<char>)
    requires
        0 <= i < entries.len(),
        0 <= j < entries[i].changes@.len(),
        touches(entries[i].changes@[j]@, node_id),
    ensures
        is_touched(entries, node_id),
{
}

/// A node is read with its id, its state, its own tags and whether it is shadowed, which it is
/// not where nothing says so. What has no id or no state is no node.
pub proof fn nodes_are_read_as_they_are(v: JsonView)
    ensures
        v.at("id"@).as_str() is None ==> node_of(v) is None,
        v.at("state"@).as_str() is None ==> node_of(v) is None,
        v.at("id"@).as_str() is Some && v.at("state"@).as_str() is Some ==> {
            &&& node_of(v) is Some
            &&& node_of(v)->0.node_id == v.at("id"@).as_str()->0
            &&& node_of(v)->0.state == v.at("state"@).as_str()->0
            &&& node_of(v)->0.tags == strings_in(v.at("tags"@).elements())
            &&& node_of(v)->0.shadowed <==> v.at("shadowed"@) == JsonView::Bool(true)
        },
{
}

/// The texts of an array are read one by one, and anything else in it is passed over.
pub proof fn texts_are_read_in_order(items: Seq<JsonView>, v: JsonView)
    ensures
        v is String ==> strings_in(items.push(v)) == strings_in(items).push(v->String_0),
        !(v is String) ==> strings_in(items.push(v)) == strings_in(items),
        strings_in(Seq::empty()).len() == 0,
{
    assert(items.push(v).drop_last() =~= items);
}

/// Nodes are known by their ids: each one read is there, the last of an id counts, and no
/// other changes.
pub proof fn nodes_are_known_by_their_ids(items: Seq<JsonView>, v: JsonView, other: Seq<char>)
    ensures
        ({
            let before = nodes_in(items);
            let after = nodes_in(items.push(v));
            match node_of(v) {
                Some(n) => {
                    &&& after.dom().contains(n.node_id)
                    &&& after[n.node_id] == n
                    &&& other != n.node_id ==> after.dom().contains(other) == before.dom().contains(other)
                    &&& other != n.node_id && before.dom().contains(other) ==> after[other] == before[other]
                },
                None => after == before,
            }
        }),
        !nodes_in(Seq::empty()).dom().contains(other),
{
    assert(items.push(v).drop_last() =~= items);
}

/// A diff ends at the newest commit, has every node that a change touches and no other, and
/// every comment; an empty log gives an empty one.
pub proof fn diffs_hold_all_that_changed(r: CxLogDiff, entries: Seq<CxLogEntry>, i: int, j: int, node_id: Seq<char>)
    requires
        summarised(r, entries),
    ensures
        entries.len() == 0 ==> r.latest_hash is None && r.touched@.len() == 0 && r.comments@.len() == 0,
        entries.len() > 0 ==> r.latest_hash is Some && r.latest_hash->0@ == entries[0].hash@,
        0 <= i < entries.len() && 0 <= j < entries[i].changes@.len() && entries[i].changes@[j]@.at("node_id"@).as_str()
            == Some(node_id) && entries[i].changes@[j]@.at("action"@).as_str() != Some("comment_added"@) ==> views(
            r.touched@,
        ).contains(node_id),
        views(r.touched@).contains(node_id) ==> exists|a: int, b: int|
            0 <= a < entries.len() && 0 <= b < entries[a].changes@.len() && (#[trigger] entries[a].changes@[b])@.at(
                "node_id"@,
            ).as_str() == Some(node_id),
        r.comments@.len() == all_comments(entries).len(),
{
    assert(comment_views(r.comments@).len() == r.comments@.len());
    if entries.len() == 0 {
        assert(all_comments(entries) =~= seq![]);
        if r.touched@.len() > 0 {
            let t = views(r.touched@)[0];
            assert(views(r.touched@).contains(t));
            assert(is_touched(entries, t));
        }
    }
    if 0 <= i < entries.len() && 0 <= j < entries[i].changes@.len() {
        changes_are_comments_or_touch(entries[i].changes@[j]@, entries[i].hash@, node_id);
        if touches(entries[i].changes@[j]@, node_id) {
            every_touched_node_counts(entries, i, j, node_id);
        }
    }
    if views(r.touched@).contains(node_id) {
        assert(is_touched(entries, node_id));
        let (a, b) = choose|a: int, b: int|
            0 <= a < entries.len() && 0 <= b < entries[a].changes@.len() && touches(
                (#[trigger] entries[a].changes@[b])@,
                node_id,
            );
        assert(entries[a].changes@[b]@.at("node_id"@).as_str() == Some(node_id));
    }
}

} // verus!
