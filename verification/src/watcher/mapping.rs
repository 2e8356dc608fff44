//! Map cx facts onto `SourceEventData` envelopes. Pure — no I/O.
//!
//! This is where the watcher's editorial decisions live: which cx
//! states become source events, what the `kind` strings are, how the
//! idempotency key is built, and which nodes are filtered out
//! server-ward (shadowed nodes that would spawn work).

use vstd::prelude::*;

use crate::client::CxNodeSnapshot;
use crate::events::{SourceEventData, SourceEventView};
use crate::herder::triggers::{json_list, json_strings};
use crate::json::{member_views, members_are_read_by_name, Json, JsonView};
use crate::text::{chars_of, copy_texts, same, text_option, text_range, views};
use crate::watcher::cx::{CommentView, CxCommentEntry, SnapshotView};

pub mod kinds;

verus! {

/// Watcher identifier. Stamped onto every event so triggers can
/// filter by `source = "cx"`.
pub const SOURCE: &'static str = "cx";

/// The number of characters that a hash is shortened to in idempotency keys.
pub const SHORT_HASH: usize = 12;

/// The start of a hash.
pub open spec fn short_hash_spec(hash: Seq<char>) -> Seq<char> {
    if hash.len() <= SHORT_HASH {
        hash
    } else {
        hash.take(SHORT_HASH as int)
    }
}

fn short_hash(hash: &str) -> (r: String)
    ensures
        r@ == short_hash_spec(hash@),
{
    let v = chars_of(hash);
    if v.len() <= SHORT_HASH {
        hash.to_owned()
    } else {
        text_range(&v, 0, SHORT_HASH)
    }
}

/// The kind of event that a node in a state is, where there is one.
pub open spec fn node_kind(state: Seq<char>, shadowed: bool) -> Option<Seq<char>> {
    if state == "ready"@ {
        if shadowed {
            None
        } else {
            Some(kinds::NODE_READY@)
        }
    } else if state == "claimed"@ {
        Some(kinds::NODE_CLAIMED@)
    } else if state == "integrated"@ {
        Some(kinds::NODE_DONE@)
    } else {
        None
    }
}

/// The idempotency key of a node event.
pub open spec fn node_key(node_id: Seq<char>, kind: Seq<char>, hash: Seq<char>) -> Seq<char> {
    node_id + ":"@ + kind + ":"@ + short_hash_spec(hash)
}

/// The event of a node observed at a commit.
pub open spec fn node_event_spec(n: SnapshotView, hash: Seq<char>) -> Option<SourceEventView> {
    match node_kind(n.state, n.shadowed) {
        Some(kind) => Some(
            SourceEventView {
                source: SOURCE@,
                kind,
                subject_id: n.node_id,
                idempotency_key: node_key(n.node_id, kind, hash),
                tags: n.tags,
                data: JsonView::Object(
                    seq![
                        ("node_id"@, JsonView::String(n.node_id)),
                        ("state"@, JsonView::String(n.state)),
                        ("tags"@, JsonView::Array(json_strings(n.tags))),
                        ("shadowed"@, JsonView::Bool(n.shadowed)),
                    ],
                ),
            },
        ),
        None => None,
    }
}

/// Build a source event from a cx node snapshot observed during a
/// poll tick. The `cursor_hash` is the SHA of the cx log entry
/// that triggered the fetch — its start lands in the idempotency key so
/// two ticks that observe the same state transition dedup
/// server-side.
///
/// Returns `None` for:
/// - `latent` nodes (no event kind is defined for them),
/// - `ready` nodes that are shadowed (state suppression — the
///   server-side matcher does not know cx's lifecycle, so the
///   watcher filters here).
///
/// Non-`ready` shadowed states still emit — `node.claimed` /
/// `node.done` are observational facts that downstream workflows may
/// care about regardless of shadowing.
pub fn snapshot_to_event(snap: &CxNodeSnapshot, cursor_hash: &str) -> (r: Option<SourceEventData>)
    ensures
        match r {
            Some(ev) => node_event_spec(snap@, cursor_hash@) == Some(ev@),
            None => node_event_spec(snap@, cursor_hash@) is None,
        },
{
    let kind: &str = if same(snap.state.as_str(), "ready") {
        if snap.shadowed {
            return None;
        }
        kinds::NODE_READY
    } else if same(snap.state.as_str(), "claimed") {
        kinds::NODE_CLAIMED
    } else if same(snap.state.as_str(), "integrated") {
        kinds::NODE_DONE
    } else {
        return None;
    };
    let mut key = snap.node_id.clone();
    key.append(":");
    key.append(kind);
    key.append(":");
    key.append(short_hash(cursor_hash).as_str());
    let mut data: Vec<(String, Json)> = Vec::new();
    data.push(("node_id".to_owned(), Json::text(snap.node_id.as_str())));
    data.push(("state".to_owned(), Json::text(snap.state.as_str())));
    data.push(("tags".to_owned(), json_list(&snap.tags)));
    data.push(("shadowed".to_owned(), Json::Bool(snap.shadowed)));
    assert(member_views(data@) =~= node_event_spec(snap@, cursor_hash@)->0.data->Object_0);
    Some(
        SourceEventData {
            source: SOURCE.to_owned(),
            kind: kind.to_owned(),
            subject_id: snap.node_id.clone(),
            idempotency_key: key,
            tags: copy_texts(&snap.tags),
            data: Json::object(data),
        },
    )
}

/// A text, or a dash for none.
pub open spec fn or_dash(o: Option<Seq<char>>) -> Seq<char> {
    match o {
        Some(s) => s,
        None => "-"@,
    }
}

/// A JSON string, or null for none.
pub open spec fn json_or_null(o: Option<Seq<char>>) -> JsonView {
    match o {
        Some(s) => JsonView::String(s),
        None => JsonView::Null,
    }
}

/// The event of a comment.
pub open spec fn comment_event_spec(c: CommentView) -> SourceEventView {
    SourceEventView {
        source: SOURCE@,
        kind: kinds::COMMENT_ADDED@,
        subject_id: c.node_id,
        idempotency_key: c.node_id + ":"@ + kinds::COMMENT_ADDED@ + ":"@ + or_dash(c.author) + ":"@ + or_dash(c.tag)
            + ":"@ + short_hash_spec(c.hash),
        tags: match c.tag {
            Some(t) => seq![t],
            None => seq![],
        },
        data: JsonView::Object(
            seq![
                ("node_id"@, JsonView::String(c.node_id)),
                ("tag"@, json_or_null(c.tag)),
                ("author"@, json_or_null(c.author)),
                ("hash"@, JsonView::String(c.hash)),
            ],
        ),
    }
}

fn dash(o: &Option<String>) -> (r: &str)
    ensures
        r@ == or_dash(text_option(*o)),
{
    match o {
        Some(s) => s.as_str(),
        None => "-",
    }
}

fn null_or_text(o: &Option<String>) -> (r: Json)
    ensures
        r@ == json_or_null(text_option(*o)),
{
    match o {
        Some(s) => Json::text(s.as_str()),
        None => Json::Null,
    }
}

/// Build a source event from a comment-added log entry. The
/// idempotency key folds in author, tag, and the commit hash so two
/// ticks observing the same commit produce identical keys.
pub fn comment_to_event(comment: &CxCommentEntry) -> (ev: SourceEventData)
    ensures
        ev@ == comment_event_spec(comment@),
{
    let mut key = comment.node_id.clone();
    key.append(":");
    key.append(kinds::COMMENT_ADDED);
    key.append(":");
    key.append(dash(&comment.author));
    key.append(":");
    key.append(dash(&comment.tag));
    key.append(":");
    key.append(short_hash(comment.hash.as_str()).as_str());
    let mut tags: Vec<String> = Vec::new();
    if let Some(t) = &comment.tag {
        tags.push(t.clone());
    }
    assert(views(tags@) =~= comment_event_spec(comment@).tags);
    let mut data: Vec<(String, Json)> = Vec::new();
    data.push(("node_id".to_owned(), Json::text(comment.node_id.as_str())));
    data.push(("tag".to_owned(), null_or_text(&comment.tag)));
    data.push(("author".to_owned(), null_or_text(&comment.author)));
    data.push(("hash".to_owned(), Json::text(comment.hash.as_str())));
    assert(member_views(data@) =~= comment_event_spec(comment@).data->Object_0);
    SourceEventData {
        source: SOURCE.to_owned(),
        kind: kinds::COMMENT_ADDED.to_owned(),
        subject_id: comment.node_id.clone(),
        idempotency_key: key,
        tags,
        data: Json::object(data),
    }
}

/// A shadowed node never spawns work: it gives no `node.ready` event.
pub proof fn shadowed_nodes_are_never_ready(n: SnapshotView, hash: Seq<char>)
    requires
        n.shadowed,
    ensures
        match node_event_spec(n, hash) {
            Some(ev) => ev.kind != kinds::NODE_READY@,
            None => true,
        },
{
    reveal_strlit("node.ready");
    reveal_strlit("node.claimed");
    reveal_strlit("node.done");
    assert(kinds::NODE_READY@[5] == 'r');
    assert(kinds::NODE_CLAIMED@[5] == 'c');
    assert(kinds::NODE_DONE@[5] == 'd');
}

/// Two observations of one node in one state get the same idempotency key exactly where
/// they were made at the same short hash.
pub proof fn idempotency_keys_follow_the_hash(n: SnapshotView, hash_a: Seq<char>, hash_b: Seq<char>)
    requires
        node_event_spec(n, hash_a) is Some,
    ensures
        node_event_spec(n, hash_b) is Some,
        node_event_spec(n, hash_a)->0.idempotency_key == node_event_spec(n, hash_b)->0.idempotency_key
            <==> short_hash_spec(hash_a) == short_hash_spec(hash_b),
{
    let kind = node_kind(n.state, n.shadowed)->0;
    let p = n.node_id + ":"@ + kind + ":"@;
    let (a, b) = (short_hash_spec(hash_a), short_hash_spec(hash_b));
    assert((p + a).skip(p.len() as int) =~= a);
    assert((p + b).skip(p.len() as int) =~= b);
}

/// A node gives an event exactly where it is ready and not shadowed, claimed or integrated:
/// of the kind of its state, about the node, with its tags, and a key that two observations
/// at one commit share. Its data tells its id, its state and whether it is shadowed.
pub proof fn nodes_give_the_event_of_their_state(n: SnapshotView, hash: Seq<char>)
    ensures
        node_event_spec(n, hash) is Some <==> n.state == "claimed"@ || n.state == "integrated"@ || (n.state == "ready"@
            && !n.shadowed),
        node_event_spec(n, hash) is Some ==> {
            let ev = node_event_spec(n, hash)->0;
            &&& n.state == "ready"@ ==> ev.kind == "node.ready"@
            &&& n.state == "claimed"@ ==> ev.kind == "node.claimed"@
            &&& n.state == "integrated"@ ==> ev.kind == "node.done"@
            &&& ev.source == "cx"@
            &&& ev.subject_id == n.node_id
            &&& ev.tags == n.tags
            &&& ev.idempotency_key == n.node_id + ":"@ + ev.kind + ":"@ + (if hash.len() <= 12 {
                hash
            } else {
                hash.take(12)
            })
            &&& ev.data.at("node_id"@).as_str() == Some(n.node_id)
            &&& ev.data.at("state"@).as_str() == Some(n.state)
            &&& ev.data.at("shadowed"@).as_bool() == Some(n.shadowed)
            &&& ev.data.at("tags"@).elements().len() == n.tags.len()
            &&& forall|i: int|
                0 <= i < n.tags.len() ==> #[trigger] ev.data.at("tags"@).elements()[i] == JsonView::String(n.tags[i])
        },
{
    reveal_strlit("ready");
    reveal_strlit("claimed");
    reveal_strlit("integrated");
    assert("ready"@[0] != "claimed"@[0]);
    assert("ready"@[0] != "integrated"@[0]);
    assert("claimed"@[0] != "integrated"@[0]);
    if node_event_spec(n, hash) is Some {
        reveal_strlit("node_id");
        reveal_strlit("state");
        reveal_strlit("tags");
        reveal_strlit("shadowed");
        assert("node_id"@[0] != "state"@[0]);
        assert("node_id"@[0] != "tags"@[0]);
        assert("node_id"@[0] != "shadowed"@[0]);
        assert("state"@[0] != "tags"@[0]);
        assert("state"@[1] != "shadowed"@[1]);
        assert("tags"@[0] != "shadowed"@[0]);
        lemma_four_members(node_event_spec(n, hash)->0.data->Object_0);
    }
}

proof fn lemma_four_members(m: Seq<(Seq<char>, JsonView)>)
    requires
        m.len() == 4,
        m[0].0 != m[1].0,
        m[0].0 != m[2].0,
        m[0].0 != m[3].0,
        m[1].0 != m[2].0,
        m[1].0 != m[3].0,
        m[2].0 != m[3].0,
    ensures
        forall|i: int| 0 <= i < 4 ==> JsonView::Object(m).at((#[trigger] m[i]).0) == m[i].1,
{
    assert forall|i: int| 0 <= i < 4 implies JsonView::Object(m).at((#[trigger] m[i]).0) == m[i].1 by {
        assert(m =~= m.take(i) + seq![m[i]] + m.skip(i + 1));
        members_are_read_by_name(m.take(i), m[i].0, m[i].1, m.skip(i + 1));
    }
}

/// A comment gives an event about its node, with its tag as the only tag, and a key that
/// tells its author, its tag and the commit apart. Its data tells who commented what where.
pub proof fn comments_give_their_event(c: CommentView)
    ensures
        ({
            let ev = comment_event_spec(c);
            let short = if c.hash.len() <= 12 {
                c.hash
            } else {
                c.hash.take(12)
            };
            &&& ev.source == "cx"@
            &&& ev.kind == "comment.added"@
            &&& ev.subject_id == c.node_id
            &&& c.tag is Some ==> ev.tags == seq![c.tag->0]
            &&& c.tag is None ==> ev.tags.len() == 0
            &&& c.author is Some && c.tag is Some ==> ev.idempotency_key == c.node_id + ":"@ + "comment.added"@ + ":"@
                + c.author->0 + ":"@ + c.tag->0 + ":"@ + short
            &&& c.author is None && c.tag is Some ==> ev.idempotency_key == c.node_id + ":"@ + "comment.added"@ + ":"@
                + "-"@ + ":"@ + c.tag->0 + ":"@ + short
            &&& c.author is Some && c.tag is None ==> ev.idempotency_key == c.node_id + ":"@ + "comment.added"@ + ":"@
                + c.author->0 + ":"@ + "-"@ + ":"@ + short
            &&& ev.data.at("node_id"@).as_str() == Some(c.node_id)
            &&& ev.data.at("tag"@).as_str() == c.tag
            &&& ev.data.at("author"@).as_str() == c.author
            &&& ev.data.at("hash"@).as_str() == Some(c.hash)
        }),
{
    reveal_strlit("node_id");
    reveal_strlit("tag");
    reveal_strlit("author");
    reveal_strlit("hash");
    assert("node_id"@[0] != "tag"@[0]);
    assert("node_id"@[0] != "author"@[0]);
    assert("node_id"@[0] != "hash"@[0]);
    assert("tag"@[0] != "author"@[0]);
    assert("tag"@[0] != "hash"@[0]);
    assert("author"@[0] != "hash"@[0]);
    lemma_four_members(comment_event_spec(c).data->Object_0);
}

} // verus!
