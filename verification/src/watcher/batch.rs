//! The batches that the watcher submits, and what becomes of its cursor.

use vstd::prelude::*;

use crate::client::{CxNodeSnapshot, CxStateSnapshot};
use crate::events::{SourceEventData, SourceEventView};
use crate::strmap::StringMap;
use crate::text::text_option;
use crate::watcher::client::{IngestBody, IngestOutcome};
use crate::watcher::cx::{comment_views, CommentView, CxLogDiff, SnapshotView};
use crate::watcher::mapping::{
    comment_event_spec, comment_to_event, node_event_spec, snapshot_to_event, SOURCE,
};

verus! {

/// The views of source events.
pub open spec fn event_views(v: Seq<SourceEventData>) -> Seq<SourceEventView> {
    v.map_values(|e: SourceEventData| e@)
}

/// The events of the nodes that give one, in order.
pub open spec fn node_events(nodes: Seq<SnapshotView>, hash: Seq<char>) -> Seq<SourceEventView>
    decreases nodes.len(),
{
    if nodes.len() == 0 {
        seq![]
    } else {
        let head = node_events(nodes.drop_last(), hash);
        match node_event_spec(nodes.last(), hash) {
            Some(ev) => head.push(ev),
            None => head,
        }
    }
}

/// The nodes of a snapshot, in order.
pub open spec fn nodes_in_order(m: StringMap<CxNodeSnapshot>) -> Seq<SnapshotView> {
    m.list().map_values(|e: (String, CxNodeSnapshot)| e.1@)
}

/// The views of node snapshots.
pub open spec fn snapshots(v: Seq<CxNodeSnapshot>) -> Seq<SnapshotView> {
    v.map_values(|n: CxNodeSnapshot| n@)
}

fn push_node_event(node: &CxNodeSnapshot, hash: &str, events: &mut Vec<SourceEventData>)
    ensures
        event_views(final(events)@) == (match node_event_spec(node@, hash@) {
            Some(ev) => event_views(old(events)@).push(ev),
            None => event_views(old(events)@),
        }),
{
    if let Some(ev) = snapshot_to_event(node, hash) {
        let ghost before = event_views(events@);
        events.push(ev);
        assert(event_views(events@) =~= before.push(ev@));
    }
}

/// A batch is the first one, of the nodes as they are at a head.
pub open spec fn cold_start(b: IngestBody, nodes: Seq<SnapshotView>, head: Seq<char>) -> bool {
    &&& b.source@ == SOURCE@
    &&& b.cursor_before is None
    &&& b.cursor_after@ == head
    &&& event_views(b.events@) == node_events(nodes, head)
}

/// A batch is one behind a cursor, of the touched nodes as they are now and the comments of a
/// diff.
pub open spec fn incremental(b: IngestBody, diff: CxLogDiff, touched: Seq<SnapshotView>, since: Seq<char>) -> bool {
    &&& b.source@ == SOURCE@
    &&& text_option(b.cursor_before) == Some(since)
    &&& text_option(diff.latest_hash) == Some(b.cursor_after@)
    &&& event_views(b.events@) == node_events(touched, b.cursor_after@) + comment_views(diff.comments@).map_values(
        |c: CommentView| comment_event_spec(c),
    )
}

/// Cold start: the server has no cursor for cx yet. Emits events for every actionable
/// node of the current state, and moves the cursor to the current head.
pub fn build_cold_start_batch(snap: &CxStateSnapshot, head: &str) -> (b: IngestBody)
    ensures
        cold_start(b, nodes_in_order(snap.nodes), head@),
{
    let mut events: Vec<SourceEventData> = Vec::new();
    let ghost all = nodes_in_order(snap.nodes);
    let mut i: usize = 0;
    assert(all.take(0) =~= seq![]);
    assert(event_views(events@) =~= seq![]);
    while i < snap.nodes.len()
        invariant
            0 <= i <= all.len(),
            all == nodes_in_order(snap.nodes),
            event_views(events@) == node_events(all.take(i as int), head@),
        decreases all.len() - i,
    {
        let (_, node) = snap.nodes.entry(i);
        let ghost next = all.take(i + 1);
        assert(next.drop_last() =~= all.take(i as int));
        assert(next.last() == node@);
        push_node_event(node, head, &mut events);
        i += 1;
    }
    assert(all.take(i as int) =~= all);
    IngestBody { source: SOURCE.to_owned(), cursor_before: None, cursor_after: head.to_owned(), events }
}

/// Incremental tick: one batch for the touched nodes, as they are now, and the comments
/// behind a cursor. Returns `None` when the diff window was empty (no events, no cursor
/// advance).
pub fn build_incremental_batch(diff: &CxLogDiff, touched: &Vec<CxNodeSnapshot>, since: &str) -> (r: Option<IngestBody>)
    ensures
        match r {
            Some(b) => incremental(b, *diff, snapshots(touched@), since@),
            None => diff.latest_hash is None,
        },
{
    let latest_hash = match &diff.latest_hash {
        Some(h) => h.clone(),
        None => {
            return None;
        },
    };
    let mut events: Vec<SourceEventData> = Vec::new();
    let ghost all = snapshots(touched@);
    let mut i: usize = 0;
    assert(all.take(0) =~= seq![]);
    assert(event_views(events@) =~= seq![]);
    while i < touched.len()
        invariant
            0 <= i <= touched@.len(),
            all == snapshots(touched@),
            event_views(events@) == node_events(all.take(i as int), latest_hash@),
        decreases touched@.len() - i,
    {
        let ghost next = all.take(i + 1);
        assert(next.drop_last() =~= all.take(i as int));
        assert(next.last() == touched@[i as int]@);
        push_node_event(&touched[i], latest_hash.as_str(), &mut events);
        i += 1;
    }
    assert(all.take(i as int) =~= all);
    let ghost head = event_views(events@);
    let ghost tail = comment_views(diff.comments@).map_values(|c: CommentView| comment_event_spec(c));
    let mut j: usize = 0;
    assert(event_views(events@) =~= head + tail.take(0));
    while j < diff.comments.len()
        invariant
            0 <= j <= diff.comments@.len(),
            tail == comment_views(diff.comments@).map_values(|c: CommentView| comment_event_spec(c)),
            event_views(events@) == head + tail.take(j as int),
        decreases diff.comments@.len() - j,
    {
        let ghost before = event_views(events@);
        let ev = comment_to_event(&diff.comments[j]);
        assert(tail[j as int] == comment_event_spec(comment_views(diff.comments@)[j as int]));
        events.push(ev);
        assert(event_views(events@) =~= before.push(ev@));
        assert(event_views(events@) =~= head + tail.take(j + 1));
        j += 1;
    }
    assert(tail.take(j as int) =~= tail);
    Some(
        IngestBody {
            source: SOURCE.to_owned(),
            cursor_before: Some(since.to_owned()),
            cursor_after: latest_hash,
            events,
        },
    )
}

/// What came of a tick.
#[derive(Debug, PartialEq, Eq)]
pub enum TickOutcome {
    /// A batch was committed and the cursor advanced to this value.
    Advanced(String),
    /// The diff window was empty and no batch was sent. The server's
    /// cursor stays the same; this is functionally a no-op tick.
    NoChange,
    /// The server rejected our cursor. Re-fetch before the next tick.
    CasConflict,
}

/// What came of a tick that submitted a batch, or had none to submit.
pub fn tick_outcome(cursor_after: Option<&str>, outcome: Option<&IngestOutcome>) -> (r: TickOutcome)
    ensures
        match r {
            TickOutcome::Advanced(c) => {
                &&& cursor_after is Some
                &&& c@ == cursor_after->0@
                &&& outcome is Some
                &&& *outcome->0 is Committed
            },
            TickOutcome::CasConflict => cursor_after is Some && outcome is Some && *outcome->0 is Conflict,
            TickOutcome::NoChange => cursor_after is None || outcome is None,
        },
        r@ == tick_of(
            match cursor_after {
                Some(c) => Some(c@),
                None => None,
            },
            match outcome {
                Some(o) => Some(*o is Committed),
                None => None,
            },
        ),
{
    match (cursor_after, outcome) {
        (Some(c), Some(o)) => match o {
            IngestOutcome::Committed(_) => TickOutcome::Advanced(c.to_owned()),
            IngestOutcome::Conflict { .. } => TickOutcome::CasConflict,
        },
        _ => TickOutcome::NoChange,
    }
}

/// What a tick came to.
pub enum TickView {
    Advanced(Seq<char>),
    NoChange,
    CasConflict,
}

impl View for TickOutcome {
    type V = TickView;

    open spec fn view(&self) -> TickView {
        match self {
            TickOutcome::Advanced(c) => TickView::Advanced(c@),
            TickOutcome::NoChange => TickView::NoChange,
            TickOutcome::CasConflict => TickView::CasConflict,
        }
    }
}

/// What came of a tick, given the cursor of the batch that it submitted and whether that
/// was committed.
pub open spec fn tick_of(cursor_after: Option<Seq<char>>, committed: Option<bool>) -> TickView {
    match (cursor_after, committed) {
        (Some(c), Some(true)) => TickView::Advanced(c),
        (Some(c), Some(false)) => TickView::CasConflict,
        _ => TickView::NoChange,
    }
}

/// The cursor behind a tick.
pub open spec fn cursor_behind(
    cursor: Option<Seq<char>>,
    outcome: TickView,
    refetched: Option<Option<Seq<char>>>,
) -> Option<Seq<char>> {
    match outcome {
        TickView::Advanced(c) => Some(c),
        TickView::NoChange => cursor,
        TickView::CasConflict => match refetched {
            Some(c) => c,
            None => cursor,
        },
    }
}

/// The watcher's cursor is the server's: where both agree, a batch that was committed moves
/// both to its end, and a tick without a batch moves neither. Where the server has another
/// one, it is taken over as soon as it can be read, and nothing is skipped until then.
pub proof fn cursors_follow_the_server(
    cursor: Option<Seq<char>>,
    server: Option<Seq<char>>,
    after: Seq<char>,
)
    ensures
        cursor_behind(cursor, tick_of(Some(after), Some(true)), None) == Some(after),
        cursor_behind(cursor, tick_of(None, None), None) == cursor,
        cursor_behind(cursor, tick_of(Some(after), None), None) == cursor,
        cursor_behind(cursor, tick_of(Some(after), Some(false)), Some(server)) == server,
        cursor_behind(cursor, tick_of(Some(after), Some(false)), None) == cursor,
{
}

/// The cursor behind a tick: the new one where a batch went in; where the server has
/// another one, that, if it could be read; else the one from before.
pub fn next_cursor(
    cursor: Option<String>,
    outcome: TickOutcome,
    refetched: Option<Option<String>>,
) -> (r: Option<String>)
    ensures
        match outcome {
            TickOutcome::Advanced(c) => r == Some(c),
            TickOutcome::NoChange => r == cursor,
            TickOutcome::CasConflict => r == (match refetched {
                Some(c) => c,
                None => cursor,
            }),
        },
        text_option(r) == cursor_behind(
            text_option(cursor),
            outcome@,
            match refetched {
                Some(c) => Some(text_option(c)),
                None => None,
            },
        ),
{
    match outcome {
        TickOutcome::Advanced(c) => Some(c),
        TickOutcome::NoChange => cursor,
        TickOutcome::CasConflict => match refetched {
            Some(c) => c,
            None => cursor,
        },
    }
}

/// Every event of a batch comes from cx, and nodes bring no more events than there are
/// nodes.
pub proof fn batches_hold_cx_events_only(
    nodes: Seq<SnapshotView>,
    hash: Seq<char>,
    comments: Seq<CommentView>,
    i: int,
)
    ensures
        ({
            let batch = node_events(nodes, hash) + comments.map_values(|c: CommentView| comment_event_spec(c));
            0 <= i < batch.len() ==> batch[i].source == SOURCE@
        }),
        node_events(nodes, hash).len() <= nodes.len(),
{
    lemma_node_events(nodes, hash, i);
}

proof fn lemma_node_events(nodes: Seq<SnapshotView>, hash: Seq<char>, i: int)
    ensures
        0 <= i < node_events(nodes, hash).len() ==> node_events(nodes, hash)[i].source == SOURCE@,
        node_events(nodes, hash).len() <= nodes.len(),
    decreases nodes.len(),
{
    if nodes.len() > 0 {
        lemma_node_events(nodes.drop_last(), hash, i);
    }
}

/// Every node that gives an event brings it into the batch, behind those of the nodes before
/// it; the others bring none.
pub proof fn every_node_brings_its_event(nodes: Seq<SnapshotView>, n: SnapshotView, hash: Seq<char>)
    ensures
        node_event_spec(n, hash) is Some ==> node_events(nodes.push(n), hash) == node_events(nodes, hash).push(
            node_event_spec(n, hash)->0,
        ),
        node_event_spec(n, hash) is None ==> node_events(nodes.push(n), hash) == node_events(nodes, hash),
        node_events(Seq::empty(), hash).len() == 0,
{
    assert(nodes.push(n).drop_last() =~= nodes);
    assert(nodes.push(n).last() == n);
}

/// A batch holds the event of every node that gives one, and, behind a cursor, that of every
/// comment. The first batch starts from no cursor and ends at the head; any other starts where
/// the last one ended, and ends at the newest commit of its diff.
pub proof fn batches_hold_every_event(
    first: IngestBody,
    next: IngestBody,
    nodes: Seq<SnapshotView>,
    head: Seq<char>,
    diff: CxLogDiff,
    since: Seq<char>,
    i: int,
)
    requires
        cold_start(first, nodes, head),
        incremental(next, diff, nodes, since),
    ensures
        first.source@ == "cx"@,
        first.cursor_before is None,
        first.cursor_after@ == head,
        next.source@ == "cx"@,
        next.cursor_before is Some && next.cursor_before->0@ == since,
        diff.latest_hash is Some && next.cursor_after@ == diff.latest_hash->0@,
        0 <= i < nodes.len() && node_event_spec(nodes[i], head) is Some ==> event_views(first.events@).contains(
            node_event_spec(nodes[i], head)->0,
        ),
        0 <= i < nodes.len() && node_event_spec(nodes[i], next.cursor_after@) is Some ==> event_views(
            next.events@,
        ).contains(node_event_spec(nodes[i], next.cursor_after@)->0),
        0 <= i < diff.comments@.len() ==> event_views(next.events@).contains(comment_event_spec(diff.comments@[i]@)),
{
    if 0 <= i < nodes.len() {
        lemma_event_is_there(nodes, head, i);
        lemma_event_is_there(nodes, next.cursor_after@, i);
    }
    let front = node_events(nodes, next.cursor_after@);
    let back = comment_views(diff.comments@).map_values(|c: CommentView| comment_event_spec(c));
    let all = front + back;
    if 0 <= i < nodes.len() && node_event_spec(nodes[i], next.cursor_after@) is Some {
        let at = front.index_of(node_event_spec(nodes[i], next.cursor_after@)->0);
        assert(all[at] == front[at]);
    }
    if 0 <= i < diff.comments@.len() {
        assert(back[i] == comment_event_spec(diff.comments@[i]@));
        assert(all[front.len() + i] == back[i]);
    }
}

proof fn lemma_event_is_there(nodes: Seq<SnapshotView>, hash: Seq<char>, i: int)
    requires
        0 <= i < nodes.len(),
    ensures
        node_event_spec(nodes[i], hash) is Some ==> node_events(nodes, hash).contains(
            node_event_spec(nodes[i], hash)->0,
        ),
    decreases nodes.len(),
{
    if node_event_spec(nodes[i], hash) is Some {
        let ev = node_event_spec(nodes[i], hash)->0;
        let head = node_events(nodes.drop_last(), hash);
        let all = node_events(nodes, hash);
        if i == nodes.len() - 1 {
            assert(all[head.len() as int] == ev);
        } else {
            assert(nodes.drop_last()[i] == nodes[i]);
            lemma_event_is_there(nodes.drop_last(), hash, i);
            let at = head.index_of(ev);
            assert(all[at] == ev);
        }
    }
}

} // verus!
