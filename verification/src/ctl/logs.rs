//! Step logs: where they are read from, and what of them is new. Events: where they are
//! streamed from, and how they are summed up.

use vstd::prelude::*;

use crate::events::SOURCE_OX;
use crate::json::{parse_json, parsed_json, Json, JsonView};
use crate::text::{
    byte_len, byte_prefix, cat, dec, dec_u64, has_prefix, join, join_spec, joins_put_separators_between, lemma_cut, on_boundary, pad_right, pad_right_spec, same,
    split_at_byte, starts_with, views, ByteSplit,
};

verus! {

/// The query of a log request: the attempt and the number of lines, those that are set.
pub open spec fn log_params(attempt: Option<u32>, lines: Option<usize>) -> Seq<Seq<char>> {
    (match attempt {
        Some(a) => seq!["attempt="@ + dec(a as nat)],
        None => seq![],
    }) + (match lines {
        Some(n) => seq!["lines="@ + dec(n as nat)],
        None => seq![],
    })
}

/// The URL of a step's log.
pub open spec fn log_url_spec(
    server_url: Seq<char>,
    execution_id: Seq<char>,
    step: Seq<char>,
    attempt: Option<u32>,
    lines: Option<usize>,
) -> Seq<char> {
    let base = server_url + "/api/executions/"@ + execution_id + "/steps/"@ + step + "/log"@;
    if log_params(attempt, lines).len() == 0 {
        base
    } else {
        base + "?"@ + join_spec(log_params(attempt, lines), "&"@)
    }
}

/// Builds the URL of a step's log.
pub fn log_url(
    server_url: &str,
    execution_id: &str,
    step: &str,
    attempt: Option<u32>,
    lines: Option<usize>,
) -> (r: String)
    ensures
        r@ == log_url_spec(server_url@, execution_id@, step@, attempt, lines),
{
    let mut url = server_url.to_owned();
    url.append("/api/executions/");
    url.append(execution_id);
    url.append("/steps/");
    url.append(step);
    url.append("/log");
    let mut params: Vec<String> = Vec::new();
    if let Some(a) = attempt {
        params.push(cat("attempt=", dec_u64(a as u64).as_str()));
    }
    let ghost p1 = views(params@);
    assert(p1 =~= (match attempt {
        Some(a) => seq!["attempt="@ + dec(a as nat)],
        None => seq![],
    }));
    if let Some(n) = lines {
        params.push(cat("lines=", dec_u64(n as u64).as_str()));
    }
    assert(views(params@) =~= log_params(attempt, lines));
    if params.len() > 0 {
        url.append("?");
        url.append(join(&params, "&").as_str());
    }
    url
}

/// The part of a log behind what is known of it.
pub open spec fn behind_bytes(text: Seq<char>, known: nat) -> Seq<char> {
    text.skip(byte_prefix(text, known).len() as int)
}

/// What a log of more bytes than are known of it brings as news; nothing for a log that
/// has not grown.
pub fn unseen_log(text: &str, known_len: usize) -> (r: Option<String>)
    requires
        byte_len(text@) > known_len ==> on_boundary(text@, known_len as nat),
    ensures
        match r {
            Some(news) => byte_len(text@) > known_len && news@ == behind_bytes(text@, known_len as nat),
            None => byte_len(text@) <= known_len,
        },
{
    match split_at_byte(text, known_len) {
        ByteSplit::Whole => None,
        ByteSplit::At(head, rest) => {
            assert(rest@ =~= behind_bytes(text@, known_len as nat));
            Some(rest)
        },
        ByteSplit::Inside => None,
    }
}

/// Whether the news of a log can be told: what is known of it ends between characters.
pub fn can_resume(text: &str, known_len: usize) -> (r: bool)
    ensures
        r == (byte_len(text@) > known_len ==> on_boundary(text@, known_len as nat)),
{
    match split_at_byte(text, known_len) {
        ByteSplit::Inside => false,
        _ => true,
    }
}

// ── Events ──────────────────────────────────────────────────────────

/// The URL of the event stream: from a sequence number on, or from now on.
pub fn events_url(server_url: &str, since: Option<u64>) -> (r: String)
    ensures
        r@ == server_url@ + "/api/events/stream"@ + (match since {
            Some(seq) => "?last_event_id="@ + dec(seq as nat),
            None => seq![],
        }),
{
    let mut url = cat(server_url, "/api/events/stream");
    match since {
        Some(seq) => {
            let ghost before = url@;
            url.append("?last_event_id=");
            url.append(dec_u64(seq).as_str());
            assert(url@ =~= before + ("?last_event_id="@ + dec(seq as nat)));
        },
        None => {
            assert(url@ =~= url@ + seq![]);
        },
    }
    url
}

/// Whether an event type passes a filter on its start.
pub fn passes_filter(event_type: &str, filter: Option<&str>) -> (r: bool)
    ensures
        r == match filter {
            Some(f) => has_prefix(event_type@, f@),
            None => true,
        },
{
    match filter {
        Some(f) => starts_with(event_type, f),
        None => true,
    }
}

/// The line of an event: its sequence number, its type and its summary.
pub fn event_line(seq: &str, event_type: &str, summary: &str) -> (r: String)
    ensures
        r@ == pad_right_spec(seq@, 6) + " "@ + pad_right_spec(event_type@, 24) + " "@ + summary@,
{
    let mut s = pad_right(seq, 6);
    s.append(" ");
    s.append(pad_right(event_type, 24).as_str());
    s.append(" ");
    s.append(summary);
    s
}

/// A field of an event's data, marked, where it is a text.
pub open spec fn part_of(d: JsonView, key: Seq<char>, mark: Seq<char>) -> Seq<Seq<char>> {
    match d.at(key).as_str() {
        Some(s) => seq![mark + s],
        None => seq![],
    }
}

/// The fields that an event of the server is summed up by.
pub open spec fn summary_parts(d: JsonView) -> Seq<Seq<char>> {
    part_of(d, "execution_id"@, seq![]) + part_of(d, "runner_id"@, seq![]) + part_of(d, "step"@, seq![]) + part_of(
        d,
        "output"@,
        "output="@,
    ) + part_of(d, "name"@, seq![]) + part_of(d, "error"@, "error="@)
}

/// An event in brief. One of another source by its source and its subject, one of the
/// server by common fields of its data.
pub open spec fn summary_spec(v: JsonView) -> Seq<char> {
    let source = v.at("source"@).str_or(seq![]);
    if source.len() > 0 && source != SOURCE_OX@ {
        let subject = v.at("subject_id"@).str_or(seq![]);
        if subject.len() == 0 {
            source
        } else {
            source + " "@ + subject
        }
    } else {
        let d = match v.get("data"@) {
            Some(d) => d,
            None => v,
        };
        join_spec(summary_parts(d), " "@)
    }
}

fn push_part(parts: &mut Vec<String>, d: &Json, key: &str, mark: &str)
    ensures
        views(final(parts)@) == views(old(parts)@) + part_of(d@, key@, mark@),
{
    let ghost before = views(parts@);
    match d.get_str(key) {
        Some(s) => {
            let part = cat(mark, s);
            parts.push(part);
            assert(views(parts@) =~= before + seq![part@]);
        },
        None => {
            assert(views(parts@) =~= before + seq![]);
        },
    }
}

/// Sums up an event.
pub fn summarize(v: &Json) -> (r: String)
    ensures
        r@ == summary_spec(v@),
{
    // Non-ox events render as "source subject_id" — the kind already
    // shows in the TYPE column so don't repeat it.
    if let Some(source) = v.get_str("source") {
        if !source.is_empty() && !same(source, SOURCE_OX) {
            return match v.get_str("subject_id") {
                Some(subject) => if subject.is_empty() {
                    source.to_owned()
                } else {
                    let mut s = cat(source, " ");
                    s.append(subject);
                    s
                },
                None => source.to_owned(),
            };
        }
    }
    let d = match v.get("data") {
        Some(d) => d,
        None => v,
    };
    // Build a brief summary from common fields
    let mut parts: Vec<String> = Vec::new();
    let ghost none: Seq<char> = seq![];
    assert(""@ =~= none) by {
        reveal_strlit("");
    }
    assert(views(parts@) =~= seq![]);
    push_part(&mut parts, d, "execution_id", "");
    push_part(&mut parts, d, "runner_id", "");
    push_part(&mut parts, d, "step", "");
    push_part(&mut parts, d, "output", "output=");
    push_part(&mut parts, d, "name", "");
    push_part(&mut parts, d, "error", "error=");
    assert(views(parts@) =~= summary_parts(d@));
    join(&parts, " ")
}

/// Sums up the data of an event: nothing where it is not JSON.
pub fn event_summary(data: &str) -> (r: String)
    ensures
        r@ == (match parsed_json(data@) {
            Some(v) => summary_spec(v),
            None => seq![],
        }),
{
    match parse_json(data) {
        Some(v) => summarize(&v),
        None => {
            let s = String::new();
            assert(s@ =~= seq![]);
            s
        },
    }
}

/// What is known of a log and its news make up the log: nothing is printed twice, and nothing
/// is left out.
pub proof fn news_go_on_where_the_known_part_ends(known: Seq<char>, news: Seq<char>)
    ensures
        behind_bytes(known + news, byte_len(known)) == news,
        on_boundary(known + news, byte_len(known)),
{
    lemma_cut(known, news);
    lemma_known_prefix(known, news);
    assert((known + news).skip(known.len() as int) =~= news);
}

proof fn lemma_known_prefix(known: Seq<char>, news: Seq<char>)
    ensures
        on_boundary(known + news, byte_len(known)),
    decreases known.len(),
{
    if known.len() > 0 {
        assert((known + news)[0] == known[0]);
        assert((known + news).skip(1) =~= known.skip(1) + news);
        lemma_known_prefix(known.skip(1), news);
    }
}

/// A log is asked for at its step, with the attempt and the number of lines where they are
/// set.
pub proof fn logs_are_asked_for_at_their_step(
    server_url: Seq<char>,
    execution_id: Seq<char>,
    step: Seq<char>,
    attempt: u32,
    lines: usize,
)
    ensures
        ({
            let base = server_url + "/api/executions/"@ + execution_id + "/steps/"@ + step + "/log"@;
            let a = "attempt="@ + dec(attempt as nat);
            let n = "lines="@ + dec(lines as nat);
            &&& log_url_spec(server_url, execution_id, step, None, None) == base
            &&& log_url_spec(server_url, execution_id, step, Some(attempt), None) == base + "?"@ + a
            &&& log_url_spec(server_url, execution_id, step, None, Some(lines)) == base + "?"@ + n
            &&& log_url_spec(server_url, execution_id, step, Some(attempt), Some(lines)) == base + "?"@ + (a + "&"@ + n)
        }),
{
    let a = "attempt="@ + dec(attempt as nat);
    let n = "lines="@ + dec(lines as nat);
    assert(log_params(Some(attempt), None) =~= seq![a]);
    assert(log_params(None, Some(lines)) =~= seq![n]);
    assert(log_params(Some(attempt), Some(lines)) =~= seq![a].push(n));
    joins_put_separators_between(seq![a], n, "&"@);
    joins_put_separators_between(seq![a], a, "&"@);
}

/// An event of another source is summed up by its source and its subject; one of the server by
/// the execution, runner, step, output, name and error that its data tells, each that is there
/// and in this order.
pub proof fn events_are_summed_up(v: JsonView, d: JsonView)
    ensures
        ({
            let source = v.at("source"@).as_str();
            let subject = v.at("subject_id"@).as_str();
            let foreign = source is Some && source->0.len() > 0 && source->0 != "ox"@;
            &&& foreign && subject is Some && subject->0.len() > 0 ==> summary_spec(v) == source->0 + " "@ + subject->0
            &&& foreign && (subject is None || subject->0.len() == 0) ==> summary_spec(v) == source->0
            &&& !foreign && v.get("data"@) is Some ==> summary_spec(v) == join_spec(
                summary_parts(v.get("data"@)->0),
                " "@,
            )
        }),
        d.at("execution_id"@).as_str() is Some ==> summary_parts(d).contains(d.at("execution_id"@).as_str()->0),
        d.at("runner_id"@).as_str() is Some ==> summary_parts(d).contains(d.at("runner_id"@).as_str()->0),
        d.at("step"@).as_str() is Some ==> summary_parts(d).contains(d.at("step"@).as_str()->0),
        d.at("output"@).as_str() is Some ==> summary_parts(d).contains("output="@ + d.at("output"@).as_str()->0),
        d.at("name"@).as_str() is Some ==> summary_parts(d).contains(d.at("name"@).as_str()->0),
        d.at("error"@).as_str() is Some ==> summary_parts(d).contains("error="@ + d.at("error"@).as_str()->0),
{
    let none: Seq<char> = seq![];
    let a = part_of(d, "execution_id"@, none);
    let b = part_of(d, "runner_id"@, none);
    let c = part_of(d, "step"@, none);
    let e = part_of(d, "output"@, "output="@);
    let f = part_of(d, "name"@, none);
    let g = part_of(d, "error"@, "error="@);
    let all = a + b + c + e + f + g;
    assert(all == summary_parts(d));
    if a.len() > 0 {
        assert(none + d.at("execution_id"@).as_str()->0 =~= d.at("execution_id"@).as_str()->0);
        assert(all[0] == a[0]);
    }
    if b.len() > 0 {
        assert(none + d.at("runner_id"@).as_str()->0 =~= d.at("runner_id"@).as_str()->0);
        assert(all[a.len() as int] == b[0]);
    }
    if c.len() > 0 {
        assert(none + d.at("step"@).as_str()->0 =~= d.at("step"@).as_str()->0);
        assert(all[(a + b).len() as int] == c[0]);
    }
    if e.len() > 0 {
        assert(all[(a + b + c).len() as int] == e[0]);
    }
    if f.len() > 0 {
        assert(none + d.at("name"@).as_str()->0 =~= d.at("name"@).as_str()->0);
        assert(all[(a + b + c + e).len() as int] == f[0]);
    }
    if g.len() > 0 {
        assert(all[(a + b + c + e + f).len() as int] == g[0]);
    }
}

} // verus!
