//! Token usage of the API traffic that passes through the runner.

use vstd::prelude::*;

use crate::json::{member_views, members_are_read_by_name, parse_json_bytes, parsed_json_bytes, Json, JsonView, NumberView};
use crate::text::{cat, dec, dec_u64, same};

verus! {

/// Accumulated metrics from a proxy instance.
#[derive(Debug, Clone, Copy, PartialEq, Eq, Structural)]
pub struct ProxyMetrics {
    pub request_count: u64,
    pub total_input_tokens: u64,
    pub total_output_tokens: u64,
    pub total_latency_ms: u64,
}

impl Default for ProxyMetrics {
    fn default() -> (m: Self)
        ensures
            m == (ProxyMetrics {
                request_count: 0,
                total_input_tokens: 0,
                total_output_tokens: 0,
                total_latency_ms: 0,
            }),
    {
        ProxyMetrics { request_count: 0, total_input_tokens: 0, total_output_tokens: 0, total_latency_ms: 0 }
    }
}

/// The input and output tokens that a response of a provider reports.
pub open spec fn usage_spec(provider: Seq<char>, body: JsonView) -> (u64, u64) {
    let usage = body.at("usage"@);
    if provider == "anthropic"@ {
        (usage.at("input_tokens"@).u64_or(0), usage.at("output_tokens"@).u64_or(0))
    } else if provider == "openai"@ {
        (usage.at("prompt_tokens"@).u64_or(0), usage.at("completion_tokens"@).u64_or(0))
    } else {
        (0, 0)
    }
}

fn member_u64(v: Option<&Json>, key: &str) -> (n: u64)
    ensures
        n == (match v {
            Some(x) => x@.at(key@).u64_or(0),
            None => 0,
        }),
{
    match v {
        Some(x) => match x.get(key) {
            Some(y) => match y.as_u64() {
                Some(n) => n,
                None => 0,
            },
            None => 0,
        },
        None => 0,
    }
}

/// Reads the tokens that a response of a provider reports.
pub fn token_usage(provider: &str, body: &Json) -> (r: (u64, u64))
    ensures
        r == usage_spec(provider@, body@),
{
    let usage = body.get("usage");
    if same(provider, "anthropic") {
        (member_u64(usage, "input_tokens"), member_u64(usage, "output_tokens"))
    } else if same(provider, "openai") {
        (member_u64(usage, "prompt_tokens"), member_u64(usage, "completion_tokens"))
    } else {
        (0, 0)
    }
}

impl ProxyMetrics {
    /// Another request still fits in the counters.
    pub open spec fn has_room(self, usage: (u64, u64), latency_ms: u64) -> bool {
        &&& self.request_count < u64::MAX
        &&& self.total_input_tokens + usage.0 <= u64::MAX
        &&& self.total_output_tokens + usage.1 <= u64::MAX
        &&& self.total_latency_ms + latency_ms <= u64::MAX
    }

    /// The metrics with another request.
    pub open spec fn with_request(self, usage: (u64, u64), latency_ms: u64) -> ProxyMetrics {
        ProxyMetrics {
            request_count: (self.request_count + 1) as u64,
            total_input_tokens: (self.total_input_tokens + usage.0) as u64,
            total_output_tokens: (self.total_output_tokens + usage.1) as u64,
            total_latency_ms: (self.total_latency_ms + latency_ms) as u64,
        }
    }

    fn fits(&self, usage: (u64, u64), latency_ms: u64) -> (r: bool)
        ensures
            r == self.has_room(usage, latency_ms),
    {
        self.request_count < u64::MAX && usage.0 <= u64::MAX - self.total_input_tokens && usage.1 <= u64::MAX
            - self.total_output_tokens && latency_ms <= u64::MAX - self.total_latency_ms
    }

    /// Counts a request.
    pub fn record(&mut self, usage: (u64, u64), latency_ms: u64)
        requires
            old(self).has_room(usage, latency_ms),
        ensures
            *final(self) == old(self).with_request(usage, latency_ms),
    {
        self.request_count = self.request_count + 1;
        self.total_input_tokens = self.total_input_tokens + usage.0;
        self.total_output_tokens = self.total_output_tokens + usage.1;
        self.total_latency_ms = self.total_latency_ms + latency_ms;
    }
}

/// The metrics behind a response: a body that is not JSON counts for nothing.
pub open spec fn metrics_behind(
    m: ProxyMetrics,
    provider: Seq<char>,
    body: Option<JsonView>,
    latency_ms: u64,
) -> ProxyMetrics {
    match body {
        Some(v) => m.with_request(usage_spec(provider, v), latency_ms),
        None => m,
    }
}

/// The response still fits in the counters.
pub open spec fn response_fits(m: ProxyMetrics, provider: Seq<char>, body: Option<JsonView>, latency_ms: u64) -> bool {
    match body {
        Some(v) => m.has_room(usage_spec(provider, v), latency_ms),
        None => true,
    }
}

/// Extract token usage from a response body and count the request.
pub fn extract_metrics(provider: &str, body: &[u8], latency_ms: u64, metrics: &mut ProxyMetrics)
    requires
        response_fits(*old(metrics), provider@, parsed_json_bytes(body@), latency_ms),
    ensures
        *final(metrics) == metrics_behind(*old(metrics), provider@, parsed_json_bytes(body@), latency_ms),
{
    if let Some(json) = parse_json_bytes(body) {
        metrics.record(token_usage(provider, &json), latency_ms);
    }
}

/// Extract token usage from a response body and count the request, unless a counter
/// would overflow. Returns whether it did; where not, nothing changed.
pub fn try_extract_metrics(provider: &str, body: &[u8], latency_ms: u64, metrics: &mut ProxyMetrics) -> (r: bool)
    ensures
        r == response_fits(*old(metrics), provider@, parsed_json_bytes(body@), latency_ms),
        r ==> *final(metrics) == metrics_behind(*old(metrics), provider@, parsed_json_bytes(body@), latency_ms),
        !r ==> *final(metrics) == *old(metrics),
{
    match parse_json_bytes(body) {
        Some(json) => if metrics.fits(token_usage(provider, &json), latency_ms) {
            extract_metrics(provider, body, latency_ms, metrics);
            true
        } else {
            false
        },
        None => true,
    }
}

/// The report of one proxy.
pub open spec fn metrics_json(m: ProxyMetrics) -> JsonView {
    JsonView::Object(
        seq![
            ("request_count"@, JsonView::Number(NumberView::Unsigned(m.request_count))),
            ("total_input_tokens"@, JsonView::Number(NumberView::Unsigned(m.total_input_tokens))),
            ("total_output_tokens"@, JsonView::Number(NumberView::Unsigned(m.total_output_tokens))),
            ("total_latency_ms"@, JsonView::Number(NumberView::Unsigned(m.total_latency_ms))),
        ],
    )
}

/// The reports of all proxies, each under `proxy_` and its position.
pub open spec fn all_metrics_json(ms: Seq<ProxyMetrics>) -> JsonView {
    JsonView::Object(Seq::new(ms.len(), |i: int| ("proxy_"@ + dec(i as nat), metrics_json(ms[i]))))
}

fn metrics_report(m: &ProxyMetrics) -> (v: Json)
    ensures
        v@ == metrics_json(*m),
{
    let mut members: Vec<(String, Json)> = Vec::new();
    members.push(("request_count".to_owned(), Json::number(m.request_count)));
    members.push(("total_input_tokens".to_owned(), Json::number(m.total_input_tokens)));
    members.push(("total_output_tokens".to_owned(), Json::number(m.total_output_tokens)));
    members.push(("total_latency_ms".to_owned(), Json::number(m.total_latency_ms)));
    assert(member_views(members@) =~= metrics_json(*m)->Object_0);
    Json::object(members)
}

/// Collect final metrics from all proxies.
pub fn collect_proxy_metrics(metrics: &Vec<ProxyMetrics>) -> (v: Json)
    ensures
        v@ == all_metrics_json(metrics@),
{
    let mut members: Vec<(String, Json)> = Vec::new();
    let ghost all = all_metrics_json(metrics@)->Object_0;
    let mut i: usize = 0;
    assert(member_views(members@) =~= all.take(0));
    while i < metrics.len()
        invariant
            0 <= i <= metrics@.len(),
            all == all_metrics_json(metrics@)->Object_0,
            member_views(members@) == all.take(i as int),
        decreases metrics@.len() - i,
    {
        let ghost before = member_views(members@);
        let name = cat("proxy_", dec_u64(i as u64).as_str());
        let report = metrics_report(&metrics[i]);
        members.push((name, report));
        assert(member_views(members@) =~= before.push((name@, report@)));
        assert(member_views(members@) =~= all.take(i + 1));
        i += 1;
    }
    assert(all.take(i as int) =~= all);
    Json::object(members)
}

/// The headers of a request that end at the proxy.
pub fn is_hop_header(name: &str) -> (r: bool)
    ensures
        r == (name@ == "host"@ || name@ == "transfer-encoding"@ || name@ == "connection"@),
{
    same(name, "host") || same(name, "transfer-encoding") || same(name, "connection")
}

/// The headers of a response that end at the proxy.
pub fn is_hop_response_header(name: &str) -> (r: bool)
    ensures
        r == (name@ == "transfer-encoding"@ || name@ == "connection"@),
{
    same(name, "transfer-encoding") || same(name, "connection")
}

// ── Laws ────────────────────────────────────────────────────────────

/// A response that passed through a proxy: what its body parses to, and how long it took.
pub struct Response {
    pub body: Option<JsonView>,
    pub latency_ms: u64,
}

/// The metrics behind a run of responses, from fresh ones on.
pub open spec fn metrics_over(provider: Seq<char>, responses: Seq<Response>) -> ProxyMetrics
    decreases responses.len(),
{
    if responses.len() == 0 {
        ProxyMetrics { request_count: 0, total_input_tokens: 0, total_output_tokens: 0, total_latency_ms: 0 }
    } else {
        metrics_behind(
            metrics_over(provider, responses.drop_last()),
            provider,
            responses.last().body,
            responses.last().latency_ms,
        )
    }
}

/// The sum of a number of each response whose body is JSON.
pub open spec fn sum_over(responses: Seq<Response>, f: spec_fn(JsonView, u64) -> nat) -> nat
    decreases responses.len(),
{
    if responses.len() == 0 {
        0
    } else {
        sum_over(responses.drop_last(), f) + (match responses.last().body {
            Some(v) => f(v, responses.last().latency_ms),
            None => 0,
        })
    }
}

/// Over a run of responses the metrics are sums: of the requests, of the tokens that each
/// response reports, and of the time that each took. A body that is not JSON counts for
/// nothing.
pub proof fn totals_are_sums_over_the_responses(provider: Seq<char>, responses: Seq<Response>)
    requires
        sum_over(responses, |v: JsonView, t: u64| 1) <= u64::MAX,
        sum_over(responses, |v: JsonView, t: u64| usage_spec(provider, v).0 as nat) <= u64::MAX,
        sum_over(responses, |v: JsonView, t: u64| usage_spec(provider, v).1 as nat) <= u64::MAX,
        sum_over(responses, |v: JsonView, t: u64| t as nat) <= u64::MAX,
    ensures
        ({
            let m = metrics_over(provider, responses);
            &&& m.request_count == sum_over(responses, |v: JsonView, t: u64| 1)
            &&& m.total_input_tokens == sum_over(responses, |v: JsonView, t: u64| usage_spec(provider, v).0 as nat)
            &&& m.total_output_tokens == sum_over(responses, |v: JsonView, t: u64| usage_spec(provider, v).1 as nat)
            &&& m.total_latency_ms == sum_over(responses, |v: JsonView, t: u64| t as nat)
        }),
        responses.len() > 0 ==> response_fits(
            metrics_over(provider, responses.drop_last()),
            provider,
            responses.last().body,
            responses.last().latency_ms,
        ),
    decreases responses.len(),
{
    if responses.len() > 0 {
        totals_are_sums_over_the_responses(provider, responses.drop_last());
    }
}

/// One more response adds to each total what it reports itself, and the order of two
/// responses makes no difference.
pub proof fn responses_add_up(
    m: ProxyMetrics,
    provider: Seq<char>,
    a: JsonView,
    time_a: u64,
    b: JsonView,
    time_b: u64,
)
    requires
        response_fits(m, provider, Some(a), time_a),
        response_fits(metrics_behind(m, provider, Some(a), time_a), provider, Some(b), time_b),
    ensures
        ({
            let after = metrics_behind(m, provider, Some(a), time_a);
            &&& after.request_count - m.request_count == 1
            &&& after.total_input_tokens - m.total_input_tokens == usage_spec(provider, a).0
            &&& after.total_output_tokens - m.total_output_tokens == usage_spec(provider, a).1
            &&& after.total_latency_ms - m.total_latency_ms == time_a
        }),
        metrics_behind(m, provider, None, time_a) == m,
        metrics_behind(metrics_behind(m, provider, Some(a), time_a), provider, Some(b), time_b) == metrics_behind(
            metrics_behind(m, provider, Some(b), time_b),
            provider,
            Some(a),
            time_a,
        ),
{
}

/// The tokens of a response are read where its provider writes them: in a usage object,
/// the counts of input and output each under the name of that provider. Other providers
/// are not read.
pub proof fn usage_is_read_where_the_provider_writes_it(
    provider: Seq<char>,
    front: Seq<(Seq<char>, JsonView)>,
    rest: Seq<(Seq<char>, JsonView)>,
    more: Seq<(Seq<char>, JsonView)>,
    input: u64,
    output: u64,
)
    requires
        forall|i: int| 0 <= i < front.len() ==> (#[trigger] front[i]).0 != "usage"@,
    ensures
        ({
            let counts = |a: Seq<char>, b: Seq<char>|
                seq![
                    (a, JsonView::Number(NumberView::Unsigned(input))),
                    (b, JsonView::Number(NumberView::Unsigned(output))),
                ] + more;
            let body = |a: Seq<char>, b: Seq<char>|
                JsonView::Object(front + seq![("usage"@, JsonView::Object(counts(a, b)))] + rest);
            &&& usage_spec("anthropic"@, body("input_tokens"@, "output_tokens"@)) == (input, output)
            &&& usage_spec("openai"@, body("prompt_tokens"@, "completion_tokens"@)) == (input, output)
        }),
        usage_spec(provider, JsonView::Object(front)) == (0u64, 0u64),
        provider != "anthropic"@ && provider != "openai"@ ==> forall|v: JsonView|
            usage_spec(provider, v) == (0u64, 0u64),
{
    reveal_strlit("anthropic");
    reveal_strlit("openai");
    assert("anthropic"@[0] != "openai"@[0]);
    assert("anthropic"@ != "openai"@);
    reveal_strlit("input_tokens");
    reveal_strlit("output_tokens");
    reveal_strlit("prompt_tokens");
    reveal_strlit("completion_tokens");
    assert("input_tokens"@[0] != "output_tokens"@[0]);
    assert("prompt_tokens"@[0] != "completion_tokens"@[0]);
    lemma_two_counts("input_tokens"@, "output_tokens"@, front, rest, more, input, output);
    lemma_two_counts("prompt_tokens"@, "completion_tokens"@, front, rest, more, input, output);
    members_are_read_by_name(front, "usage"@, JsonView::Null, rest);
}

proof fn lemma_two_counts(
    a: Seq<char>,
    b: Seq<char>,
    front: Seq<(Seq<char>, JsonView)>,
    rest: Seq<(Seq<char>, JsonView)>,
    more: Seq<(Seq<char>, JsonView)>,
    input: u64,
    output: u64,
)
    requires
        a != b,
        forall|i: int| 0 <= i < front.len() ==> (#[trigger] front[i]).0 != "usage"@,
    ensures
        ({
            let x = JsonView::Number(NumberView::Unsigned(input));
            let y = JsonView::Number(NumberView::Unsigned(output));
            let usage = JsonView::Object(seq![(a, x), (b, y)] + more);
            &&& JsonView::Object(front + seq![("usage"@, usage)] + rest).at("usage"@) == usage
            &&& usage.at(a) == x
            &&& usage.at(b) == y
        }),
{
    let x = JsonView::Number(NumberView::Unsigned(input));
    let y = JsonView::Number(NumberView::Unsigned(output));
    let counts = seq![(a, x), (b, y)] + more;
    members_are_read_by_name(front, "usage"@, JsonView::Object(counts), rest);
    assert(counts =~= Seq::empty() + seq![(a, x)] + (seq![(b, y)] + more));
    members_are_read_by_name(Seq::empty(), a, x, seq![(b, y)] + more);
    assert(counts =~= seq![(a, x)] + seq![(b, y)] + more);
    members_are_read_by_name(seq![(a, x)], b, y, more);
}

/// The report names every proxy by its position, and gives the counters of each.
pub proof fn every_proxy_is_reported(ms: Seq<ProxyMetrics>, i: int)
    requires
        0 <= i < ms.len(),
    ensures
        all_metrics_json(ms) is Object,
        all_metrics_json(ms)->Object_0.len() == ms.len(),
        all_metrics_json(ms)->Object_0[i].0 == "proxy_"@ + dec(i as nat),
        ({
            let report = all_metrics_json(ms)->Object_0[i].1;
            &&& report.at("request_count"@).as_u64() == Some(ms[i].request_count)
            &&& report.at("total_input_tokens"@).as_u64() == Some(ms[i].total_input_tokens)
            &&& report.at("total_output_tokens"@).as_u64() == Some(ms[i].total_output_tokens)
            &&& report.at("total_latency_ms"@).as_u64() == Some(ms[i].total_latency_ms)
        }),
{
    reveal_strlit("request_count");
    reveal_strlit("total_input_tokens");
    reveal_strlit("total_output_tokens");
    reveal_strlit("total_latency_ms");
    let report = all_metrics_json(ms)->Object_0[i].1;
    assert(report == metrics_json(ms[i]));
    let e = report->Object_0;
    assert("request_count"@[0] != "total_input_tokens"@[0]);
    assert("request_count"@[0] != "total_output_tokens"@[0]);
    assert("request_count"@[0] != "total_latency_ms"@[0]);
    assert("total_input_tokens"@[6] != "total_output_tokens"@[6]);
    assert("total_input_tokens"@[6] != "total_latency_ms"@[6]);
    assert("total_output_tokens"@[6] != "total_latency_ms"@[6]);
    assert(e =~= e.take(0) + seq![e[0]] + e.skip(1));
    members_are_read_by_name(e.take(0), e[0].0, e[0].1, e.skip(1));
    assert(e =~= e.take(1) + seq![e[1]] + e.skip(2));
    members_are_read_by_name(e.take(1), e[1].0, e[1].1, e.skip(2));
    assert(e =~= e.take(2) + seq![e[2]] + e.skip(3));
    members_are_read_by_name(e.take(2), e[2].0, e[2].1, e.skip(3));
    assert(e =~= e.take(3) + seq![e[3]] + e.skip(4));
    members_are_read_by_name(e.take(3), e[3].0, e[3].1, e.skip(4));
}

} // verus!
