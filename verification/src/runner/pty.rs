//! Interactive steps: where their terminal is relayed to.

use vstd::prelude::*;

use crate::text::{
    occurs_at, replace, replace_spec, texts_without_an_occurrence_stay, the_first_occurrence_is_replaced,
};

verus! {

/// A server URL with the websocket scheme in place of the HTTP scheme.
pub open spec fn websocket_base(server_url: Seq<char>) -> Seq<char> {
    replace_spec(replace_spec(server_url, "http://"@, "ws://"@), "https://"@, "wss://"@)
}

/// The websocket URL that one side of a step's terminal is relayed over.
pub open spec fn pty_url_spec(server_url: Seq<char>, execution_id: Seq<char>, step: Seq<char>, side: Seq<char>) -> Seq<
    char,
> {
    websocket_base(server_url) + "/api/executions/"@ + execution_id + "/steps/"@ + step + "/pty/"@ + side
}

/// Builds the websocket URL that one side of a step's terminal is relayed over.
pub fn pty_url(server_url: &str, execution_id: &str, step: &str, side: &str) -> (r: String)
    ensures
        r@ == pty_url_spec(server_url@, execution_id@, step@, side@),
{
    proof {
        reveal_strlit("http://");
        reveal_strlit("https://");
    }
    let mut url = replace(replace(server_url, "http://", "ws://").as_str(), "https://", "wss://");
    url.append("/api/executions/");
    url.append(execution_id);
    url.append("/steps/");
    url.append(step);
    url.append("/pty/");
    url.append(side);
    url
}

/// A terminal is relayed over the websocket of its server, plain for a plain server and
/// secured for a secured one, on the path of its step and side.
pub proof fn terminals_are_relayed_over_their_server(
    host: Seq<char>,
    execution_id: Seq<char>,
    step: Seq<char>,
    side: Seq<char>,
)
    requires
        !host.contains('/'),
    ensures
        pty_url_spec("http://"@ + host, execution_id, step, side) == "ws://"@ + host + "/api/executions/"@ + execution_id
            + "/steps/"@ + step + "/pty/"@ + side,
        pty_url_spec("https://"@ + host, execution_id, step, side) == "wss://"@ + host + "/api/executions/"@
            + execution_id + "/steps/"@ + step + "/pty/"@ + side,
{
    reveal_strlit("http://");
    reveal_strlit("https://");
    reveal_strlit("ws://");
    reveal_strlit("wss://");
    let p = "http://"@;
    let q = "https://"@;
    lemma_slashes(Seq::empty(), host, p, "ws://"@);
    lemma_slashes(Seq::empty(), host, q, "wss://"@);
    assert(Seq::empty() + host =~= host);
    let a = p + host;
    assert(a.subrange(0, 7) =~= p);
    assert(occurs_at(a, p, 0));
    the_first_occurrence_is_replaced(a, p, "ws://"@, 0);
    assert(a.take(0) + "ws://"@ =~= "ws://"@);
    assert(a.skip(7) =~= host);
    lemma_slashes("ws://"@, host, q, "wss://"@);
    let b = q + host;
    lemma_slashes(q, host, p, "ws://"@);
    assert(b.subrange(0, 8) =~= q);
    assert(occurs_at(b, q, 0));
    the_first_occurrence_is_replaced(b, q, "wss://"@, 0);
    assert(b.take(0) + "wss://"@ =~= "wss://"@);
    assert(b.skip(8) =~= host);
}

proof fn lemma_slashes(front: Seq<char>, host: Seq<char>, from: Seq<char>, to: Seq<char>)
    requires
        !host.contains('/'),
        front.len() == 0 || front == "ws://"@ || front == "https://"@,
        from == "http://"@ || from == "https://"@,
        front == "https://"@ ==> from == "http://"@,
    ensures
        replace_spec(front + host, from, to) == front + host,
{
    reveal_strlit("http://");
    reveal_strlit("https://");
    reveal_strlit("ws://");
    let s = front + host;
    assert("http://"@[5] == '/' && "http://"@[6] == '/');
    assert("https://"@[6] == '/' && "https://"@[7] == '/');
    assert(from[from.len() - 1] == '/' && from[from.len() - 2] == '/' && from[0] == 'h');
    assert forall|i: int| !occurs_at(s, from, i) by {
        if occurs_at(s, from, i) {
            let n = from.len() as int;
            let w = s.subrange(i, i + n);
            assert(w[n - 1] == '/' && s[i + n - 1] == '/');
            assert(w[n - 2] == '/' && s[i + n - 2] == '/');
            assert(w[0] == 'h' && s[i] == 'h');
            if i + n - 1 >= front.len() {
                assert(host.contains(host[i + n - 1 - front.len()]));
            }
        }
    }
    texts_without_an_occurrence_stay(s, from, to);
}

} // verus!
