//! Declarative log-pattern signal detection.
//!
//! After a step's process exits, the runner scans the tail of its log
//! for regexes declared in the runtime config. Each match emits
//! a named signal that the workflow engine can act on (e.g. bypass
//! retries on `auth_failed`).
//!
//! The scan is bounded by `tail_bytes` per signal — the runner never
//! walks unbounded log content, and the `regex` crate guarantees
//! linear-time matching, so a malicious or pathological log can't
//! stall a runner.

use vstd::prelude::*;
use vstd::utf8::{decode_utf8, encode_utf8, encode_utf8_decode_utf8, encode_utf8_valid_utf8, valid_utf8};

use crate::events::SignalMatch;
use crate::runtime::{
    compiled_from, pattern_start, regex_find, regex_finds, regex_start, CompiledFailureSignal, RuntimeFailureSignal,
};
use crate::text::{
    behind_last, byte_len, byte_prefix, chars_of, chomp_cr, find_behind_last, find_char, find_from, lemma_cut,
    lemma_find_from, lemma_find_is, on_boundary, split_at_byte, text_option, text_range, utf8_len, ByteSplit,
};

verus! {

/// The text that `String::from_utf8_lossy` makes of bytes that are not UTF-8.
pub uninterp spec fn lossy_text(bytes: Seq<u8>) -> Seq<char>;

/// The text that bytes stand for: what they encode, where they are UTF-8.
pub open spec fn decoded(bytes: Seq<u8>) -> Seq<char> {
    if valid_utf8(bytes) {
        decode_utf8(bytes)
    } else {
        lossy_text(bytes)
    }
}

/// Calls `String::from_utf8_lossy`: bytes that are UTF-8 give the text that they encode;
/// what other bytes give depends on the bytes alone.
#[verifier::external_body]
fn decode_lossy(bytes: &[u8]) -> (r: String)
    ensures
        valid_utf8(bytes@) ==> r@ == decode_utf8(bytes@),
        !valid_utf8(bytes@) ==> r@ == lossy_text(bytes@),
{
    String::from_utf8_lossy(bytes).into_owned()
}

/// A byte that goes on with a character in UTF-8.
pub open spec fn is_continuation(b: u8) -> bool {
    0x80 <= b < 0xc0
}

/// Bytes without those in front that go on with a character.
pub open spec fn drop_partial(bytes: Seq<u8>) -> Seq<u8>
    decreases bytes.len(),
{
    if bytes.len() > 0 && is_continuation(bytes[0]) {
        drop_partial(bytes.skip(1))
    } else {
        bytes
    }
}

/// The window of a log that a signal looks at: the last bytes up to a number, without
/// what is left of a character that the cut went through.
pub open spec fn tail_window(log: Seq<u8>, tail_bytes: nat) -> Seq<u8> {
    if log.len() <= tail_bytes {
        log
    } else {
        drop_partial(log.skip(log.len() - tail_bytes))
    }
}

/// The line of a text that a position lies in, without its line end.
pub open spec fn line_around(text: Seq<char>, at: int) -> Seq<char> {
    let from = behind_last(text.take(at), '\n');
    let to = find_from(text, '\n', at);
    if to < text.len() {
        chomp_cr(text.subrange(from, to))
    } else {
        text.subrange(from, to)
    }
}

/// The line of a text that a match lies in, given the byte that the match starts at.
pub open spec fn line_at_byte(text: Seq<char>, start: nat) -> Seq<char> {
    line_around(text, byte_prefix(text, start).len() as int)
}

/// What of a log a signal looks at, as text.
pub open spec fn tail_text(log: Seq<u8>, tail_bytes: nat) -> Seq<char> {
    decoded(tail_window(log, tail_bytes))
}

/// The line of a log that a signal fires on: where its regex matches somewhere in the
/// tail, the line that the first match starts in.
pub open spec fn signal_line(s: CompiledFailureSignal, log: Seq<u8>) -> Option<Seq<char>> {
    let text = tail_text(log, s.tail_bytes as nat);
    match regex_start(s.regex, text) {
        Some(start) => Some(line_at_byte(text, start)),
        None => None,
    }
}

/// What a signal match is.
pub struct MatchView {
    pub name: Seq<char>,
    pub line: Seq<char>,
    pub retriable: bool,
}

/// The view of a signal match.
pub open spec fn match_view(m: SignalMatch) -> MatchView {
    MatchView { name: m.name@, line: m.line@, retriable: m.retriable }
}

/// The matches of the signals that fire, in the order of the signals.
pub open spec fn signal_matches(signals: Seq<CompiledFailureSignal>, log: Seq<u8>) -> Seq<MatchView>
    decreases signals.len(),
{
    if signals.len() == 0 {
        seq![]
    } else {
        let head = signal_matches(signals.drop_last(), log);
        let s = signals.last();
        match signal_line(s, log) {
            Some(line) => head.push(MatchView { name: s.name@, line, retriable: s.retriable }),
            None => head,
        }
    }
}

/// Finds where the window of a log starts that a signal looks at.
pub fn tail_start(log: &[u8], tail_bytes: usize) -> (r: usize)
    ensures
        r <= log@.len(),
        log@.skip(r as int) == tail_window(log@, tail_bytes as nat),
{
    if log.len() <= tail_bytes {
        assert(log@.skip(0) =~= log@);
        return 0;
    }
    let mut i: usize = log.len() - tail_bytes;
    while i < log.len() && log[i] >= 0x80 && log[i] < 0xc0
        invariant
            log@.len() - tail_bytes <= i <= log@.len(),
            drop_partial(log@.skip(log@.len() - tail_bytes)) == drop_partial(log@.skip(i as int)),
        decreases log@.len() - i,
    {
        assert(log@.skip(i as int).skip(1) =~= log@.skip(i + 1));
        i += 1;
    }
    i
}

proof fn lemma_whole_prefix(s: Seq<char>, n: nat)
    requires
        on_boundary(s, n),
        byte_len(s) <= n,
    ensures
        byte_prefix(s, n) == s,
    decreases s.len(),
{
    if s.len() == 0 {
        assert(byte_prefix(s, n) =~= s);
    } else {
        lemma_whole_prefix(s.skip(1), (n - utf8_len(s[0])) as nat);
        assert(byte_prefix(s, n) =~= s);
    }
}

/// Cuts the line out of a text that a match lies in, given the byte that the match starts
/// at.
pub fn line_of(text: &str, start: usize) -> (r: String)
    requires
        on_boundary(text@, start as nat),
    ensures
        r@ == line_at_byte(text@, start as nat),
{
    let v = chars_of(text);
    let at: usize = match split_at_byte(text, start) {
        ByteSplit::At(head, rest) => {
            proof {
                lemma_prefix_len(text@, start as nat);
            }
            v.len() - chars_of(rest.as_str()).len()
        },
        _ => {
            proof {
                lemma_whole_prefix(text@, start as nat);
            }
            v.len()
        },
    };
    assert(at == byte_prefix(text@, start as nat).len());
    let front = chars_of(text_range(&v, 0, at).as_str());
    assert(front@ =~= text@.take(at as int));
    let from = find_behind_last(&front, '\n');
    let to = find_char(&v, '\n', at);
    let ghost line = text@.subrange(from as int, to as int);
    if to < v.len() && to > from && v[to - 1] == '\r' {
        assert(line.last() == '\r');
        assert(line.drop_last() =~= text@.subrange(from as int, to - 1));
        text_range(&v, from, to - 1)
    } else {
        text_range(&v, from, to)
    }
}

proof fn lemma_prefix_len(s: Seq<char>, n: nat)
    ensures
        byte_prefix(s, n).len() <= s.len(),
    decreases s.len(),
{
    if n > 0 && s.len() > 0 && n >= utf8_len(s[0]) {
        lemma_prefix_len(s.skip(1), (n - utf8_len(s[0])) as nat);
    }
}

fn find_in_log(signal: &CompiledFailureSignal, log: &[u8]) -> (r: Option<String>)
    ensures
        text_option(r) == signal_line(*signal, log@),
{
    let from = tail_start(log, signal.tail_bytes);
    let window = vstd::slice::slice_subrange(log, from, log.len());
    assert(window@ =~= log@.skip(from as int));
    let text = decode_lossy(window);
    match regex_find(&signal.regex, text.as_str()) {
        Some(start) => Some(line_of(text.as_str(), start)),
        None => None,
    }
}

/// Scan the tail of a log for the given signals' patterns.
///
/// For each signal whose regex matches anywhere in the tail, returns
/// one `SignalMatch` carrying the signal name and the matched line: the
/// one that the match starts in. If a signal matches multiple lines, only
/// the first match is reported (one entry per declared signal, not per
/// match).
pub fn scan_failure_signals(log: &[u8], signals: &[CompiledFailureSignal]) -> (r: Vec<SignalMatch>)
    ensures
        r@.map_values(|m: SignalMatch| match_view(m)) == signal_matches(signals@, log@),
{
    let mut out: Vec<SignalMatch> = Vec::new();
    let mut i: usize = 0;
    assert(signals@.take(0) =~= seq![]);
    assert(out@.map_values(|m: SignalMatch| match_view(m)) =~= seq![]);
    while i < signals.len()
        invariant
            0 <= i <= signals@.len(),
            out@.map_values(|m: SignalMatch| match_view(m)) == signal_matches(signals@.take(i as int), log@),
        decreases signals@.len() - i,
    {
        let ghost before = out@.map_values(|m: SignalMatch| match_view(m));
        let ghost next = signals@.take(i + 1);
        assert(next.drop_last() =~= signals@.take(i as int));
        let signal = &signals[i];
        assert(next.last() == *signal);
        if let Some(line) = find_in_log(signal, log) {
            let m = SignalMatch { name: signal.name.clone(), line, retriable: signal.retriable };
            out.push(m);
            assert(out@.map_values(|m: SignalMatch| match_view(m)) =~= before.push(match_view(m)));
        }
        i += 1;
    }
    assert(signals@.take(i as int) =~= signals@);
    out
}

/// A signal sees no more of a log than its tail: logs that end alike give the same
/// matches, whatever stands in front.
pub proof fn scans_are_bounded_by_the_tail(s: CompiledFailureSignal, front: Seq<u8>, other: Seq<u8>, tail: Seq<u8>)
    requires
        tail.len() == s.tail_bytes,
        front.len() > 0,
        other.len() > 0,
    ensures
        signal_line(s, front + tail) == signal_line(s, other + tail),
{
    assert((front + tail).skip((front + tail).len() - tail.len()) =~= tail);
    assert((other + tail).skip((other + tail).len() - tail.len()) =~= tail);
}

/// A log that is no longer than the tail is scanned whole, as the text that it encodes.
pub proof fn short_logs_are_scanned_whole(s: CompiledFailureSignal, text: Seq<char>)
    requires
        encode_utf8(text).len() <= s.tail_bytes,
    ensures
        tail_text(encode_utf8(text), s.tail_bytes as nat) == text,
        signal_line(s, encode_utf8(text)) is Some <==> regex_finds(s.regex, text),
{
    encode_utf8_valid_utf8(text);
    encode_utf8_decode_utf8(text);
}

/// A compiled signal fires as it is declared: where its pattern matches somewhere in the
/// tail, on the line that the first match starts in, whenever it was compiled.
pub proof fn signals_fire_as_declared(c: CompiledFailureSignal, s: RuntimeFailureSignal, log: Seq<u8>)
    requires
        compiled_from(c, s),
    ensures
        ({
            let text = tail_text(log, s.tail_bytes as nat);
            signal_line(c, log) == match pattern_start(s.pattern@, text) {
                Some(start) => Some(line_at_byte(text, start)),
                None => None,
            }
        }),
{
    let text = tail_text(log, s.tail_bytes as nat);
    assert(regex_start(c.regex, text) == pattern_start(s.pattern@, text));
}

/// The line that is reported has no line end in it, and holds the character that the
/// match starts at, unless that is a line end itself.
pub proof fn reported_lines_hold_the_match(text: Seq<char>, at: int)
    requires
        0 <= at <= text.len(),
    ensures
        !line_around(text, at).contains('\n'),
        ({
            let from = behind_last(text.take(at), '\n');
            &&& 0 <= from <= at
            &&& at < text.len() && text[at] != '\n' && text[at] != '\r' ==> at - from < line_around(text, at).len()
                && line_around(text, at)[at - from] == text[at]
        }),
{
    let from = behind_last(text.take(at), '\n');
    let to = find_from(text, '\n', at);
    lemma_behind(text.take(at), '\n');
    lemma_find_from(text, '\n', at);
    let line = text.subrange(from, to);
    assert forall|i: int| 0 <= i < line.len() implies line[i] != '\n' by {
        if from + i < at {
            assert(text.take(at)[from + i] != '\n');
        }
    }
}

proof fn lemma_behind(s: Seq<char>, c: char)
    ensures
        0 <= behind_last(s, c) <= s.len(),
        forall|i: int| behind_last(s, c) <= i < s.len() ==> s[i] != c,
    decreases s.len(),
{
    if s.len() > 0 && s.last() != c {
        lemma_behind(s.drop_last(), c);
        assert forall|i: int| behind_last(s, c) <= i < s.len() implies s[i] != c by {
            if i < s.len() - 1 {
                assert(s[i] == s.drop_last()[i]);
            }
        }
    }
}

/// There is at most one match for each signal, and each match stands for a signal that
/// fired, with its retriable bit.
pub proof fn each_signal_matches_at_most_once(signals: Seq<CompiledFailureSignal>, log: Seq<u8>, i: int)
    ensures
        signal_matches(signals, log).len() <= signals.len(),
        0 <= i < signal_matches(signals, log).len() ==> exists|j: int|
            {
                &&& 0 <= j < signals.len()
                &&& signal_line(#[trigger] signals[j], log) == Some(signal_matches(signals, log)[i].line)
                &&& signals[j].name@ == signal_matches(signals, log)[i].name
                &&& signals[j].retriable == signal_matches(signals, log)[i].retriable
            },
    decreases signals.len(),
{
    if signals.len() > 0 {
        let front = signals.drop_last();
        let head = signal_matches(front, log);
        let all = signal_matches(signals, log);
        each_signal_matches_at_most_once(front, log, i);
        if 0 <= i < all.len() {
            if i < head.len() {
                let j = choose|j: int|
                    {
                        &&& 0 <= j < front.len()
                        &&& signal_line(#[trigger] front[j], log) == Some(head[i].line)
                        &&& front[j].name@ == head[i].name
                        &&& front[j].retriable == head[i].retriable
                    };
                assert(signals[j] == front[j]);
                assert(all[i] == head[i]);
            } else {
                assert(signals[signals.len() - 1] == signals.last());
            }
        }
    }
}

/// Every signal that fires is reported with its name, its line and its retriable bit,
/// behind those declared before it; one that does not fire is not.
pub proof fn every_firing_signal_is_reported(
    signals: Seq<CompiledFailureSignal>,
    s: CompiledFailureSignal,
    log: Seq<u8>,
)
    ensures
        ({
            let before = signal_matches(signals, log);
            let after = signal_matches(signals.push(s), log);
            match signal_line(s, log) {
                Some(line) => {
                    &&& after.len() == before.len() + 1
                    &&& after.drop_last() == before
                    &&& after.last().name == s.name@
                    &&& after.last().line == line
                    &&& after.last().retriable == s.retriable
                },
                None => after == before,
            }
        }),
        signal_matches(Seq::empty(), log).len() == 0,
{
    let all = signals.push(s);
    assert(all.drop_last() =~= signals);
    assert(all.last() == s);
    if signal_line(s, log) is Some {
        assert(signal_matches(all, log).drop_last() =~= signal_matches(signals, log));
    }
}

/// The window of a log is its end: all of a short log, and of a long one the last bytes, up
/// to the number that the signal looks at, without the rest of a character that the cut went
/// through.
pub proof fn windows_are_the_end_of_the_log(log: Seq<u8>, tail_bytes: nat)
    ensures
        log.len() <= tail_bytes ==> tail_window(log, tail_bytes) == log,
        log.len() > tail_bytes ==> exists|k: int|
            {
                &&& log.len() - tail_bytes <= k <= log.len()
                &&& tail_window(log, tail_bytes) == #[trigger] log.skip(k)
                &&& forall|j: int| log.len() - tail_bytes <= j < k ==> 0x80 <= #[trigger] log[j] < 0xc0
                &&& k < log.len() ==> !(0x80 <= log[k] < 0xc0)
            },
{
    if log.len() > tail_bytes {
        lemma_drop_partial(log, log.len() - tail_bytes);
    }
}

proof fn lemma_drop_partial(log: Seq<u8>, from: int)
    requires
        0 <= from <= log.len(),
    ensures
        exists|k: int|
            {
                &&& from <= k <= log.len()
                &&& drop_partial(log.skip(from)) == #[trigger] log.skip(k)
                &&& forall|j: int| from <= j < k ==> 0x80 <= #[trigger] log[j] < 0xc0
                &&& k < log.len() ==> !(0x80 <= log[k] < 0xc0)
            },
    decreases log.len() - from,
{
    let rest = log.skip(from);
    if rest.len() > 0 && is_continuation(rest[0]) {
        lemma_drop_partial(log, from + 1);
        assert(rest.skip(1) =~= log.skip(from + 1));
        let k = choose|k: int|
            {
                &&& from + 1 <= k <= log.len()
                &&& drop_partial(log.skip(from + 1)) == #[trigger] log.skip(k)
                &&& forall|j: int| from + 1 <= j < k ==> 0x80 <= #[trigger] log[j] < 0xc0
                &&& k < log.len() ==> !(0x80 <= log[k] < 0xc0)
            };
        assert(drop_partial(rest) == log.skip(k));
        assert forall|j: int| from <= j < k implies 0x80 <= #[trigger] log[j] < 0xc0 by {
            if j == from {
                assert(rest[0] == log[from]);
            }
        }
    } else {
        assert(drop_partial(rest) == log.skip(from));
    }
}

/// The line that is reported is the whole line that the match starts in, from the line end in
/// front of it to the one behind it, whose `\r` counts with it.
pub proof fn the_whole_line_is_reported(a: Seq<char>, line: Seq<char>, b: Seq<char>, i: int)
    requires
        !line.contains('\n'),
        a.len() == 0 || a.last() == '\n',
        b.len() == 0 || b[0] == '\n',
        0 <= i <= line.len(),
    ensures
        b.len() == 0 ==> line_around(a + line + b, a.len() + i) == line,
        b.len() > 0 && (line.len() == 0 || line.last() != '\r') ==> line_around(a + line + b, a.len() + i) == line,
        b.len() > 0 && line.len() > 0 && line.last() == '\r' ==> line_around(a + line + b, a.len() + i)
            == line.drop_last(),
{
    let text = a + line + b;
    let n = a.len() as int;
    let at = n + i;
    let end = n + line.len();
    assert forall|j: int| n <= j < end implies text[j] != '\n' by {
        assert(text[j] == line[j - n]);
        assert(line.contains(line[j - n]));
    }
    if b.len() > 0 {
        assert(text[end] == b[0]);
    }
    lemma_find_is(text, '\n', at, end);
    let front = text.take(at);
    lemma_behind_is(front, '\n', n);
    assert(text.subrange(n, end) =~= line);
}

proof fn lemma_behind_is(s: Seq<char>, c: char, n: int)
    requires
        0 <= n <= s.len(),
        n == 0 || s[n - 1] == c,
        forall|i: int| n <= i < s.len() ==> s[i] != c,
    ensures
        behind_last(s, c) == n,
    decreases s.len(),
{
    if s.len() > n {
        assert(s[s.len() - 1] != c);
        assert forall|i: int| n <= i < s.drop_last().len() implies s.drop_last()[i] != c by {
            assert(s.drop_last()[i] == s[i]);
        }
        lemma_behind_is(s.drop_last(), c, n);
    }
}

/// The byte that a match starts at is counted in bytes, not in characters: the line that is
/// reported is the one that holds it.
pub proof fn matches_are_found_by_their_byte(a: Seq<char>, line: Seq<char>, b: Seq<char>, i: int)
    requires
        !line.contains('\n'),
        line.len() == 0 || line.last() != '\r',
        a.len() == 0 || a.last() == '\n',
        b.len() == 0 || b[0] == '\n',
        0 <= i <= line.len(),
    ensures
        line_at_byte(a + line + b, byte_len(a + line.take(i))) == line,
{
    let front = a + line.take(i);
    lemma_cut(front, line.skip(i) + b);
    assert(front + (line.skip(i) + b) =~= a + line + b);
    the_whole_line_is_reported(a, line, b, i);
}

} // verus!
