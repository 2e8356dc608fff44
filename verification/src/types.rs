//! Identifiers: runners, executions, step attempts and event sequence numbers.

use vstd::prelude::*;

use crate::text::{dec, dec_u64, digit_char, hex, hex_u64, pad_left, pad_left_spec, repeat_spec};

verus! {

/// Monotonically increasing event sequence number.
#[derive(Debug, Clone, Copy, PartialEq, Eq, PartialOrd, Ord, Hash, Structural)]
pub struct EventSeq(pub u64);

impl EventSeq {
    /// The number in decimal.
    pub fn to_text(&self) -> (s: String)
        ensures
            s@ == dec(self.0 as nat),
    {
        dec_u64(self.0)
    }
}

/// Runner identifier. Assigned by the server on registration.
/// Format: `run-{epoch_hex}-{counter_hex}`, e.g. `run-67c0a5b2-0000`.
/// The epoch portion encodes the server's start time (unix seconds),
/// so IDs issued by different server lifetimes cannot collide — even
/// when an event log replay resurrects a prior-lifetime runner.
#[derive(Debug, PartialEq, Eq, Hash)]
pub struct RunnerId(pub String);

impl Clone for RunnerId {
    fn clone(&self) -> (r: Self)
        ensures
            r == *self,
    {
        RunnerId(self.0.clone())
    }
}

impl RunnerId {
    /// The identifier as text.
    pub fn to_text(&self) -> (s: String)
        ensures
            s@ == self.0@,
    {
        self.0.clone()
    }
}

/// The runner id of an epoch and a counter.
pub open spec fn runner_id_spec(epoch_secs: nat, counter: nat) -> Seq<char> {
    "run-"@ + hex(epoch_secs) + "-"@ + pad_left_spec(hex(counter), 4, '0')
}

/// Format a runner-id string from an epoch and a counter. Pure — no
/// hidden state.
pub fn fmt_runner_id(epoch_secs: u64, counter: u32) -> (s: String)
    ensures
        s@ == runner_id_spec(epoch_secs as nat, counter as nat),
{
    let mut s = "run-".to_owned();
    s.append(hex_u64(epoch_secs).as_str());
    s.append("-");
    s.append(pad_left(hex_u64(counter as u64).as_str(), 4, '0').as_str());
    s
}

/// The state that the runner ids of one server lifetime are issued from.
#[derive(Debug)]
pub struct RunnerIds {
    /// The start of the server, in unix seconds, once it is fixed.
    pub epoch_secs: Option<u64>,
    /// The counter of the next id.
    pub next: u32,
}

impl RunnerIds {
    /// No id issued, and no epoch fixed yet.
    pub fn new() -> (g: Self)
        ensures
            g.epoch_secs is None,
            g.next == 0,
    {
        RunnerIds { epoch_secs: None, next: 0 }
    }
}

impl RunnerId {
    /// Initialize the generator with this server's start epoch. Call
    /// once at server startup before any runners register. Subsequent
    /// calls are ignored so that nested code paths can call it
    /// defensively.
    pub fn init_generator(ids: &mut RunnerIds, start_secs: u64)
        ensures
            final(ids).epoch_secs == (if old(ids).epoch_secs is Some {
                old(ids).epoch_secs
            } else {
                Some(start_secs)
            }),
            final(ids).next == old(ids).next,
    {
        if ids.epoch_secs.is_none() {
            ids.epoch_secs = Some(start_secs);
        }
    }

    /// Issues the next id. Where no epoch is fixed yet, the current time is. The counter
    /// starts over behind its largest value.
    pub fn generate(ids: &mut RunnerIds, now_secs: u64) -> (id: Self)
        ensures
            final(ids).epoch_secs == (if old(ids).epoch_secs is Some {
                old(ids).epoch_secs
            } else {
                Some(now_secs)
            }),
            final(ids).next == (old(ids).next + 1) % 0x1_0000_0000,
            id.0@ == runner_id_spec(final(ids).epoch_secs->0 as nat, old(ids).next as nat),
    {
        let epoch: u64 = match ids.epoch_secs {
            Some(e) => e,
            None => now_secs,
        };
        let n: u32 = ids.next;
        ids.epoch_secs = Some(epoch);
        ids.next = if n == u32::MAX { 0 } else { n + 1 };
        RunnerId(fmt_runner_id(epoch, n))
    }
}

/// Execution identifier. Server-generated: "e-{epoch}-{seq}".
#[derive(Debug, PartialEq, Eq, Hash)]
pub struct ExecutionId(pub String);

impl Clone for ExecutionId {
    fn clone(&self) -> (r: Self)
        ensures
            r == *self,
    {
        ExecutionId(self.0.clone())
    }
}

impl ExecutionId {
    /// The identifier as text.
    pub fn to_text(&self) -> (s: String)
        ensures
            s@ == self.0@,
    {
        self.0.clone()
    }
}

/// Addresses a specific step attempt within an execution.
/// Format: "{execution_id}/{step_name}/{attempt}"
/// e.g. "aJuO-e1/propose/2"
#[derive(Debug, Clone, PartialEq, Eq, Hash)]
pub struct StepAttemptId {
    pub execution_id: ExecutionId,
    pub step: String,
    pub attempt: u32,
}

/// The text of a step attempt's address.
pub open spec fn step_attempt_spec(execution_id: Seq<char>, step: Seq<char>, attempt: nat) -> Seq<char> {
    execution_id + "/"@ + step + "/"@ + dec(attempt)
}

impl StepAttemptId {
    /// The address as text.
    pub fn to_text(&self) -> (s: String)
        ensures
            s@ == step_attempt_spec(self.execution_id.0@, self.step@, self.attempt as nat),
    {
        let mut s = self.execution_id.0.clone();
        s.append("/");
        s.append(self.step.as_str());
        s.append("/");
        s.append(dec_u64(self.attempt as u64).as_str());
        s
    }
}

/// The value of a hexadecimal digit.
spec fn hex_value(c: char) -> int {
    if c as int >= 97 {
        c as int - 87
    } else {
        c as int - 48
    }
}

/// The number that hexadecimal digits stand for.
spec fn hex_number(s: Seq<char>) -> int
    decreases s.len(),
{
    if s.len() == 0 {
        0
    } else {
        hex_number(s.drop_last()) * 16 + hex_value(s.last())
    }
}

proof fn lemma_hex_number(zeros: int, n: nat)
    requires
        zeros >= 0,
    ensures
        hex_number(repeat_spec('0', zeros) + hex(n)) == n,
        hex_number(repeat_spec('0', zeros)) == 0,
        hex(n).len() > 0,
        forall|i: int| 0 <= i < hex(n).len() ==> #[trigger] hex(n)[i] != '-',
    decreases zeros + n,
{
    let z = repeat_spec('0', zeros);
    if zeros > 0 {
        lemma_hex_number(zeros - 1, 0);
        assert(z.drop_last() =~= repeat_spec('0', zeros - 1));
        assert(z.last() == '0');
    }
    if n < 16 {
        assert((z + hex(n)).drop_last() =~= z);
        assert((z + hex(n)).last() == digit_char(n as int));
        assert(hex_value(digit_char(n as int)) == n);
        assert(hex_number(z) == 0);
        assert((z + hex(n)).len() > 0);
        assert(hex_number(z + hex(n)) == n);
    } else {
        lemma_hex_number(zeros, n / 16);
        let d = (n % 16) as int;
        assert((z + hex(n)).drop_last() =~= z + hex(n / 16));
        assert((z + hex(n)).last() == digit_char(d));
        assert(hex_value(digit_char(d)) == d);
        assert((n / 16) * 16 + d == n);
        assert(hex_number(z + hex(n / 16)) == n / 16);
        assert(hex_number(z + hex(n)) == hex_number(z + hex(n / 16)) * 16 + d);
    }
}

/// Runner ids never collide: ids with another epoch or another counter differ.
pub proof fn runner_ids_never_collide(epoch_a: u64, counter_a: u32, epoch_b: u64, counter_b: u32)
    requires
        epoch_a != epoch_b || counter_a != counter_b,
    ensures
        runner_id_spec(epoch_a as nat, counter_a as nat) != runner_id_spec(epoch_b as nat, counter_b as nat),
{
    let a = runner_id_spec(epoch_a as nat, counter_a as nat);
    let b = runner_id_spec(epoch_b as nat, counter_b as nat);
    let (ea, eb) = (hex(epoch_a as nat), hex(epoch_b as nat));
    let (ca, cb) = (pad_left_spec(hex(counter_a as nat), 4, '0'), pad_left_spec(hex(counter_b as nat), 4, '0'));
    reveal_strlit("run-");
    reveal_strlit("-");
    lemma_hex_number(0, epoch_a as nat);
    lemma_hex_number(0, epoch_b as nat);
    lemma_hex_number(if hex(counter_a as nat).len() < 4 { 4 - hex(counter_a as nat).len() } else { 0 }, counter_a as nat);
    lemma_hex_number(if hex(counter_b as nat).len() < 4 { 4 - hex(counter_b as nat).len() } else { 0 }, counter_b as nat);
    let (la, lb): (int, int) = (ea.len() as int, eb.len() as int);
    if a == b {
        assert(a[4 + la] == '-');
        assert(b[4 + lb] == '-');
        if la < lb {
            assert(b[4 + la] == eb[la]);
        }
        if lb < la {
            assert(a[4 + lb] == ea[lb]);
        }
        assert(ea =~= a.subrange(4, 4 + la));
        assert(eb =~= b.subrange(4, 4 + lb));
        assert(ca =~= a.skip(5 + la));
        assert(cb =~= b.skip(5 + lb));
        assert(repeat_spec('0', 0) + ea =~= ea);
        assert(repeat_spec('0', 0) + eb =~= eb);
        assert(repeat_spec('0', 4 - hex(counter_a as nat).len()) =~= repeat_spec(
            '0',
            if hex(counter_a as nat).len() < 4 { 4 - hex(counter_a as nat).len() } else { 0 },
        ));
        assert(repeat_spec('0', 4 - hex(counter_b as nat).len()) =~= repeat_spec(
            '0',
            if hex(counter_b as nat).len() < 4 { 4 - hex(counter_b as nat).len() } else { 0 },
        ));
    }
}

} // verus!
