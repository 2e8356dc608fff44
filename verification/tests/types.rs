use ox::types::{fmt_runner_id, EventSeq, ExecutionId, RunnerId, RunnerIds, StepAttemptId};

#[test]
fn runner_id_format() {
    let id = RunnerId("run-4a2f".into());
    assert_eq!(id.to_text(), "run-4a2f");
}

#[test]
fn execution_id_format() {
    let id = ExecutionId("aJuO-e1".into());
    assert_eq!(id.to_text(), "aJuO-e1");
}

#[test]
fn step_attempt_id_format() {
    let id = StepAttemptId {
        execution_id: ExecutionId("aJuO-e1".into()),
        step: "propose".into(),
        attempt: 2,
    };
    assert_eq!(id.to_text(), "aJuO-e1/propose/2");
}

#[test]
fn seq_ordering() {
    assert!(EventSeq(1) < EventSeq(2));
    assert_eq!(EventSeq(42), EventSeq(42));
}

#[test]
fn event_seq_is_decimal() {
    assert_eq!(EventSeq(0).to_text(), "0");
    assert_eq!(EventSeq(u64::MAX).to_text(), "18446744073709551615");
}

/// Format contract: deterministic, hex-encoded epoch, 4-digit
/// zero-padded hex counter.
#[test]
fn fmt_runner_id_shape() {
    assert_eq!(fmt_runner_id(0x67c0a5b2, 0), "run-67c0a5b2-0000");
    assert_eq!(fmt_runner_id(0x67c0a5b2, 0xff), "run-67c0a5b2-00ff");
}

#[test]
fn fmt_runner_id_counter_outgrows_its_padding() {
    assert_eq!(fmt_runner_id(1, 0x12345), "run-1-12345");
    assert_eq!(fmt_runner_id(0, u32::MAX), "run-0-ffffffff");
}

/// The core invariant: IDs issued in different server lifetimes
/// must never collide, even when the counter starts from zero on
/// both sides.
#[test]
fn fmt_runner_id_distinct_epochs_never_collide() {
    let yesterday = fmt_runner_id(1_700_000_000, 0);
    let today = fmt_runner_id(1_700_086_400, 0);
    assert_ne!(yesterday, today, "same counter, different epoch → distinct ids");
}

/// Consecutive ids of one generator are distinct, with the same epoch
/// prefix and an advancing counter.
#[test]
fn generate_increments_counter_within_process() {
    let mut ids = RunnerIds::new();
    RunnerId::init_generator(&mut ids, 1_700_000_000);
    let a = RunnerId::generate(&mut ids, 1_700_000_009);
    let b = RunnerId::generate(&mut ids, 1_700_000_010);
    assert_ne!(a, b);
    let a_parts: Vec<&str> = a.0.split('-').collect();
    let b_parts: Vec<&str> = b.0.split('-').collect();
    assert_eq!(a_parts.len(), 3);
    assert_eq!(b_parts.len(), 3);
    assert_eq!(a_parts[0], "run");
    assert_eq!(a_parts[1], b_parts[1], "epoch must match across calls");
    assert_ne!(a_parts[2], b_parts[2], "counter must advance");
}

/// An initialized generator must use the supplied epoch.
#[test]
fn generate_uses_initialized_epoch() {
    let now: u64 = 1_771_000_000;
    let mut ids = RunnerIds::new();
    RunnerId::init_generator(&mut ids, now); // first writer wins
    RunnerId::init_generator(&mut ids, 5);
    let id = RunnerId::generate(&mut ids, 7);
    let epoch_hex = id.0.split('-').nth(1).unwrap();
    let parsed = u64::from_str_radix(epoch_hex, 16).expect("epoch must parse as hex");
    assert!(parsed > 0, "epoch must be non-zero");
    assert!(
        parsed >= now - 3600 && parsed <= now + 3600,
        "epoch {parsed} should be within ±1h of now ({now})"
    );
}

#[test]
fn generator_starts_over_behind_its_largest_counter() {
    let mut ids = RunnerIds { epoch_secs: None, next: u32::MAX };
    assert_eq!(RunnerId::generate(&mut ids, 1).0, "run-1-ffffffff");
    assert_eq!(RunnerId::generate(&mut ids, 2).0, "run-1-0000", "the epoch stays fixed");
}
