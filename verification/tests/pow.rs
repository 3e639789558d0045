use pickle::identity::pow::{
    expected_hashes, leading_zero_bits, mine, security_level, MineProgress, PROGRESS_INTERVAL,
};

fn test_key() -> [u8; 32] {
    [0x42; 32]
}

#[test]
fn leading_zero_bits_counts_correctly() {
    assert_eq!(leading_zero_bits(&[0xff, 0x00]), 0);
    assert_eq!(leading_zero_bits(&[0x7f, 0x00]), 1);
    assert_eq!(leading_zero_bits(&[0x01, 0x00]), 7);
    assert_eq!(leading_zero_bits(&[0x00, 0xff]), 8);
    assert_eq!(leading_zero_bits(&[0x00, 0x00, 0x80]), 16);
    assert_eq!(leading_zero_bits(&[0x00, 0x00, 0x00, 0x00]), 32);
}

#[test]
fn security_level_is_deterministic() {
    let key = test_key();
    assert_eq!(security_level(&key, 12345), security_level(&key, 12345));
}

#[test]
fn security_level_depends_on_both_key_and_counter() {
    assert_ne!(
        security_level(&test_key(), 1),
        security_level(&[0x43; 32], 1)
    );
}

#[test]
fn mine_reaches_a_modest_target() {
    let key = test_key();
    let report = mine(&key, 0, 10, &mut |_: MineProgress| true);
    assert!(!report.cancelled);
    assert!(report.level >= 10);
    // The returned counter must actually be a valid witness.
    assert_eq!(security_level(&key, report.counter), report.level);
}

#[test]
fn mine_never_returns_a_worse_counter_than_it_started_with() {
    let key = test_key();
    let good = mine(&key, 0, 12, &mut |_: MineProgress| true);
    // Ask for something already satisfied; the witness must survive.
    let again = mine(&key, good.counter, 4, &mut |_: MineProgress| true);
    assert_eq!(again.counter, good.counter);
    assert_eq!(again.hashes, 0);
}

#[test]
fn cancellation_keeps_partial_work() {
    let key = test_key();
    // Target far out of reach so the run can only end by cancelling.
    let report = mine(&key, 0, 64, &mut |p: MineProgress| p.hashes < PROGRESS_INTERVAL * 2);
    assert!(report.cancelled);
    assert_eq!(security_level(&key, report.counter), report.level);
}

#[test]
fn expected_hashes_saturates_instead_of_overflowing() {
    assert_eq!(expected_hashes(10), 1024);
    assert_eq!(expected_hashes(200), u64::MAX);
}

#[test]
fn mining_reports_every_so_many_hashes() {
    let key = test_key();
    let mut seen: Vec<u64> = Vec::new();
    let report = mine(&key, 0, 64, &mut |p: MineProgress| {
        seen.push(p.hashes);
        seen.len() < 2
    });
    assert_eq!(seen, vec![PROGRESS_INTERVAL, PROGRESS_INTERVAL * 2]);
    assert_eq!(report.hashes, PROGRESS_INTERVAL * 2);
}

#[test]
fn a_sample_is_shown_every_interval_until_the_answer_is_no() {
    let key = [0x42; 32];
    let mut seen = Vec::new();
    let report = mine(&key, 7, 200, &mut |p: MineProgress| {
        seen.push(p);
        seen.len() < 3
    });
    assert!(report.cancelled);
    assert!(report.level < 200);
    assert_eq!(report.hashes, 3 * 65_536);
    assert_eq!(seen.len(), 3);
    for (i, p) in seen.iter().enumerate() {
        let hashes = (i as u64 + 1) * 65_536;
        assert_eq!(p.hashes, hashes);
        assert_eq!(p.counter, 7 + hashes);
        let best = (7..=p.counter).map(|c| security_level(&key, c)).max();
        assert_eq!(Some(p.best_level), best);
    }
}
