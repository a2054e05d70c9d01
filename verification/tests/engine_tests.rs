use bor_core::actions::timeout_outcome;
use bor_core::engine::{decide, on_warning_issued, PendingAction};
use bor_core::ledger::WarningLedger;
use bor_core::settings::WarnBehavior;
use bor_core::timespec::{generate_ending_time, TimeoutTime};

#[test]
fn ban_threshold_boundary() {
    // Ban(threshold = 3): no ban below the threshold, one ban attempt at the
    // threshold, and again above it, since the comparison is at-or-above.
    let mut ledger = WarningLedger::new();
    let policy = WarnBehavior::Ban(3);
    let (msg1, c1, a1) = on_warning_issued(&mut ledger, &policy, 1, 2, "bob", String::from("one"), 0);
    assert_eq!(c1, 1);
    assert!(a1.is_none());
    assert_eq!(msg1, "Warned bob for one.");
    let (_, c2, a2) = on_warning_issued(&mut ledger, &policy, 1, 2, "bob", String::from("two"), 1);
    assert_eq!(c2, 2);
    assert!(a2.is_none());
    let (_, c3, a3) = on_warning_issued(&mut ledger, &policy, 1, 2, "bob", String::from("three"), 2);
    assert_eq!(c3, 3);
    match a3 {
        Some(PendingAction::Ban { reason, delete_history_days }) => {
            assert_eq!(reason, "Banned for accumulating 3 warnings.");
            assert_eq!(delete_history_days, 0);
        }
        other => panic!("expected a ban at the threshold, got {:?}", other.is_some()),
    }
    let (_, c4, a4) = on_warning_issued(&mut ledger, &policy, 1, 2, "bob", String::from("four"), 3);
    assert_eq!(c4, 4);
    match a4 {
        Some(PendingAction::Ban { reason, delete_history_days }) => {
            assert_eq!(reason, "Banned for accumulating 4 warnings.");
            assert_eq!(delete_history_days, 0);
        }
        other => panic!("expected a ban above the threshold, got {:?}", other.is_some()),
    }
}

#[test]
fn kick_policy_fires_like_ban() {
    let policy = WarnBehavior::Kick(2);
    assert!(decide(&policy, 1).is_none());
    match decide(&policy, 2) {
        Some(PendingAction::Kick { reason }) => {
            assert_eq!(reason, "Banned for accumulating 2 warnings.");
        }
        _ => panic!("expected a kick at the threshold"),
    }
}

#[test]
fn nothing_policy_never_fires() {
    let policy = WarnBehavior::Nothing;
    for count in [0u64, 1, 3, 255, 10_000] {
        assert!(decide(&policy, count).is_none());
    }
}

#[test]
fn timeout_policy_first_warning_suspends() {
    // Timeout{threshold = 1, duration = ten minutes}: one warning produces
    // exactly one suspension whose end lies close to now plus ten minutes,
    // the warning's own confirmation is non-empty, and the induced
    // suspension's confirmation is suppressed.
    let duration = TimeoutTime { seconds: None, minutes: Some(10), hours: None, days: None };
    let policy = WarnBehavior::Timeout { warning_count: 1, duration };
    let mut ledger = WarningLedger::new();
    let (msg, count, action) =
        on_warning_issued(&mut ledger, &policy, 5, 6, "carol", String::from("spam"), 0);
    assert_eq!(count, 1);
    assert!(!msg.is_empty());
    let got = match action {
        Some(PendingAction::Timeout { duration: d }) => d,
        _ => panic!("expected exactly one suspension"),
    };
    assert_eq!(got, duration);
    let until = generate_ending_time(&got).expect("ten minutes from now fits");
    let expected = chrono::Utc::now().timestamp() + 600;
    assert!((until - expected).abs() <= 5, "end instant {until} too far from {expected}");
    // The induced suspension is marked automatic: its confirmation is silence.
    assert!(timeout_outcome("carol", true, &Ok(())).is_none());
}

#[test]
fn decide_uses_current_threshold() {
    // After a clear and re-accumulation, the current threshold governs.
    let mut ledger = WarningLedger::new();
    let strict = WarnBehavior::Ban(2);
    on_warning_issued(&mut ledger, &strict, 1, 2, "bob", String::from("a"), 0);
    ledger.clear_warnings(1, 2).unwrap();
    let (_, c, a) = on_warning_issued(&mut ledger, &strict, 1, 2, "bob", String::from("b"), 1);
    assert_eq!(c, 1);
    assert!(a.is_none());
    let (_, c2, a2) = on_warning_issued(&mut ledger, &strict, 1, 2, "bob", String::from("c"), 2);
    assert_eq!(c2, 2);
    assert!(matches!(a2, Some(PendingAction::Ban { .. })));
}
