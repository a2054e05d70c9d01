use bor_core::ledger::WarningLedger;
use bor_core::moderation::{get_warns, remove_warns, warn};

#[test]
fn fresh_ledger_counts_zero() {
    let ledger = WarningLedger::new();
    assert_eq!(ledger.count_warnings(1, 2), 0);
    assert!(ledger.get_warnings(1, 2).is_none());
}

#[test]
fn warn_scenario_counts_and_order() {
    // Fresh ledger, group G, member M: two warnings accumulate in issuance
    // order, then clearing resets the count to zero.
    let mut ledger = WarningLedger::new();
    let g = 10;
    let m = 77;
    let c1 = ledger.add_warning(g, m, String::from("spam"), 1000);
    assert_eq!(c1, 1);
    assert_eq!(ledger.count_warnings(g, m), 1);
    let c2 = ledger.add_warning(g, m, String::from("spam again"), 1001);
    assert_eq!(c2, 2);
    assert_eq!(ledger.count_warnings(g, m), 2);
    let warnings = ledger.get_warnings(g, m).expect("a record exists");
    assert_eq!(warnings.len(), 2);
    assert_eq!(warnings[0].reason, "spam");
    assert_eq!(warnings[1].reason, "spam again");
    assert!(ledger.clear_warnings(g, m).is_ok());
    assert_eq!(ledger.count_warnings(g, m), 0);
}

#[test]
fn counts_are_per_pair() {
    // Calls for other pairs leave a pair's count untouched.
    let mut ledger = WarningLedger::new();
    ledger.add_warning(1, 1, String::from("a"), 0);
    ledger.add_warning(1, 2, String::from("b"), 1);
    ledger.add_warning(2, 1, String::from("c"), 2);
    ledger.add_warning(1, 1, String::from("d"), 3);
    assert_eq!(ledger.count_warnings(1, 1), 2);
    assert_eq!(ledger.count_warnings(1, 2), 1);
    assert_eq!(ledger.count_warnings(2, 1), 1);
    assert_eq!(ledger.count_warnings(2, 2), 0);
}

#[test]
fn clear_is_idempotent_on_existing_record() {
    let mut ledger = WarningLedger::new();
    for i in 0..5u64 {
        ledger.add_warning(3, 4, format!("offence {i}"), i as i64);
    }
    assert_eq!(ledger.count_warnings(3, 4), 5);
    assert!(ledger.clear_warnings(3, 4).is_ok());
    assert_eq!(ledger.count_warnings(3, 4), 0);
    let emptied = ledger.get_warnings(3, 4).expect("the record remains");
    assert!(emptied.is_empty());
    // A second clear on the now-empty record still succeeds.
    assert!(ledger.clear_warnings(3, 4).is_ok());
    assert_eq!(ledger.count_warnings(3, 4), 0);
}

#[test]
fn clear_without_record_reports_not_found() {
    let mut ledger = WarningLedger::new();
    assert!(ledger.clear_warnings(3, 4).is_err());
    ledger.add_warning(3, 5, String::from("x"), 0);
    // The group now exists, but this member has no record.
    assert!(ledger.clear_warnings(3, 4).is_err());
}

#[test]
fn warn_message_confirms() {
    let mut ledger = WarningLedger::new();
    let msg = warn(&mut ledger, 1, 2, "alice", String::from("spam"), 50);
    assert_eq!(msg, "Warned alice for spam.");
    assert_eq!(ledger.count_warnings(1, 2), 1);
}

#[test]
fn remove_warns_messages() {
    let mut ledger = WarningLedger::new();
    assert_eq!(
        remove_warns(&mut ledger, 1, 2, "alice"),
        "There are no warnings to remove"
    );
    ledger.add_warning(1, 2, String::from("spam"), 0);
    assert_eq!(
        remove_warns(&mut ledger, 1, 2, "alice"),
        "Removed all warnings for user alice"
    );
    assert_eq!(ledger.count_warnings(1, 2), 0);
}

#[test]
fn get_warns_messages() {
    let mut ledger = WarningLedger::new();
    assert_eq!(
        get_warns(&ledger, 1, 2, "alice"),
        "User alice has no warnings on record."
    );
    ledger.add_warning(1, 2, String::from("spam"), 0);
    ledger.add_warning(1, 2, String::from("flood"), 1);
    assert_eq!(
        get_warns(&ledger, 1, 2, "alice"),
        "Warnings for alice:\n- spam\n- flood\n"
    );
}
