use bor_core::codec::{
    decode_ledger, decode_settings_store, encode_ledger, encode_settings_store,
};
use bor_core::ledger::WarningLedger;
use bor_core::settings::{GuildSettings, Settings, WarnBehavior};
use bor_core::timespec::TimeoutTime;

fn sample_ledger() -> WarningLedger {
    let mut ledger = WarningLedger::new();
    ledger.add_warning(1, 10, String::from("spam"), 1700000000);
    ledger.add_warning(1, 10, String::from("flood \u{1F980} unicode"), 1700000100);
    ledger.add_warning(1, 11, String::from(""), -5);
    ledger.add_warning(9, 10, String::from("elsewhere"), 0);
    ledger
}

fn sample_store() -> GuildSettings {
    let mut store = GuildSettings::new();
    store.set_warning_behavior(1, WarnBehavior::Ban(3));
    store.set_log_channel(1, 4242);
    store.set_warning_behavior(
        2,
        WarnBehavior::Timeout {
            warning_count: 1,
            duration: TimeoutTime {
                seconds: None,
                minutes: Some(10),
                hours: None,
                days: Some(-1),
            },
        },
    );
    store.set_wiki_limit(3, 500);
    let mut s = Settings::new();
    s.restricted_words.push(String::from("verboten"));
    s.restricted_words.push(String::from("also verboten"));
    store.add_guild(7, s);
    store
}

#[test]
fn ledger_round_trip() {
    // Saving and loading the ledger yields a document equal per entity and
    // per field to the one saved.
    let ledger = sample_ledger();
    let text = encode_ledger(&ledger);
    let back = decode_ledger(text.as_str()).expect("an encoding decodes");
    assert_eq!(back, ledger);
}

#[test]
fn empty_ledger_round_trip() {
    let ledger = WarningLedger::new();
    let text = encode_ledger(&ledger);
    let back = decode_ledger(text.as_str()).expect("an encoding decodes");
    assert_eq!(back, ledger);
}

#[test]
fn store_round_trip() {
    let store = sample_store();
    let text = encode_settings_store(&store);
    let back = decode_settings_store(text.as_str()).expect("an encoding decodes");
    assert_eq!(back, store);
}

#[test]
fn empty_store_round_trip() {
    let store = GuildSettings::new();
    let text = encode_settings_store(&store);
    let back = decode_settings_store(text.as_str()).expect("an encoding decodes");
    assert_eq!(back, store);
}

#[test]
fn corrupt_ledger_text_is_rejected() {
    // A syntactically invalid document is distinguishable from a missing
    // file: decoding reports it instead of yielding a fresh document.
    assert!(decode_ledger("").is_none());
    assert!(decode_ledger("not a ledger document").is_none());
    let mut text = encode_ledger(&sample_ledger());
    text.push('x');
    assert!(decode_ledger(text.as_str()).is_none());
    let truncated: String = {
        let full = encode_ledger(&sample_ledger());
        let mut chars: Vec<char> = full.chars().collect();
        chars.pop();
        chars.into_iter().collect()
    };
    assert!(decode_ledger(truncated.as_str()).is_none());
}

#[test]
fn corrupt_store_text_is_rejected() {
    assert!(decode_settings_store("").is_none());
    assert!(decode_settings_store("garbage").is_none());
    let mut text = encode_settings_store(&sample_store());
    text.push('!');
    assert!(decode_settings_store(text.as_str()).is_none());
}

#[test]
fn decoded_counts_match_lengths() {
    // The redundant per-member count is rebuilt from the warnings read back.
    let ledger = sample_ledger();
    let text = encode_ledger(&ledger);
    let back = decode_ledger(text.as_str()).expect("an encoding decodes");
    for group in &back.groups {
        for user in &group.users {
            assert_eq!(user.warning_count as usize, user.warnings.len());
        }
    }
}
