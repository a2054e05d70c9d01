use bor_core::codec::encode_settings_store;
use bor_core::settings::{GuildSettings, Log, RestrictedWords, Settings, WarnBehavior};
use bor_core::timespec::TimeoutTime;

#[test]
fn get_or_default_without_record() {
    // A group with no settings record reads as all defaults, and reading
    // creates no record: the persisted document is unchanged.
    let store = GuildSettings::new();
    let before = encode_settings_store(&store);
    let settings = store.get_or_default(42);
    assert_eq!(settings.warning_behavior, WarnBehavior::Nothing);
    assert_eq!(settings.log_channel, None);
    assert_eq!(settings.wiki_limit, None);
    assert!(settings.restricted_words.is_empty());
    let after = encode_settings_store(&store);
    assert_eq!(before, after);
    assert!(store.has_guild(42).is_none());
}

#[test]
fn set_warning_behavior_upserts() {
    let mut store = GuildSettings::new();
    store.set_warning_behavior(1, WarnBehavior::Kick(2));
    assert_eq!(store.get_or_default(1).warning_behavior, WarnBehavior::Kick(2));
    // Other fields stay at their defaults.
    assert_eq!(store.get_or_default(1).log_channel, None);
    // A second write overwrites the policy and keeps the rest.
    store.set_log_channel(1, 99);
    store.set_warning_behavior(1, WarnBehavior::Ban(5));
    assert_eq!(store.get_or_default(1).warning_behavior, WarnBehavior::Ban(5));
    assert_eq!(store.get_or_default(1).log_channel, Some(99));
    // Other groups are untouched.
    assert_eq!(store.get_or_default(2).warning_behavior, WarnBehavior::Nothing);
}

#[test]
fn log_channel_commands() {
    let mut store = GuildSettings::new();
    let msg = Log::set_log(&mut store, 555, "mod-log", 8);
    assert_eq!(msg, "Set log channel to mod-log");
    assert_eq!(store.get_or_default(8).log_channel, Some(555));
    let msg = Log::remove_log(&mut store, 8);
    assert_eq!(msg, "Removed log channel");
    assert_eq!(store.get_or_default(8).log_channel, None);
}

#[test]
fn wiki_limit_upserts() {
    let mut store = GuildSettings::new();
    store.set_wiki_limit(3, 1000);
    assert_eq!(store.get_or_default(3).wiki_limit, Some(1000));
}

#[test]
fn timeout_policy_round_trips_through_settings() {
    let duration = TimeoutTime { seconds: Some(30), minutes: None, hours: Some(1), days: None };
    let mut store = GuildSettings::new();
    store.set_warning_behavior(4, WarnBehavior::Timeout { warning_count: 3, duration });
    match store.get_or_default(4).warning_behavior {
        WarnBehavior::Timeout { warning_count, duration: d } => {
            assert_eq!(warning_count, 3);
            assert_eq!(d, duration);
        }
        _ => panic!("expected the timeout policy back"),
    }
}

#[test]
fn settings_builder_methods() {
    let mut s = Settings::new();
    s.set_log_channel(7);
    s.set_wiki_limit(250);
    s.set_warning_behavior(WarnBehavior::Ban(1));
    assert_eq!(s.log_channel, Some(7));
    assert_eq!(s.wiki_limit, Some(250));
    assert_eq!(s.warning_behavior, WarnBehavior::Ban(1));
    let copy = s.duplicate();
    assert_eq!(copy, s);
}

#[test]
fn restricted_word_add_and_remove() {
    let mut s = Settings::new();
    s._add_restricted_word(String::from("first"));
    s._add_restricted_word(String::from("second"));
    s._add_restricted_word(String::from("first"));
    assert_eq!(s.restricted_words, vec!["first", "second", "first"]);
    // Removing takes out the first occurrence only.
    assert!(s._remove_restricted_word(String::from("first")).is_ok());
    assert_eq!(s.restricted_words, vec!["second", "first"]);
    assert!(s._remove_restricted_word(String::from("absent")).is_err());
    assert_eq!(s.restricted_words, vec!["second", "first"]);
    s._set_restricted_words(vec![String::from("only")]);
    assert_eq!(s.restricted_words, vec!["only"]);
}

#[test]
fn remove_guild_drops_the_record() {
    let mut store = GuildSettings::new();
    assert!(store._remove_guild(1).is_err());
    store.set_warning_behavior(1, WarnBehavior::Ban(3));
    store.set_warning_behavior(2, WarnBehavior::Kick(1));
    assert!(store._remove_guild(1).is_ok());
    assert!(store.has_guild(1).is_none());
    assert_eq!(store.get_or_default(1).warning_behavior, WarnBehavior::Nothing);
    assert_eq!(store.get_or_default(2).warning_behavior, WarnBehavior::Kick(1));
}

#[test]
fn restricted_words_wraps_list() {
    let words = vec![String::from("a"), String::from("b")];
    let r = RestrictedWords::from_words(words.clone());
    assert_eq!(r.words, words);
}
