use bor_core::actions::{ban_outcome, kick_outcome, release_outcome, timeout_outcome, SuspensionStatus};
use bor_core::data::{DataManipulation, GuildData, UsageData};
use bor_core::error::Error;
use bor_core::logging::Logger;
use bor_core::meta::meta;
use bor_core::numfmt::u64_dec_str;
use bor_core::random::{coin, coin_outcome, roulette, roulette_outcome};
use bor_core::timespec::{ending_time_at, generate_ending_time, TimeoutTime};

#[test]
fn decimal_rendering() {
    assert_eq!(u64_dec_str(0), "0");
    assert_eq!(u64_dec_str(7), "7");
    assert_eq!(u64_dec_str(42), "42");
    assert_eq!(u64_dec_str(1000), "1000");
    assert_eq!(u64_dec_str(u64::MAX), "18446744073709551615");
}

#[test]
fn error_carries_message_and_fatality() {
    let e = Error::new(String::from("disk full"), 3);
    assert!(!e.is_fatal());
    assert_eq!(e.code(), 3);
    assert_eq!(e.message(), "Error disk full.");
    let f = e.fatal();
    assert!(f.is_fatal());
    assert_eq!(f.code(), 3);
    assert_eq!(f.message(), "Error disk full.");
}

#[test]
fn logger_composes_lines() {
    let plain = Logger::new("core").timestamp(false);
    assert_eq!(plain.line("ignored", "hello"), "[core] hello");
    let stamped = Logger::new("core");
    assert_eq!(stamped.line("2024-01-01", "hello"), "[2024-01-01 core] hello");
    let with_file = Logger::new("core").file(String::from("/tmp/x.log"));
    assert_eq!(with_file.file_path().map(|s| s.as_str()), Some("/tmp/x.log"));
    assert!(plain.file_path().is_none());
}

#[test]
fn meta_names_the_author() {
    assert_eq!(
        meta(),
        "Written by: Decator <decator.c@proton.me>.\nSee the source code: https://github.com/Sir-Bobert-II/BOR"
    );
}

#[test]
fn action_messages() {
    assert_eq!(ban_outcome("bob", &Ok(())), "Banned 'bob'");
    assert_eq!(
        ban_outcome("bob", &Err(String::from("missing permission"))),
        "Error banning guild member: missing permission"
    );
    assert_eq!(kick_outcome("bob", &Ok(())), "Kicked 'bob'");
    assert_eq!(
        kick_outcome("bob", &Err(String::from("gone"))),
        "Error kicking guild member: gone"
    );
    assert_eq!(
        timeout_outcome("bob", false, &Ok(())).as_deref(),
        Some("Timed out user bob")
    );
    assert_eq!(timeout_outcome("bob", true, &Ok(())), None);
    assert_eq!(
        timeout_outcome("bob", true, &Err(String::from("denied"))).as_deref(),
        Some("Error: denied")
    );
    assert_eq!(
        release_outcome("bob", &Ok(())),
        "Released user bob from their timeout."
    );
    assert_eq!(release_outcome("bob", &Err(String::from("denied"))), "Error: denied");
}

#[test]
fn suspension_state_machine() {
    let s = SuspensionStatus::Active;
    let s = s.on_timeout_applied(100);
    assert_eq!(s, SuspensionStatus::Suspended { until: 100 });
    // A second timeout overwrites the end instant: last write wins.
    let s = s.on_timeout_applied(50);
    assert_eq!(s, SuspensionStatus::Suspended { until: 50 });
    // Expiry before the instant changes nothing; at the instant it releases.
    assert_eq!(s.on_expiry(49), s);
    assert_eq!(s.on_expiry(50), SuspensionStatus::Active);
    // A release clears the suspension regardless of remaining duration.
    assert_eq!(s.on_release(), SuspensionStatus::Active);
}

#[test]
fn timespec_is_none_and_sum() {
    let none = TimeoutTime { seconds: None, minutes: None, hours: None, days: None };
    assert!(none.is_none());
    let some = TimeoutTime { seconds: Some(5), minutes: None, hours: None, days: None };
    assert!(!some.is_none());
    let mixed = TimeoutTime { seconds: Some(5), minutes: Some(1), hours: Some(2), days: Some(1) };
    // 5 + 60 + 7200 + 86400 seconds from instant 1000.
    assert_eq!(ending_time_at(1000, &mixed), Some(1000 + 5 + 60 + 7200 + 86400));
}

#[test]
fn timespec_overflow_is_reported() {
    let huge = TimeoutTime { seconds: Some(i64::MAX), minutes: None, hours: None, days: None };
    assert_eq!(ending_time_at(10, &huge), None);
    let negative = TimeoutTime { seconds: Some(-100), minutes: None, hours: None, days: None };
    assert_eq!(ending_time_at(50, &negative), Some(-50));
}

#[test]
fn generate_ending_time_tracks_the_clock() {
    let ten_min = TimeoutTime { seconds: None, minutes: Some(10), hours: None, days: None };
    let until = generate_ending_time(&ten_min).expect("fits");
    let expected = chrono::Utc::now().timestamp() + 600;
    assert!((until - expected).abs() <= 5);
}

#[test]
fn chance_messages_are_well_formed() {
    assert_eq!(coin_outcome(true), "Heads");
    assert_eq!(coin_outcome(false), "Tails");
    assert_eq!(roulette_outcome(0), "Dead");
    assert_eq!(roulette_outcome(3), "Alive");
    for _ in 0..16 {
        let c = coin();
        assert!(c == "Heads" || c == "Tails");
        let r = roulette();
        assert!(r == "Dead" || r == "Alive");
    }
}

#[test]
fn usage_data_tallies() {
    let mut data = UsageData::new();
    data.increment_command_count(String::from("warn"), 1);
    data.increment_command_count(String::from("warn"), 2);
    data.increment_command_count(String::from("meta"), 1);
    assert_eq!(data.cdata.len(), 2);
    assert_eq!(data.cdata[0].cname, "warn");
    assert_eq!(data.cdata[0].requests.len(), 2);
    assert_eq!(data.cdata[0].requests[1].0, 2);
    assert_eq!(data.cdata[1].cname, "meta");

    data.increment_guild_count(5, String::from("guild"), 1);
    data.increment_guild_count(5, String::from("guild"), 7);
    assert_eq!(data.gdata.len(), 1);
    assert_eq!(data.gdata[0].requests.len(), 2);
    assert_eq!(data.gdata[0].requests[1].0, 7);

    // A fresh user record is tallied once more on creation, as a separate
    // entry.
    data.increment_user_count(9, String::from("alice"), 4);
    assert_eq!(data.udata.len(), 1);
    assert_eq!(data.udata[0].requests.len(), 2);
    assert_eq!(data.udata[0].requests[1].0, 4);
}

#[test]
fn data_trait_increments() {
    let mut g = GuildData { gid: 1, gname: String::from("g"), requests: Vec::new() };
    g.increment(5);
    assert_eq!(g.requests.len(), 1);
    assert_eq!(g.requests[0].0, 5);
}

#[test]
fn manage_data_prunes_old_entries() {
    let now = 100 * 86400; // an arbitrary instant, far from any overflow
    let fresh = now - 86400; // one day old: kept
    let stale = now - 40 * 86400; // forty days old: pruned
    let mut data = UsageData::new();
    data.gdata.push(GuildData {
        gid: 1,
        gname: String::from("g"),
        requests: vec![(1, stale), (2, fresh), (3, stale)],
    });
    bor_core::data::mangage_data(&mut data, now);
    assert_eq!(data.gdata.len(), 1);
    assert_eq!(data.gdata[0].requests, vec![(2, fresh)]);
}
