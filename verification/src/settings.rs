//! Per-group configuration: the escalation policy, an optional log channel,
//! an optional response length limit, and extra restricted terms.
//!
//! The store is a sequence of per-group records; lookups take the first
//! record whose key matches. A group with no record reads as the default
//! settings, and reading never creates a record.

use crate::timespec::TimeoutTime;
use vstd::prelude::*;

verus! {

/// How a group escalates accumulated warnings into a punitive action.
#[derive(Clone, Copy, Debug, PartialEq, Eq)]
pub enum WarnBehavior {
    /// Do nothing: no warning limit.
    Nothing,
    /// Ban a member once the warning count reaches the threshold.
    Ban(u8),
    /// Kick a member once the warning count reaches the threshold.
    Kick(u8),
    /// Suspend a member for a fixed duration once the warning count reaches
    /// the threshold.
    Timeout { warning_count: u8, duration: TimeoutTime },
}

/// One group's configuration.
#[derive(Debug, PartialEq)]
pub struct Settings {
    /// The longest response the wiki-style lookup may return.
    pub wiki_limit: Option<usize>,
    /// The channel events are logged to.
    pub log_channel: Option<u64>,
    /// Restricted terms local to the group.
    pub restricted_words: Vec<String>,
    /// How to escalate once a warning threshold is met.
    pub warning_behavior: WarnBehavior,
}

/// One group's record in the store.
#[derive(Debug, PartialEq)]
pub struct GuildSetting {
    pub gid: u64,
    pub settings: Settings,
}

/// The root aggregate: all per-group configuration records.
#[derive(Debug, PartialEq)]
pub struct GuildSettings {
    pub guilds: Vec<GuildSetting>,
}

/// The model of one group's configuration.
#[verifier::ext_equal]
pub struct SettingsV {
    pub wiki_limit: Option<usize>,
    pub log_channel: Option<u64>,
    pub restricted_words: Seq<Seq<char>>,
    pub warning_behavior: WarnBehavior,
}

/// The model of one group's record.
#[verifier::ext_equal]
pub struct GuildSettingV {
    pub gid: u64,
    pub settings: SettingsV,
}

impl View for Settings {
    type V = SettingsV;

    open spec fn view(&self) -> SettingsV {
        SettingsV {
            wiki_limit: self.wiki_limit,
            log_channel: self.log_channel,
            restricted_words: self.restricted_words@.map_values(|s: String| s@),
            warning_behavior: self.warning_behavior,
        }
    }
}

impl View for GuildSetting {
    type V = GuildSettingV;

    open spec fn view(&self) -> GuildSettingV {
        GuildSettingV { gid: self.gid, settings: self.settings@ }
    }
}

impl View for GuildSettings {
    type V = Seq<GuildSettingV>;

    open spec fn view(&self) -> Seq<GuildSettingV> {
        self.guilds@.map_values(|g: GuildSetting| g@)
    }
}

/// The default configuration: no limits, no log channel, no restricted
/// terms, and no automated escalation.
pub open spec fn default_settings() -> SettingsV {
    SettingsV {
        wiki_limit: None,
        log_channel: None,
        restricted_words: Seq::empty(),
        warning_behavior: WarnBehavior::Nothing,
    }
}

/// The configuration of the first record for `gid`, or the default if there
/// is none.
pub open spec fn settings_in(guilds: Seq<GuildSettingV>, gid: u64) -> SettingsV
    decreases guilds.len(),
{
    if guilds.len() == 0 {
        default_settings()
    } else if guilds[0].gid == gid {
        guilds[0].settings
    } else {
        settings_in(guilds.drop_first(), gid)
    }
}

/// Whether some record for `gid` exists.
pub open spec fn has_guild_in(guilds: Seq<GuildSettingV>, gid: u64) -> bool
    decreases guilds.len(),
{
    if guilds.len() == 0 {
        false
    } else if guilds[0].gid == gid {
        true
    } else {
        has_guild_in(guilds.drop_first(), gid)
    }
}

proof fn lemma_guild_first_match(guilds: Seq<GuildSettingV>, gid: u64, i: int)
    requires
        0 <= i < guilds.len(),
        guilds[i].gid == gid,
        forall|j: int| 0 <= j < i ==> guilds[j].gid != gid,
    ensures
        has_guild_in(guilds, gid),
        settings_in(guilds, gid) == guilds[i].settings,
    decreases i,
{
    if i > 0 {
        lemma_guild_first_match(guilds.drop_first(), gid, i - 1);
    }
}

proof fn lemma_guild_no_match(guilds: Seq<GuildSettingV>, gid: u64)
    requires
        forall|j: int| 0 <= j < guilds.len() ==> guilds[j].gid != gid,
    ensures
        !has_guild_in(guilds, gid),
        settings_in(guilds, gid) == default_settings(),
    decreases guilds.len(),
{
    if guilds.len() > 0 {
        lemma_guild_no_match(guilds.drop_first(), gid);
    }
}

proof fn lemma_guild_update_same(guilds: Seq<GuildSettingV>, i: int, ng: GuildSettingV)
    requires
        0 <= i < guilds.len(),
        ng.gid == guilds[i].gid,
    ensures
        forall|g2: u64|
            g2 != ng.gid ==> settings_in(guilds.update(i, ng), g2) == settings_in(guilds, g2)
                && has_guild_in(guilds.update(i, ng), g2) == has_guild_in(guilds, g2),
        has_guild_in(guilds.update(i, ng), ng.gid) == has_guild_in(guilds, ng.gid),
    decreases i,
{
    let updated = guilds.update(i, ng);
    if i == 0 {
        assert(updated.drop_first() =~= guilds.drop_first());
    } else {
        lemma_guild_update_same(guilds.drop_first(), i - 1, ng);
        assert(updated.drop_first() =~= guilds.drop_first().update(i - 1, ng));
        assert(updated[0] == guilds[0]);
    }
    assert forall|g2: u64| g2 != ng.gid implies settings_in(updated, g2) == settings_in(guilds, g2)
        && has_guild_in(updated, g2) == has_guild_in(guilds, g2) by {
        assert(updated[0].gid == guilds[0].gid);
        if guilds[0].gid == g2 {
            assert(updated[0].settings == guilds[0].settings);
        } else {
            assert(settings_in(updated, g2) == settings_in(updated.drop_first(), g2));
            assert(settings_in(guilds, g2) == settings_in(guilds.drop_first(), g2));
            assert(has_guild_in(updated, g2) == has_guild_in(updated.drop_first(), g2));
            assert(has_guild_in(guilds, g2) == has_guild_in(guilds.drop_first(), g2));
        }
    }
}

proof fn lemma_guild_update_first(guilds: Seq<GuildSettingV>, i: int, ng: GuildSettingV)
    requires
        0 <= i < guilds.len(),
        ng.gid == guilds[i].gid,
        forall|j: int| 0 <= j < i ==> guilds[j].gid != guilds[i].gid,
    ensures
        settings_in(guilds.update(i, ng), ng.gid) == ng.settings,
        has_guild_in(guilds.update(i, ng), ng.gid),
    decreases i,
{
    let updated = guilds.update(i, ng);
    if i > 0 {
        lemma_guild_update_first(guilds.drop_first(), i - 1, ng);
        assert(updated.drop_first() =~= guilds.drop_first().update(i - 1, ng));
    }
}

proof fn lemma_guild_push(guilds: Seq<GuildSettingV>, ng: GuildSettingV)
    ensures
        forall|g2: u64|
            g2 != ng.gid ==> settings_in(guilds.push(ng), g2) == settings_in(guilds, g2)
                && has_guild_in(guilds.push(ng), g2) == has_guild_in(guilds, g2),
        !has_guild_in(guilds, ng.gid) ==> settings_in(guilds.push(ng), ng.gid) == ng.settings,
        has_guild_in(guilds.push(ng), ng.gid),
    decreases guilds.len(),
{
    let pushed = guilds.push(ng);
    if guilds.len() == 0 {
        assert(pushed[0] == ng);
        assert(pushed.drop_first() =~= Seq::<GuildSettingV>::empty());
        lemma_guild_no_match(pushed.drop_first(), ng.gid);
        assert forall|g2: u64| g2 != ng.gid implies settings_in(pushed, g2) == settings_in(
            guilds,
            g2,
        ) && has_guild_in(pushed, g2) == has_guild_in(guilds, g2) by {
            lemma_guild_no_match(pushed.drop_first(), g2);
            lemma_guild_no_match(guilds, g2);
        }
    } else {
        lemma_guild_push(guilds.drop_first(), ng);
        assert(pushed.drop_first() =~= guilds.drop_first().push(ng));
        assert(pushed[0] == guilds[0]);
        assert forall|g2: u64| g2 != ng.gid implies settings_in(pushed, g2) == settings_in(
            guilds,
            g2,
        ) && has_guild_in(pushed, g2) == has_guild_in(guilds, g2) by {
            assert(settings_in(pushed.drop_first(), g2) == settings_in(guilds.drop_first(), g2));
        }
    }
}

/// Copy a list of restricted terms.
fn clone_words(words: &Vec<String>) -> (r: Vec<String>)
    ensures
        r@.map_values(|s: String| s@) =~= words@.map_values(|s: String| s@),
{
    let mut r: Vec<String> = Vec::new();
    let mut i: usize = 0;
    while i < words.len()
        invariant
            i <= words@.len(),
            r@.len() == i,
            forall|j: int| 0 <= j < i ==> r@[j]@ == words@[j]@,
        decreases words@.len() - i,
    {
        r.push(words[i].clone());
        i = i + 1;
    }
    r
}

impl Settings {
    /// A configuration with every field at its default.
    pub fn new() -> (r: Self)
        ensures
            r@ =~~= default_settings(),
    {
        let fresh_words: Vec<String> = Vec::new();
        Settings {
            wiki_limit: None,
            log_channel: None,
            restricted_words: fresh_words,
            warning_behavior: WarnBehavior::Nothing,
        }
    }

    /// Set the channel events are logged to.
    pub fn set_log_channel(&mut self, c: u64)
        ensures
            final(self)@ == (SettingsV { log_channel: Some(c), ..old(self)@ }),
    {
        self.log_channel = Some(c);
    }

    /// Set the longest response the wiki-style lookup may return.
    pub fn set_wiki_limit(&mut self, limit: usize)
        ensures
            final(self)@ == (SettingsV { wiki_limit: Some(limit), ..old(self)@ }),
    {
        self.wiki_limit = Some(limit);
    }

    /// Set how the group escalates accumulated warnings.
    pub fn set_warning_behavior(&mut self, b: WarnBehavior)
        ensures
            final(self)@ == (SettingsV { warning_behavior: b, ..old(self)@ }),
    {
        self.warning_behavior = b;
    }

    /// Replace the group's restricted terms wholesale.
    pub fn _set_restricted_words(&mut self, words: Vec<String>)
        ensures
            final(self)@ == (SettingsV {
                restricted_words: words@.map_values(|s: String| s@),
                ..old(self)@
            }),
    {
        self.restricted_words = words;
    }

    /// Append one restricted term.
    pub fn _add_restricted_word(&mut self, word: String)
        ensures
            final(self)@ =~~= (SettingsV {
                restricted_words: old(self)@.restricted_words.push(word@),
                ..old(self)@
            }),
    {
        self.restricted_words.push(word);
    }

    /// Remove the first occurrence of a restricted term; report failure, and
    /// change nothing, if the term is not present.
    pub fn _remove_restricted_word(&mut self, word: String) -> (r: Result<(), ()>)
        ensures
            r is Ok <==> exists|i: int|
                0 <= i < old(self)@.restricted_words.len() && old(
                    self,
                )@.restricted_words[i] == word@,
            r is Ok ==> exists|i: int|
                {
                    &&& 0 <= i < old(self)@.restricted_words.len()
                    &&& old(self)@.restricted_words[i] == word@
                    &&& forall|j: int| 0 <= j < i ==> old(self)@.restricted_words[j] != word@
                    &&& final(self)@ =~~= (SettingsV {
                        restricted_words: old(self)@.restricted_words.remove(i),
                        ..old(self)@
                    })
                },
            r is Err ==> final(self)@ == old(self)@,
    {
        let mut i: usize = 0;
        while i < self.restricted_words.len()
            invariant
                i <= self.restricted_words@.len(),
                *self == *old(self),
                forall|j: int| 0 <= j < i ==> old(self)@.restricted_words[j] != word@,
            decreases self.restricted_words@.len() - i,
        {
            proof {
                assert(old(self)@.restricted_words[i as int] == self.restricted_words@[i as int]@);
            }
            if self.restricted_words[i].eq(&word) {
                let ghost pre: Seq<Seq<char>> = self@.restricted_words;
                self.restricted_words.remove(i);
                proof {
                    assert(pre[i as int] == word@);
                    assert(self@.restricted_words =~= pre.remove(i as int));
                    assert(self@ =~~= (SettingsV {
                        restricted_words: old(self)@.restricted_words.remove(i as int),
                        ..old(self)@
                    }));
                }
                return Ok(());
            }
            i = i + 1;
        }
        proof {
            assert forall|j: int|
                0 <= j < old(self)@.restricted_words.len() implies old(self)@.restricted_words[j]
                != word@ by {}
        }
        Err(())
    }

    /// Copy this configuration.
    pub fn duplicate(&self) -> (r: Self)
        ensures
            r@ =~~= self@,
    {
        Settings {
            wiki_limit: self.wiki_limit,
            log_channel: self.log_channel,
            restricted_words: clone_words(&self.restricted_words),
            warning_behavior: self.warning_behavior,
        }
    }
}

/// The index of the first record for `gid`, if any.
fn find_guild(guilds: &Vec<GuildSetting>, gid: u64) -> (r: Option<usize>)
    ensures
        match r {
            Some(i) => i < guilds@.len() && guilds@[i as int].gid == gid && forall|j: int|
                0 <= j < i ==> guilds@[j].gid != gid,
            None => forall|j: int| 0 <= j < guilds@.len() ==> guilds@[j].gid != gid,
        },
{
    let mut i: usize = 0;
    while i < guilds.len()
        invariant
            i <= guilds@.len(),
            forall|j: int| 0 <= j < i ==> guilds@[j].gid != gid,
        decreases guilds@.len() - i,
    {
        if guilds[i].gid == gid {
            return Some(i);
        }
        i = i + 1;
    }
    None
}

impl GuildSettings {
    /// A fresh, empty store.
    pub fn new() -> (r: Self)
        ensures
            r@ =~= Seq::<GuildSettingV>::empty(),
    {
        GuildSettings { guilds: Vec::new() }
    }

    /// Append a record for a group. The record shadows nothing: callers add
    /// a group only after `has_guild` found none.
    pub fn add_guild(&mut self, gid: u64, settings: Settings)
        ensures
            final(self)@ =~~= old(self)@.push(GuildSettingV { gid, settings: settings@ }),
    {
        self.guilds.push(GuildSetting { gid, settings });
    }

    /// The position of the group's record, if it has one.
    pub fn has_guild(&self, gid: u64) -> (r: Option<usize>)
        ensures
            r is Some <==> has_guild_in(self@, gid),
            match r {
                Some(i) => i < self@.len() && self@[i as int].gid == gid && settings_in(self@, gid)
                    == self@[i as int].settings,
                None => settings_in(self@, gid) == default_settings(),
            },
    {
        let r = find_guild(&self.guilds, gid);
        proof {
            match r {
                Some(i) => lemma_guild_first_match(self@, gid, i as int),
                None => lemma_guild_no_match(self@, gid),
            }
        }
        r
    }

    /// Remove the group's record; report failure, and change nothing, if the
    /// group has none.
    pub fn _remove_guild(&mut self, gid: u64) -> (r: Result<(), ()>)
        ensures
            r is Ok <==> has_guild_in(old(self)@, gid),
            r is Ok ==> exists|i: int|
                {
                    &&& 0 <= i < old(self)@.len()
                    &&& old(self)@[i].gid == gid
                    &&& forall|j: int| 0 <= j < i ==> old(self)@[j].gid != gid
                    &&& final(self)@ =~~= old(self)@.remove(i)
                },
            r is Err ==> final(self)@ == old(self)@,
    {
        let ghost v0: Seq<GuildSettingV> = self@;
        match find_guild(&self.guilds, gid) {
            Some(i) => {
                proof {
                    lemma_guild_first_match(v0, gid, i as int);
                }
                self.guilds.remove(i);
                proof {
                    assert(self@ =~= v0.remove(i as int));
                }
                Ok(())
            },
            None => {
                proof {
                    lemma_guild_no_match(v0, gid);
                }
                Err(())
            },
        }
    }

    /// The group's configuration, or the default if it has no record. This
    /// reads only: no record is created.
    pub fn get_or_default(&self, gid: u64) -> (r: Settings)
        ensures
            r@ =~~= settings_in(self@, gid),
    {
        match self.has_guild(gid) {
            Some(i) => {
                proof {
                    assert(self@[i as int] == self.guilds@[i as int]@);
                }
                self.guilds[i].settings.duplicate()
            },
            None => Settings::new(),
        }
    }

    /// Set how the group escalates accumulated warnings, creating a record
    /// with default values for all other fields if the group has none.
    pub fn set_warning_behavior(&mut self, gid: u64, b: WarnBehavior)
        ensures
            settings_in(final(self)@, gid) =~~= (SettingsV {
                warning_behavior: b,
                ..settings_in(old(self)@, gid)
            }),
            forall|g2: u64|
                g2 != gid ==> settings_in(final(self)@, g2) == settings_in(old(self)@, g2),
            forall|g2: u64|
                has_guild_in(final(self)@, g2) == (has_guild_in(old(self)@, g2) || g2 == gid),
    {
        let ghost v0: Seq<GuildSettingV> = self@;
        match find_guild(&self.guilds, gid) {
            Some(i) => {
                proof {
                    lemma_guild_first_match(v0, gid, i as int);
                }
                let mut gs: GuildSetting = self.guilds.remove(i);
                gs.settings.set_warning_behavior(b);
                self.guilds.insert(i, gs);
                proof {
                    assert(self@ =~~= v0.update(i as int, gs@));
                    lemma_guild_update_same(v0, i as int, gs@);
                    lemma_guild_update_first(v0, i as int, gs@);
                }
            },
            None => {
                proof {
                    lemma_guild_no_match(v0, gid);
                }
                let mut s = Settings::new();
                s.set_warning_behavior(b);
                let ghost sv: SettingsV = s@;
                self.guilds.push(GuildSetting { gid, settings: s });
                proof {
                    assert(self@ =~~= v0.push(GuildSettingV { gid, settings: sv }));
                    lemma_guild_push(v0, GuildSettingV { gid, settings: sv });
                }
            },
        }
    }

    /// Set the group's log channel, creating a record with default values
    /// for all other fields if the group has none.
    pub fn set_log_channel(&mut self, gid: u64, c: u64)
        ensures
            settings_in(final(self)@, gid) =~~= (SettingsV {
                log_channel: Some(c),
                ..settings_in(old(self)@, gid)
            }),
            forall|g2: u64|
                g2 != gid ==> settings_in(final(self)@, g2) == settings_in(old(self)@, g2),
            forall|g2: u64|
                has_guild_in(final(self)@, g2) == (has_guild_in(old(self)@, g2) || g2 == gid),
    {
        let ghost v0: Seq<GuildSettingV> = self@;
        match find_guild(&self.guilds, gid) {
            Some(i) => {
                proof {
                    lemma_guild_first_match(v0, gid, i as int);
                }
                let mut gs: GuildSetting = self.guilds.remove(i);
                gs.settings.set_log_channel(c);
                self.guilds.insert(i, gs);
                proof {
                    assert(self@ =~~= v0.update(i as int, gs@));
                    lemma_guild_update_same(v0, i as int, gs@);
                    lemma_guild_update_first(v0, i as int, gs@);
                }
            },
            None => {
                proof {
                    lemma_guild_no_match(v0, gid);
                }
                let mut s = Settings::new();
                s.set_log_channel(c);
                let ghost sv: SettingsV = s@;
                self.guilds.push(GuildSetting { gid, settings: s });
                proof {
                    assert(self@ =~~= v0.push(GuildSettingV { gid, settings: sv }));
                    lemma_guild_push(v0, GuildSettingV { gid, settings: sv });
                }
            },
        }
    }

    /// Clear the group's log channel, creating a record with default values
    /// for all other fields if the group has none.
    pub fn remove_log_channel(&mut self, gid: u64)
        ensures
            settings_in(final(self)@, gid) =~~= (SettingsV {
                log_channel: None,
                ..settings_in(old(self)@, gid)
            }),
            forall|g2: u64|
                g2 != gid ==> settings_in(final(self)@, g2) == settings_in(old(self)@, g2),
            forall|g2: u64|
                has_guild_in(final(self)@, g2) == (has_guild_in(old(self)@, g2) || g2 == gid),
    {
        let ghost v0: Seq<GuildSettingV> = self@;
        match find_guild(&self.guilds, gid) {
            Some(i) => {
                proof {
                    lemma_guild_first_match(v0, gid, i as int);
                }
                let mut gs: GuildSetting = self.guilds.remove(i);
                gs.settings.log_channel = None;
                self.guilds.insert(i, gs);
                proof {
                    assert(self@ =~~= v0.update(i as int, gs@));
                    lemma_guild_update_same(v0, i as int, gs@);
                    lemma_guild_update_first(v0, i as int, gs@);
                }
            },
            None => {
                proof {
                    lemma_guild_no_match(v0, gid);
                }
                let s = Settings::new();
                let ghost sv: SettingsV = s@;
                self.guilds.push(GuildSetting { gid, settings: s });
                proof {
                    assert(self@ =~~= v0.push(GuildSettingV { gid, settings: sv }));
                    lemma_guild_push(v0, GuildSettingV { gid, settings: sv });
                }
            },
        }
    }

    /// Set the group's response length limit, creating a record with default
    /// values for all other fields if the group has none.
    pub fn set_wiki_limit(&mut self, gid: u64, limit: usize)
        ensures
            settings_in(final(self)@, gid) =~~= (SettingsV {
                wiki_limit: Some(limit),
                ..settings_in(old(self)@, gid)
            }),
            forall|g2: u64|
                g2 != gid ==> settings_in(final(self)@, g2) == settings_in(old(self)@, g2),
            forall|g2: u64|
                has_guild_in(final(self)@, g2) == (has_guild_in(old(self)@, g2) || g2 == gid),
    {
        let ghost v0: Seq<GuildSettingV> = self@;
        match find_guild(&self.guilds, gid) {
            Some(i) => {
                proof {
                    lemma_guild_first_match(v0, gid, i as int);
                }
                let mut gs: GuildSetting = self.guilds.remove(i);
                gs.settings.set_wiki_limit(limit);
                self.guilds.insert(i, gs);
                proof {
                    assert(self@ =~~= v0.update(i as int, gs@));
                    lemma_guild_update_same(v0, i as int, gs@);
                    lemma_guild_update_first(v0, i as int, gs@);
                }
            },
            None => {
                proof {
                    lemma_guild_no_match(v0, gid);
                }
                let mut s = Settings::new();
                s.set_wiki_limit(limit);
                let ghost sv: SettingsV = s@;
                self.guilds.push(GuildSetting { gid, settings: s });
                proof {
                    assert(self@ =~~= v0.push(GuildSettingV { gid, settings: sv }));
                    lemma_guild_push(v0, GuildSettingV { gid, settings: sv });
                }
            },
        }
    }
}

/// Restricted terms shared across groups, as loaded at startup.
#[derive(Debug, PartialEq)]
pub struct RestrictedWords {
    pub words: Vec<String>,
}

impl RestrictedWords {
    /// Wrap a loaded list of restricted terms.
    pub fn from_words(words: Vec<String>) -> (r: Self)
        ensures
            r.words@ == words@,
    {
        RestrictedWords { words }
    }
}

/// The log-channel commands: point a group's event log at a channel, or
/// stop logging.
pub struct Log {}

impl Log {
    /// Point the group's event log at a channel and confirm it, creating a
    /// settings record if the group has none.
    pub fn set_log(
        store: &mut GuildSettings,
        channel: u64,
        channel_name: &str,
        gid: u64,
    ) -> (r: String)
        ensures
            settings_in(final(store)@, gid) =~~= (SettingsV {
                log_channel: Some(channel),
                ..settings_in(old(store)@, gid)
            }),
            forall|g2: u64|
                g2 != gid ==> settings_in(final(store)@, g2) == settings_in(old(store)@, g2),
            r@ == "Set log channel to "@ + channel_name@,
    {
        store.set_log_channel(gid, channel);
        let mut r = String::from_str("Set log channel to ");
        r.append(channel_name);
        r
    }

    /// Stop logging the group's events and confirm it, creating a settings
    /// record if the group has none.
    pub fn remove_log(store: &mut GuildSettings, gid: u64) -> (r: String)
        ensures
            settings_in(final(store)@, gid) =~~= (SettingsV {
                log_channel: None,
                ..settings_in(old(store)@, gid)
            }),
            forall|g2: u64|
                g2 != gid ==> settings_in(final(store)@, g2) == settings_in(old(store)@, g2),
            r@ == "Removed log channel"@,
    {
        store.remove_log_channel(gid);
        String::from_str("Removed log channel")
    }
}

} // verus!
