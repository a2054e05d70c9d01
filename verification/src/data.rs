//! Usage analytics: how often commands, groups and users invoke the
//! backend, with old entries pruned after thirty days.

use crate::timespec::now_unix;
use vstd::prelude::*;

verus! {

/// Thirty days, in seconds: how long a usage entry is kept.
pub const RETENTION_SECONDS: i64 = 2592000;

/// A record that counts requests over time.
pub trait DataManipulation {
    /// The recorded requests: a count and the instant it was recorded.
    spec fn requests_view(&self) -> Seq<(u64, i64)>;

    /// Record one more request tally, stamped with the current instant.
    fn increment(&mut self, count: u64)
        ensures
            final(self).requests_view().len() == old(self).requests_view().len() + 1,
            final(self).requests_view()[final(self).requests_view().len() - 1].0 == count,
            forall|i: int|
                0 <= i < old(self).requests_view().len() ==> final(self).requests_view()[i] == old(
                    self,
                ).requests_view()[i],
    ;
}

/// How many requests a command has received over time.
pub struct CommandData {
    pub cname: String,
    pub requests: Vec<(u64, i64)>,
}

impl DataManipulation for CommandData {
    open spec fn requests_view(&self) -> Seq<(u64, i64)> {
        self.requests@
    }

    fn increment(&mut self, count: u64) {
        self.requests.push((count, now_unix()));
    }
}

/// How many requests a group has made over time.
pub struct GuildData {
    pub gid: u64,
    pub gname: String,
    pub requests: Vec<(u64, i64)>,
}

impl DataManipulation for GuildData {
    open spec fn requests_view(&self) -> Seq<(u64, i64)> {
        self.requests@
    }

    fn increment(&mut self, count: u64) {
        self.requests.push((count, now_unix()));
    }
}

/// How many requests a user has made over time.
pub struct UserData {
    pub uid: u64,
    pub uname: String,
    pub requests: Vec<(u64, i64)>,
}

impl DataManipulation for UserData {
    open spec fn requests_view(&self) -> Seq<(u64, i64)> {
        self.requests@
    }

    fn increment(&mut self, count: u64) {
        self.requests.push((count, now_unix()));
    }
}

/// All usage records, keyed by group, user and command; lookups take the
/// first record whose key matches.
pub struct UsageData {
    pub gdata: Vec<GuildData>,
    pub udata: Vec<UserData>,
    pub cdata: Vec<CommandData>,
}

impl UsageData {
    /// An empty set of records.
    pub fn new() -> (r: Self)
        ensures
            r.gdata@.len() == 0,
            r.udata@.len() == 0,
            r.cdata@.len() == 0,
    {
        UsageData { gdata: Vec::new(), udata: Vec::new(), cdata: Vec::new() }
    }

    /// Tally a user's request, creating the user's record if absent. A fresh
    /// record receives the tally as its first entry and is then tallied once
    /// more, as a separate entry.
    pub fn increment_user_count(&mut self, uid: u64, uname: String, count: u64)
        ensures
            old(self).udata@.len() <= final(self).udata@.len() <= old(self).udata@.len() + 1,
            exists|i: int|
                {
                    let u = #[trigger] final(self).udata@[i];
                    0 <= i < final(self).udata@.len() && u.uid == uid && u.requests@.len() > 0
                        && u.requests@.last().0 == count
                },
            final(self).gdata@ == old(self).gdata@,
            final(self).cdata@ == old(self).cdata@,
    {
        let idx = find_uid(&self.udata, uid);
        let at: usize = match idx {
            Some(i) => i,
            None => {
                let n = self.udata.len();
                let mut requests: Vec<(u64, i64)> = Vec::new();
                requests.push((count, now_unix()));
                self.udata.push(UserData { uid, uname, requests });
                n
            },
        };
        let mut entry = self.udata.remove(at);
        entry.requests.push((count, now_unix()));
        self.udata.insert(at, entry);
        proof {
            assert(self.udata@[at as int] == entry);
            assert(self.udata@[at as int].uid == uid && self.udata@[at as int].requests@.len() > 0
                && self.udata@[at as int].requests@.last().0 == count);
        }
    }

    /// Tally a command's request, creating the command's record, with the
    /// tally as its only entry, if absent.
    pub fn increment_command_count(&mut self, command_name: String, count: u64)
        ensures
            old(self).cdata@.len() <= final(self).cdata@.len() <= old(self).cdata@.len() + 1,
            exists|i: int|
                {
                    let c = #[trigger] final(self).cdata@[i];
                    0 <= i < final(self).cdata@.len() && c.cname@ == command_name@
                        && c.requests@.len() > 0 && c.requests@.last().0 == count
                },
            final(self).gdata@ == old(self).gdata@,
            final(self).udata@ == old(self).udata@,
    {
        let idx = find_cname(&self.cdata, &command_name);
        match idx {
            Some(at) => {
                let mut entry = self.cdata.remove(at);
                entry.requests.push((count, now_unix()));
                self.cdata.insert(at, entry);
                proof {
                    assert(self.cdata@[at as int] == entry);
                    assert(self.cdata@[at as int].cname@ == command_name@ && self.cdata@[at
                        as int].requests@.len() > 0 && self.cdata@[at as int].requests@.last().0
                        == count);
                }
            },
            None => {
                let n = self.cdata.len();
                let mut requests: Vec<(u64, i64)> = Vec::new();
                requests.push((count, now_unix()));
                self.cdata.push(CommandData { cname: command_name, requests });
                proof {
                    assert(self.cdata@[n as int].cname@ == command_name@ && self.cdata@[n
                        as int].requests@.len() > 0 && self.cdata@[n as int].requests@.last().0
                        == count);
                }
            },
        }
    }

    /// Tally a group's request, creating the group's record, with the tally
    /// as its only entry, if absent.
    pub fn increment_guild_count(&mut self, gid: u64, gname: String, count: u64)
        ensures
            old(self).gdata@.len() <= final(self).gdata@.len() <= old(self).gdata@.len() + 1,
            exists|i: int|
                {
                    let g = #[trigger] final(self).gdata@[i];
                    0 <= i < final(self).gdata@.len() && g.gid == gid && g.requests@.len() > 0
                        && g.requests@.last().0 == count
                },
            final(self).udata@ == old(self).udata@,
            final(self).cdata@ == old(self).cdata@,
    {
        let idx = find_gid(&self.gdata, gid);
        match idx {
            Some(at) => {
                let mut entry = self.gdata.remove(at);
                entry.requests.push((count, now_unix()));
                self.gdata.insert(at, entry);
                proof {
                    assert(self.gdata@[at as int] == entry);
                    assert(self.gdata@[at as int].gid == gid && self.gdata@[at
                        as int].requests@.len() > 0 && self.gdata@[at as int].requests@.last().0
                        == count);
                }
            },
            None => {
                let n = self.gdata.len();
                let mut requests: Vec<(u64, i64)> = Vec::new();
                requests.push((count, now_unix()));
                self.gdata.push(GuildData { gid, gname, requests });
                proof {
                    assert(self.gdata@[n as int].gid == gid && self.gdata@[n
                        as int].requests@.len() > 0 && self.gdata@[n as int].requests@.last().0
                        == count);
                }
            },
        }
    }
}

/// The index of the first user record for `uid`, if any.
fn find_uid(v: &Vec<UserData>, uid: u64) -> (r: Option<usize>)
    ensures
        match r {
            Some(i) => i < v@.len() && v@[i as int].uid == uid,
            None => forall|j: int| 0 <= j < v@.len() ==> v@[j].uid != uid,
        },
{
    let mut i: usize = 0;
    while i < v.len()
        invariant
            i <= v@.len(),
            forall|j: int| 0 <= j < i ==> v@[j].uid != uid,
        decreases v@.len() - i,
    {
        if v[i].uid == uid {
            return Some(i);
        }
        i = i + 1;
    }
    None
}

/// The index of the first group record for `gid`, if any.
fn find_gid(v: &Vec<GuildData>, gid: u64) -> (r: Option<usize>)
    ensures
        match r {
            Some(i) => i < v@.len() && v@[i as int].gid == gid,
            None => forall|j: int| 0 <= j < v@.len() ==> v@[j].gid != gid,
        },
{
    let mut i: usize = 0;
    while i < v.len()
        invariant
            i <= v@.len(),
            forall|j: int| 0 <= j < i ==> v@[j].gid != gid,
        decreases v@.len() - i,
    {
        if v[i].gid == gid {
            return Some(i);
        }
        i = i + 1;
    }
    None
}

/// The index of the first command record for `cname`, if any.
fn find_cname(v: &Vec<CommandData>, cname: &String) -> (r: Option<usize>)
    ensures
        match r {
            Some(i) => i < v@.len() && v@[i as int].cname@ == cname@,
            None => forall|j: int| 0 <= j < v@.len() ==> (#[trigger] v@[j].cname)@ != cname@,
        },
{
    let mut i: usize = 0;
    while i < v.len()
        invariant
            i <= v@.len(),
            forall|j: int| 0 <= j < i ==> (#[trigger] v@[j].cname)@ != cname@,
        decreases v@.len() - i,
    {
        if v[i].cname.eq(cname) {
            return Some(i);
        }
        i = i + 1;
    }
    None
}

/// The entries young enough to keep: those recorded strictly after the
/// threshold.
pub open spec fn keep_recent(s: Seq<(u64, i64)>, threshold: i64) -> Seq<(u64, i64)>
    decreases s.len(),
{
    if s.len() == 0 {
        Seq::empty()
    } else if s[0].1 > threshold {
        seq![s[0]] + keep_recent(s.drop_first(), threshold)
    } else {
        keep_recent(s.drop_first(), threshold)
    }
}

proof fn lemma_keep_recent_push(s: Seq<(u64, i64)>, x: (u64, i64), threshold: i64)
    ensures
        keep_recent(s.push(x), threshold) == keep_recent(s, threshold) + (if x.1 > threshold {
            seq![x]
        } else {
            Seq::empty()
        }),
    decreases s.len(),
{
    let pushed = s.push(x);
    let tail = (if x.1 > threshold {
        seq![x]
    } else {
        Seq::<(u64, i64)>::empty()
    });
    if s.len() == 0 {
        assert(pushed[0] == x);
        assert(pushed.drop_first() =~= Seq::<(u64, i64)>::empty());
        assert(keep_recent(pushed.drop_first(), threshold) == Seq::<(u64, i64)>::empty());
        assert(keep_recent(s, threshold) == Seq::<(u64, i64)>::empty());
        assert(keep_recent(pushed, threshold) =~= keep_recent(s, threshold) + tail);
    } else {
        lemma_keep_recent_push(s.drop_first(), x, threshold);
        assert(pushed.drop_first() =~= s.drop_first().push(x));
        assert(pushed[0] == s[0]);
        if s[0].1 > threshold {
            assert(seq![s[0]] + (keep_recent(s.drop_first(), threshold) + tail) =~= (seq![s[0]]
                + keep_recent(s.drop_first(), threshold)) + tail);
        }
    }
}

/// Keep only the entries recorded strictly after the threshold, in order.
fn prune_requests(v: &mut Vec<(u64, i64)>, threshold: i64)
    ensures
        final(v)@ == keep_recent(old(v)@, threshold),
{
    let mut kept: Vec<(u64, i64)> = Vec::new();
    let mut i: usize = 0;
    while i < v.len()
        invariant
            i <= v@.len(),
            kept@ == keep_recent(v@.take(i as int), threshold),
        decreases v@.len() - i,
    {
        let e = v[i];
        proof {
            lemma_keep_recent_push(v@.take(i as int), v@[i as int], threshold);
            assert(v@.take(i + 1) =~= v@.take(i as int).push(v@[i as int]));
        }
        if e.1 > threshold {
            kept.push(e);
            proof {
                assert(kept@ =~= keep_recent(v@.take(i + 1), threshold));
            }
        } else {
            proof {
                assert(kept@ =~= keep_recent(v@.take(i + 1), threshold));
            }
        }
        i = i + 1;
    }
    proof {
        assert(v@.take(v@.len() as int) =~= v@);
    }
    *v = kept;
}

/// Prune group and user entries older than the retention window, counted
/// back from `now`. Command entries are kept as they are.
pub fn mangage_data(data: &mut UsageData, now: i64)
    requires
        now >= i64::MIN + RETENTION_SECONDS,
    ensures
        final(data).gdata@.len() == old(data).gdata@.len(),
        final(data).udata@.len() == old(data).udata@.len(),
        forall|i: int|
            0 <= i < old(data).gdata@.len() ==> {
                let g0 = old(data).gdata@[i];
                let g1 = #[trigger] final(data).gdata@[i];
                g1.gid == g0.gid && g1.gname@ == g0.gname@ && g1.requests@ == keep_recent(
                    g0.requests@,
                    (now - RETENTION_SECONDS) as i64,
                )
            },
        forall|i: int|
            0 <= i < old(data).udata@.len() ==> {
                let u0 = old(data).udata@[i];
                let u1 = #[trigger] final(data).udata@[i];
                u1.uid == u0.uid && u1.uname@ == u0.uname@ && u1.requests@ == keep_recent(
                    u0.requests@,
                    (now - RETENTION_SECONDS) as i64,
                )
            },
        final(data).cdata@ == old(data).cdata@,
{
    let threshold: i64 = now - RETENTION_SECONDS;
    let ghost g0: Seq<GuildData> = data.gdata@;
    let mut i: usize = 0;
    while i < data.gdata.len()
        invariant
            i <= g0.len(),
            data.gdata@.len() == g0.len(),
            data.udata@ == old(data).udata@,
            data.cdata@ == old(data).cdata@,
            forall|j: int|
                0 <= j < i ==> {
                    let a = g0[j];
                    let b = #[trigger] data.gdata@[j];
                    b.gid == a.gid && b.gname@ == a.gname@ && b.requests@ == keep_recent(
                        a.requests@,
                        threshold,
                    )
                },
            forall|j: int| i <= j < g0.len() ==> #[trigger] data.gdata@[j] == g0[j],
        decreases g0.len() - i,
    {
        let mut entry = data.gdata.remove(i);
        prune_requests(&mut entry.requests, threshold);
        data.gdata.insert(i, entry);
        i = i + 1;
    }
    let ghost gdone: Seq<GuildData> = data.gdata@;
    let ghost u0: Seq<UserData> = data.udata@;
    let mut i2: usize = 0;
    while i2 < data.udata.len()
        invariant
            i2 <= u0.len(),
            data.udata@.len() == u0.len(),
            data.cdata@ == old(data).cdata@,
            data.gdata@ == gdone,
            forall|j: int|
                0 <= j < i2 ==> {
                    let a = u0[j];
                    let b = #[trigger] data.udata@[j];
                    b.uid == a.uid && b.uname@ == a.uname@ && b.requests@ == keep_recent(
                        a.requests@,
                        threshold,
                    )
                },
            forall|j: int| i2 <= j < u0.len() ==> #[trigger] data.udata@[j] == u0[j],
        decreases u0.len() - i2,
    {
        let mut entry = data.udata.remove(i2);
        prune_requests(&mut entry.requests, threshold);
        data.udata.insert(i2, entry);
        i2 = i2 + 1;
    }
}

} // verus!
