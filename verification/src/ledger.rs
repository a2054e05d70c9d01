//! The warning ledger: an in-memory index of warnings per group, keyed by
//! member.
//!
//! The ledger is modelled as a sequence of group records, each holding a
//! sequence of member records; lookups take the first record whose key
//! matches, as `find_group` and `find_user` do. The contracts speak of the
//! model through [`warnings_in`] and [`has_record_in`].

use vstd::prelude::*;

verus! {

/// One infraction record: why it was issued and when.
#[derive(Debug, PartialEq)]
pub struct Warning {
    pub reason: String,
    pub issued_at: i64,
}

/// All warnings a member has accumulated within one group, with the count
/// kept redundantly so the threshold check is a field read.
#[derive(Debug, PartialEq)]
pub struct UserWarnings {
    pub member: u64,
    pub warnings: Vec<Warning>,
    pub warning_count: u64,
}

/// All member records of one group.
#[derive(Debug, PartialEq)]
pub struct GroupWarnings {
    pub group: u64,
    pub users: Vec<UserWarnings>,
}

/// The root aggregate: all group records.
#[derive(Debug, PartialEq)]
pub struct WarningLedger {
    pub groups: Vec<GroupWarnings>,
}

/// The model of one warning.
#[verifier::ext_equal]
pub struct WarningV {
    pub reason: Seq<char>,
    pub issued_at: i64,
}

/// The model of one member record.
#[verifier::ext_equal]
pub struct UserV {
    pub member: u64,
    pub warnings: Seq<WarningV>,
}

/// The model of one group record.
#[verifier::ext_equal]
pub struct GroupV {
    pub group: u64,
    pub users: Seq<UserV>,
}

impl View for Warning {
    type V = WarningV;

    open spec fn view(&self) -> WarningV {
        WarningV { reason: self.reason@, issued_at: self.issued_at }
    }
}

impl View for UserWarnings {
    type V = UserV;

    open spec fn view(&self) -> UserV {
        UserV { member: self.member, warnings: self.warnings@.map_values(|w: Warning| w@) }
    }
}

impl View for GroupWarnings {
    type V = GroupV;

    open spec fn view(&self) -> GroupV {
        GroupV { group: self.group, users: self.users@.map_values(|u: UserWarnings| u@) }
    }
}

impl View for WarningLedger {
    type V = Seq<GroupV>;

    open spec fn view(&self) -> Seq<GroupV> {
        self.groups@.map_values(|g: GroupWarnings| g@)
    }
}

/// The warnings of the first record for `member`, or the empty sequence if
/// there is none.
pub open spec fn user_warnings_in(users: Seq<UserV>, member: u64) -> Seq<WarningV>
    decreases users.len(),
{
    if users.len() == 0 {
        Seq::empty()
    } else if users[0].member == member {
        users[0].warnings
    } else {
        user_warnings_in(users.drop_first(), member)
    }
}

/// Whether some record for `member` exists.
pub open spec fn has_user_in(users: Seq<UserV>, member: u64) -> bool
    decreases users.len(),
{
    if users.len() == 0 {
        false
    } else if users[0].member == member {
        true
    } else {
        has_user_in(users.drop_first(), member)
    }
}

/// The member records of the first record for `group`, or the empty sequence
/// if there is none.
pub open spec fn group_users_in(groups: Seq<GroupV>, group: u64) -> Seq<UserV>
    decreases groups.len(),
{
    if groups.len() == 0 {
        Seq::empty()
    } else if groups[0].group == group {
        groups[0].users
    } else {
        group_users_in(groups.drop_first(), group)
    }
}

/// Whether some record for `group` exists.
pub open spec fn has_group_in(groups: Seq<GroupV>, group: u64) -> bool
    decreases groups.len(),
{
    if groups.len() == 0 {
        false
    } else if groups[0].group == group {
        true
    } else {
        has_group_in(groups.drop_first(), group)
    }
}

/// The warnings on record for `member` within `group`; empty if there is no
/// record.
pub open spec fn warnings_in(groups: Seq<GroupV>, group: u64, member: u64) -> Seq<WarningV> {
    user_warnings_in(group_users_in(groups, group), member)
}

/// Whether a (possibly empty) record exists for `member` within `group`.
pub open spec fn has_record_in(groups: Seq<GroupV>, group: u64, member: u64) -> bool {
    has_group_in(groups, group) && has_user_in(group_users_in(groups, group), member)
}

proof fn lemma_user_first_match(users: Seq<UserV>, member: u64, i: int)
    requires
        0 <= i < users.len(),
        users[i].member == member,
        forall|j: int| 0 <= j < i ==> users[j].member != member,
    ensures
        has_user_in(users, member),
        user_warnings_in(users, member) == users[i].warnings,
    decreases i,
{
    if i > 0 {
        lemma_user_first_match(users.drop_first(), member, i - 1);
    }
}

proof fn lemma_user_no_match(users: Seq<UserV>, member: u64)
    requires
        forall|j: int| 0 <= j < users.len() ==> users[j].member != member,
    ensures
        !has_user_in(users, member),
        user_warnings_in(users, member) == Seq::<WarningV>::empty(),
    decreases users.len(),
{
    if users.len() > 0 {
        lemma_user_no_match(users.drop_first(), member);
    }
}

proof fn lemma_user_update_same(users: Seq<UserV>, i: int, nu: UserV)
    requires
        0 <= i < users.len(),
        nu.member == users[i].member,
    ensures
        forall|m2: u64|
            m2 != nu.member ==> user_warnings_in(users.update(i, nu), m2) == user_warnings_in(
                users,
                m2,
            ) && has_user_in(users.update(i, nu), m2) == has_user_in(users, m2),
        has_user_in(users.update(i, nu), nu.member) == has_user_in(users, nu.member),
    decreases i,
{
    let updated = users.update(i, nu);
    if i == 0 {
        assert(updated.drop_first() =~= users.drop_first());
    } else {
        lemma_user_update_same(users.drop_first(), i - 1, nu);
        assert(updated.drop_first() =~= users.drop_first().update(i - 1, nu));
        assert(updated[0] == users[0]);
    }
    assert forall|m2: u64| m2 != nu.member implies user_warnings_in(updated, m2)
        == user_warnings_in(users, m2) && has_user_in(updated, m2) == has_user_in(users, m2) by {
        assert(updated[0].member == users[0].member);
        if users[0].member == m2 {
            assert(updated[0].warnings == users[0].warnings);
        } else {
            assert(user_warnings_in(updated, m2) == user_warnings_in(updated.drop_first(), m2));
            assert(user_warnings_in(users, m2) == user_warnings_in(users.drop_first(), m2));
            assert(has_user_in(updated, m2) == has_user_in(updated.drop_first(), m2));
            assert(has_user_in(users, m2) == has_user_in(users.drop_first(), m2));
        }
    }
}

proof fn lemma_user_update_first(users: Seq<UserV>, i: int, nu: UserV)
    requires
        0 <= i < users.len(),
        nu.member == users[i].member,
        forall|j: int| 0 <= j < i ==> users[j].member != users[i].member,
    ensures
        user_warnings_in(users.update(i, nu), nu.member) == nu.warnings,
        has_user_in(users.update(i, nu), nu.member),
    decreases i,
{
    let updated = users.update(i, nu);
    if i > 0 {
        lemma_user_update_first(users.drop_first(), i - 1, nu);
        assert(updated.drop_first() =~= users.drop_first().update(i - 1, nu));
    }
}

proof fn lemma_user_push(users: Seq<UserV>, nu: UserV)
    ensures
        forall|m2: u64|
            m2 != nu.member ==> user_warnings_in(users.push(nu), m2) == user_warnings_in(users, m2)
                && has_user_in(users.push(nu), m2) == has_user_in(users, m2),
        !has_user_in(users, nu.member) ==> user_warnings_in(users.push(nu), nu.member)
            == nu.warnings,
        has_user_in(users.push(nu), nu.member),
    decreases users.len(),
{
    let pushed = users.push(nu);
    if users.len() == 0 {
        assert(pushed[0] == nu);
        assert(pushed.drop_first() =~= Seq::<UserV>::empty());
        lemma_user_no_match(pushed.drop_first(), nu.member);
        assert forall|m2: u64| m2 != nu.member implies user_warnings_in(pushed, m2)
            == user_warnings_in(users, m2) && has_user_in(pushed, m2) == has_user_in(
            users,
            m2,
        ) by {
            lemma_user_no_match(pushed.drop_first(), m2);
            lemma_user_no_match(users, m2);
        }
    } else {
        lemma_user_push(users.drop_first(), nu);
        assert(pushed.drop_first() =~= users.drop_first().push(nu));
        assert(pushed[0] == users[0]);
        assert forall|m2: u64| m2 != nu.member implies user_warnings_in(pushed, m2)
            == user_warnings_in(users, m2) && has_user_in(pushed, m2) == has_user_in(
            users,
            m2,
        ) by {
            assert(user_warnings_in(pushed.drop_first(), m2) == user_warnings_in(
                users.drop_first(),
                m2,
            ));
        }
    }
}

proof fn lemma_group_first_match(groups: Seq<GroupV>, group: u64, i: int)
    requires
        0 <= i < groups.len(),
        groups[i].group == group,
        forall|j: int| 0 <= j < i ==> groups[j].group != group,
    ensures
        has_group_in(groups, group),
        group_users_in(groups, group) == groups[i].users,
    decreases i,
{
    if i > 0 {
        lemma_group_first_match(groups.drop_first(), group, i - 1);
    }
}

proof fn lemma_group_no_match(groups: Seq<GroupV>, group: u64)
    requires
        forall|j: int| 0 <= j < groups.len() ==> groups[j].group != group,
    ensures
        !has_group_in(groups, group),
        group_users_in(groups, group) == Seq::<UserV>::empty(),
    decreases groups.len(),
{
    if groups.len() > 0 {
        lemma_group_no_match(groups.drop_first(), group);
    }
}

proof fn lemma_group_update_same(groups: Seq<GroupV>, i: int, ng: GroupV)
    requires
        0 <= i < groups.len(),
        ng.group == groups[i].group,
    ensures
        forall|g2: u64|
            g2 != ng.group ==> group_users_in(groups.update(i, ng), g2) == group_users_in(
                groups,
                g2,
            ) && has_group_in(groups.update(i, ng), g2) == has_group_in(groups, g2),
        has_group_in(groups.update(i, ng), ng.group) == has_group_in(groups, ng.group),
    decreases i,
{
    let updated = groups.update(i, ng);
    if i == 0 {
        assert(updated.drop_first() =~= groups.drop_first());
    } else {
        lemma_group_update_same(groups.drop_first(), i - 1, ng);
        assert(updated.drop_first() =~= groups.drop_first().update(i - 1, ng));
        assert(updated[0] == groups[0]);
    }
    assert forall|g2: u64| g2 != ng.group implies group_users_in(updated, g2) == group_users_in(
        groups,
        g2,
    ) && has_group_in(updated, g2) == has_group_in(groups, g2) by {
        assert(updated[0].group == groups[0].group);
        if groups[0].group == g2 {
            assert(updated[0].users == groups[0].users);
        } else {
            assert(group_users_in(updated, g2) == group_users_in(updated.drop_first(), g2));
            assert(group_users_in(groups, g2) == group_users_in(groups.drop_first(), g2));
            assert(has_group_in(updated, g2) == has_group_in(updated.drop_first(), g2));
            assert(has_group_in(groups, g2) == has_group_in(groups.drop_first(), g2));
        }
    }
}

proof fn lemma_group_update_first(groups: Seq<GroupV>, i: int, ng: GroupV)
    requires
        0 <= i < groups.len(),
        ng.group == groups[i].group,
        forall|j: int| 0 <= j < i ==> groups[j].group != groups[i].group,
    ensures
        group_users_in(groups.update(i, ng), ng.group) == ng.users,
        has_group_in(groups.update(i, ng), ng.group),
    decreases i,
{
    let updated = groups.update(i, ng);
    if i > 0 {
        lemma_group_update_first(groups.drop_first(), i - 1, ng);
        assert(updated.drop_first() =~= groups.drop_first().update(i - 1, ng));
    }
}

proof fn lemma_group_push(groups: Seq<GroupV>, ng: GroupV)
    ensures
        forall|g2: u64|
            g2 != ng.group ==> group_users_in(groups.push(ng), g2) == group_users_in(groups, g2)
                && has_group_in(groups.push(ng), g2) == has_group_in(groups, g2),
        !has_group_in(groups, ng.group) ==> group_users_in(groups.push(ng), ng.group) == ng.users,
        has_group_in(groups.push(ng), ng.group),
    decreases groups.len(),
{
    let pushed = groups.push(ng);
    if groups.len() == 0 {
        assert(pushed[0] == ng);
        assert(pushed.drop_first() =~= Seq::<GroupV>::empty());
        lemma_group_no_match(pushed.drop_first(), ng.group);
        assert forall|g2: u64| g2 != ng.group implies group_users_in(pushed, g2) == group_users_in(
            groups,
            g2,
        ) && has_group_in(pushed, g2) == has_group_in(groups, g2) by {
            lemma_group_no_match(pushed.drop_first(), g2);
            lemma_group_no_match(groups, g2);
        }
    } else {
        lemma_group_push(groups.drop_first(), ng);
        assert(pushed.drop_first() =~= groups.drop_first().push(ng));
        assert(pushed[0] == groups[0]);
        assert forall|g2: u64| g2 != ng.group implies group_users_in(pushed, g2) == group_users_in(
            groups,
            g2,
        ) && has_group_in(pushed, g2) == has_group_in(groups, g2) by {
            assert(group_users_in(pushed.drop_first(), g2) == group_users_in(
                groups.drop_first(),
                g2,
            ));
        }
    }
}

/// The index of the first record for `group`, if any.
fn find_group(groups: &Vec<GroupWarnings>, group: u64) -> (r: Option<usize>)
    ensures
        match r {
            Some(i) => i < groups@.len() && groups@[i as int].group == group && forall|j: int|
                0 <= j < i ==> groups@[j].group != group,
            None => forall|j: int| 0 <= j < groups@.len() ==> groups@[j].group != group,
        },
{
    let mut i: usize = 0;
    while i < groups.len()
        invariant
            i <= groups@.len(),
            forall|j: int| 0 <= j < i ==> groups@[j].group != group,
        decreases groups@.len() - i,
    {
        if groups[i].group == group {
            return Some(i);
        }
        i = i + 1;
    }
    None
}

/// The index of the first record for `member`, if any.
fn find_user(users: &Vec<UserWarnings>, member: u64) -> (r: Option<usize>)
    ensures
        match r {
            Some(i) => i < users@.len() && users@[i as int].member == member && forall|j: int|
                0 <= j < i ==> users@[j].member != member,
            None => forall|j: int| 0 <= j < users@.len() ==> users@[j].member != member,
        },
{
    let mut i: usize = 0;
    while i < users.len()
        invariant
            i <= users@.len(),
            forall|j: int| 0 <= j < i ==> users@[j].member != member,
        decreases users@.len() - i,
    {
        if users[i].member == member {
            return Some(i);
        }
        i = i + 1;
    }
    None
}

impl UserWarnings {
    /// The redundant count matches the record it summarizes.
    pub open spec fn wf(&self) -> bool {
        self.warning_count == self.warnings@.len()
    }
}

impl GroupWarnings {
    /// Every member record of the group is well-formed.
    pub open spec fn wf(&self) -> bool {
        forall|i: int| 0 <= i < self.users@.len() ==> (#[trigger] self.users@[i]).wf()
    }
}

impl WarningLedger {
    /// Every group record of the ledger is well-formed.
    pub open spec fn wf(&self) -> bool {
        forall|i: int| 0 <= i < self.groups@.len() ==> (#[trigger] self.groups@[i]).wf()
    }

    /// A fresh, empty ledger.
    pub fn new() -> (r: Self)
        ensures
            r.wf(),
            r@ =~= Seq::<GroupV>::empty(),
    {
        WarningLedger { groups: Vec::new() }
    }

    /// How many warnings are on record for `member` within `group`; zero if
    /// there is no record.
    pub fn count_warnings(&self, group: u64, member: u64) -> (count: u64)
        requires
            self.wf(),
        ensures
            count == warnings_in(self@, group, member).len(),
    {
        let gi = match find_group(&self.groups, group) {
            Some(i) => i,
            None => {
                proof {
                    lemma_group_no_match(self@, group);
                    lemma_user_no_match(Seq::<UserV>::empty(), member);
                }
                return 0;
            },
        };
        proof {
            lemma_group_first_match(self@, group, gi as int);
        }
        let users = &self.groups[gi].users;
        let ui = match find_user(users, member) {
            Some(i) => i,
            None => {
                proof {
                    lemma_user_no_match(self@[gi as int].users, member);
                }
                return 0;
            },
        };
        proof {
            lemma_user_first_match(self@[gi as int].users, member, ui as int);
        }
        users[ui].warning_count
    }

    /// The warnings on record for `member` within `group`, oldest first, or
    /// `None` if neither the group nor the member has a record.
    pub fn get_warnings(&self, group: u64, member: u64) -> (r: Option<&Vec<Warning>>)
        requires
            self.wf(),
        ensures
            match r {
                Some(w) => has_record_in(self@, group, member) && w@.map_values(|x: Warning| x@)
                    == warnings_in(self@, group, member),
                None => !has_record_in(self@, group, member),
            },
    {
        let gi = match find_group(&self.groups, group) {
            Some(i) => i,
            None => {
                proof {
                    lemma_group_no_match(self@, group);
                }
                return None;
            },
        };
        proof {
            lemma_group_first_match(self@, group, gi as int);
        }
        let users = &self.groups[gi].users;
        let ui = match find_user(users, member) {
            Some(i) => i,
            None => {
                proof {
                    lemma_user_no_match(self@[gi as int].users, member);
                }
                return None;
            },
        };
        proof {
            lemma_user_first_match(self@[gi as int].users, member, ui as int);
        }
        Some(&users[ui].warnings)
    }

    /// Append a warning for `member` within `group`, creating the group and
    /// member records if absent, and return the new cumulative count.
    pub fn add_warning(&mut self, group: u64, member: u64, reason: String, issued_at: i64) -> (count:
        u64)
        requires
            old(self).wf(),
            warnings_in(old(self)@, group, member).len() < u64::MAX,
        ensures
            final(self).wf(),
            warnings_in(final(self)@, group, member) =~= warnings_in(old(self)@, group, member).push(
                WarningV { reason: reason@, issued_at },
            ),
            count == warnings_in(final(self)@, group, member).len(),
            forall|g2: u64, m2: u64|
                !(g2 == group && m2 == member) ==> warnings_in(final(self)@, g2, m2)
                    == warnings_in(old(self)@, g2, m2),
            forall|g2: u64, m2: u64|
                has_record_in(final(self)@, g2, m2) == (has_record_in(old(self)@, g2, m2) || (g2
                    == group && m2 == member)),
    {
        let ghost rv: Seq<char> = reason@;
        let ghost v0: Seq<GroupV> = self@;

        // Ensure a group record exists; `gi` is the first match.
        let gi: usize = match find_group(&self.groups, group) {
            Some(i) => i,
            None => {
                let n = self.groups.len();
                let fresh_users: Vec<UserWarnings> = Vec::new();
                self.groups.push(GroupWarnings { group, users: fresh_users });
                proof {
                    assert(self@ =~~= v0.push(GroupV { group, users: Seq::empty() }));
                    lemma_group_no_match(v0, group);
                    lemma_group_push(v0, GroupV { group, users: Seq::empty() });
                }
                n
            },
        };
        let ghost e1: Seq<GroupWarnings> = self.groups@;
        let ghost v1: Seq<GroupV> = self@;
        proof {
            lemma_group_first_match(v1, group, gi as int);
            assert forall|g2: u64, m2: u64| true implies warnings_in(v1, g2, m2) == warnings_in(
                v0,
                g2,
                m2,
            ) && has_record_in(v1, g2, m2) == has_record_in(v0, g2, m2) by {
                if v1 != v0 && g2 == group {
                    lemma_group_no_match(v0, group);
                    lemma_user_no_match(Seq::<UserV>::empty(), m2);
                }
            }
        }

        // Ensure a member record exists; `ui` is the first match.
        let mut gw: GroupWarnings = self.groups.remove(gi);
        let ui: usize = match find_user(&gw.users, member) {
            Some(i) => i,
            None => {
                let n = gw.users.len();
                let fresh_warnings: Vec<Warning> = Vec::new();
                gw.users.push(UserWarnings { member, warnings: fresh_warnings, warning_count: 0 });
                n
            },
        };
        let ghost u1e: Seq<UserWarnings> = gw.users@;
        let ghost gu1: Seq<UserV> = gw@.users;
        proof {
            assert(v1[gi as int] == e1[gi as int]@);
            if gu1 != v1[gi as int].users {
                assert(gu1 =~~= v1[gi as int].users.push(UserV { member, warnings: Seq::empty() }));
                lemma_user_no_match(v1[gi as int].users, member);
                lemma_user_push(v1[gi as int].users, UserV { member, warnings: Seq::empty() });
            }
            assert forall|m2: u64| true implies user_warnings_in(gu1, m2) == user_warnings_in(
                v1[gi as int].users,
                m2,
            ) by {
                if gu1 != v1[gi as int].users && m2 == member {
                    lemma_user_no_match(Seq::<UserV>::empty(), m2);
                }
            }
            lemma_user_first_match(gu1, member, ui as int);
        }

        // Append the warning and maintain the redundant count.
        let mut uw: UserWarnings = gw.users.remove(ui);
        let ghost uv1: UserV = uw@;
        uw.warnings.push(Warning { reason, issued_at });
        let new_count: u64 = uw.warning_count + 1;
        uw.warning_count = new_count;
        let ghost uv2: UserV = uw@;
        proof {
            assert(uv2.warnings =~~= uv1.warnings.push(WarningV { reason: rv, issued_at }));
        }
        gw.users.insert(ui, uw);
        let ghost u2e: Seq<UserWarnings> = gw.users@;
        let ghost gu2: Seq<UserV> = gw@.users;
        proof {
            assert(u2e =~= u1e.update(ui as int, uw));
            assert(gu2 =~~= gu1.update(ui as int, uv2));
            lemma_user_update_same(gu1, ui as int, uv2);
            lemma_user_update_first(gu1, ui as int, uv2);
        }
        self.groups.insert(gi, gw);
        let ghost e2: Seq<GroupWarnings> = self.groups@;
        let ghost v2: Seq<GroupV> = self@;
        proof {
            assert(e2 =~= e1.update(gi as int, gw));
            assert(v2 =~~= v1.update(gi as int, gw@));
            lemma_group_update_same(v1, gi as int, gw@);
            lemma_group_update_first(v1, gi as int, gw@);
            assert(group_users_in(v2, group) == gu2);
            assert(warnings_in(v2, group, member) == uv2.warnings);
            assert(warnings_in(v2, group, member) =~= warnings_in(v0, group, member).push(
                WarningV { reason: rv, issued_at },
            ));
            assert forall|g2: u64, m2: u64| !(g2 == group && m2 == member) implies warnings_in(
                v2,
                g2,
                m2,
            ) == warnings_in(v0, g2, m2) by {
                if g2 == group {
                    assert(user_warnings_in(gu2, m2) == user_warnings_in(gu1, m2));
                }
            }
            assert forall|g2: u64, m2: u64| true implies has_record_in(v2, g2, m2) == (
            has_record_in(v0, g2, m2) || (g2 == group && m2 == member)) by {
                if g2 == group {
                    if m2 != member {
                        assert(has_user_in(gu2, m2) == has_user_in(gu1, m2));
                    } else {
                        assert(has_user_in(gu2, m2));
                    }
                }
            }
            // Well-formedness is preserved: only the touched member record
            // changed, and its count matches its new length.
            assert(uw.wf());
            assert forall|i: int| 0 <= i < e2.len() implies (#[trigger] e2[i]).wf() by {
                if i == gi as int {
                    assert forall|j: int| 0 <= j < u2e.len() implies (#[trigger] u2e[j]).wf() by {
                        if j != ui as int {
                            assert(u2e[j] == u1e[j]);
                            assert(e1[gi as int].wf());
                        }
                    }
                } else {
                    assert(e2[i] == e1[i]);
                }
            }
        }
        new_count
    }

    /// Empty the warnings of an existing record for `member` within `group`
    /// and reset its count to zero; report `NotFound` and change nothing if
    /// neither the group nor the member has a record.
    pub fn clear_warnings(&mut self, group: u64, member: u64) -> (r: Result<(), LedgerNotFound>)
        requires
            old(self).wf(),
        ensures
            final(self).wf(),
            r is Ok <==> has_record_in(old(self)@, group, member),
            r is Ok ==> {
                &&& warnings_in(final(self)@, group, member) =~= Seq::<WarningV>::empty()
                &&& forall|g2: u64, m2: u64|
                    !(g2 == group && m2 == member) ==> warnings_in(final(self)@, g2, m2)
                        == warnings_in(old(self)@, g2, m2)
                &&& forall|g2: u64, m2: u64|
                    has_record_in(final(self)@, g2, m2) == has_record_in(old(self)@, g2, m2)
            },
            r is Err ==> final(self)@ == old(self)@,
    {
        let ghost v0: Seq<GroupV> = self@;
        let gi: usize = match find_group(&self.groups, group) {
            Some(i) => i,
            None => {
                proof {
                    lemma_group_no_match(v0, group);
                }
                return Err(LedgerNotFound {});
            },
        };
        proof {
            lemma_group_first_match(v0, group, gi as int);
        }
        let ui: usize = match find_user(&self.groups[gi].users, member) {
            Some(i) => i,
            None => {
                proof {
                    lemma_user_no_match(v0[gi as int].users, member);
                }
                return Err(LedgerNotFound {});
            },
        };
        let ghost e1: Seq<GroupWarnings> = self.groups@;
        let ghost gu1: Seq<UserV> = v0[gi as int].users;
        proof {
            lemma_user_first_match(gu1, member, ui as int);
        }
        let mut gw: GroupWarnings = self.groups.remove(gi);
        let ghost u1e: Seq<UserWarnings> = gw.users@;
        let mut uw: UserWarnings = gw.users.remove(ui);
        let fresh_warnings: Vec<Warning> = Vec::new();
        uw.warnings = fresh_warnings;
        uw.warning_count = 0;
        let ghost uv2: UserV = uw@;
        gw.users.insert(ui, uw);
        let ghost u2e: Seq<UserWarnings> = gw.users@;
        let ghost gu2: Seq<UserV> = gw@.users;
        proof {
            assert(uv2.warnings =~= Seq::<WarningV>::empty());
            assert(u2e =~= u1e.update(ui as int, uw));
            assert(gu2 =~~= gu1.update(ui as int, uv2));
            lemma_user_update_same(gu1, ui as int, uv2);
            lemma_user_update_first(gu1, ui as int, uv2);
        }
        self.groups.insert(gi, gw);
        let ghost e2: Seq<GroupWarnings> = self.groups@;
        let ghost v2: Seq<GroupV> = self@;
        proof {
            assert(e2 =~= e1.update(gi as int, gw));
            assert(v2 =~~= v0.update(gi as int, gw@));
            lemma_group_update_same(v0, gi as int, gw@);
            lemma_group_update_first(v0, gi as int, gw@);
            assert(group_users_in(v2, group) == gu2);
            assert(warnings_in(v2, group, member) == uv2.warnings);
            assert forall|g2: u64, m2: u64| !(g2 == group && m2 == member) implies warnings_in(
                v2,
                g2,
                m2,
            ) == warnings_in(v0, g2, m2) by {
                if g2 == group {
                    assert(user_warnings_in(gu2, m2) == user_warnings_in(gu1, m2));
                }
            }
            assert forall|g2: u64, m2: u64| true implies has_record_in(v2, g2, m2)
                == has_record_in(v0, g2, m2) by {
                if g2 == group {
                    if m2 != member {
                        assert(has_user_in(gu2, m2) == has_user_in(gu1, m2));
                    } else {
                        assert(has_user_in(gu2, m2));
                    }
                }
            }
            assert(uw.wf());
            assert forall|i: int| 0 <= i < e2.len() implies (#[trigger] e2[i]).wf() by {
                if i == gi as int {
                    assert forall|j: int| 0 <= j < u2e.len() implies (#[trigger] u2e[j]).wf() by {
                        if j != ui as int {
                            assert(u2e[j] == u1e[j]);
                            assert(e1[gi as int].wf());
                        }
                    }
                } else {
                    assert(e2[i] == e1[i]);
                }
            }
        }
        Ok(())
    }
}

/// The caller-visible "nothing to clear" condition: neither the group nor
/// the member has a record.
#[derive(Debug, PartialEq)]
pub struct LedgerNotFound {}

} // verus!
