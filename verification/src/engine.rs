//! The escalation dispatch engine.
//!
//! Given a post-increment warning count and a group's configured policy, the
//! engine decides which punitive action (if any) the platform must perform.
//! The platform call itself is asynchronous I/O and happens outside this
//! crate; the engine hands back a [`PendingAction`] and the caller performs
//! it and reports the outcome.

use crate::ledger::{warnings_in, WarningLedger, WarningV};
use crate::numfmt::{spec_dec, u64_dec_str};
use crate::settings::WarnBehavior;
use crate::timespec::TimeoutTime;
use vstd::prelude::*;

verus! {

/// A punitive action the caller must perform against the platform.
pub enum PendingAction {
    /// Ban the member, with a system-generated reason. The induced ban never
    /// purges message history: its delete-history span is zero days.
    Ban { reason: String, delete_history_days: u8 },
    /// Kick the member, with a system-generated reason.
    Kick { reason: String },
    /// Suspend the member's communication for the configured duration.
    Timeout { duration: TimeoutTime },
}

/// The model of a pending action.
#[verifier::ext_equal]
pub enum PendingActionV {
    Ban { reason: Seq<char>, delete_history_days: u8 },
    Kick { reason: Seq<char> },
    Timeout { duration: TimeoutTime },
}

impl View for PendingAction {
    type V = PendingActionV;

    open spec fn view(&self) -> PendingActionV {
        match self {
            PendingAction::Ban { reason, delete_history_days } => PendingActionV::Ban {
                reason: reason@,
                delete_history_days: *delete_history_days,
            },
            PendingAction::Kick { reason } => PendingActionV::Kick { reason: reason@ },
            PendingAction::Timeout { duration } => PendingActionV::Timeout { duration: *duration },
        }
    }
}

/// The system-generated reason attached to an induced ban or kick.
pub open spec fn escalation_reason(count: u64) -> Seq<char> {
    "Banned for accumulating "@ + spec_dec(count as nat) + " warnings."@
}

/// Which action a policy prescribes at a given cumulative count. The
/// comparison is at-or-above, never exactly-at, so a loosened policy is
/// re-evaluated against the current threshold.
pub open spec fn decide_spec(policy: WarnBehavior, count: u64) -> Option<PendingActionV> {
    match policy {
        WarnBehavior::Nothing => None,
        WarnBehavior::Ban(threshold) => if count >= threshold {
            Some(PendingActionV::Ban { reason: escalation_reason(count), delete_history_days: 0 })
        } else {
            None
        },
        WarnBehavior::Kick(threshold) => if count >= threshold {
            Some(PendingActionV::Kick { reason: escalation_reason(count) })
        } else {
            None
        },
        WarnBehavior::Timeout { warning_count, duration } => if count >= warning_count {
            Some(PendingActionV::Timeout { duration })
        } else {
            None
        },
    }
}

/// The confirmation returned for the warning itself.
pub open spec fn warned_message(name: Seq<char>, reason: Seq<char>) -> Seq<char> {
    "Warned "@ + name + " for "@ + reason + "."@
}

fn escalation_reason_str(count: u64) -> (r: String)
    ensures
        r@ == escalation_reason(count),
{
    let mut r = String::from_str("Banned for accumulating ");
    let digits = u64_dec_str(count);
    r.append(digits.as_str());
    r.append(" warnings.");
    r
}

/// Which action the policy prescribes at the given cumulative count.
pub fn decide(policy: &WarnBehavior, count: u64) -> (r: Option<PendingAction>)
    ensures
        match r {
            Some(a) => decide_spec(*policy, count) == Some(a@),
            None => decide_spec(*policy, count) is None,
        },
{
    match policy {
        WarnBehavior::Nothing => None,
        WarnBehavior::Ban(threshold) => if count >= *threshold as u64 {
            Some(PendingAction::Ban { reason: escalation_reason_str(count), delete_history_days: 0 })
        } else {
            None
        },
        WarnBehavior::Kick(threshold) => if count >= *threshold as u64 {
            Some(PendingAction::Kick { reason: escalation_reason_str(count) })
        } else {
            None
        },
        WarnBehavior::Timeout { warning_count, duration } => if count >= *warning_count as u64 {
            Some(PendingAction::Timeout { duration: *duration })
        } else {
            None
        },
    }
}

/// Record a warning and decide the induced action.
///
/// The warning is appended to the ledger first; the action, if any, is what
/// the policy prescribes at the new count. The returned message confirms the
/// warning itself and is never empty; an induced suspension is performed
/// silently by the caller. A failure performing the action does not roll the
/// warning back: the ledger keeps it either way.
pub fn on_warning_issued(
    ledger: &mut WarningLedger,
    policy: &WarnBehavior,
    group: u64,
    member: u64,
    member_name: &str,
    reason: String,
    issued_at: i64,
) -> (r: (String, u64, Option<PendingAction>))
    requires
        old(ledger).wf(),
        warnings_in(old(ledger)@, group, member).len() < u64::MAX,
    ensures
        final(ledger).wf(),
        warnings_in(final(ledger)@, group, member) =~= warnings_in(old(ledger)@, group, member)
            .push(WarningV { reason: reason@, issued_at }),
        forall|g2: u64, m2: u64|
            !(g2 == group && m2 == member) ==> warnings_in(final(ledger)@, g2, m2) == warnings_in(
                old(ledger)@,
                g2,
                m2,
            ),
        r.1 == warnings_in(final(ledger)@, group, member).len(),
        match r.2 {
            Some(a) => decide_spec(*policy, r.1) == Some(a@),
            None => decide_spec(*policy, r.1) is None,
        },
        r.0@ == warned_message(member_name@, reason@),
        r.0@.len() > 0,
{
    let mut msg = String::from_str("Warned ");
    msg.append(member_name);
    msg.append(" for ");
    msg.append(reason.as_str());
    msg.append(".");
    proof {
        reveal_strlit("Warned ");
    }
    let count = ledger.add_warning(group, member, reason, issued_at);
    let action = decide(policy, count);
    (msg, count, action)
}

/// At-or-above firing: a ban policy holds its fire strictly below the
/// threshold and prescribes a ban at the threshold and at every count
/// beyond it.
pub proof fn lemma_ban_threshold_boundary(threshold: u8, count: u64)
    ensures
        count < threshold ==> decide_spec(WarnBehavior::Ban(threshold), count) is None,
        count >= threshold ==> decide_spec(WarnBehavior::Ban(threshold), count) == Some(
            PendingActionV::Ban { reason: escalation_reason(count), delete_history_days: 0 },
        ),
{
}

/// A timeout policy at threshold one prescribes exactly the configured
/// suspension from the first warning on.
pub proof fn lemma_timeout_first_warning(duration: TimeoutTime, count: u64)
    ensures
        count >= 1 ==> decide_spec(
            WarnBehavior::Timeout { warning_count: 1, duration },
            count,
        ) == Some(PendingActionV::Timeout { duration }),
        decide_spec(WarnBehavior::Timeout { warning_count: 1, duration }, 0) is None,
{
}

} // verus!
