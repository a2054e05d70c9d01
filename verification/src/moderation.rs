//! Command-level warning operations: issue, list and clear warnings, each
//! returning the user-facing message.

use crate::ledger::{has_record_in, warnings_in, WarningLedger, WarningV};
use vstd::prelude::*;

verus! {

/// The confirmation returned after recording a warning.
pub open spec fn warn_message(name: Seq<char>, reason: Seq<char>) -> Seq<char> {
    "Warned "@ + name + " for "@ + reason + "."@
}

/// Record a warning for a member and confirm it.
pub fn warn(
    ledger: &mut WarningLedger,
    group: u64,
    member: u64,
    member_name: &str,
    reason: String,
    issued_at: i64,
) -> (r: String)
    requires
        old(ledger).wf(),
        warnings_in(old(ledger)@, group, member).len() < u64::MAX,
    ensures
        final(ledger).wf(),
        warnings_in(final(ledger)@, group, member) =~= warnings_in(old(ledger)@, group, member)
            .push(WarningV { reason: reason@, issued_at }),
        forall|g2: u64, m2: u64|
            !(g2 == group && m2 == member) ==> warnings_in(final(ledger)@, g2, m2) == warnings_in(
                old(ledger)@,
                g2,
                m2,
            ),
        r@ == warn_message(member_name@, reason@),
{
    let mut msg = String::from_str("Warned ");
    msg.append(member_name);
    msg.append(" for ");
    msg.append(reason.as_str());
    msg.append(".");
    ledger.add_warning(group, member, reason, issued_at);
    msg
}

/// The message returned after clearing a member's warnings, or after finding
/// nothing to clear.
pub open spec fn remove_warns_message(name: Seq<char>, found: bool) -> Seq<char> {
    if found {
        "Removed all warnings for user "@ + name
    } else {
        "There are no warnings to remove"@
    }
}

/// Clear all warnings of a member and report it. Finding no record for the
/// group or the member is a plain user-facing condition, not a failure.
pub fn remove_warns(ledger: &mut WarningLedger, group: u64, member: u64, member_name: &str) -> (r:
    String)
    requires
        old(ledger).wf(),
    ensures
        final(ledger).wf(),
        r@ == remove_warns_message(member_name@, has_record_in(old(ledger)@, group, member)),
        has_record_in(old(ledger)@, group, member) ==> warnings_in(final(ledger)@, group, member)
            =~= Seq::<WarningV>::empty(),
        !has_record_in(old(ledger)@, group, member) ==> final(ledger)@ == old(ledger)@,
        forall|g2: u64, m2: u64|
            !(g2 == group && m2 == member) ==> warnings_in(final(ledger)@, g2, m2) == warnings_in(
                old(ledger)@,
                g2,
                m2,
            ),
        forall|g2: u64, m2: u64|
            has_record_in(final(ledger)@, g2, m2) == has_record_in(old(ledger)@, g2, m2),
    {
    match ledger.clear_warnings(group, member) {
        Ok(_) => {
            let mut msg = String::from_str("Removed all warnings for user ");
            msg.append(member_name);
            msg
        },
        Err(_) => String::from_str("There are no warnings to remove"),
    }
}

/// The listing of a member's warnings, one line per warning.
pub open spec fn render_warning_lines(ws: Seq<WarningV>) -> Seq<char>
    decreases ws.len(),
{
    if ws.len() == 0 {
        Seq::empty()
    } else {
        "- "@ + ws[0].reason + "\n"@ + render_warning_lines(ws.drop_first())
    }
}

/// The message listing a member's warnings, or saying there is no record.
pub open spec fn get_warns_message(name: Seq<char>, record: Option<Seq<WarningV>>) -> Seq<char> {
    match record {
        Some(ws) => "Warnings for "@ + name + ":\n"@ + render_warning_lines(ws),
        None => "User "@ + name + " has no warnings on record."@,
    }
}

proof fn lemma_render_lines_push(ws: Seq<WarningV>, w: WarningV)
    ensures
        render_warning_lines(ws.push(w)) == render_warning_lines(ws) + ("- "@ + w.reason + "\n"@),
    decreases ws.len(),
{
    let pushed = ws.push(w);
    if ws.len() == 0 {
        assert(pushed[0] == w);
        assert(pushed.drop_first() =~= Seq::<WarningV>::empty());
        assert(render_warning_lines(pushed.drop_first()) == Seq::<char>::empty());
        assert(render_warning_lines(ws) == Seq::<char>::empty());
        assert(render_warning_lines(pushed) =~= render_warning_lines(ws) + ("- "@ + w.reason
            + "\n"@));
    } else {
        lemma_render_lines_push(ws.drop_first(), w);
        assert(pushed.drop_first() =~= ws.drop_first().push(w));
        assert(pushed[0] == ws[0]);
        assert("- "@ + ws[0].reason + "\n"@ + (render_warning_lines(ws.drop_first()) + ("- "@
            + w.reason + "\n"@)) =~= ("- "@ + ws[0].reason + "\n"@ + render_warning_lines(
            ws.drop_first(),
        )) + ("- "@ + w.reason + "\n"@));
    }
}

/// List a member's warnings, oldest first, or say there is no record.
pub fn get_warns(ledger: &WarningLedger, group: u64, member: u64, member_name: &str) -> (r: String)
    requires
        ledger.wf(),
    ensures
        r@ == get_warns_message(
            member_name@,
            if has_record_in(ledger@, group, member) {
                Some(warnings_in(ledger@, group, member))
            } else {
                None
            },
        ),
{
    match ledger.get_warnings(group, member) {
        Some(ws) => {
            let ghost wsv: Seq<WarningV> = ws@.map_values(|w: crate::ledger::Warning| w@);
            let mut msg = String::from_str("Warnings for ");
            msg.append(member_name);
            msg.append(":\n");
            let ghost g1: Seq<char> = msg@;
            let mut i: usize = 0;
            while i < ws.len()
                invariant
                    i <= ws@.len(),
                    wsv == ws@.map_values(|w: crate::ledger::Warning| w@),
                    msg@ == g1 + render_warning_lines(wsv.take(i as int)),
                decreases ws@.len() - i,
            {
                msg.append("- ");
                msg.append(ws[i].reason.as_str());
                msg.append("\n");
                proof {
                    lemma_render_lines_push(wsv.take(i as int), wsv[i as int]);
                    assert(wsv.take(i + 1) =~= wsv.take(i as int).push(wsv[i as int]));
                    assert(g1 + render_warning_lines(wsv.take(i as int)) + "- "@ + wsv[i as int].reason
                        + "\n"@ =~= g1 + (render_warning_lines(wsv.take(i as int)) + ("- "@
                        + wsv[i as int].reason + "\n"@)));
                }
                i = i + 1;
            }
            proof {
                assert(wsv.take(wsv.len() as int) =~= wsv);
            }
            msg
        },
        None => {
            let mut msg = String::from_str("User ");
            msg.append(member_name);
            msg.append(" has no warnings on record.");
            msg
        },
    }
}

} // verus!
