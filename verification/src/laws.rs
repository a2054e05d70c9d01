//! The ledger's laws: what any run of ledger operations does to the
//! warnings on record.
//!
//! The ledger is abstracted to a total map from a (group, member) pair to
//! its warnings; [`model_of`] ties the map to the concrete ledger, the
//! bridge lemmas tie one operation's contract to one step of the map, and
//! the laws speak of whole runs of steps.

use crate::ledger::{warnings_in, GroupV, WarningV};
use vstd::map::*;
use vstd::prelude::*;

verus! {

/// One recorded `add_warning` call.
#[verifier::ext_equal]
pub struct AddCall {
    pub group: u64,
    pub member: u64,
    pub warning: WarningV,
}

/// The ledger abstracted to what each pair has on record.
pub open spec fn model_of(lv: Seq<GroupV>) -> Map<(u64, u64), Seq<WarningV>> {
    Map::new(|p: (u64, u64)| true, |p: (u64, u64)| warnings_in(lv, p.0, p.1))
}

/// What one `add_warning` call does to the model: the pair's record grows by
/// the warning, every other record stays.
pub open spec fn apply_add(
    mo: Map<(u64, u64), Seq<WarningV>>,
    c: AddCall,
) -> Map<(u64, u64), Seq<WarningV>> {
    mo.insert((c.group, c.member), mo[(c.group, c.member)].push(c.warning))
}

/// What one `clear_warnings` call does to the model: the pair's record is
/// emptied, every other record stays.
pub open spec fn apply_clear(
    mo: Map<(u64, u64), Seq<WarningV>>,
    group: u64,
    member: u64,
) -> Map<(u64, u64), Seq<WarningV>> {
    mo.insert((group, member), Seq::empty())
}

/// The model after a run of `add_warning` calls, in order.
pub open spec fn apply_adds(
    mo: Map<(u64, u64), Seq<WarningV>>,
    calls: Seq<AddCall>,
) -> Map<(u64, u64), Seq<WarningV>>
    decreases calls.len(),
{
    if calls.len() == 0 {
        mo
    } else {
        apply_adds(apply_add(mo, calls[0]), calls.drop_first())
    }
}

/// How many of the calls are for exactly this pair.
pub open spec fn count_for(calls: Seq<AddCall>, group: u64, member: u64) -> nat
    decreases calls.len(),
{
    if calls.len() == 0 {
        0
    } else {
        (if calls[0].group == group && calls[0].member == member {
            1nat
        } else {
            0nat
        }) + count_for(calls.drop_first(), group, member)
    }
}

///`add_warning`'s contract is one [`apply_add`] step of the model.
pub proof fn lemma_add_effect(pre: Seq<GroupV>, post: Seq<GroupV>, c: AddCall)
    requires
        warnings_in(post, c.group, c.member) == warnings_in(pre, c.group, c.member).push(c.warning),
        forall|g2: u64, m2: u64|
            !(g2 == c.group && m2 == c.member) ==> warnings_in(post, g2, m2) == warnings_in(
                pre,
                g2,
                m2,
            ),
    ensures
        model_of(post) == apply_add(model_of(pre), c),
{
    assert(model_of(post) =~= apply_add(model_of(pre), c));
}

/// `clear_warnings`'s contract, when it reports success, is one
/// [`apply_clear`] step of the model.
pub proof fn lemma_clear_effect(pre: Seq<GroupV>, post: Seq<GroupV>, group: u64, member: u64)
    requires
        warnings_in(post, group, member) == Seq::<WarningV>::empty(),
        forall|g2: u64, m2: u64|
            !(g2 == group && m2 == member) ==> warnings_in(post, g2, m2) == warnings_in(
                pre,
                g2,
                m2,
            ),
    ensures
        model_of(post) == apply_clear(model_of(pre), group, member),
{
    assert(model_of(post) =~= apply_clear(model_of(pre), group, member));
}

/// After any run of `add_warning` calls, a pair has exactly its prior
/// warnings followed by the warnings of the calls made for that exact pair:
/// its count grew by the number of such calls, and calls to other pairs did
/// not touch it.
pub proof fn lemma_count_after_adds(
    mo: Map<(u64, u64), Seq<WarningV>>,
    calls: Seq<AddCall>,
    group: u64,
    member: u64,
)
    requires
        mo.dom().contains((group, member)),
    ensures
        apply_adds(mo, calls).dom().contains((group, member)),
        apply_adds(mo, calls)[(group, member)].len() == mo[(group, member)].len() + count_for(
            calls,
            group,
            member,
        ),
    decreases calls.len(),
{
    if calls.len() > 0 {
        lemma_count_after_adds(apply_add(mo, calls[0]), calls.drop_first(), group, member);
    }
}

/// Clearing a pair empties exactly that pair's record, whatever run of adds
/// came before, and clearing it a second time changes nothing: the
/// operation is idempotent on the model.
pub proof fn lemma_clear_resets(
    mo: Map<(u64, u64), Seq<WarningV>>,
    calls: Seq<AddCall>,
    group: u64,
    member: u64,
)
    ensures
        apply_clear(apply_adds(mo, calls), group, member)[(group, member)] == Seq::<
            WarningV,
        >::empty(),
        apply_clear(apply_clear(apply_adds(mo, calls), group, member), group, member)
            == apply_clear(apply_adds(mo, calls), group, member),
{
    let cleared = apply_clear(apply_adds(mo, calls), group, member);
    assert(apply_clear(cleared, group, member) =~= cleared);
}

} // verus!
