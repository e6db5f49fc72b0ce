//! The engine's laws, stated and proved once for every well-formed
//! store.
//!
//! Together the first three say that undo round-trips: opening a step
//! records the store's current content as its checkpoint; in every
//! well-formed store — and every store the verified operations produce
//! is well-formed — replaying the newest step's captured operations,
//! most recent first, yields exactly that checkpoint; and undoing
//! returns precisely it.

use vstd::prelude::*;
use crate::DbError;
use crate::model::{Account, Transaction, TagRule, account_conflict};
use crate::facade::{
    spec_insert_account, spec_insert_transaction, spec_insert_tag_rule, next_table_key,
};
use crate::store::{
    StoreModel, StepView, content_of, undo_apply, chain_ctx, model_wf, acc_key, txn_key, rule_key,
};
use crate::undo::{spec_begin_step, spec_undo_last, gc_steps, MAX_UNDO_STEPS};

verus! {

/// Opening a step records the store's current content as the newest
/// checkpoint, whenever the retention window keeps at least one step.
pub proof fn law_begin_checkpoints_current_content(s: StoreModel, name: Seq<char>, max: int)
    requires
        model_wf(s),
        max >= 1,
        spec_begin_step(s, name, max).1 is Ok,
    ensures
        spec_begin_step(s, name, max).0.checkpoints.len() >= 1,
        spec_begin_step(s, name, max).0.checkpoints.last() == content_of(s),
        content_of(spec_begin_step(s, name, max).0) == content_of(s),
{
    let (s2, _) = spec_begin_step(s, name, max);
    let (steps1, cps1) = gc_steps(s.steps, s.checkpoints);
    crate::undo::lemma_gc_steps_len(s.steps, s.checkpoints);
    let cps2 = cps1.push(content_of(s));
    let n2 = steps1.len() + 1;
    let excess: int = if n2 > max {
        n2 - max
    } else {
        0
    };
    assert(excess < n2);
    assert(s2.checkpoints =~= cps2.skip(excess));
    assert(s2.checkpoints.last() == cps2.last());
    assert(content_of(s2) =~= content_of(s));
}

/// In every well-formed store, replaying the newest step's captured
/// operations, most recent first, restores exactly the content recorded
/// when that step was opened.  Every store the verified operations
/// return is well-formed, so this holds after any sequence of captured
/// writes.
pub proof fn law_replay_restores_open_content(s: StoreModel)
    requires
        model_wf(s),
        s.steps.len() > 0,
    ensures
        undo_apply(content_of(s), s.steps.last().ops) == s.checkpoints.last(),
{
    let n = s.steps.len() as int;
    assert(undo_apply(chain_ctx(s, n), s.steps[n - 1].ops) == s.checkpoints[n - 1]);
}

/// Undoing the newest step — when it captured at least one write —
/// succeeds and leaves exactly the content recorded when the step was
/// opened; the step itself is gone.
pub proof fn law_round_trip(s: StoreModel)
    requires
        model_wf(s),
        s.steps.len() > 0,
        s.steps.last().ops.len() > 0,
    ensures
        spec_undo_last(s).1 is Ok,
        content_of(spec_undo_last(s).0) == s.checkpoints.last(),
        spec_undo_last(s).0.steps == s.steps.drop_last(),
{
    let cp = s.checkpoints.last();
    let s2 = spec_undo_last(s).0;
    crate::store::lemma_content_of_sorted_rows(cp);
    assert(content_of(s2) =~= cp);
}

/// Stack discipline: undo never touches any step but the newest, and
/// with no undoable step it changes nothing and reports that there is
/// nothing to undo.
pub proof fn law_stack_discipline(s: StoreModel)
    requires
        model_wf(s),
    ensures
        s.steps.len() > 0 && s.steps.last().ops.len() > 0 ==> spec_undo_last(s).0.steps
            == s.steps.drop_last() && spec_undo_last(s).0.checkpoints == s.checkpoints.drop_last(),
        s.steps.len() == 0 ==> spec_undo_last(s) == (s, Err::<(), DbError>(DbError::NothingToUndo)),
{
}

/// Upsert idempotence: inserting the same logical account twice yields
/// a fresh row and then `Existing`, with the second call changing
/// nothing — neither rows nor captured operations.
pub proof fn law_upsert_idempotent_account(s: StoreModel, m: Account, m2: Account)
    requires
        model_wf(s),
        spec_insert_account(s, m).1 matches Ok(crate::facade::NewOrExisting::New(added)),
        m2.name@ == m.name@,
    ensures
        ({
            let s1 = spec_insert_account(s, m).0;
            spec_insert_account(s1, m2) == (
                s1,
                Ok::<crate::facade::NewOrExisting<Account>, DbError>(
                    crate::facade::NewOrExisting::Existing(s1.accounts.last()),
                ),
            )
        }),
{
    let s1 = spec_insert_account(s, m).0;
    assert(s1.accounts.last().name@ == m.name@);
    assert(exists|i: int|
        0 <= i < s1.accounts.len() && (#[trigger] s1.accounts[i]).name@ == m2.name@) by {
        assert(s1.accounts[s1.accounts.len() - 1].name@ == m2.name@);
    }
    let i0 = choose|i: int|
        0 <= i < s1.accounts.len() && (#[trigger] s1.accounts[i]).name@ == m2.name@;
    if i0 < s1.accounts.len() - 1 {
        // an older row with this name would have blocked the first insert
        assert(s1.accounts[i0] == s.accounts[i0]);
    }
    assert(i0 == s1.accounts.len() - 1);
}

/// Upsert idempotence for transactions: re-inserting an identical
/// logical record is suppressed entirely.
pub proof fn law_upsert_idempotent_transaction(s: StoreModel, m: Transaction, m2: Transaction)
    requires
        model_wf(s),
        spec_insert_transaction(s, m).1 matches Ok(crate::facade::NewOrExisting::New(added)),
        crate::model::transaction_same(m2, m),
    ensures
        ({
            let s1 = spec_insert_transaction(s, m).0;
            spec_insert_transaction(s1, m2) == (
                s1,
                Ok::<crate::facade::NewOrExisting<Transaction>, DbError>(
                    crate::facade::NewOrExisting::Existing(s1.transactions.last()),
                ),
            )
        }),
{
    let s1 = spec_insert_transaction(s, m).0;
    assert(crate::model::transaction_same(s1.transactions.last(), m2));
    assert(exists|i: int|
        0 <= i < s1.transactions.len() && crate::model::transaction_same(
            #[trigger] s1.transactions[i],
            m2,
        )) by {
        assert(crate::model::transaction_same(
            s1.transactions[s1.transactions.len() - 1],
            m2,
        ));
    }
    let i0 = choose|i: int|
        0 <= i < s1.transactions.len() && crate::model::transaction_same(
            #[trigger] s1.transactions[i],
            m2,
        );
    if i0 < s1.transactions.len() - 1 {
        assert(s1.transactions[i0] == s.transactions[i0]);
        assert(crate::model::transaction_same(s.transactions[i0], m));
    }
    assert(i0 == s1.transactions.len() - 1);
}

/// Upsert idempotence for tag rules.
pub proof fn law_upsert_idempotent_tag_rule(s: StoreModel, m: TagRule, m2: TagRule)
    requires
        model_wf(s),
        spec_insert_tag_rule(s, m).1 matches Ok(crate::facade::NewOrExisting::New(added)),
        crate::model::tag_rule_same(m2, m),
    ensures
        ({
            let s1 = spec_insert_tag_rule(s, m).0;
            spec_insert_tag_rule(s1, m2) == (
                s1,
                Ok::<crate::facade::NewOrExisting<TagRule>, DbError>(
                    crate::facade::NewOrExisting::Existing(s1.tag_rules.last()),
                ),
            )
        }),
{
    let s1 = spec_insert_tag_rule(s, m).0;
    assert(crate::model::tag_rule_same(s1.tag_rules.last(), m2));
    assert(exists|i: int|
        0 <= i < s1.tag_rules.len() && crate::model::tag_rule_same(
            #[trigger] s1.tag_rules[i],
            m2,
        )) by {
        assert(crate::model::tag_rule_same(s1.tag_rules[s1.tag_rules.len() - 1], m2));
    }
    let i0 = choose|i: int|
        0 <= i < s1.tag_rules.len() && crate::model::tag_rule_same(
            #[trigger] s1.tag_rules[i],
            m2,
        );
    if i0 < s1.tag_rules.len() - 1 {
        assert(s1.tag_rules[i0] == s.tag_rules[i0]);
        assert(crate::model::tag_rule_same(s.tag_rules[i0], m));
    }
    assert(i0 == s1.tag_rules.len() - 1);
}

/// Retention: opening a step leaves at most `max` steps, and exactly
/// one more than the surviving (non-empty) history while the window is
/// not full; what is kept is the newest suffix.
pub proof fn law_retention(s: StoreModel, name: Seq<char>, max: int)
    requires
        model_wf(s),
        max >= 1,
        spec_begin_step(s, name, max).1 is Ok,
    ensures
        spec_begin_step(s, name, max).0.steps.len() <= max,
        ({
            let kept = gc_steps(s.steps, s.checkpoints).0.len();
            &&& kept + 1 <= max ==> spec_begin_step(s, name, max).0.steps.len() == kept + 1
            &&& kept + 1 > max ==> spec_begin_step(s, name, max).0.steps.len() == max
        }),
{
    crate::undo::lemma_gc_steps_len(s.steps, s.checkpoints);
}

/// A step that captured nothing does not persist past the next
/// `begin_undo_step`: afterwards every step but the newly opened one
/// holds at least one captured operation.
pub proof fn law_begin_prunes_empty_steps(s: StoreModel, name: Seq<char>, max: int)
    requires
        model_wf(s),
        max >= 1,
        spec_begin_step(s, name, max).1 is Ok,
    ensures
        forall|i: int|
            0 <= i < spec_begin_step(s, name, max).0.steps.len() - 1 ==> (
            #[trigger] spec_begin_step(s, name, max).0.steps[i]).ops.len() > 0,
{
    let (s2, _) = spec_begin_step(s, name, max);
    let (steps1, cps1) = gc_steps(s.steps, s.checkpoints);
    law_empty_step_pruning(s.steps, s.checkpoints);
    crate::undo::lemma_gc_steps_len(s.steps, s.checkpoints);
    let steps2 = steps1.push(StepView { id: spec_begin_new_id(steps1), name, ops: Seq::empty() });
    let n2 = steps2.len() as int;
    let excess: int = if n2 > max {
        n2 - max
    } else {
        0
    };
    assert forall|i: int| 0 <= i < s2.steps.len() - 1 implies (#[trigger] s2.steps[i]).ops.len()
        > 0 by {
        assert(s2.steps[i] == steps2[i + excess]);
        assert(i + excess < steps1.len());
        assert(steps2[i + excess] == steps1[i + excess]);
    }
}

/// The identifier a step opened over the given surviving history
/// receives.
pub open spec fn spec_begin_new_id(steps1: Seq<StepView>) -> i64 {
    if steps1.len() == 0 {
        1
    } else {
        (steps1.last().id + 1) as i64
    }
}

/// Empty-step pruning: garbage collection removes exactly the steps
/// that captured nothing, keeping the others in order; afterwards no
/// empty step remains to block the undo stack.
pub proof fn law_empty_step_pruning(steps: Seq<StepView>, cps: Seq<crate::store::Content>)
    requires
        steps.len() == cps.len(),
    ensures
        forall|i: int|
            0 <= i < gc_steps(steps, cps).0.len() ==> (#[trigger] gc_steps(steps, cps).0[
                i
            ]).ops.len() > 0,
        gc_steps(steps, cps).0.len() <= steps.len(),
    decreases steps.len(),
{
    if steps.len() > 0 {
        law_empty_step_pruning(steps.drop_last(), cps.drop_last());
    }
}

/// A step that captured nothing is not undoable.
pub proof fn law_empty_step_not_undoable(s: StoreModel)
    requires
        s.steps.len() > 0,
        s.steps.last().ops.len() == 0,
    ensures
        spec_undo_last(s) == (s, Err::<(), DbError>(DbError::NothingToUndo)),
{
}

} // verus!
