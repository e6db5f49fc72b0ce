//! The step manager and the undo executor.
//!
//! `begin_undo_step` deletes any steps that captured nothing, opens a
//! new named step, and prunes history beyond the retention window.  `undo_last_step` replays the newest step's
//! captured operations most recent first — proven to restore exactly
//! the content the store had when that step was opened — and discards
//! the step.

use vstd::prelude::*;
use crate::DbError;
use crate::rowmap::{
    rows_map, keys_sorted, sorted_rows, lemma_rows_map_index, lemma_sorted_rows_of,
};
use crate::store::{
    StingyDb, StoreModel, StepView, UndoStep, Content, content_of, chain_ctx, undo_apply,
    content_ok, chain_ok, steps_ok, model_wf, acc_key, txn_key, rule_key,
    lemma_content_ok_of_model,
};
use crate::facade::StoreView;

verus! {

/// The fixed retention window: how many steps are kept.
pub const MAX_UNDO_STEPS: usize = 128;

/// What `begin_undo_step` does: first deletes every step that captured
/// nothing — an empty step must not persist past the next step's
/// opening — then appends a fresh step, with a checkpoint of the
/// current content, and finally drops the oldest steps until at most
/// `max` remain.
pub open spec fn spec_begin_step(s: StoreModel, name: Seq<char>, max: int) -> (StoreModel, Result<
    (),
    DbError,
>) {
    let (steps1, cps1) = gc_steps(s.steps, s.checkpoints);
    if steps1.len() > 0 && steps1.last().id == i64::MAX {
        (StoreModel { steps: steps1, checkpoints: cps1, ..s }, Err(DbError::Full))
    } else {
        let nid: i64 = if steps1.len() == 0 {
            1
        } else {
            (steps1.last().id + 1) as i64
        };
        let steps2 = steps1.push(StepView { id: nid, name, ops: Seq::empty() });
        let cps2 = cps1.push(content_of(s));
        let excess: int = if steps2.len() > max {
            steps2.len() - max
        } else {
            0
        };
        (
            StoreModel { steps: steps2.skip(excess), checkpoints: cps2.skip(excess), ..s },
            Ok(()),
        )
    }
}

/// What `undo_last_step` does: nothing to undo when no step exists or
/// the newest step captured nothing; otherwise the content reverts to
/// the newest step's checkpoint and the step is discarded.
pub open spec fn spec_undo_last(s: StoreModel) -> (StoreModel, Result<(), DbError>) {
    if s.steps.len() == 0 || s.steps.last().ops.len() == 0 {
        (s, Err(DbError::NothingToUndo))
    } else {
        let cp = s.checkpoints.last();
        (
            StoreModel {
                accounts: sorted_rows(cp.accounts, acc_key()),
                transactions: sorted_rows(cp.transactions, txn_key()),
                tag_rules: sorted_rows(cp.tag_rules, rule_key()),
                steps: s.steps.drop_last(),
                checkpoints: s.checkpoints.drop_last(),
                ..s
            },
            Ok(()),
        )
    }
}

/// What `get_last_undo_step` returns: the newest step's name.
pub open spec fn spec_last_step_name(s: StoreModel) -> Result<Seq<char>, DbError> {
    if s.steps.len() == 0 {
        Err(DbError::NothingToUndo)
    } else {
        Ok(s.steps.last().name)
    }
}

/// Dropping the same number of oldest steps and checkpoints keeps the
/// undo chain intact.
proof fn lemma_chain_skip(s: StoreModel, j: int)
    requires
        steps_ok(s),
        chain_ok(s),
        0 <= j <= s.steps.len(),
    ensures
        steps_ok(StoreModel { steps: s.steps.skip(j), checkpoints: s.checkpoints.skip(j), ..s }),
        chain_ok(StoreModel { steps: s.steps.skip(j), checkpoints: s.checkpoints.skip(j), ..s }),
{
    let s2 = StoreModel { steps: s.steps.skip(j), checkpoints: s.checkpoints.skip(j), ..s };
    assert(content_of(s2) =~= content_of(s));
    assert forall|i: int| 0 <= i < s2.steps.len() implies undo_apply(
        chain_ctx(s2, i + 1),
        (#[trigger] s2.steps[i]).ops,
    ) == s2.checkpoints[i] by {
        assert(s2.steps[i] == s.steps[i + j]);
        assert(chain_ctx(s2, i + 1) == chain_ctx(s, i + j + 1));
        assert(undo_apply(chain_ctx(s, i + j + 1), s.steps[i + j].ops) == s.checkpoints[i + j]);
    }
}

/// The steps and checkpoints left once every step with no captured
/// operations is removed.
pub open spec fn gc_steps(steps: Seq<StepView>, cps: Seq<Content>) -> (Seq<StepView>, Seq<Content>)
    decreases steps.len(),
{
    if steps.len() == 0 {
        (Seq::empty(), Seq::empty())
    } else {
        let (st, cp) = gc_steps(steps.drop_last(), cps.drop_last());
        if steps.last().ops.len() == 0 {
            (st, cp)
        } else {
            (st.push(steps.last()), cp.push(cps.last()))
        }
    }
}

/// Garbage collection pairs each kept step with its checkpoint.
pub proof fn lemma_gc_steps_len(steps: Seq<StepView>, cps: Seq<Content>)
    requires
        steps.len() == cps.len(),
    ensures
        gc_steps(steps, cps).0.len() == gc_steps(steps, cps).1.len(),
        gc_steps(steps, cps).0.len() <= steps.len(),
    decreases steps.len(),
{
    if steps.len() > 0 {
        lemma_gc_steps_len(steps.drop_last(), cps.drop_last());
    }
}

/// With no empty step present, garbage collection keeps everything.
proof fn lemma_gc_identity(steps: Seq<StepView>, cps: Seq<Content>)
    requires
        steps.len() == cps.len(),
        forall|j: int| 0 <= j < steps.len() ==> (#[trigger] steps[j]).ops.len() > 0,
    ensures
        gc_steps(steps, cps) == (steps, cps),
    decreases steps.len(),
{
    if steps.len() > 0 {
        lemma_gc_identity(steps.drop_last(), cps.drop_last());
        assert(steps.drop_last().push(steps.last()) =~= steps);
        assert(cps.drop_last().push(cps.last()) =~= cps);
    }
}

/// Removing one empty step does not change what garbage collection
/// leaves.
proof fn lemma_gc_drop(steps: Seq<StepView>, cps: Seq<Content>, i: int)
    requires
        steps.len() == cps.len(),
        0 <= i < steps.len(),
        steps[i].ops.len() == 0,
    ensures
        gc_steps(steps.remove(i), cps.remove(i)) == gc_steps(steps, cps),
    decreases steps.len(),
{
    if i == steps.len() - 1 {
        assert(steps.remove(i) =~= steps.drop_last());
        assert(cps.remove(i) =~= cps.drop_last());
    } else {
        lemma_gc_drop(steps.drop_last(), cps.drop_last(), i);
        assert(steps.remove(i).drop_last() =~= steps.drop_last().remove(i));
        assert(cps.remove(i).drop_last() =~= cps.drop_last().remove(i));
        assert(steps.remove(i).last() == steps.last());
        assert(cps.remove(i).last() == cps.last());
        assert(steps.remove(i).len() > 0);
    }
}

/// Removing one empty step, with its checkpoint, keeps the undo chain
/// intact: an empty step's replay changes nothing, so its checkpoint
/// equals its successor's context.
proof fn lemma_drop_step(s: StoreModel, i: int)
    requires
        steps_ok(s),
        chain_ok(s),
        0 <= i < s.steps.len(),
        s.steps[i].ops.len() == 0,
    ensures
        steps_ok(
            StoreModel { steps: s.steps.remove(i), checkpoints: s.checkpoints.remove(i), ..s },
        ),
        chain_ok(
            StoreModel { steps: s.steps.remove(i), checkpoints: s.checkpoints.remove(i), ..s },
        ),
{
    let s2 = StoreModel { steps: s.steps.remove(i), checkpoints: s.checkpoints.remove(i), ..s };
    let n = s.steps.len() as int;
    assert(content_of(s2) =~= content_of(s));
    // the dropped step's checkpoint equals its successor's context
    assert(undo_apply(chain_ctx(s, i + 1), s.steps[i].ops) == s.checkpoints[i]);
    assert(s.checkpoints[i] == chain_ctx(s, i + 1));
    assert forall|j: int| 0 <= j < s2.steps.len() implies undo_apply(
        chain_ctx(s2, j + 1),
        (#[trigger] s2.steps[j]).ops,
    ) == s2.checkpoints[j] by {
        if j < i {
            assert(s2.steps[j] == s.steps[j]);
            assert(s2.checkpoints[j] == s.checkpoints[j]);
            if j + 1 < i {
                assert(chain_ctx(s2, j + 1) == s.checkpoints[j + 1]);
                assert(chain_ctx(s, j + 1) == s.checkpoints[j + 1]);
            } else {
                // j + 1 == i: the new context skips the dropped step
                if i == n - 1 {
                    assert(chain_ctx(s2, j + 1) == content_of(s2));
                    assert(chain_ctx(s, i + 1) == content_of(s));
                } else {
                    assert(chain_ctx(s2, j + 1) == s.checkpoints[i + 1]);
                    assert(chain_ctx(s, i + 1) == s.checkpoints[i + 1]);
                }
                assert(chain_ctx(s2, j + 1) == s.checkpoints[i]);
            }
            assert(undo_apply(chain_ctx(s, j + 1), s.steps[j].ops) == s.checkpoints[j]);
        } else {
            assert(s2.steps[j] == s.steps[j + 1]);
            assert(s2.checkpoints[j] == s.checkpoints[j + 1]);
            if j + 1 < s2.steps.len() {
                assert(chain_ctx(s2, j + 1) == s.checkpoints[j + 2]);
                assert(chain_ctx(s, j + 2) == s.checkpoints[j + 2]);
            } else {
                assert(chain_ctx(s2, j + 1) == content_of(s2));
                assert(chain_ctx(s, j + 2) == content_of(s));
            }
            assert(undo_apply(chain_ctx(s, j + 2), s.steps[j + 1].ops) == s.checkpoints[j + 1]);
        }
    }
}

impl StingyDb {
    /// Deletes every step with zero captured operations.  Run once per
    /// store-open, so stale read-only steps never accumulate or block
    /// the undo stack.
    pub fn garbage_collect_empty_steps(&mut self)
        requires
            old(self).wf(),
        ensures
            final(self).wf(),
            final(self).model() == (StoreModel {
                steps: gc_steps(old(self).model().steps, old(self).model().checkpoints).0,
                checkpoints: gc_steps(old(self).model().steps, old(self).model().checkpoints).1,
                ..old(self).model()
            }),
    {
        let ghost s0 = self.model();
        let mut i: usize = 0;
        while i < self.steps.len()
            invariant
                s0 == old(self).model(),
                model_wf(self.model()),
                i <= self.steps@.len(),
                forall|j: int| 0 <= j < i ==> (#[trigger] self.model().steps[j]).ops.len() > 0,
                gc_steps(self.model().steps, self.model().checkpoints) == gc_steps(
                    s0.steps,
                    s0.checkpoints,
                ),
                self.model() == (StoreModel {
                    steps: self.model().steps,
                    checkpoints: self.model().checkpoints,
                    ..s0
                }),
            decreases self.steps@.len() - i,
        {
            let ghost sh = self.model();
            if self.steps[i].ops.len() == 0 {
                self.steps.remove(i);
                proof {
                    self.checkpoints@ = self.checkpoints@.remove(i as int);
                    let f = |st: UndoStep| StingyDb::spec_step_view(st);
                    assert(self.steps@.map_values(f) =~= sh.steps.remove(i as int));
                    assert(self.model() == (StoreModel {
                        steps: sh.steps.remove(i as int),
                        checkpoints: sh.checkpoints.remove(i as int),
                        ..sh
                    }));
                    lemma_drop_step(sh, i as int);
                    lemma_gc_drop(sh.steps, sh.checkpoints, i as int);
                    assert(content_of(self.model()) =~= content_of(sh));
                    assert(model_wf(self.model()));
                }
            } else {
                i += 1;
            }
        }
        proof {
            lemma_gc_identity(self.model().steps, self.model().checkpoints);
            assert(self.model() =~= (StoreModel {
                steps: gc_steps(s0.steps, s0.checkpoints).0,
                checkpoints: gc_steps(s0.steps, s0.checkpoints).1,
                ..s0
            }));
        }
    }
}

/// The undo operations of the store.  Only the step with the greatest
/// identifier may be undone: undo history is a stack.
pub trait UndoOperations: StoreView {
    /// What `begin_undo_step` does and returns.
    spec fn spec_begin(&self, name: Seq<char>, max: int) -> (StoreModel, Result<(), DbError>);

    /// What `undo_last_step` does and returns.
    spec fn spec_undo(&self) -> (StoreModel, Result<(), DbError>);

    /// What `get_last_undo_step` returns.
    spec fn spec_last_name(&self) -> Result<Seq<char>, DbError>;

    /// Deletes every step that captured nothing — an empty step must
    /// not persist past this call — then opens a new named step and,
    /// while more than `max_undo_steps` steps exist, deletes the oldest
    /// together with its captured operations.  Write capture must be
    /// installed, which the store-open contract guarantees before any
    /// command runs.
    fn begin_undo_step(&mut self, undo_step_name: &str, max_undo_steps: usize) -> (r: Result<
        (),
        DbError,
    >)
        requires
            old(self).inv(),
            old(self).store_model().capture_on,
        ensures
            final(self).inv(),
            (final(self).store_model(), r) == old(self).spec_begin(
                undo_step_name@,
                max_undo_steps as int,
            ),
    ;

    /// Replays the newest step's captured operations, most recent
    /// first, restoring the content the store had when the step was
    /// opened, then deletes the consumed step.
    fn undo_last_step(&mut self) -> (r: Result<(), DbError>)
        requires
            old(self).inv(),
        ensures
            final(self).inv(),
            (final(self).store_model(), r) == old(self).spec_undo(),
    ;

    /// The name of the newest step.
    fn get_last_undo_step(&self) -> (r: Result<String, DbError>)
        requires
            self.inv(),
        ensures
            match (r, self.spec_last_name()) {
                (Ok(n), Ok(sn)) => n@ == sn,
                (Err(e), Err(e2)) => e == e2,
                _ => false,
            },
    ;
}

impl UndoOperations for StingyDb {
    open spec fn spec_begin(&self, name: Seq<char>, max: int) -> (StoreModel, Result<
        (),
        DbError,
    >) {
        spec_begin_step(self.model(), name, max)
    }

    open spec fn spec_undo(&self) -> (StoreModel, Result<(), DbError>) {
        spec_undo_last(self.model())
    }

    open spec fn spec_last_name(&self) -> Result<Seq<char>, DbError> {
        spec_last_step_name(self.model())
    }

    fn begin_undo_step(&mut self, undo_step_name: &str, max_undo_steps: usize) -> (r: Result<
        (),
        DbError,
    >) {
        let ghost sorig = self.model();
        // an empty step must not persist past this call
        self.garbage_collect_empty_steps();
        let ghost s0 = self.model();
        proof {
            assert(content_of(s0) =~= content_of(sorig));
        }
        let nid: i64 = if self.steps.len() == 0 {
            1
        } else {
            let last_id = self.steps[self.steps.len() - 1].id;
            if last_id == i64::MAX {
                return Err(DbError::Full);
            }
            last_id + 1
        };
        proof {
            self.checkpoints@ = self.checkpoints@.push(content_of(s0));
        }
        self.steps.push(
            UndoStep { id: nid, name: String::from_str(undo_step_name), ops: Vec::new() },
        );
        let ghost steps2 = s0.steps.push(
            StepView { id: nid, name: undo_step_name@, ops: Seq::empty() },
        );
        let ghost cps2 = s0.checkpoints.push(content_of(s0));
        let ghost mid = StoreModel { steps: steps2, checkpoints: cps2, ..s0 };
        proof {
            let f = |st: UndoStep| StingyDb::spec_step_view(st);
            assert(self.steps@.map_values(f) =~= steps2);
            assert(self.model() =~= mid);
            assert(content_of(mid) =~= content_of(s0));
            // the new step's replay is empty, so its checkpoint is the
            // current content; older links are untouched
            assert forall|i: int| 0 <= i < mid.steps.len() implies undo_apply(
                chain_ctx(mid, i + 1),
                (#[trigger] mid.steps[i]).ops,
            ) == mid.checkpoints[i] by {
                if i < mid.steps.len() - 1 {
                    assert(mid.steps[i] == s0.steps[i]);
                    assert(mid.checkpoints[i] == s0.checkpoints[i]);
                    if i + 1 == s0.steps.len() {
                        assert(chain_ctx(mid, i + 1) == mid.checkpoints[i + 1]);
                        assert(mid.checkpoints[i + 1] == content_of(s0));
                        assert(chain_ctx(s0, i + 1) == content_of(s0));
                    } else {
                        assert(chain_ctx(mid, i + 1) == s0.checkpoints[i + 1]);
                        assert(chain_ctx(s0, i + 1) == s0.checkpoints[i + 1]);
                    }
                    assert(undo_apply(chain_ctx(s0, i + 1), s0.steps[i].ops) == s0.checkpoints[i]);
                } else {
                    assert(mid.steps[i].ops =~= Seq::<crate::store::CapturedOperation>::empty());
                    assert(chain_ctx(mid, i + 1) == content_of(mid));
                    assert(mid.checkpoints[i] == content_of(s0));
                }
            }
            lemma_content_ok_of_model(s0);
            assert forall|i: int| 0 <= i < mid.checkpoints.len() implies content_ok(
                #[trigger] mid.checkpoints[i],
            ) by {
                if i < s0.checkpoints.len() {
                    assert(mid.checkpoints[i] == s0.checkpoints[i]);
                }
            }
            assert(steps_ok(mid));
            assert(chain_ok(mid));
        }
        let ghost mut j: int = 0;
        while self.steps.len() > max_undo_steps
            invariant
                steps2.len() == cps2.len(),
                0 <= j <= steps2.len(),
                self.steps@.len() == steps2.len() - j,
                j > 0 ==> self.steps@.len() >= max_undo_steps,
                self.model() =~= (StoreModel {
                    steps: steps2.subrange(j, steps2.len() as int),
                    checkpoints: cps2.subrange(j, cps2.len() as int),
                    ..s0
                }),
            decreases self.steps@.len(),
        {
            let ghost prev_steps = self.steps@;
            let ghost prev_model = self.model();
            self.steps.remove(0);
            proof {
                self.checkpoints@ = self.checkpoints@.subrange(1, self.checkpoints@.len() as int);
                let f = |st: UndoStep| StingyDb::spec_step_view(st);
                assert(self.steps@ =~= prev_steps.subrange(1, prev_steps.len() as int));
                assert forall|k: int| 0 <= k < self.steps@.len() implies f(
                    #[trigger] self.steps@[k],
                ) == steps2[j + 1 + k] by {
                    assert(self.steps@[k] == prev_steps[k + 1]);
                    assert(prev_model.steps[k + 1] == f(prev_steps[k + 1]));
                    assert(prev_model.steps[k + 1] == steps2.subrange(j, steps2.len() as int)[k
                        + 1]);
                }
                assert(self.steps@.map_values(f) =~= steps2.subrange(j + 1, steps2.len() as int));
                assert(self.checkpoints@ =~= cps2.subrange(j + 1, cps2.len() as int));
                j = j + 1;
                assert(self.model() =~= (StoreModel {
                    steps: steps2.subrange(j, steps2.len() as int),
                    checkpoints: cps2.subrange(j, cps2.len() as int),
                    ..s0
                }));
            }
        }
        proof {
            let (starget, rtarget) = spec_begin_step(sorig, undo_step_name@, max_undo_steps as int);
            assert(j == if steps2.len() > max_undo_steps as int {
                steps2.len() - max_undo_steps as int
            } else {
                0int
            });
            assert(steps2.skip(j) =~= steps2.subrange(j, steps2.len() as int));
            assert(cps2.skip(j) =~= cps2.subrange(j, cps2.len() as int));
            assert(self.model() =~= starget);
            lemma_chain_skip(mid, j);
            assert(content_of(self.model()) =~= content_of(mid));
            assert(model_wf(self.model()));
        }
        Ok(())
    }

    fn undo_last_step(&mut self) -> (r: Result<(), DbError>) {
        let ghost s0 = self.model();
        if self.steps.len() == 0 {
            return Err(DbError::NothingToUndo);
        }
        if self.steps[self.steps.len() - 1].ops.len() == 0 {
            return Err(DbError::NothingToUndo);
        }
        let st = self.steps.pop().unwrap();
        let ghost cp = self.checkpoints@.last();
        let ghost mid = self.model();
        proof {
            let f = |st2: UndoStep| StingyDb::spec_step_view(st2);
            assert(self.steps@.map_values(f) =~= s0.steps.drop_last());
            assert(mid.steps == s0.steps.drop_last());
            assert(content_of(mid) =~= content_of(s0));
            assert(st.ops@ == s0.steps.last().ops);
            assert(undo_apply(chain_ctx(s0, s0.steps.len() as int), s0.steps.last().ops)
                == s0.checkpoints.last());
            assert(st.ops@.subrange(0, st.ops@.len() as int) =~= st.ops@);
        }
        let mut i: usize = st.ops.len();
        while i > 0
            invariant
                i <= st.ops@.len(),
                keys_sorted(self.accounts@, acc_key()),
                keys_sorted(self.transactions@, txn_key()),
                keys_sorted(self.tag_rules@, rule_key()),
                undo_apply(content_of(self.model()), st.ops@.subrange(0, i as int)) == cp,
                self.model().steps == mid.steps,
                self.model().version == mid.version,
                self.model().capture_on == mid.capture_on,
                self.model().location == mid.location,
                self.model().checkpoints == mid.checkpoints,
            decreases i,
        {
            i -= 1;
            let ghost cbefore = content_of(self.model());
            self.raw_apply(&st.ops[i].payload);
            proof {
                assert(st.ops@.subrange(0, i + 1).drop_last() =~= st.ops@.subrange(0, i as int));
                assert(st.ops@.subrange(0, i + 1).last() == st.ops@[i as int]);
                assert(undo_apply(cbefore, st.ops@.subrange(0, i + 1)) == undo_apply(
                    content_of(self.model()),
                    st.ops@.subrange(0, i as int),
                ));
            }
        }
        proof {
            assert(st.ops@.subrange(0, 0) =~= Seq::<crate::store::CapturedOperation>::empty());
            assert(content_of(self.model()) == cp);
            self.checkpoints@ = self.checkpoints@.drop_last();
        }
        proof {
            let (starget, rtarget) = spec_undo_last(s0);
            let sf = self.model();
            assert(content_ok(cp));
            // the tables are sorted and their map views are the
            // checkpoint's, so they are its canonical row sequences
            assert(rows_map(sf.accounts, acc_key()) == cp.accounts);
            assert(rows_map(sf.transactions, txn_key()) == cp.transactions);
            assert(rows_map(sf.tag_rules, rule_key()) == cp.tag_rules);
            lemma_sorted_rows_of(sf.accounts, acc_key());
            lemma_sorted_rows_of(sf.transactions, txn_key());
            lemma_sorted_rows_of(sf.tag_rules, rule_key());
            assert(sf =~= starget);
            // well-formedness of the restored content
            assert forall|i2: int| 0 <= i2 < sf.accounts.len() implies (
            #[trigger] sf.accounts[i2]).id == Some(acc_key()(sf.accounts[i2]) as i64) && acc_key()(
                sf.accounts[i2],
            ) >= 1 by {
                lemma_rows_map_index(sf.accounts, acc_key(), i2);
            }
            assert forall|i2: int| 0 <= i2 < sf.transactions.len() implies (
            #[trigger] sf.transactions[i2]).id == Some(txn_key()(sf.transactions[i2]) as i64)
                && txn_key()(sf.transactions[i2]) >= 1 by {
                lemma_rows_map_index(sf.transactions, txn_key(), i2);
            }
            assert forall|i2: int| 0 <= i2 < sf.tag_rules.len() implies (
            #[trigger] sf.tag_rules[i2]).id == Some(rule_key()(sf.tag_rules[i2]) as i64)
                && rule_key()(sf.tag_rules[i2]) >= 1 by {
                lemma_rows_map_index(sf.tag_rules, rule_key(), i2);
            }
            assert forall|i2: int, j2: int| 0 <= i2 < j2 < sf.accounts.len() implies
                !crate::model::account_conflict(
                #[trigger] sf.accounts[i2],
                #[trigger] sf.accounts[j2],
            ) by {
                lemma_rows_map_index(sf.accounts, acc_key(), i2);
                lemma_rows_map_index(sf.accounts, acc_key(), j2);
            }
            assert forall|i2: int, j2: int| 0 <= i2 < j2 < sf.transactions.len() implies
                !crate::model::transaction_same(
                #[trigger] sf.transactions[i2],
                #[trigger] sf.transactions[j2],
            ) by {
                lemma_rows_map_index(sf.transactions, txn_key(), i2);
                lemma_rows_map_index(sf.transactions, txn_key(), j2);
            }
            assert forall|i2: int, j2: int| 0 <= i2 < j2 < sf.tag_rules.len() implies
                !crate::model::tag_rule_same(
                #[trigger] sf.tag_rules[i2],
                #[trigger] sf.tag_rules[j2],
            ) by {
                lemma_rows_map_index(sf.tag_rules, rule_key(), i2);
                lemma_rows_map_index(sf.tag_rules, rule_key(), j2);
            }
            // the remaining links: the new newest step's context is the
            // restored content, which is exactly its successor's old
            // checkpoint
            assert forall|i2: int| 0 <= i2 < sf.steps.len() implies undo_apply(
                chain_ctx(sf, i2 + 1),
                (#[trigger] sf.steps[i2]).ops,
            ) == sf.checkpoints[i2] by {
                assert(sf.steps[i2] == s0.steps[i2]);
                if i2 + 1 < sf.steps.len() {
                    assert(chain_ctx(sf, i2 + 1) == chain_ctx(s0, i2 + 1));
                } else {
                    assert(chain_ctx(sf, i2 + 1) == content_of(sf));
                    assert(content_of(sf) == cp);
                    assert(chain_ctx(s0, i2 + 1) == s0.checkpoints[i2 + 1]);
                }
                assert(undo_apply(chain_ctx(s0, i2 + 1), s0.steps[i2].ops) == s0.checkpoints[i2]);
            }
            assert(model_wf(sf));
        }
        Ok(())
    }

    fn get_last_undo_step(&self) -> (r: Result<String, DbError>) {
        if self.steps.len() == 0 {
            return Err(DbError::NothingToUndo);
        }
        let name = self.steps[self.steps.len() - 1].name.clone();
        Ok(name)
    }
}

/// Opens the named step for one mutating command invocation, with the
/// standard retention window.
pub fn begin_undo_step(db: &mut StingyDb, name: &str) -> (r: Result<(), DbError>)
    requires
        old(db).wf(),
        old(db).model().capture_on,
    ensures
        final(db).wf(),
        (final(db).model(), r) == spec_begin_step(
            old(db).model(),
            name@,
            MAX_UNDO_STEPS as int,
        ),
{
    UndoOperations::begin_undo_step(db, name, MAX_UNDO_STEPS)
}

/// Undoes the most recent step: reads its name for the operator, then
/// replays and discards it.  Fails with nothing to undo when no
/// undoable step exists.
pub fn command_undo(db: &mut StingyDb) -> (r: Result<(), DbError>)
    requires
        old(db).wf(),
    ensures
        final(db).wf(),
        (final(db).model(), r) == spec_undo_last(old(db).model()),
{
    let _name = match UndoOperations::get_last_undo_step(db) {
        Ok(n) => n,
        Err(e) => {
            return Err(e);
        },
    };
    UndoOperations::undo_last_step(db)
}

} // verus!
