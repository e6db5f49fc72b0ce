//! The migration runner: brings the persistent schema version to the
//! latest, one migration at a time, each applied transactionally.
//!
//! A migration's script is an ordered list of raw writes.  A script
//! either applies whole or not at all: on the first failing write the
//! scratch copy is discarded, the version stays at the last
//! fully-committed migration, and the failure is reported.  Running a
//! migration invalidates the undo history, which is wiped.

use vstd::prelude::*;
use crate::DbError;
use crate::model::{account_conflict, transaction_same, tag_rule_same};
use crate::rowmap::{
    rows_map, keys_sorted, sorted_rows, lemma_rows_map_dom, lemma_rows_map_index,
    lemma_sorted_rows_of,
};
use crate::store::{
    StingyDb, StoreModel, Table, Record, OpPayload, Content, content_of, content_ok, id_key,
    acc_key, txn_key, rule_key, apply_op, model_wf, lemma_tables_ok_from_content,
    lemma_content_ok_of_model,
};
use crate::facade::{clone_accounts, clone_transactions, clone_tag_rules};
use crate::engine::{acc_pos, txn_pos, rule_pos, acc_row_key, txn_row_key, rule_row_key};

verus! {

/// One raw write of a migration script.
#[derive(Debug, Clone)]
pub enum ScriptOp {
    /// Creates the row under its own identifier; fails when the
    /// identifier is unassigned or taken, or a uniqueness constraint
    /// rejects the row.
    Insert(Record),
    /// Removes the row with this key; fails when no such row exists.
    Delete { table: Table, key: i64 },
}

/// One schema migration: a name and a script of raw writes.
#[derive(Debug)]
pub struct Migration {
    pub name: String,
    pub script: Vec<ScriptOp>,
}

/// The abstract value of one migration.
#[verifier::ext_equal]
pub struct MigrationView {
    pub name: Seq<char>,
    pub script: Seq<ScriptOp>,
}

/// The abstract value of a migration record.
pub open spec fn migration_view(m: Migration) -> MigrationView {
    MigrationView { name: m.name@, script: m.script@ }
}

/// What one script write does to the content, or `None` when it fails.
pub open spec fn script_op_apply(c: Content, op: ScriptOp) -> Option<Content> {
    match op {
        ScriptOp::Insert(Record::Account(a)) => {
            let k = id_key(a.id);
            if a.id is None || k < 1 || c.accounts.dom().contains(k) || (exists|k2: int|
                #[trigger] c.accounts.dom().contains(k2) && account_conflict(c.accounts[k2], a)) {
                None
            } else {
                Some(Content { accounts: c.accounts.insert(k, a), ..c })
            }
        },
        ScriptOp::Insert(Record::Transaction(t)) => {
            let k = id_key(t.id);
            if t.id is None || k < 1 || c.transactions.dom().contains(k) || (exists|k2: int|
                #[trigger] c.transactions.dom().contains(k2) && transaction_same(
                    c.transactions[k2],
                    t,
                )) {
                None
            } else {
                Some(Content { transactions: c.transactions.insert(k, t), ..c })
            }
        },
        ScriptOp::Insert(Record::TagRule(t)) => {
            let k = id_key(t.id);
            if t.id is None || k < 1 || c.tag_rules.dom().contains(k) || (exists|k2: int|
                #[trigger] c.tag_rules.dom().contains(k2) && tag_rule_same(c.tag_rules[k2], t)) {
                None
            } else {
                Some(Content { tag_rules: c.tag_rules.insert(k, t), ..c })
            }
        },
        ScriptOp::Delete { table: Table::Accounts, key } => {
            if c.accounts.dom().contains(key as int) {
                Some(Content { accounts: c.accounts.remove(key as int), ..c })
            } else {
                None
            }
        },
        ScriptOp::Delete { table: Table::Transactions, key } => {
            if c.transactions.dom().contains(key as int) {
                Some(Content { transactions: c.transactions.remove(key as int), ..c })
            } else {
                None
            }
        },
        ScriptOp::Delete { table: Table::TagRules, key } => {
            if c.tag_rules.dom().contains(key as int) {
                Some(Content { tag_rules: c.tag_rules.remove(key as int), ..c })
            } else {
                None
            }
        },
    }
}

/// What a whole script does: the writes in order, or `None` as soon as
/// one fails.
pub open spec fn script_apply(c: Content, ops: Seq<ScriptOp>) -> Option<Content>
    decreases ops.len(),
{
    if ops.len() == 0 {
        Some(c)
    } else {
        match script_op_apply(c, ops.first()) {
            None => None,
            Some(c2) => script_apply(c2, ops.drop_first()),
        }
    }
}

/// Runs the migrations with index at least `v` in ascending order:
/// returns the final content, the final persisted version, and the name
/// of the failing migration if one failed.
pub open spec fn spec_migrations_from(c: Content, migs: Seq<MigrationView>, v: int) -> (
    Content,
    int,
    Option<Seq<char>>,
)
    decreases migs.len() - v,
        when 0 <= v <= migs.len()
{
    if v >= migs.len() {
        (c, v - 1, None)
    } else {
        match script_apply(c, migs[v].script) {
            None => (c, v - 1, Some(migs[v].name)),
            Some(c2) => spec_migrations_from(c2, migs, v + 1),
        }
    }
}

/// What `perform_migrations` does: nothing when the persisted version
/// is already current; otherwise the undo history is wiped and each
/// unapplied migration runs transactionally in ascending order,
/// stopping at the first failure.
pub open spec fn spec_perform(s: StoreModel, migs: Seq<MigrationView>) -> StoreModel {
    if migs.len() == 0 || s.version >= migs.len() - 1 {
        s
    } else {
        let (c2, v2, _) = spec_migrations_from(content_of(s), migs, s.version + 1);
        StoreModel {
            accounts: sorted_rows(c2.accounts, acc_key()),
            transactions: sorted_rows(c2.transactions, txn_key()),
            tag_rules: sorted_rows(c2.tag_rules, rule_key()),
            steps: Seq::empty(),
            checkpoints: Seq::empty(),
            version: v2 as usize,
            ..s
        }
    }
}

/// The result `perform_migrations` returns.
pub open spec fn spec_perform_result(s: StoreModel, migs: Seq<MigrationView>) -> Result<
    bool,
    Seq<char>,
> {
    if migs.len() == 0 || s.version >= migs.len() - 1 {
        Ok(false)
    } else {
        let (_, _, err) = spec_migrations_from(content_of(s), migs, s.version + 1);
        match err {
            None => Ok(true),
            Some(name) => Err(name),
        }
    }
}

/// A successful script write keeps the content constraints.
pub proof fn lemma_script_op_content_ok_pub(c: Content, op: ScriptOp)
    requires
        content_ok(c),
        script_op_apply(c, op) is Some,
    ensures
        content_ok(script_op_apply(c, op).unwrap()),
{
    lemma_script_op_content_ok(c, op);
}

/// A successful script write keeps the content constraints.
proof fn lemma_script_op_content_ok(c: Content, op: ScriptOp)
    requires
        content_ok(c),
        script_op_apply(c, op) is Some,
    ensures
        content_ok(script_op_apply(c, op).unwrap()),
{
    match op {
        ScriptOp::Insert(Record::Account(a)) => {
            let k = id_key(a.id);
            let c2 = script_op_apply(c, op).unwrap();
            assert forall|k1: int, k2: int|
                c2.accounts.dom().contains(k1) && c2.accounts.dom().contains(k2) && k1
                    != k2 implies !account_conflict(
                #[trigger] c2.accounts[k1],
                #[trigger] c2.accounts[k2],
            ) by {
                if k1 == k {
                    assert(c.accounts.dom().contains(k2));
                    assert(!account_conflict(c.accounts[k2], a));
                } else if k2 == k {
                    assert(c.accounts.dom().contains(k1));
                    assert(!account_conflict(c.accounts[k1], a));
                }
            }
        },
        ScriptOp::Insert(Record::Transaction(t)) => {
            let k = id_key(t.id);
            let c2 = script_op_apply(c, op).unwrap();
            assert forall|k1: int, k2: int|
                c2.transactions.dom().contains(k1) && c2.transactions.dom().contains(k2) && k1
                    != k2 implies !transaction_same(
                #[trigger] c2.transactions[k1],
                #[trigger] c2.transactions[k2],
            ) by {
                if k1 == k {
                    assert(c.transactions.dom().contains(k2));
                    assert(!transaction_same(c.transactions[k2], t));
                } else if k2 == k {
                    assert(c.transactions.dom().contains(k1));
                    assert(!transaction_same(c.transactions[k1], t));
                }
            }
        },
        ScriptOp::Insert(Record::TagRule(t)) => {
            let k = id_key(t.id);
            let c2 = script_op_apply(c, op).unwrap();
            assert forall|k1: int, k2: int|
                c2.tag_rules.dom().contains(k1) && c2.tag_rules.dom().contains(k2) && k1
                    != k2 implies !tag_rule_same(
                #[trigger] c2.tag_rules[k1],
                #[trigger] c2.tag_rules[k2],
            ) by {
                if k1 == k {
                    assert(c.tag_rules.dom().contains(k2));
                    assert(!tag_rule_same(c.tag_rules[k2], t));
                } else if k2 == k {
                    assert(c.tag_rules.dom().contains(k1));
                    assert(!tag_rule_same(c.tag_rules[k1], t));
                }
            }
        },
        ScriptOp::Delete { .. } => {},
    }
}

/// Brings the store to the latest schema version.  Returns whether any
/// migration ran; on the first failing migration, that migration's
/// writes are discarded, the version stays at the last fully-committed
/// migration, and `MigrationFailure` names the script that failed.
/// When any migration runs, the undo history is wiped: a schema change
/// invalidates it.
pub fn perform_migrations(db: &mut StingyDb, migrations: &Vec<Migration>) -> (r: Result<
    bool,
    DbError,
>)
    requires
        old(db).wf(),
    ensures
        final(db).wf(),
        final(db).model() == spec_perform(
            old(db).model(),
            migrations@.map_values(|m: Migration| migration_view(m)),
        ),
        match (
            r,
            spec_perform_result(
                old(db).model(),
                migrations@.map_values(|m: Migration| migration_view(m)),
            ),
        ) {
            (Ok(b), Ok(b2)) => b == b2,
            (Err(e), Err(n2)) => e matches DbError::MigrationFailure { name } && name@ == n2,
            _ => false,
        },
{
    let ghost s0 = db.model();
    let ghost migs = migrations@.map_values(|m: Migration| migration_view(m));
    let n = migrations.len();
    if n == 0 || db.version >= n - 1 {
        return Ok(false);
    }
    // history is invalidated by a schema change
    db.steps = Vec::new();
    proof {
        db.checkpoints@ = Seq::<Content>::empty();
        lemma_content_ok_of_model(s0);
    }
    let ghost c_entry = content_of(s0);
    let ghost outcome = spec_migrations_from(c_entry, migs, s0.version + 1);
    let mut v: usize = db.version + 1;
    while v < n
        invariant
            n == migrations@.len(),
            migs == migrations@.map_values(|m: Migration| migration_view(m)),
            migs.len() == n,
            0 <= s0.version + 1 <= n,
            s0.version < n - 1,
            n > 0,
            s0 == old(db).model(),
            c_entry == content_of(s0),
            outcome == spec_migrations_from(c_entry, migs, s0.version + 1),
            1 <= v <= n,
            db.version as int == v - 1,
            db.model().steps == Seq::<crate::store::StepView>::empty(),
            db.checkpoints@ == Seq::<Content>::empty(),
            db.capture_on == s0.capture_on,
            db.location@ == s0.location,
            keys_sorted(db.accounts@, acc_key()),
            keys_sorted(db.transactions@, txn_key()),
            keys_sorted(db.tag_rules@, rule_key()),
            content_ok(content_of(db.model())),
            spec_migrations_from(content_of(db.model()), migs, v as int) == outcome,
        decreases n - v,
    {
        let ghost acc_before = db.accounts@;
        let ghost txn_before = db.transactions@;
        let ghost rule_before = db.tag_rules@;
        let ghost c_before = content_of(db.model());
        let acc_snap = clone_accounts(&db.accounts);
        let txn_snap = clone_transactions(&db.transactions);
        let rule_snap = clone_tag_rules(&db.tag_rules);
        let ghost script = migrations@[v as int].script@;
        let mut i: usize = 0;
        let mut ok = true;
        proof {
            assert(migs[v as int] == migration_view(migrations@[v as int]));
            assert(script.skip(0) =~= script);
        }
        while ok && i < migrations[v].script.len()
            invariant
                v < migrations@.len(),
                script == migrations@[v as int].script@,
                i <= script.len(),
                db.model().steps == Seq::<crate::store::StepView>::empty(),
                db.checkpoints@ == Seq::<Content>::empty(),
                db.capture_on == s0.capture_on,
                db.location@ == s0.location,
                db.version as int == v - 1,
                keys_sorted(db.accounts@, acc_key()),
                keys_sorted(db.transactions@, txn_key()),
                keys_sorted(db.tag_rules@, rule_key()),
                content_ok(content_of(db.model())),
                ok ==> script_apply(c_before, script) == script_apply(
                    content_of(db.model()),
                    script.skip(i as int),
                ),
                !ok ==> script_apply(c_before, script) is None,
            decreases script.len() - i + (if ok {
                1int
            } else {
                0int
            }),
        {
            let ghost c_here = content_of(db.model());
            let op_ok = db.script_step(&migrations[v].script[i]);
            proof {
                let op = script[i as int];
                assert(script.skip(i as int).first() == op);
                assert(script.skip(i as int).drop_first() =~= script.skip(i + 1));
            }
            if op_ok {
                proof {
                    lemma_script_op_content_ok(c_here, script[i as int]);
                }
                i += 1;
            } else {
                ok = false;
            }
        }
        if ok {
            proof {
                assert(script.skip(script.len() as int) =~= Seq::<ScriptOp>::empty());
                assert(script_apply(c_before, script) == Some(content_of(db.model())));
                assert(migs[v as int].script == script);
                assert(spec_migrations_from(c_before, migs, v as int) == spec_migrations_from(
                    content_of(db.model()),
                    migs,
                    v + 1,
                ));
            }
            db.version = v;
            v += 1;
        } else {
            // discard the scratch writes of this script
            db.accounts = acc_snap;
            db.transactions = txn_snap;
            db.tag_rules = rule_snap;
            let name = migrations[v].name.clone();
            proof {
                assert(content_of(db.model()) =~= c_before);
                assert(migs[v as int].script == script);
                assert(spec_migrations_from(content_of(db.model()), migs, v as int) == outcome);
                assert(outcome == (content_of(db.model()), v - 1, Some(migs[v as int].name)));
                let sf = db.model();
                lemma_sorted_rows_of(sf.accounts, acc_key());
                lemma_sorted_rows_of(sf.transactions, txn_key());
                lemma_sorted_rows_of(sf.tag_rules, rule_key());
                assert(sf =~= spec_perform(s0, migs));
                lemma_tables_ok_from_content(sf);
                assert(model_wf(sf));
            }
            return Err(DbError::MigrationFailure { name });
        }
    }
    proof {
        assert(spec_migrations_from(content_of(db.model()), migs, n as int) == outcome);
        assert(outcome == (content_of(db.model()), n - 1, None::<Seq<char>>));
        let sf = db.model();
        lemma_sorted_rows_of(sf.accounts, acc_key());
        lemma_sorted_rows_of(sf.transactions, txn_key());
        lemma_sorted_rows_of(sf.tag_rules, rule_key());
        assert(sf =~= spec_perform(s0, migs));
        lemma_tables_ok_from_content(sf);
        assert(model_wf(sf));
    }
    Ok(true)
}

impl StingyDb {
    /// Applies one script write, or reports failure leaving the store
    /// untouched.
    pub(crate) fn script_step(&mut self, op: &ScriptOp) -> (r: bool)
        requires
            keys_sorted(old(self).accounts@, acc_key()),
            keys_sorted(old(self).transactions@, txn_key()),
            keys_sorted(old(self).tag_rules@, rule_key()),
        ensures
            keys_sorted(final(self).accounts@, acc_key()),
            keys_sorted(final(self).transactions@, txn_key()),
            keys_sorted(final(self).tag_rules@, rule_key()),
            match script_op_apply(content_of(old(self).model()), *op) {
                Some(c2) => r && content_of(final(self).model()) == c2,
                None => !r && final(self).model() == old(self).model(),
            },
            final(self).model().steps == old(self).model().steps,
            final(self).version == old(self).version,
            final(self).capture_on == old(self).capture_on,
            final(self).location@ == old(self).location@,
            final(self).checkpoints@ == old(self).checkpoints@,
    {
        let ghost s0 = self.model();
        let ghost c0 = content_of(s0);
        match op {
            ScriptOp::Insert(Record::Account(a)) => {
                let key = acc_row_key(a);
                if a.id.is_none() || key < 1 {
                    return false;
                }
                let pos = acc_pos(&self.accounts, key);
                if pos < self.accounts.len() && acc_row_key(&self.accounts[pos]) == key {
                    proof {
                        crate::rowmap::lemma_rows_map_index(s0.accounts, acc_key(), pos as int);
                    }
                    return false;
                }
                proof {
                    lemma_rows_map_dom(s0.accounts, acc_key());
                }
                if crate::facade::acc_scan(&self.accounts, a).1 {
                    proof {
                        let i = choose|i: int|
                            0 <= i < s0.accounts.len() && account_conflict(
                                #[trigger] s0.accounts[i],
                                *a,
                            );
                        lemma_rows_map_index(s0.accounts, acc_key(), i);
                    }
                    return false;
                }
                proof {
                    assert forall|j: int| pos <= j < s0.accounts.len() implies acc_key()(
                        #[trigger] s0.accounts[j],
                    ) > key as int by {
                        if j > pos {
                            assert(acc_key()(s0.accounts[pos as int]) < acc_key()(
                                s0.accounts[j],
                            ));
                        }
                    }
                    assert forall|k2: int|
                        #[trigger] c0.accounts.dom().contains(k2) implies !account_conflict(
                        c0.accounts[k2],
                        *a,
                    ) by {
                        let i = choose|i: int|
                            0 <= i < s0.accounts.len() && acc_key()(#[trigger] s0.accounts[i])
                                == k2;
                        lemma_rows_map_index(s0.accounts, acc_key(), i);
                    }
                }
                self.accounts.insert(pos, a.clone());
                proof {
                    crate::rowmap::lemma_rows_map_insert(s0.accounts, acc_key(), pos as int, *a);
                    assert(content_of(self.model()) =~= script_op_apply(c0, *op).unwrap());
                }
                true
            },
            ScriptOp::Insert(Record::Transaction(t)) => {
                let key = txn_row_key(t);
                if t.id.is_none() || key < 1 {
                    return false;
                }
                let pos = txn_pos(&self.transactions, key);
                if pos < self.transactions.len() && txn_row_key(&self.transactions[pos]) == key {
                    proof {
                        crate::rowmap::lemma_rows_map_index(s0.transactions, txn_key(), pos as int);
                    }
                    return false;
                }
                proof {
                    lemma_rows_map_dom(s0.transactions, txn_key());
                }
                if crate::facade::txn_scan(&self.transactions, t).is_some() {
                    proof {
                        let i = choose|i: int|
                            0 <= i < s0.transactions.len() && transaction_same(
                                #[trigger] s0.transactions[i],
                                *t,
                            );
                        lemma_rows_map_index(s0.transactions, txn_key(), i);
                    }
                    return false;
                }
                proof {
                    assert forall|j: int| pos <= j < s0.transactions.len() implies txn_key()(
                        #[trigger] s0.transactions[j],
                    ) > key as int by {
                        if j > pos {
                            assert(txn_key()(s0.transactions[pos as int]) < txn_key()(
                                s0.transactions[j],
                            ));
                        }
                    }
                    assert forall|k2: int|
                        #[trigger] c0.transactions.dom().contains(k2) implies !transaction_same(
                        c0.transactions[k2],
                        *t,
                    ) by {
                        let i = choose|i: int|
                            0 <= i < s0.transactions.len() && txn_key()(
                                #[trigger] s0.transactions[i],
                            ) == k2;
                        lemma_rows_map_index(s0.transactions, txn_key(), i);
                    }
                }
                self.transactions.insert(pos, t.clone());
                proof {
                    crate::rowmap::lemma_rows_map_insert(
                        s0.transactions,
                        txn_key(),
                        pos as int,
                        *t,
                    );
                    assert(content_of(self.model()) =~= script_op_apply(c0, *op).unwrap());
                }
                true
            },
            ScriptOp::Insert(Record::TagRule(t)) => {
                let key = rule_row_key(t);
                if t.id.is_none() || key < 1 {
                    return false;
                }
                let pos = rule_pos(&self.tag_rules, key);
                if pos < self.tag_rules.len() && rule_row_key(&self.tag_rules[pos]) == key {
                    proof {
                        crate::rowmap::lemma_rows_map_index(s0.tag_rules, rule_key(), pos as int);
                    }
                    return false;
                }
                proof {
                    lemma_rows_map_dom(s0.tag_rules, rule_key());
                }
                if crate::facade::rule_scan(&self.tag_rules, t).is_some() {
                    proof {
                        let i = choose|i: int|
                            0 <= i < s0.tag_rules.len() && tag_rule_same(
                                #[trigger] s0.tag_rules[i],
                                *t,
                            );
                        lemma_rows_map_index(s0.tag_rules, rule_key(), i);
                    }
                    return false;
                }
                proof {
                    assert forall|j: int| pos <= j < s0.tag_rules.len() implies rule_key()(
                        #[trigger] s0.tag_rules[j],
                    ) > key as int by {
                        if j > pos {
                            assert(rule_key()(s0.tag_rules[pos as int]) < rule_key()(
                                s0.tag_rules[j],
                            ));
                        }
                    }
                    assert forall|k2: int|
                        #[trigger] c0.tag_rules.dom().contains(k2) implies !tag_rule_same(
                        c0.tag_rules[k2],
                        *t,
                    ) by {
                        let i = choose|i: int|
                            0 <= i < s0.tag_rules.len() && rule_key()(#[trigger] s0.tag_rules[i])
                                == k2;
                        lemma_rows_map_index(s0.tag_rules, rule_key(), i);
                    }
                }
                self.tag_rules.insert(pos, t.clone());
                proof {
                    crate::rowmap::lemma_rows_map_insert(s0.tag_rules, rule_key(), pos as int, *t);
                    assert(content_of(self.model()) =~= script_op_apply(c0, *op).unwrap());
                }
                true
            },
            ScriptOp::Delete { table, key } => {
                let p = OpPayload::Delete { table: *table, key: *key };
                let found: bool = match table {
                    Table::Accounts => {
                        let pos = acc_pos(&self.accounts, *key);
                        let f = pos < self.accounts.len() && acc_row_key(&self.accounts[pos])
                            == *key;
                        proof {
                            lemma_rows_map_dom(s0.accounts, acc_key());
                            if f {
                                lemma_rows_map_index(s0.accounts, acc_key(), pos as int);
                            } else {
                                assert forall|j: int| 0 <= j < s0.accounts.len() implies acc_key()(
                                    #[trigger] s0.accounts[j],
                                ) != *key as int by {
                                    if j > pos {
                                        assert(acc_key()(s0.accounts[pos as int]) < acc_key()(
                                            s0.accounts[j],
                                        ));
                                    }
                                }
                            }
                        }
                        f
                    },
                    Table::Transactions => {
                        let pos = txn_pos(&self.transactions, *key);
                        let f = pos < self.transactions.len() && txn_row_key(
                            &self.transactions[pos],
                        ) == *key;
                        proof {
                            lemma_rows_map_dom(s0.transactions, txn_key());
                            if f {
                                lemma_rows_map_index(s0.transactions, txn_key(), pos as int);
                            } else {
                                assert forall|j: int|
                                    0 <= j < s0.transactions.len() implies txn_key()(
                                    #[trigger] s0.transactions[j],
                                ) != *key as int by {
                                    if j > pos {
                                        assert(txn_key()(s0.transactions[pos as int]) < txn_key()(
                                            s0.transactions[j],
                                        ));
                                    }
                                }
                            }
                        }
                        f
                    },
                    Table::TagRules => {
                        let pos = rule_pos(&self.tag_rules, *key);
                        let f = pos < self.tag_rules.len() && rule_row_key(&self.tag_rules[pos])
                            == *key;
                        proof {
                            lemma_rows_map_dom(s0.tag_rules, rule_key());
                            if f {
                                lemma_rows_map_index(s0.tag_rules, rule_key(), pos as int);
                            } else {
                                assert forall|j: int|
                                    0 <= j < s0.tag_rules.len() implies rule_key()(
                                    #[trigger] s0.tag_rules[j],
                                ) != *key as int by {
                                    if j > pos {
                                        assert(rule_key()(s0.tag_rules[pos as int]) < rule_key()(
                                            s0.tag_rules[j],
                                        ));
                                    }
                                }
                            }
                        }
                        f
                    },
                };
                if !found {
                    return false;
                }
                self.raw_apply(&p);
                proof {
                    assert(content_of(self.model()) =~= script_op_apply(c0, *op).unwrap());
                }
                true
            },
        }
    }
}

} // verus!
