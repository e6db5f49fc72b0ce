//! The model CRUD facade: generic per-entity operations, the only path
//! through which rows are written, and therefore where write capture is
//! anchored.

use vstd::prelude::*;
use crate::DbError;
use crate::model::{
    Account, Transaction, TagRule, account_conflict, transaction_same, tag_rule_same,
    account_conflicts, transaction_is_same, tag_rule_is_same,
};
use crate::rowmap::{
    rows_map, keys_sorted, lemma_rows_map_dom, lemma_rows_map_index, lemma_rows_map_remove,
    lemma_rows_map_update, lemma_rows_map_insert,
};
use crate::store::{
    StingyDb, StoreModel, Content, Table, Record, OpPayload, steps_after_capture, content_of,
    apply_op, id_key, acc_key, txn_key, rule_key, model_wf, lemma_chain_after_write,
    table_keys_ok,
};

verus! {

/// The outcome of `insert`: the row was written, or a matching record
/// already existed — returned in place of a duplicate — and the write
/// was suppressed.
#[derive(Debug)]
pub enum NewOrExisting<ModelType> {
    New(ModelType),
    Existing(ModelType),
}

/// The well-formedness a store's operations require and preserve, and
/// the abstract value the contracts speak of.
pub trait StoreView: Sized {
    /// The store is well-formed.
    spec fn inv(&self) -> bool;

    /// The abstract value of the store.
    spec fn store_model(&self) -> StoreModel;
}

impl StoreView for StingyDb {
    open spec fn inv(&self) -> bool {
        self.wf()
    }

    open spec fn store_model(&self) -> StoreModel {
        self.model()
    }
}

/// Generic per-entity operations.  Every write routes through the
/// write-capture layer: while a step is open it records exactly one
/// reversing operation, except for an insert degraded to a lookup.
///
/// Each operation's behaviour is pinned down exactly by a specification
/// function of the implementing store.
pub trait ModelOperations<ModelType>: StoreView {
    /// The rows of the entity's table.
    spec fn spec_rows(&self) -> Seq<ModelType>;

    /// What `insert` does and returns.
    spec fn spec_insert(&self, m: ModelType) -> (StoreModel, Result<
        NewOrExisting<ModelType>,
        DbError,
    >);

    /// What `update` does and returns.
    spec fn spec_update(&self, m: ModelType) -> (StoreModel, Result<(), DbError>);

    /// What `delete` does and returns.
    spec fn spec_delete(&self, m: ModelType) -> (StoreModel, Result<usize, DbError>);

    /// Every row of the entity's table.
    fn get_all(&self) -> (r: Result<Vec<ModelType>, DbError>)
        requires
            self.inv(),
        ensures
            r is Ok,
            r->Ok_0@ == self.spec_rows(),
    ;

    /// Overwrites the row keyed by the record's identifier with the full
    /// record; a no-op when no such row exists.
    fn update(&mut self, m: &ModelType) -> (r: Result<(), DbError>)
        requires
            old(self).inv(),
        ensures
            final(self).inv(),
            (final(self).store_model(), r) == old(self).spec_update(*m),
    ;

    /// Attempts an insert; on a uniqueness conflict with an identical
    /// logical record, returns `Existing` and writes (and captures)
    /// nothing.
    fn insert(&mut self, m: ModelType) -> (r: Result<NewOrExisting<ModelType>, DbError>)
        requires
            old(self).inv(),
        ensures
            final(self).inv(),
            (final(self).store_model(), r) == old(self).spec_insert(m),
    ;

    /// Deletes the row keyed by the record's identifier, returning how
    /// many rows were removed.
    fn delete(&mut self, m: ModelType) -> (r: Result<usize, DbError>)
        requires
            old(self).inv(),
        ensures
            final(self).inv(),
            (final(self).store_model(), r) == old(self).spec_delete(m),
    ;
}

/// The identifier the next inserted row receives: one past the largest.
pub open spec fn next_table_key<T>(rows: Seq<T>, key: spec_fn(T) -> int) -> int {
    if rows.len() == 0 {
        1
    } else {
        key(rows.last()) + 1
    }
}

/// The functional specification of `insert` for accounts: a row with the
/// same name degrades to `Existing`; any other constraint conflict is an
/// error; otherwise the row is appended under a fresh identifier and a
/// reversing `Delete` is captured.
pub open spec fn spec_insert_account(s: StoreModel, m: Account) -> (StoreModel, Result<
    NewOrExisting<Account>,
    DbError,
>) {
    let rows = s.accounts;
    if exists|i: int| 0 <= i < rows.len() && (#[trigger] rows[i]).name@ == m.name@ {
        let i0 = choose|i: int| 0 <= i < rows.len() && (#[trigger] rows[i]).name@ == m.name@;
        (s, Ok(NewOrExisting::Existing(rows[i0])))
    } else if exists|i: int| 0 <= i < rows.len() && account_conflict(#[trigger] rows[i], m) {
        (s, Err(DbError::NotUnique))
    } else if next_table_key(rows, acc_key()) > i64::MAX as int {
        (s, Err(DbError::Full))
    } else {
        let k = next_table_key(rows, acc_key()) as i64;
        let m2 = Account { id: Some(k), ..m };
        (
            StoreModel {
                accounts: rows.push(m2),
                steps: steps_after_capture(
                    s.steps,
                    OpPayload::Delete { table: Table::Accounts, key: k },
                    s.capture_on,
                ),
                ..s
            },
            Ok(NewOrExisting::New(m2)),
        )
    }
}

/// The functional specification of `update` for accounts.
pub open spec fn spec_update_account(s: StoreModel, m: Account) -> (StoreModel, Result<
    (),
    DbError,
>) {
    let rows = s.accounts;
    let k = id_key(m.id);
    if !(exists|i: int| 0 <= i < rows.len() && acc_key()(#[trigger] rows[i]) == k) {
        (s, Ok(()))
    } else {
        let i0 = choose|i: int| 0 <= i < rows.len() && acc_key()(#[trigger] rows[i]) == k;
        if exists|j: int|
            0 <= j < rows.len() && j != i0 && account_conflict(#[trigger] rows[j], m) {
            (s, Err(DbError::NotUnique))
        } else {
            (
                StoreModel {
                    accounts: rows.update(i0, m),
                    steps: steps_after_capture(
                        s.steps,
                        OpPayload::SetFields {
                            table: Table::Accounts,
                            key: m.id.unwrap(),
                            old_values: Record::Account(rows[i0]),
                        },
                        s.capture_on,
                    ),
                    ..s
                },
                Ok(()),
            )
        }
    }
}

/// The functional specification of `delete` for accounts.
pub open spec fn spec_delete_account(s: StoreModel, m: Account) -> (StoreModel, Result<
    usize,
    DbError,
>) {
    let rows = s.accounts;
    let k = id_key(m.id);
    if !(exists|i: int| 0 <= i < rows.len() && acc_key()(#[trigger] rows[i]) == k) {
        (s, Ok(0))
    } else {
        let i0 = choose|i: int| 0 <= i < rows.len() && acc_key()(#[trigger] rows[i]) == k;
        (
            StoreModel {
                accounts: rows.remove(i0),
                steps: steps_after_capture(
                    s.steps,
                    OpPayload::Insert {
                        table: Table::Accounts,
                        values: Record::Account(rows[i0]),
                    },
                    s.capture_on,
                ),
                ..s
            },
            Ok(1),
        )
    }
}

/// Clones every row.
pub fn clone_accounts(rows: &Vec<Account>) -> (r: Vec<Account>)
    ensures
        r@ == rows@,
{
    let mut r: Vec<Account> = Vec::new();
    let mut i: usize = 0;
    while i < rows.len()
        invariant
            i <= rows@.len(),
            r@ =~= rows@.subrange(0, i as int),
        decreases rows@.len() - i,
    {
        r.push(rows[i].clone());
        i += 1;
    }
    proof {
        assert(r@ =~= rows@);
    }
    r
}

/// Scans for a row with the same name and for any constraint conflict.
pub fn acc_scan(rows: &Vec<Account>, m: &Account) -> (r: (Option<usize>, bool))
    ensures
        match r.0 {
            Some(i) => i < rows@.len() && rows@[i as int].name@ == m.name@,
            None => !(exists|i: int|
                0 <= i < rows@.len() && (#[trigger] rows@[i]).name@ == m.name@),
        },
        r.1 == exists|i: int| 0 <= i < rows@.len() && account_conflict(#[trigger] rows@[i], *m),
{
    let mut same: Option<usize> = None;
    let mut conflict = false;
    let mut i: usize = 0;
    while i < rows.len()
        invariant
            i <= rows@.len(),
            match same {
                Some(j) => j < rows@.len() && rows@[j as int].name@ == m.name@,
                None => !(exists|j: int|
                    0 <= j < i && (#[trigger] rows@[j]).name@ == m.name@),
            },
            conflict == exists|j: int| 0 <= j < i && account_conflict(#[trigger] rows@[j], *m),
        decreases rows@.len() - i,
    {
        if same.is_none() && rows[i].name == m.name {
            same = Some(i);
        }
        if account_conflicts(&rows[i], m) {
            conflict = true;
        }
        i += 1;
    }
    (same, conflict)
}

/// Scans for a constraint conflict with any row other than the one at
/// `skip`.
pub fn acc_scan_except(rows: &Vec<Account>, m: &Account, skip: usize) -> (r: bool)
    ensures
        r == exists|i: int|
            0 <= i < rows@.len() && i != skip && account_conflict(#[trigger] rows@[i], *m),
{
    let mut conflict = false;
    let mut i: usize = 0;
    while i < rows.len()
        invariant
            i <= rows@.len(),
            conflict == exists|j: int|
                0 <= j < i && j != skip && account_conflict(#[trigger] rows@[j], *m),
        decreases rows@.len() - i,
    {
        if i != skip && account_conflicts(&rows[i], m) {
            conflict = true;
        }
        i += 1;
    }
    conflict
}

/// Finds the index of the row keyed `key`.
pub fn acc_find(rows: &Vec<Account>, key: i64) -> (r: Option<usize>)
    requires
        forall|i: int| 0 <= i < rows@.len() ==> (#[trigger] rows@[i]).id is Some,
    ensures
        match r {
            Some(i) => i < rows@.len() && id_key(rows@[i as int].id) == key as int,
            None => !(exists|i: int|
                0 <= i < rows@.len() && acc_key()(#[trigger] rows@[i]) == key as int),
        },
{
    let mut i: usize = 0;
    while i < rows.len()
        invariant
            i <= rows@.len(),
            forall|j: int| 0 <= j < rows@.len() ==> (#[trigger] rows@[j]).id is Some,
            forall|j: int| 0 <= j < i ==> acc_key()(#[trigger] rows@[j]) != key as int,
        decreases rows@.len() - i,
    {
        match rows[i].id {
            Some(k) => {
                if k == key {
                    return Some(i);
                }
                proof {
                    assert(acc_key()(rows@[i as int]) == k as int);
                }
            },
            None => {
                proof {
                    assert(rows@[i as int].id is Some);
                }
            },
        }
        i += 1;
    }
    None
}

/// The functional specification of `insert` for transactions: an
/// identical logical record degrades to `Existing`; otherwise the row is
/// appended under a fresh identifier and a reversing `Delete` captured.
pub open spec fn spec_insert_transaction(s: StoreModel, m: Transaction) -> (StoreModel, Result<
    NewOrExisting<Transaction>,
    DbError,
>) {
    let rows = s.transactions;
    if exists|i: int| 0 <= i < rows.len() && transaction_same(#[trigger] rows[i], m) {
        let i0 = choose|i: int| 0 <= i < rows.len() && transaction_same(#[trigger] rows[i], m);
        (s, Ok(NewOrExisting::Existing(rows[i0])))
    } else if next_table_key(rows, txn_key()) > i64::MAX as int {
        (s, Err(DbError::Full))
    } else {
        let k = next_table_key(rows, txn_key()) as i64;
        let m2 = Transaction { id: Some(k), ..m };
        (
            StoreModel {
                transactions: rows.push(m2),
                steps: steps_after_capture(
                    s.steps,
                    OpPayload::Delete { table: Table::Transactions, key: k },
                    s.capture_on,
                ),
                ..s
            },
            Ok(NewOrExisting::New(m2)),
        )
    }
}

/// The functional specification of `update` for transactions.
pub open spec fn spec_update_transaction(s: StoreModel, m: Transaction) -> (StoreModel, Result<
    (),
    DbError,
>) {
    let rows = s.transactions;
    let k = id_key(m.id);
    if !(exists|i: int| 0 <= i < rows.len() && txn_key()(#[trigger] rows[i]) == k) {
        (s, Ok(()))
    } else {
        let i0 = choose|i: int| 0 <= i < rows.len() && txn_key()(#[trigger] rows[i]) == k;
        if exists|j: int| 0 <= j < rows.len() && j != i0 && transaction_same(#[trigger] rows[j], m) {
            (s, Err(DbError::NotUnique))
        } else {
            (
                StoreModel {
                    transactions: rows.update(i0, m),
                    steps: steps_after_capture(
                        s.steps,
                        OpPayload::SetFields {
                            table: Table::Transactions,
                            key: m.id.unwrap(),
                            old_values: Record::Transaction(rows[i0]),
                        },
                        s.capture_on,
                    ),
                    ..s
                },
                Ok(()),
            )
        }
    }
}

/// The functional specification of `delete` for transactions.
pub open spec fn spec_delete_transaction(s: StoreModel, m: Transaction) -> (StoreModel, Result<
    usize,
    DbError,
>) {
    let rows = s.transactions;
    let k = id_key(m.id);
    if !(exists|i: int| 0 <= i < rows.len() && txn_key()(#[trigger] rows[i]) == k) {
        (s, Ok(0))
    } else {
        let i0 = choose|i: int| 0 <= i < rows.len() && txn_key()(#[trigger] rows[i]) == k;
        (
            StoreModel {
                transactions: rows.remove(i0),
                steps: steps_after_capture(
                    s.steps,
                    OpPayload::Insert {
                        table: Table::Transactions,
                        values: Record::Transaction(rows[i0]),
                    },
                    s.capture_on,
                ),
                ..s
            },
            Ok(1),
        )
    }
}

/// The functional specification of `insert` for tag rules.
pub open spec fn spec_insert_tag_rule(s: StoreModel, m: TagRule) -> (StoreModel, Result<
    NewOrExisting<TagRule>,
    DbError,
>) {
    let rows = s.tag_rules;
    if exists|i: int| 0 <= i < rows.len() && tag_rule_same(#[trigger] rows[i], m) {
        let i0 = choose|i: int| 0 <= i < rows.len() && tag_rule_same(#[trigger] rows[i], m);
        (s, Ok(NewOrExisting::Existing(rows[i0])))
    } else if next_table_key(rows, rule_key()) > i64::MAX as int {
        (s, Err(DbError::Full))
    } else {
        let k = next_table_key(rows, rule_key()) as i64;
        let m2 = TagRule { id: Some(k), ..m };
        (
            StoreModel {
                tag_rules: rows.push(m2),
                steps: steps_after_capture(
                    s.steps,
                    OpPayload::Delete { table: Table::TagRules, key: k },
                    s.capture_on,
                ),
                ..s
            },
            Ok(NewOrExisting::New(m2)),
        )
    }
}

/// The functional specification of `update` for tag rules.
pub open spec fn spec_update_tag_rule(s: StoreModel, m: TagRule) -> (StoreModel, Result<
    (),
    DbError,
>) {
    let rows = s.tag_rules;
    let k = id_key(m.id);
    if !(exists|i: int| 0 <= i < rows.len() && rule_key()(#[trigger] rows[i]) == k) {
        (s, Ok(()))
    } else {
        let i0 = choose|i: int| 0 <= i < rows.len() && rule_key()(#[trigger] rows[i]) == k;
        if exists|j: int| 0 <= j < rows.len() && j != i0 && tag_rule_same(#[trigger] rows[j], m) {
            (s, Err(DbError::NotUnique))
        } else {
            (
                StoreModel {
                    tag_rules: rows.update(i0, m),
                    steps: steps_after_capture(
                        s.steps,
                        OpPayload::SetFields {
                            table: Table::TagRules,
                            key: m.id.unwrap(),
                            old_values: Record::TagRule(rows[i0]),
                        },
                        s.capture_on,
                    ),
                    ..s
                },
                Ok(()),
            )
        }
    }
}

/// The functional specification of `delete` for tag rules.
pub open spec fn spec_delete_tag_rule(s: StoreModel, m: TagRule) -> (StoreModel, Result<
    usize,
    DbError,
>) {
    let rows = s.tag_rules;
    let k = id_key(m.id);
    if !(exists|i: int| 0 <= i < rows.len() && rule_key()(#[trigger] rows[i]) == k) {
        (s, Ok(0))
    } else {
        let i0 = choose|i: int| 0 <= i < rows.len() && rule_key()(#[trigger] rows[i]) == k;
        (
            StoreModel {
                tag_rules: rows.remove(i0),
                steps: steps_after_capture(
                    s.steps,
                    OpPayload::Insert {
                        table: Table::TagRules,
                        values: Record::TagRule(rows[i0]),
                    },
                    s.capture_on,
                ),
                ..s
            },
            Ok(1),
        )
    }
}

impl ModelOperations<Account> for StingyDb {
    open spec fn spec_rows(&self) -> Seq<Account> {
        self.accounts@
    }

    open spec fn spec_insert(&self, m: Account) -> (StoreModel, Result<
        NewOrExisting<Account>,
        DbError,
    >) {
        spec_insert_account(self.model(), m)
    }

    open spec fn spec_update(&self, m: Account) -> (StoreModel, Result<(), DbError>) {
        spec_update_account(self.model(), m)
    }

    open spec fn spec_delete(&self, m: Account) -> (StoreModel, Result<usize, DbError>) {
        spec_delete_account(self.model(), m)
    }

    fn get_all(&self) -> (r: Result<Vec<Account>, DbError>)
    {
        Ok(clone_accounts(&self.accounts))
    }

    fn insert(&mut self, m: Account) -> (r: Result<NewOrExisting<Account>, DbError>)
    {
        let ghost s0 = self.model();
        let (same, conflict) = acc_scan(&self.accounts, &m);
        if let Some(idx) = same {
            proof {
                let rows = s0.accounts;
                assert(exists|i: int|
                    0 <= i < rows.len() && (#[trigger] rows[i]).name@ == m.name@) by {
                    assert(rows[idx as int].name@ == m.name@);
                }
                let i0 = choose|i: int|
                    0 <= i < rows.len() && (#[trigger] rows[i]).name@ == m.name@;
                if i0 != idx as int {
                    if i0 < idx as int {
                        assert(account_conflict(rows[i0], rows[idx as int]));
                    } else {
                        assert(account_conflict(rows[idx as int], rows[i0]));
                    }
                }
                assert(i0 == idx as int);
            }
            return Ok(NewOrExisting::Existing(self.accounts[idx].clone()));
        }
        if conflict {
            return Err(DbError::NotUnique);
        }
        let k: i64 = if self.accounts.len() == 0 {
            1
        } else {
            let last_id = self.accounts[self.accounts.len() - 1].id;
            let ghost rows = s0.accounts;
            proof {
                assert(acc_key()(rows.last()) >= 1);
            }
            match last_id {
                Some(v) => {
                    if v == i64::MAX {
                        return Err(DbError::Full);
                    }
                    v + 1
                },
                None => 1,  // unreachable under the invariant
            }
        };
        let m2 = Account { id: Some(k), name: m.name, alias: m.alias, selected: m.selected, bank:
            m.bank };
        let m2c = m2.clone();
        self.accounts.push(m2c);
        let p = OpPayload::Delete { table: Table::Accounts, key: k };
        self.capture(p);
        proof {
            let rows = s0.accounts;
            let (s2, r2) = spec_insert_account(s0, m);
            assert(m2 == (Account { id: Some(k), ..m }));
            // every existing key is at most the last one's
            assert forall|j: int| 0 <= j < rows.len() implies acc_key()(#[trigger] rows[j])
                < k as int by {
                if j < rows.len() - 1 {
                    assert(acc_key()(rows[j]) < acc_key()(rows[rows.len() - 1]));
                }
            }
            assert(self.model() =~= (StoreModel {
                accounts: rows.push(m2),
                steps: steps_after_capture(s0.steps, p, s0.capture_on),
                ..s0
            }));
            assert(self.model() == s2);
            // the captured delete reverses the insert
            assert(rows.push(m2).drop_last() =~= rows);
            assert(rows_map(rows.push(m2), acc_key()) == rows_map(rows, acc_key()).insert(
                k as int,
                m2,
            ));
            lemma_rows_map_dom(rows, acc_key());
            assert(!rows_map(rows, acc_key()).dom().contains(k as int));
            assert(apply_op(content_of(s2), p) =~= content_of(s0)) by {
                assert(rows_map(rows, acc_key()).insert(k as int, m2).remove(k as int)
                    =~= rows_map(rows, acc_key()));
            }
            lemma_chain_after_write(s0, s2, p);
            assert(table_keys_ok(rows.push(m2), acc_key()));
            assert(model_wf(self.model()));
        }
        Ok(NewOrExisting::New(m2))
    }

    fn update(&mut self, m: &Account) -> (r: Result<(), DbError>)
    {
        let ghost s0 = self.model();
        let key: i64 = match m.id {
            Some(k) => k,
            None => {
                proof {
                    assert(forall|i: int|
                        0 <= i < s0.accounts.len() ==> acc_key()(#[trigger] s0.accounts[i]) >= 1);
                }
                return Ok(());
            },
        };
        let idx = match acc_find(&self.accounts, key) {
            Some(i) => i,
            None => {
                return Ok(());
            },
        };
        proof {
            let i0 = choose|i: int|
                0 <= i < s0.accounts.len() && acc_key()(#[trigger] s0.accounts[i]) == key as int;
            assert(idx as int == i0);
        }
        if acc_scan_except(&self.accounts, m, idx) {
            return Err(DbError::NotUnique);
        }
        let old_row = self.accounts.remove(idx);
        proof {
            lemma_rows_map_remove(s0.accounts, acc_key(), idx as int);
        }
        self.accounts.insert(idx, m.clone());
        let p = OpPayload::SetFields {
            table: Table::Accounts,
            key,
            old_values: Record::Account(old_row),
        };
        self.capture(p);
        proof {
            let rows = s0.accounts;
            let i0 = idx as int;
            let (s2, r2) = spec_update_account(s0, *m);
            assert(rows.remove(i0).insert(i0, *m) =~= rows.update(i0, *m));
            lemma_rows_map_insert(rows.remove(i0), acc_key(), i0, *m);
            lemma_rows_map_update(rows, acc_key(), i0, *m);
            assert(self.model() =~= (StoreModel {
                accounts: rows.update(i0, *m),
                steps: steps_after_capture(s0.steps, p, s0.capture_on),
                ..s0
            }));
            assert(self.model() == s2);
            lemma_rows_map_index(rows, acc_key(), i0);
            assert(apply_op(content_of(s2), p) =~= content_of(s0)) by {
                assert(rows_map(rows, acc_key()).insert(key as int, *m).insert(
                    key as int,
                    rows[i0],
                ) =~= rows_map(rows, acc_key()));
            }
            lemma_chain_after_write(s0, s2, p);
            assert(model_wf(self.model()));
        }
        Ok(())
    }

    fn delete(&mut self, m: Account) -> (r: Result<usize, DbError>)
    {
        let ghost s0 = self.model();
        let key: i64 = match m.id {
            Some(k) => k,
            None => {
                return Ok(0);
            },
        };
        let idx = match acc_find(&self.accounts, key) {
            Some(i) => i,
            None => {
                return Ok(0);
            },
        };
        proof {
            let i0 = choose|i: int|
                0 <= i < s0.accounts.len() && acc_key()(#[trigger] s0.accounts[i]) == key as int;
            assert(idx as int == i0);
        }
        let old_row = self.accounts.remove(idx);
        let p = OpPayload::Insert { table: Table::Accounts, values: Record::Account(old_row) };
        self.capture(p);
        proof {
            let rows = s0.accounts;
            let i0 = idx as int;
            let (s2, r2) = spec_delete_account(s0, m);
            lemma_rows_map_remove(rows, acc_key(), i0);
            lemma_rows_map_index(rows, acc_key(), i0);
            assert(self.model() =~= (StoreModel {
                accounts: rows.remove(i0),
                steps: steps_after_capture(s0.steps, p, s0.capture_on),
                ..s0
            }));
            assert(self.model() == s2);
            lemma_rows_map_dom(rows.remove(i0), acc_key());
            assert(apply_op(content_of(s2), p) =~= content_of(s0)) by {
                assert(!rows_map(rows.remove(i0), acc_key()).dom().contains(key as int));
                assert(rows_map(rows, acc_key()).remove(key as int).insert(key as int, rows[i0])
                    =~= rows_map(rows, acc_key()));
            }
            lemma_chain_after_write(s0, s2, p);
            assert(model_wf(self.model()));
        }
        Ok(1)
    }
}

/// Clones every row.
pub fn clone_transactions(rows: &Vec<Transaction>) -> (r: Vec<Transaction>)
    ensures
        r@ == rows@,
{
    let mut r: Vec<Transaction> = Vec::new();
    let mut i: usize = 0;
    while i < rows.len()
        invariant
            i <= rows@.len(),
            r@ =~= rows@.subrange(0, i as int),
        decreases rows@.len() - i,
    {
        r.push(rows[i].clone());
        i += 1;
    }
    proof {
        assert(r@ =~= rows@);
    }
    r
}

/// Scans for an identical logical record.
pub fn txn_scan(rows: &Vec<Transaction>, m: &Transaction) -> (r: Option<usize>)
    ensures
        match r {
            Some(i) => i < rows@.len() && transaction_same(rows@[i as int], *m),
            None => !(exists|i: int|
                0 <= i < rows@.len() && transaction_same(#[trigger] rows@[i], *m)),
        },
{
    let mut same: Option<usize> = None;
    let mut i: usize = 0;
    while i < rows.len()
        invariant
            i <= rows@.len(),
            match same {
                Some(j) => j < rows@.len() && transaction_same(rows@[j as int], *m),
                None => !(exists|j: int|
                    0 <= j < i && transaction_same(#[trigger] rows@[j], *m)),
            },
        decreases rows@.len() - i,
    {
        if same.is_none() && transaction_is_same(&rows[i], m) {
            same = Some(i);
        }
        i += 1;
    }
    same
}

/// Scans for an identical logical record at any index other than `skip`.
pub fn txn_scan_except(rows: &Vec<Transaction>, m: &Transaction, skip: usize) -> (r: bool)
    ensures
        r == exists|i: int|
            0 <= i < rows@.len() && i != skip && transaction_same(#[trigger] rows@[i], *m),
{
    let mut same = false;
    let mut i: usize = 0;
    while i < rows.len()
        invariant
            i <= rows@.len(),
            same == exists|j: int|
                0 <= j < i && j != skip && transaction_same(#[trigger] rows@[j], *m),
        decreases rows@.len() - i,
    {
        if i != skip && transaction_is_same(&rows[i], m) {
            same = true;
        }
        i += 1;
    }
    same
}

/// Finds the index of the row keyed `key`.
pub fn txn_find(rows: &Vec<Transaction>, key: i64) -> (r: Option<usize>)
    requires
        forall|i: int| 0 <= i < rows@.len() ==> (#[trigger] rows@[i]).id is Some,
    ensures
        match r {
            Some(i) => i < rows@.len() && id_key(rows@[i as int].id) == key as int,
            None => !(exists|i: int|
                0 <= i < rows@.len() && txn_key()(#[trigger] rows@[i]) == key as int),
        },
{
    let mut i: usize = 0;
    while i < rows.len()
        invariant
            i <= rows@.len(),
            forall|j: int| 0 <= j < rows@.len() ==> (#[trigger] rows@[j]).id is Some,
            forall|j: int| 0 <= j < i ==> txn_key()(#[trigger] rows@[j]) != key as int,
        decreases rows@.len() - i,
    {
        match rows[i].id {
            Some(k) => {
                if k == key {
                    return Some(i);
                }
                proof {
                    assert(txn_key()(rows@[i as int]) == k as int);
                }
            },
            None => {
                proof {
                    assert(rows@[i as int].id is Some);
                }
            },
        }
        i += 1;
    }
    None
}

impl ModelOperations<Transaction> for StingyDb {
    open spec fn spec_rows(&self) -> Seq<Transaction> {
        self.transactions@
    }

    open spec fn spec_insert(&self, m: Transaction) -> (StoreModel, Result<
        NewOrExisting<Transaction>,
        DbError,
    >) {
        spec_insert_transaction(self.model(), m)
    }

    open spec fn spec_update(&self, m: Transaction) -> (StoreModel, Result<(), DbError>) {
        spec_update_transaction(self.model(), m)
    }

    open spec fn spec_delete(&self, m: Transaction) -> (StoreModel, Result<usize, DbError>) {
        spec_delete_transaction(self.model(), m)
    }

    fn get_all(&self) -> (r: Result<Vec<Transaction>, DbError>)
    {
        Ok(clone_transactions(&self.transactions))
    }

    fn insert(&mut self, m: Transaction) -> (r: Result<NewOrExisting<Transaction>, DbError>)
    {
        let ghost s0 = self.model();
        if let Some(idx) = txn_scan(&self.transactions, &m) {
            proof {
                let rows = s0.transactions;
                assert(exists|i: int|
                    0 <= i < rows.len() && transaction_same(#[trigger] rows[i], m)) by {
                    assert(transaction_same(rows[idx as int], m));
                }
                let i0 = choose|i: int|
                    0 <= i < rows.len() && transaction_same(#[trigger] rows[i], m);
                if i0 != idx as int {
                    assert(transaction_same(rows[i0], rows[idx as int]));
                    if i0 < idx as int {
                        assert(!transaction_same(rows[i0], rows[idx as int]));
                    } else {
                        assert(transaction_same(rows[idx as int], rows[i0]));
                        assert(!transaction_same(rows[idx as int], rows[i0]));
                    }
                }
                assert(i0 == idx as int);
            }
            return Ok(NewOrExisting::Existing(self.transactions[idx].clone()));
        }
        let k: i64 = if self.transactions.len() == 0 {
            1
        } else {
            let last_id = self.transactions[self.transactions.len() - 1].id;
            proof {
                assert(txn_key()(s0.transactions.last()) >= 1);
            }
            match last_id {
                Some(v) => {
                    if v == i64::MAX {
                        return Err(DbError::Full);
                    }
                    v + 1
                },
                None => 1,  // unreachable under the invariant
            }
        };
        let m2 = Transaction {
            id: Some(k),
            account_name: m.account_name,
            posted_date: m.posted_date,
            description: m.description,
            debit_amount: m.debit_amount,
            credit_amount: m.credit_amount,
            balance: m.balance,
            transaction_type: m.transaction_type,
            currency: m.currency,
        };
        let m2c = m2.clone();
        self.transactions.push(m2c);
        let p = OpPayload::Delete { table: Table::Transactions, key: k };
        self.capture(p);
        proof {
            let rows = s0.transactions;
            let (s2, r2) = spec_insert_transaction(s0, m);
            assert(m2 == (Transaction { id: Some(k), ..m }));
            assert forall|j: int| 0 <= j < rows.len() implies txn_key()(#[trigger] rows[j])
                < k as int by {
                if j < rows.len() - 1 {
                    assert(txn_key()(rows[j]) < txn_key()(rows[rows.len() - 1]));
                }
            }
            assert(self.model() =~= (StoreModel {
                transactions: rows.push(m2),
                steps: steps_after_capture(s0.steps, p, s0.capture_on),
                ..s0
            }));
            assert(self.model() == s2);
            assert(rows.push(m2).drop_last() =~= rows);
            assert(rows_map(rows.push(m2), txn_key()) == rows_map(rows, txn_key()).insert(
                k as int,
                m2,
            ));
            lemma_rows_map_dom(rows, txn_key());
            assert(!rows_map(rows, txn_key()).dom().contains(k as int));
            assert(apply_op(content_of(s2), p) =~= content_of(s0)) by {
                assert(rows_map(rows, txn_key()).insert(k as int, m2).remove(k as int)
                    =~= rows_map(rows, txn_key()));
            }
            lemma_chain_after_write(s0, s2, p);
            assert(table_keys_ok(rows.push(m2), txn_key()));
            assert(model_wf(self.model()));
        }
        Ok(NewOrExisting::New(m2))
    }

    fn update(&mut self, m: &Transaction) -> (r: Result<(), DbError>)
    {
        let ghost s0 = self.model();
        let key: i64 = match m.id {
            Some(k) => k,
            None => {
                proof {
                    assert(forall|i: int|
                        0 <= i < s0.transactions.len() ==> txn_key()(
                            #[trigger] s0.transactions[i],
                        ) >= 1);
                }
                return Ok(());
            },
        };
        let idx = match txn_find(&self.transactions, key) {
            Some(i) => i,
            None => {
                return Ok(());
            },
        };
        proof {
            let i0 = choose|i: int|
                0 <= i < s0.transactions.len() && txn_key()(#[trigger] s0.transactions[i])
                    == key as int;
            assert(idx as int == i0);
        }
        if txn_scan_except(&self.transactions, m, idx) {
            return Err(DbError::NotUnique);
        }
        let old_row = self.transactions.remove(idx);
        proof {
            lemma_rows_map_remove(s0.transactions, txn_key(), idx as int);
        }
        self.transactions.insert(idx, m.clone());
        let p = OpPayload::SetFields {
            table: Table::Transactions,
            key,
            old_values: Record::Transaction(old_row),
        };
        self.capture(p);
        proof {
            let rows = s0.transactions;
            let i0 = idx as int;
            let (s2, r2) = spec_update_transaction(s0, *m);
            assert(rows.remove(i0).insert(i0, *m) =~= rows.update(i0, *m));
            lemma_rows_map_insert(rows.remove(i0), txn_key(), i0, *m);
            lemma_rows_map_update(rows, txn_key(), i0, *m);
            assert(self.model() =~= (StoreModel {
                transactions: rows.update(i0, *m),
                steps: steps_after_capture(s0.steps, p, s0.capture_on),
                ..s0
            }));
            assert(self.model() == s2);
            lemma_rows_map_index(rows, txn_key(), i0);
            assert(apply_op(content_of(s2), p) =~= content_of(s0)) by {
                assert(rows_map(rows, txn_key()).insert(key as int, *m).insert(
                    key as int,
                    rows[i0],
                ) =~= rows_map(rows, txn_key()));
            }
            lemma_chain_after_write(s0, s2, p);
            assert(model_wf(self.model()));
        }
        Ok(())
    }

    fn delete(&mut self, m: Transaction) -> (r: Result<usize, DbError>)
    {
        let ghost s0 = self.model();
        let key: i64 = match m.id {
            Some(k) => k,
            None => {
                return Ok(0);
            },
        };
        let idx = match txn_find(&self.transactions, key) {
            Some(i) => i,
            None => {
                return Ok(0);
            },
        };
        proof {
            let i0 = choose|i: int|
                0 <= i < s0.transactions.len() && txn_key()(#[trigger] s0.transactions[i])
                    == key as int;
            assert(idx as int == i0);
        }
        let old_row = self.transactions.remove(idx);
        let p = OpPayload::Insert {
            table: Table::Transactions,
            values: Record::Transaction(old_row),
        };
        self.capture(p);
        proof {
            let rows = s0.transactions;
            let i0 = idx as int;
            let (s2, r2) = spec_delete_transaction(s0, m);
            lemma_rows_map_remove(rows, txn_key(), i0);
            lemma_rows_map_index(rows, txn_key(), i0);
            assert(self.model() =~= (StoreModel {
                transactions: rows.remove(i0),
                steps: steps_after_capture(s0.steps, p, s0.capture_on),
                ..s0
            }));
            assert(self.model() == s2);
            lemma_rows_map_dom(rows.remove(i0), txn_key());
            assert(apply_op(content_of(s2), p) =~= content_of(s0)) by {
                assert(!rows_map(rows.remove(i0), txn_key()).dom().contains(key as int));
                assert(rows_map(rows, txn_key()).remove(key as int).insert(key as int, rows[i0])
                    =~= rows_map(rows, txn_key()));
            }
            lemma_chain_after_write(s0, s2, p);
            assert(model_wf(self.model()));
        }
        Ok(1)
    }
}

/// Clones every row.
pub fn clone_tag_rules(rows: &Vec<TagRule>) -> (r: Vec<TagRule>)
    ensures
        r@ == rows@,
{
    let mut r: Vec<TagRule> = Vec::new();
    let mut i: usize = 0;
    while i < rows.len()
        invariant
            i <= rows@.len(),
            r@ =~= rows@.subrange(0, i as int),
        decreases rows@.len() - i,
    {
        r.push(rows[i].clone());
        i += 1;
    }
    proof {
        assert(r@ =~= rows@);
    }
    r
}

/// Scans for an identical logical record.
pub fn rule_scan(rows: &Vec<TagRule>, m: &TagRule) -> (r: Option<usize>)
    ensures
        match r {
            Some(i) => i < rows@.len() && tag_rule_same(rows@[i as int], *m),
            None => !(exists|i: int|
                0 <= i < rows@.len() && tag_rule_same(#[trigger] rows@[i], *m)),
        },
{
    let mut same: Option<usize> = None;
    let mut i: usize = 0;
    while i < rows.len()
        invariant
            i <= rows@.len(),
            match same {
                Some(j) => j < rows@.len() && tag_rule_same(rows@[j as int], *m),
                None => !(exists|j: int|
                    0 <= j < i && tag_rule_same(#[trigger] rows@[j], *m)),
            },
        decreases rows@.len() - i,
    {
        if same.is_none() && tag_rule_is_same(&rows[i], m) {
            same = Some(i);
        }
        i += 1;
    }
    same
}

/// Scans for an identical logical record at any index other than `skip`.
pub fn rule_scan_except(rows: &Vec<TagRule>, m: &TagRule, skip: usize) -> (r: bool)
    ensures
        r == exists|i: int|
            0 <= i < rows@.len() && i != skip && tag_rule_same(#[trigger] rows@[i], *m),
{
    let mut same = false;
    let mut i: usize = 0;
    while i < rows.len()
        invariant
            i <= rows@.len(),
            same == exists|j: int| 0 <= j < i && j != skip && tag_rule_same(#[trigger] rows@[j], *m),
        decreases rows@.len() - i,
    {
        if i != skip && tag_rule_is_same(&rows[i], m) {
            same = true;
        }
        i += 1;
    }
    same
}

/// Finds the index of the row keyed `key`.
pub fn rule_find(rows: &Vec<TagRule>, key: i64) -> (r: Option<usize>)
    requires
        forall|i: int| 0 <= i < rows@.len() ==> (#[trigger] rows@[i]).id is Some,
    ensures
        match r {
            Some(i) => i < rows@.len() && id_key(rows@[i as int].id) == key as int,
            None => !(exists|i: int|
                0 <= i < rows@.len() && rule_key()(#[trigger] rows@[i]) == key as int),
        },
{
    let mut i: usize = 0;
    while i < rows.len()
        invariant
            i <= rows@.len(),
            forall|j: int| 0 <= j < rows@.len() ==> (#[trigger] rows@[j]).id is Some,
            forall|j: int| 0 <= j < i ==> rule_key()(#[trigger] rows@[j]) != key as int,
        decreases rows@.len() - i,
    {
        match rows[i].id {
            Some(k) => {
                if k == key {
                    return Some(i);
                }
                proof {
                    assert(rule_key()(rows@[i as int]) == k as int);
                }
            },
            None => {
                proof {
                    assert(rows@[i as int].id is Some);
                }
            },
        }
        i += 1;
    }
    None
}

impl ModelOperations<TagRule> for StingyDb {
    open spec fn spec_rows(&self) -> Seq<TagRule> {
        self.tag_rules@
    }

    open spec fn spec_insert(&self, m: TagRule) -> (StoreModel, Result<
        NewOrExisting<TagRule>,
        DbError,
    >) {
        spec_insert_tag_rule(self.model(), m)
    }

    open spec fn spec_update(&self, m: TagRule) -> (StoreModel, Result<(), DbError>) {
        spec_update_tag_rule(self.model(), m)
    }

    open spec fn spec_delete(&self, m: TagRule) -> (StoreModel, Result<usize, DbError>) {
        spec_delete_tag_rule(self.model(), m)
    }

    fn get_all(&self) -> (r: Result<Vec<TagRule>, DbError>)
    {
        Ok(clone_tag_rules(&self.tag_rules))
    }

    fn insert(&mut self, m: TagRule) -> (r: Result<NewOrExisting<TagRule>, DbError>)
    {
        let ghost s0 = self.model();
        if let Some(idx) = rule_scan(&self.tag_rules, &m) {
            proof {
                let rows = s0.tag_rules;
                assert(exists|i: int|
                    0 <= i < rows.len() && tag_rule_same(#[trigger] rows[i], m)) by {
                    assert(tag_rule_same(rows[idx as int], m));
                }
                let i0 = choose|i: int| 0 <= i < rows.len() && tag_rule_same(#[trigger] rows[i], m);
                if i0 != idx as int {
                    assert(tag_rule_same(rows[i0], rows[idx as int]));
                    if i0 < idx as int {
                        assert(!tag_rule_same(rows[i0], rows[idx as int]));
                    } else {
                        assert(tag_rule_same(rows[idx as int], rows[i0]));
                        assert(!tag_rule_same(rows[idx as int], rows[i0]));
                    }
                }
                assert(i0 == idx as int);
            }
            return Ok(NewOrExisting::Existing(self.tag_rules[idx].clone()));
        }
        let k: i64 = if self.tag_rules.len() == 0 {
            1
        } else {
            let last_id = self.tag_rules[self.tag_rules.len() - 1].id;
            proof {
                assert(rule_key()(s0.tag_rules.last()) >= 1);
            }
            match last_id {
                Some(v) => {
                    if v == i64::MAX {
                        return Err(DbError::Full);
                    }
                    v + 1
                },
                None => 1,  // unreachable under the invariant
            }
        };
        let m2 = TagRule {
            id: Some(k),
            tag: m.tag,
            human_readable: m.human_readable,
            transaction_id: m.transaction_id,
            description_contains: m.description_contains,
            transaction_type: m.transaction_type,
            amount_min: m.amount_min,
            amount_max: m.amount_max,
            from_date: m.from_date,
            to_date: m.to_date,
        };
        let m2c = m2.clone();
        self.tag_rules.push(m2c);
        let p = OpPayload::Delete { table: Table::TagRules, key: k };
        self.capture(p);
        proof {
            let rows = s0.tag_rules;
            let (s2, r2) = spec_insert_tag_rule(s0, m);
            assert(m2 == (TagRule { id: Some(k), ..m }));
            assert forall|j: int| 0 <= j < rows.len() implies rule_key()(#[trigger] rows[j])
                < k as int by {
                if j < rows.len() - 1 {
                    assert(rule_key()(rows[j]) < rule_key()(rows[rows.len() - 1]));
                }
            }
            assert(self.model() =~= (StoreModel {
                tag_rules: rows.push(m2),
                steps: steps_after_capture(s0.steps, p, s0.capture_on),
                ..s0
            }));
            assert(self.model() == s2);
            assert(rows.push(m2).drop_last() =~= rows);
            assert(rows_map(rows.push(m2), rule_key()) == rows_map(rows, rule_key()).insert(
                k as int,
                m2,
            ));
            lemma_rows_map_dom(rows, rule_key());
            assert(!rows_map(rows, rule_key()).dom().contains(k as int));
            assert(apply_op(content_of(s2), p) =~= content_of(s0)) by {
                assert(rows_map(rows, rule_key()).insert(k as int, m2).remove(k as int)
                    =~= rows_map(rows, rule_key()));
            }
            lemma_chain_after_write(s0, s2, p);
            assert(table_keys_ok(rows.push(m2), rule_key()));
            assert(model_wf(self.model()));
        }
        Ok(NewOrExisting::New(m2))
    }

    fn update(&mut self, m: &TagRule) -> (r: Result<(), DbError>)
    {
        let ghost s0 = self.model();
        let key: i64 = match m.id {
            Some(k) => k,
            None => {
                proof {
                    assert(forall|i: int|
                        0 <= i < s0.tag_rules.len() ==> rule_key()(#[trigger] s0.tag_rules[i])
                            >= 1);
                }
                return Ok(());
            },
        };
        let idx = match rule_find(&self.tag_rules, key) {
            Some(i) => i,
            None => {
                return Ok(());
            },
        };
        proof {
            let i0 = choose|i: int|
                0 <= i < s0.tag_rules.len() && rule_key()(#[trigger] s0.tag_rules[i])
                    == key as int;
            assert(idx as int == i0);
        }
        if rule_scan_except(&self.tag_rules, m, idx) {
            return Err(DbError::NotUnique);
        }
        let old_row = self.tag_rules.remove(idx);
        proof {
            lemma_rows_map_remove(s0.tag_rules, rule_key(), idx as int);
        }
        self.tag_rules.insert(idx, m.clone());
        let p = OpPayload::SetFields {
            table: Table::TagRules,
            key,
            old_values: Record::TagRule(old_row),
        };
        self.capture(p);
        proof {
            let rows = s0.tag_rules;
            let i0 = idx as int;
            let (s2, r2) = spec_update_tag_rule(s0, *m);
            assert(rows.remove(i0).insert(i0, *m) =~= rows.update(i0, *m));
            lemma_rows_map_insert(rows.remove(i0), rule_key(), i0, *m);
            lemma_rows_map_update(rows, rule_key(), i0, *m);
            assert(self.model() =~= (StoreModel {
                tag_rules: rows.update(i0, *m),
                steps: steps_after_capture(s0.steps, p, s0.capture_on),
                ..s0
            }));
            assert(self.model() == s2);
            lemma_rows_map_index(rows, rule_key(), i0);
            assert(apply_op(content_of(s2), p) =~= content_of(s0)) by {
                assert(rows_map(rows, rule_key()).insert(key as int, *m).insert(
                    key as int,
                    rows[i0],
                ) =~= rows_map(rows, rule_key()));
            }
            lemma_chain_after_write(s0, s2, p);
            assert(model_wf(self.model()));
        }
        Ok(())
    }

    fn delete(&mut self, m: TagRule) -> (r: Result<usize, DbError>)
    {
        let ghost s0 = self.model();
        let key: i64 = match m.id {
            Some(k) => k,
            None => {
                return Ok(0);
            },
        };
        let idx = match rule_find(&self.tag_rules, key) {
            Some(i) => i,
            None => {
                return Ok(0);
            },
        };
        proof {
            let i0 = choose|i: int|
                0 <= i < s0.tag_rules.len() && rule_key()(#[trigger] s0.tag_rules[i])
                    == key as int;
            assert(idx as int == i0);
        }
        let old_row = self.tag_rules.remove(idx);
        let p = OpPayload::Insert { table: Table::TagRules, values: Record::TagRule(old_row) };
        self.capture(p);
        proof {
            let rows = s0.tag_rules;
            let i0 = idx as int;
            let (s2, r2) = spec_delete_tag_rule(s0, m);
            lemma_rows_map_remove(rows, rule_key(), i0);
            lemma_rows_map_index(rows, rule_key(), i0);
            assert(self.model() =~= (StoreModel {
                tag_rules: rows.remove(i0),
                steps: steps_after_capture(s0.steps, p, s0.capture_on),
                ..s0
            }));
            assert(self.model() == s2);
            lemma_rows_map_dom(rows.remove(i0), rule_key());
            assert(apply_op(content_of(s2), p) =~= content_of(s0)) by {
                assert(!rows_map(rows.remove(i0), rule_key()).dom().contains(key as int));
                assert(rows_map(rows, rule_key()).remove(key as int).insert(key as int, rows[i0])
                    =~= rows_map(rows, rule_key()));
            }
            lemma_chain_after_write(s0, s2, p);
            assert(model_wf(self.model()));
        }
        Ok(1)
    }
}

} // verus!
