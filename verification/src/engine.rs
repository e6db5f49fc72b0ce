//! Raw replay primitives: applying one captured operation to the
//! store's tables, exactly as the content-level `apply_op` describes,
//! without capturing anything.

use vstd::prelude::*;
use crate::model::{Account, Transaction, TagRule};
use crate::rowmap::{
    rows_map, keys_sorted, lemma_rows_map_dom, lemma_rows_map_index, lemma_rows_map_remove,
    lemma_rows_map_insert,
};
use crate::store::{
    StingyDb, StoreModel, Table, Record, OpPayload, content_of, apply_op, id_key, acc_key,
    txn_key, rule_key,
};

verus! {

/// The key a row sorts under.
pub fn acc_row_key(a: &Account) -> (r: i64)
    ensures
        r as int == id_key(a.id),
{
    match a.id {
        Some(v) => v,
        None => -1,
    }
}

/// The key a row sorts under.
pub fn txn_row_key(t: &Transaction) -> (r: i64)
    ensures
        r as int == id_key(t.id),
{
    match t.id {
        Some(v) => v,
        None => -1,
    }
}

/// The key a row sorts under.
pub fn rule_row_key(t: &TagRule) -> (r: i64)
    ensures
        r as int == id_key(t.id),
{
    match t.id {
        Some(v) => v,
        None => -1,
    }
}

/// The position of the first row whose key is at least `key`.
pub fn acc_pos(rows: &Vec<Account>, key: i64) -> (r: usize)
    requires
        keys_sorted(rows@, acc_key()),
    ensures
        r <= rows@.len(),
        forall|j: int| 0 <= j < r ==> acc_key()(#[trigger] rows@[j]) < key as int,
        forall|j: int| r <= j < rows@.len() ==> acc_key()(#[trigger] rows@[j]) >= key as int,
{
    let mut i: usize = 0;
    while i < rows.len()
        invariant
            i <= rows@.len(),
            keys_sorted(rows@, acc_key()),
            forall|j: int| 0 <= j < i ==> acc_key()(#[trigger] rows@[j]) < key as int,
        decreases rows@.len() - i,
    {
        if acc_row_key(&rows[i]) >= key {
            proof {
                assert forall|j: int| i <= j < rows@.len() implies acc_key()(#[trigger] rows@[j])
                    >= key as int by {
                    if j > i {
                        assert(acc_key()(rows@[i as int]) < acc_key()(rows@[j]));
                    }
                }
            }
            return i;
        }
        proof {
            assert(acc_key()(rows@[i as int]) < key as int);
        }
        i += 1;
    }
    i
}

/// The position of the first row whose key is at least `key`.
pub fn txn_pos(rows: &Vec<Transaction>, key: i64) -> (r: usize)
    requires
        keys_sorted(rows@, txn_key()),
    ensures
        r <= rows@.len(),
        forall|j: int| 0 <= j < r ==> txn_key()(#[trigger] rows@[j]) < key as int,
        forall|j: int| r <= j < rows@.len() ==> txn_key()(#[trigger] rows@[j]) >= key as int,
{
    let mut i: usize = 0;
    while i < rows.len()
        invariant
            i <= rows@.len(),
            keys_sorted(rows@, txn_key()),
            forall|j: int| 0 <= j < i ==> txn_key()(#[trigger] rows@[j]) < key as int,
        decreases rows@.len() - i,
    {
        if txn_row_key(&rows[i]) >= key {
            proof {
                assert forall|j: int| i <= j < rows@.len() implies txn_key()(#[trigger] rows@[j])
                    >= key as int by {
                    if j > i {
                        assert(txn_key()(rows@[i as int]) < txn_key()(rows@[j]));
                    }
                }
            }
            return i;
        }
        proof {
            assert(txn_key()(rows@[i as int]) < key as int);
        }
        i += 1;
    }
    i
}

/// The position of the first row whose key is at least `key`.
pub fn rule_pos(rows: &Vec<TagRule>, key: i64) -> (r: usize)
    requires
        keys_sorted(rows@, rule_key()),
    ensures
        r <= rows@.len(),
        forall|j: int| 0 <= j < r ==> rule_key()(#[trigger] rows@[j]) < key as int,
        forall|j: int| r <= j < rows@.len() ==> rule_key()(#[trigger] rows@[j]) >= key as int,
{
    let mut i: usize = 0;
    while i < rows.len()
        invariant
            i <= rows@.len(),
            keys_sorted(rows@, rule_key()),
            forall|j: int| 0 <= j < i ==> rule_key()(#[trigger] rows@[j]) < key as int,
        decreases rows@.len() - i,
    {
        if rule_row_key(&rows[i]) >= key {
            proof {
                assert forall|j: int| i <= j < rows@.len() implies rule_key()(
                    #[trigger] rows@[j],
                ) >= key as int by {
                    if j > i {
                        assert(rule_key()(rows@[i as int]) < rule_key()(rows@[j]));
                    }
                }
            }
            return i;
        }
        proof {
            assert(rule_key()(rows@[i as int]) < key as int);
        }
        i += 1;
    }
    i
}

impl StingyDb {
    /// Applies one captured operation to the tables, exactly as
    /// `apply_op` describes, capturing nothing.
    pub fn raw_apply(&mut self, p: &OpPayload)
        requires
            keys_sorted(old(self).accounts@, acc_key()),
            keys_sorted(old(self).transactions@, txn_key()),
            keys_sorted(old(self).tag_rules@, rule_key()),
        ensures
            keys_sorted(final(self).accounts@, acc_key()),
            keys_sorted(final(self).transactions@, txn_key()),
            keys_sorted(final(self).tag_rules@, rule_key()),
            content_of(final(self).model()) == apply_op(content_of(old(self).model()), *p),
            final(self).model().steps == old(self).model().steps,
            final(self).version == old(self).version,
            final(self).capture_on == old(self).capture_on,
            final(self).location@ == old(self).location@,
            final(self).checkpoints@ == old(self).checkpoints@,
    {
        let ghost c0 = content_of(self.model());
        match p {
            OpPayload::Delete { table: Table::Accounts, key } => {
                let ghost rows = self.accounts@;
                let pos = acc_pos(&self.accounts, *key);
                if pos < self.accounts.len() && acc_row_key(&self.accounts[pos]) == *key {
                    self.accounts.remove(pos);
                    proof {
                        lemma_rows_map_remove(rows, acc_key(), pos as int);
                    }
                } else {
                    proof {
                        lemma_rows_map_dom(rows, acc_key());
                        assert forall|j: int| 0 <= j < rows.len() implies acc_key()(
                            #[trigger] rows[j],
                        ) != *key as int by {
                            if j >= pos && j > pos {
                                assert(acc_key()(rows[pos as int]) < acc_key()(rows[j]));
                            }
                        }
                        assert(rows_map(rows, acc_key()).remove(*key as int) =~= rows_map(
                            rows,
                            acc_key(),
                        ));
                    }
                }
                proof {
                    assert(content_of(self.model()) =~= apply_op(c0, *p));
                }
            },
            OpPayload::Delete { table: Table::Transactions, key } => {
                let ghost rows = self.transactions@;
                let pos = txn_pos(&self.transactions, *key);
                if pos < self.transactions.len() && txn_row_key(&self.transactions[pos]) == *key {
                    self.transactions.remove(pos);
                    proof {
                        lemma_rows_map_remove(rows, txn_key(), pos as int);
                    }
                } else {
                    proof {
                        lemma_rows_map_dom(rows, txn_key());
                        assert forall|j: int| 0 <= j < rows.len() implies txn_key()(
                            #[trigger] rows[j],
                        ) != *key as int by {
                            if j > pos {
                                assert(txn_key()(rows[pos as int]) < txn_key()(rows[j]));
                            }
                        }
                        assert(rows_map(rows, txn_key()).remove(*key as int) =~= rows_map(
                            rows,
                            txn_key(),
                        ));
                    }
                }
                proof {
                    assert(content_of(self.model()) =~= apply_op(c0, *p));
                }
            },
            OpPayload::Delete { table: Table::TagRules, key } => {
                let ghost rows = self.tag_rules@;
                let pos = rule_pos(&self.tag_rules, *key);
                if pos < self.tag_rules.len() && rule_row_key(&self.tag_rules[pos]) == *key {
                    self.tag_rules.remove(pos);
                    proof {
                        lemma_rows_map_remove(rows, rule_key(), pos as int);
                    }
                } else {
                    proof {
                        lemma_rows_map_dom(rows, rule_key());
                        assert forall|j: int| 0 <= j < rows.len() implies rule_key()(
                            #[trigger] rows[j],
                        ) != *key as int by {
                            if j > pos {
                                assert(rule_key()(rows[pos as int]) < rule_key()(rows[j]));
                            }
                        }
                        assert(rows_map(rows, rule_key()).remove(*key as int) =~= rows_map(
                            rows,
                            rule_key(),
                        ));
                    }
                }
                proof {
                    assert(content_of(self.model()) =~= apply_op(c0, *p));
                }
            },
            OpPayload::SetFields { table: Table::Accounts, key, old_values: Record::Account(a) } => {
                let ghost rows = self.accounts@;
                let pos = acc_pos(&self.accounts, *key);
                if pos < self.accounts.len() && acc_row_key(&self.accounts[pos]) == *key
                    && acc_row_key(a) == *key {
                    proof {
                        lemma_rows_map_index(rows, acc_key(), pos as int);
                        lemma_rows_map_remove(rows, acc_key(), pos as int);
                    }
                    self.accounts.remove(pos);
                    self.accounts.insert(pos, a.clone());
                    proof {
                        lemma_rows_map_insert(rows.remove(pos as int), acc_key(), pos as int, *a);
                        assert(content_of(self.model()) =~= apply_op(c0, *p)) by {
                            assert(rows_map(rows, acc_key()).remove(*key as int).insert(
                                *key as int,
                                *a,
                            ) =~= rows_map(rows, acc_key()).insert(*key as int, *a));
                        }
                    }
                } else {
                    proof {
                        lemma_rows_map_dom(rows, acc_key());
                        if !(pos < rows.len() && acc_key()(rows[pos as int]) == *key as int) {
                            assert forall|j: int| 0 <= j < rows.len() implies acc_key()(
                                #[trigger] rows[j],
                            ) != *key as int by {
                                if j > pos {
                                    assert(acc_key()(rows[pos as int]) < acc_key()(rows[j]));
                                }
                            }
                        }
                        assert(content_of(self.model()) =~= apply_op(c0, *p));
                    }
                }
            },
            OpPayload::SetFields {
                table: Table::Transactions,
                key,
                old_values: Record::Transaction(t),
            } => {
                let ghost rows = self.transactions@;
                let pos = txn_pos(&self.transactions, *key);
                if pos < self.transactions.len() && txn_row_key(&self.transactions[pos]) == *key
                    && txn_row_key(t) == *key {
                    proof {
                        lemma_rows_map_index(rows, txn_key(), pos as int);
                        lemma_rows_map_remove(rows, txn_key(), pos as int);
                    }
                    self.transactions.remove(pos);
                    self.transactions.insert(pos, t.clone());
                    proof {
                        lemma_rows_map_insert(rows.remove(pos as int), txn_key(), pos as int, *t);
                        assert(content_of(self.model()) =~= apply_op(c0, *p)) by {
                            assert(rows_map(rows, txn_key()).remove(*key as int).insert(
                                *key as int,
                                *t,
                            ) =~= rows_map(rows, txn_key()).insert(*key as int, *t));
                        }
                    }
                } else {
                    proof {
                        lemma_rows_map_dom(rows, txn_key());
                        if !(pos < rows.len() && txn_key()(rows[pos as int]) == *key as int) {
                            assert forall|j: int| 0 <= j < rows.len() implies txn_key()(
                                #[trigger] rows[j],
                            ) != *key as int by {
                                if j > pos {
                                    assert(txn_key()(rows[pos as int]) < txn_key()(rows[j]));
                                }
                            }
                        }
                        assert(content_of(self.model()) =~= apply_op(c0, *p));
                    }
                }
            },
            OpPayload::SetFields { table: Table::TagRules, key, old_values: Record::TagRule(t) } => {
                let ghost rows = self.tag_rules@;
                let pos = rule_pos(&self.tag_rules, *key);
                if pos < self.tag_rules.len() && rule_row_key(&self.tag_rules[pos]) == *key
                    && rule_row_key(t) == *key {
                    proof {
                        lemma_rows_map_index(rows, rule_key(), pos as int);
                        lemma_rows_map_remove(rows, rule_key(), pos as int);
                    }
                    self.tag_rules.remove(pos);
                    self.tag_rules.insert(pos, t.clone());
                    proof {
                        lemma_rows_map_insert(rows.remove(pos as int), rule_key(), pos as int, *t);
                        assert(content_of(self.model()) =~= apply_op(c0, *p)) by {
                            assert(rows_map(rows, rule_key()).remove(*key as int).insert(
                                *key as int,
                                *t,
                            ) =~= rows_map(rows, rule_key()).insert(*key as int, *t));
                        }
                    }
                } else {
                    proof {
                        lemma_rows_map_dom(rows, rule_key());
                        if !(pos < rows.len() && rule_key()(rows[pos as int]) == *key as int) {
                            assert forall|j: int| 0 <= j < rows.len() implies rule_key()(
                                #[trigger] rows[j],
                            ) != *key as int by {
                                if j > pos {
                                    assert(rule_key()(rows[pos as int]) < rule_key()(rows[j]));
                                }
                            }
                        }
                        assert(content_of(self.model()) =~= apply_op(c0, *p));
                    }
                }
            },
            OpPayload::Insert { table: Table::Accounts, values: Record::Account(a) } => {
                let ghost rows = self.accounts@;
                let key = acc_row_key(a);
                let pos = acc_pos(&self.accounts, key);
                if pos < self.accounts.len() && acc_row_key(&self.accounts[pos]) == key {
                    proof {
                        lemma_rows_map_dom(rows, acc_key());
                        assert(content_of(self.model()) =~= apply_op(c0, *p));
                    }
                } else {
                    proof {
                        assert forall|j: int| pos <= j < rows.len() implies acc_key()(
                            #[trigger] rows[j],
                        ) > key as int by {
                            if j > pos {
                                assert(acc_key()(rows[pos as int]) < acc_key()(rows[j]));
                            }
                        }
                        lemma_rows_map_dom(rows, acc_key());
                    }
                    self.accounts.insert(pos, a.clone());
                    proof {
                        lemma_rows_map_insert(rows, acc_key(), pos as int, *a);
                        assert(!rows_map(rows, acc_key()).dom().contains(key as int));
                        assert(content_of(self.model()) =~= apply_op(c0, *p));
                    }
                }
            },
            OpPayload::Insert { table: Table::Transactions, values: Record::Transaction(t) } => {
                let ghost rows = self.transactions@;
                let key = txn_row_key(t);
                let pos = txn_pos(&self.transactions, key);
                if pos < self.transactions.len() && txn_row_key(&self.transactions[pos]) == key {
                    proof {
                        lemma_rows_map_dom(rows, txn_key());
                        assert(content_of(self.model()) =~= apply_op(c0, *p));
                    }
                } else {
                    proof {
                        assert forall|j: int| pos <= j < rows.len() implies txn_key()(
                            #[trigger] rows[j],
                        ) > key as int by {
                            if j > pos {
                                assert(txn_key()(rows[pos as int]) < txn_key()(rows[j]));
                            }
                        }
                        lemma_rows_map_dom(rows, txn_key());
                    }
                    self.transactions.insert(pos, t.clone());
                    proof {
                        lemma_rows_map_insert(rows, txn_key(), pos as int, *t);
                        assert(!rows_map(rows, txn_key()).dom().contains(key as int));
                        assert(content_of(self.model()) =~= apply_op(c0, *p));
                    }
                }
            },
            OpPayload::Insert { table: Table::TagRules, values: Record::TagRule(t) } => {
                let ghost rows = self.tag_rules@;
                let key = rule_row_key(t);
                let pos = rule_pos(&self.tag_rules, key);
                if pos < self.tag_rules.len() && rule_row_key(&self.tag_rules[pos]) == key {
                    proof {
                        lemma_rows_map_dom(rows, rule_key());
                        assert(content_of(self.model()) =~= apply_op(c0, *p));
                    }
                } else {
                    proof {
                        assert forall|j: int| pos <= j < rows.len() implies rule_key()(
                            #[trigger] rows[j],
                        ) > key as int by {
                            if j > pos {
                                assert(rule_key()(rows[pos as int]) < rule_key()(rows[j]));
                            }
                        }
                        lemma_rows_map_dom(rows, rule_key());
                    }
                    self.tag_rules.insert(pos, t.clone());
                    proof {
                        lemma_rows_map_insert(rows, rule_key(), pos as int, *t);
                        assert(!rows_map(rows, rule_key()).dom().contains(key as int));
                        assert(content_of(self.model()) =~= apply_op(c0, *p));
                    }
                }
            },
            _ => {
                proof {
                    assert(content_of(self.model()) =~= apply_op(c0, *p));
                }
            },
        }
    }
}

} // verus!
