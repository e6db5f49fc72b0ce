//! The typed store: entity tables, undo steps and captured operations.
//!
//! The store's mathematical content is three maps from identifier to row.
//! Every write through the CRUD facade, while a step is open, appends to
//! that step the operation that reverses the write; the well-formedness
//! predicate carries, for every step, the proof that replaying its
//! captured operations (most recent first) restores the content the
//! store had when the step was opened.

use vstd::prelude::*;
use crate::model::{
    Account, Transaction, TagRule, account_conflict, transaction_same, tag_rule_same,
};
use crate::rowmap::{rows_map, keys_sorted};

verus! {

/// Names one of the entity tables.
#[derive(Debug, Clone, Copy, PartialEq, Eq, Structural)]
pub enum Table {
    Accounts,
    Transactions,
    TagRules,
}

/// One full row image, tagged by its table.
#[derive(Debug)]
pub enum Record {
    Account(Account),
    Transaction(Transaction),
    TagRule(TagRule),
}

impl Clone for Record {
    fn clone(&self) -> (r: Self)
        ensures
            r == *self,
    {
        match self {
            Record::Account(a) => Record::Account(a.clone()),
            Record::Transaction(t) => Record::Transaction(t.clone()),
            Record::TagRule(t) => Record::TagRule(t.clone()),
        }
    }
}

/// A recorded action that reverses exactly one prior row-level write.
#[derive(Debug, Clone)]
pub enum OpPayload {
    /// Reverses an insert: removes the row with this key.
    Delete { table: Table, key: i64 },
    /// Reverses an update: overwrites the row at this key with the
    /// complete pre-update image.
    SetFields { table: Table, key: i64, old_values: Record },
    /// Reverses a delete: re-creates the complete pre-delete image.
    Insert { table: Table, values: Record },
}

/// A captured operation, anchored to the step it belongs to.
#[derive(Debug, Clone)]
pub struct CapturedOperation {
    pub step_id: i64,
    pub payload: OpPayload,
}

/// A named, ordered unit of undo history: one mutating command.
#[derive(Debug)]
pub struct UndoStep {
    pub id: i64,
    pub name: String,
    pub ops: Vec<CapturedOperation>,
}

/// The mathematical content of the store: each table as a map from
/// identifier to row.
#[verifier::ext_equal]
pub struct Content {
    pub accounts: Map<int, Account>,
    pub transactions: Map<int, Transaction>,
    pub tag_rules: Map<int, TagRule>,
}

/// The abstract value of one undo step.
#[verifier::ext_equal]
pub struct StepView {
    pub id: i64,
    pub name: Seq<char>,
    pub ops: Seq<CapturedOperation>,
}

/// The abstract value of the whole store.
#[verifier::ext_equal]
pub struct StoreModel {
    pub accounts: Seq<Account>,
    pub transactions: Seq<Transaction>,
    pub tag_rules: Seq<TagRule>,
    pub steps: Seq<StepView>,
    pub version: usize,
    pub capture_on: bool,
    pub location: Seq<char>,
    pub checkpoints: Seq<Content>,
}

/// The key of an identifier field: rows held by the store always carry
/// `Some` identifier.
pub open spec fn id_key(id: Option<i64>) -> int {
    match id {
        Some(k) => k as int,
        None => -1,
    }
}

/// Key function for account rows.
pub open spec fn acc_key() -> spec_fn(Account) -> int {
    |a: Account| id_key(a.id)
}

/// Key function for transaction rows.
pub open spec fn txn_key() -> spec_fn(Transaction) -> int {
    |t: Transaction| id_key(t.id)
}

/// Key function for tag-rule rows.
pub open spec fn rule_key() -> spec_fn(TagRule) -> int {
    |t: TagRule| id_key(t.id)
}

/// Applies one captured operation to the content.  `Delete` removes by
/// key; `SetFields` overwrites an existing row by key; `Insert`
/// re-creates a row under its own identifier.  A captured operation
/// whose image does not fit its table leaves the content unchanged.
pub open spec fn apply_op(c: Content, op: OpPayload) -> Content {
    match op {
        OpPayload::Delete { table: Table::Accounts, key } => Content {
            accounts: c.accounts.remove(key as int),
            ..c
        },
        OpPayload::Delete { table: Table::Transactions, key } => Content {
            transactions: c.transactions.remove(key as int),
            ..c
        },
        OpPayload::Delete { table: Table::TagRules, key } => Content {
            tag_rules: c.tag_rules.remove(key as int),
            ..c
        },
        OpPayload::SetFields { table: Table::Accounts, key, old_values: Record::Account(a) } => {
            if c.accounts.dom().contains(key as int) && id_key(a.id) == key as int {
                Content { accounts: c.accounts.insert(key as int, a), ..c }
            } else {
                c
            }
        },
        OpPayload::SetFields {
            table: Table::Transactions,
            key,
            old_values: Record::Transaction(t),
        } => {
            if c.transactions.dom().contains(key as int) && id_key(t.id) == key as int {
                Content { transactions: c.transactions.insert(key as int, t), ..c }
            } else {
                c
            }
        },
        OpPayload::SetFields { table: Table::TagRules, key, old_values: Record::TagRule(t) } => {
            if c.tag_rules.dom().contains(key as int) && id_key(t.id) == key as int {
                Content { tag_rules: c.tag_rules.insert(key as int, t), ..c }
            } else {
                c
            }
        },
        OpPayload::Insert { table: Table::Accounts, values: Record::Account(a) } => {
            if c.accounts.dom().contains(id_key(a.id)) {
                c
            } else {
                Content { accounts: c.accounts.insert(id_key(a.id), a), ..c }
            }
        },
        OpPayload::Insert { table: Table::Transactions, values: Record::Transaction(t) } => {
            if c.transactions.dom().contains(id_key(t.id)) {
                c
            } else {
                Content { transactions: c.transactions.insert(id_key(t.id), t), ..c }
            }
        },
        OpPayload::Insert { table: Table::TagRules, values: Record::TagRule(t) } => {
            if c.tag_rules.dom().contains(id_key(t.id)) {
                c
            } else {
                Content { tag_rules: c.tag_rules.insert(id_key(t.id), t), ..c }
            }
        },
        _ => c,
    }
}

/// Replays captured operations most recent first.
pub open spec fn undo_apply(c: Content, ops: Seq<CapturedOperation>) -> Content
    decreases ops.len(),
{
    if ops.len() == 0 {
        c
    } else {
        undo_apply(apply_op(c, ops.last().payload), ops.drop_last())
    }
}

/// The steps after capturing `p`: appended to the newest step while
/// capture is installed and a step exists, otherwise unchanged.
pub open spec fn steps_after_capture(
    steps: Seq<StepView>,
    p: OpPayload,
    capture_on: bool,
) -> Seq<StepView> {
    if capture_on && steps.len() > 0 {
        let last = steps.last();
        steps.update(
            steps.len() - 1,
            StepView {
                ops: last.ops.push(CapturedOperation { step_id: last.id, payload: p }),
                ..last
            },
        )
    } else {
        steps
    }
}

/// The content checkpoint that the chain compares step `j - 1`'s replay
/// against: the next step's begin-content, or the current content for
/// the newest step.
pub open spec fn chain_ctx(s: StoreModel, j: int) -> Content {
    if j == s.steps.len() {
        content_of(s)
    } else {
        s.checkpoints[j]
    }
}

/// The content of the store's tables.
pub open spec fn content_of(s: StoreModel) -> Content {
    Content {
        accounts: rows_map(s.accounts, acc_key()),
        transactions: rows_map(s.transactions, txn_key()),
        tag_rules: rows_map(s.tag_rules, rule_key()),
    }
}

/// Row identifiers assigned and in strictly increasing order.
pub open spec fn table_keys_ok<T>(rows: Seq<T>, key: spec_fn(T) -> int) -> bool {
    &&& keys_sorted(rows, key)
    &&& forall|i: int| 0 <= i < rows.len() ==> key(#[trigger] rows[i]) >= 1
}

/// The uniqueness constraints of the three tables, over the rows.
pub open spec fn constraints_ok(s: StoreModel) -> bool {
    &&& forall|i: int, j: int|
        0 <= i < j < s.accounts.len() ==> !account_conflict(
            #[trigger] s.accounts[i],
            #[trigger] s.accounts[j],
        )
    &&& forall|i: int, j: int|
        0 <= i < j < s.transactions.len() ==> !transaction_same(
            #[trigger] s.transactions[i],
            #[trigger] s.transactions[j],
        )
    &&& forall|i: int, j: int|
        0 <= i < j < s.tag_rules.len() ==> !tag_rule_same(
            #[trigger] s.tag_rules[i],
            #[trigger] s.tag_rules[j],
        )
}

/// The same constraints over a content value, together with the
/// agreement of each row's identifier with its key.
pub open spec fn content_ok(c: Content) -> bool {
    &&& forall|k: int| #[trigger]
        c.accounts.dom().contains(k) ==> c.accounts[k].id == Some(k as i64) && k >= 1
    &&& forall|k: int| #[trigger]
        c.transactions.dom().contains(k) ==> c.transactions[k].id == Some(k as i64) && k >= 1
    &&& forall|k: int| #[trigger]
        c.tag_rules.dom().contains(k) ==> c.tag_rules[k].id == Some(k as i64) && k >= 1
    &&& forall|k1: int, k2: int|
        c.accounts.dom().contains(k1) && c.accounts.dom().contains(k2) && k1 != k2
            ==> !account_conflict(#[trigger] c.accounts[k1], #[trigger] c.accounts[k2])
    &&& forall|k1: int, k2: int|
        c.transactions.dom().contains(k1) && c.transactions.dom().contains(k2) && k1 != k2
            ==> !transaction_same(#[trigger] c.transactions[k1], #[trigger] c.transactions[k2])
    &&& forall|k1: int, k2: int|
        c.tag_rules.dom().contains(k1) && c.tag_rules.dom().contains(k2) && k1 != k2
            ==> !tag_rule_same(#[trigger] c.tag_rules[k1], #[trigger] c.tag_rules[k2])
}

/// Row identifiers agree with their keys.
pub open spec fn ids_assigned(s: StoreModel) -> bool {
    &&& forall|i: int| 0 <= i < s.accounts.len() ==> (#[trigger] s.accounts[i]).id is Some
    &&& forall|i: int| 0 <= i < s.transactions.len() ==> (#[trigger] s.transactions[i]).id is Some
    &&& forall|i: int| 0 <= i < s.tag_rules.len() ==> (#[trigger] s.tag_rules[i]).id is Some
}

/// The step records are well-formed: identifiers strictly increase and
/// every captured operation is anchored to its step.
pub open spec fn steps_ok(s: StoreModel) -> bool {
    &&& forall|i: int, j: int| 0 <= i < j < s.steps.len() ==> s.steps[i].id < s.steps[j].id
    &&& forall|i: int| 0 <= i < s.steps.len() ==> (#[trigger] s.steps[i]).id >= 1
    &&& forall|i: int, j: int|
        0 <= i < s.steps.len() && 0 <= j < s.steps[i].ops.len() ==> (#[trigger] s.steps[i].ops[
            j
        ]).step_id == s.steps[i].id
}

/// Some sorted row sequences realize the content: it is a snapshot of
/// actual tables, not an arbitrary map.
pub open spec fn content_realizable(c: Content) -> bool {
    &&& exists|rows: Seq<Account>|
        keys_sorted(rows, acc_key()) && rows_map(rows, acc_key()) == c.accounts
    &&& exists|rows: Seq<Transaction>|
        keys_sorted(rows, txn_key()) && rows_map(rows, txn_key()) == c.transactions
    &&& exists|rows: Seq<TagRule>|
        keys_sorted(rows, rule_key()) && rows_map(rows, rule_key()) == c.tag_rules
}

/// A realizable content's canonical row sequences reproduce it.
pub proof fn lemma_content_of_sorted_rows(c: Content)
    requires
        content_realizable(c),
    ensures
        keys_sorted(crate::rowmap::sorted_rows(c.accounts, acc_key()), acc_key()),
        keys_sorted(crate::rowmap::sorted_rows(c.transactions, txn_key()), txn_key()),
        keys_sorted(crate::rowmap::sorted_rows(c.tag_rules, rule_key()), rule_key()),
        rows_map(crate::rowmap::sorted_rows(c.accounts, acc_key()), acc_key()) == c.accounts,
        rows_map(crate::rowmap::sorted_rows(c.transactions, txn_key()), txn_key())
            == c.transactions,
        rows_map(crate::rowmap::sorted_rows(c.tag_rules, rule_key()), rule_key()) == c.tag_rules,
{
    let wa = choose|rows: Seq<Account>|
        keys_sorted(rows, acc_key()) && rows_map(rows, acc_key()) == c.accounts;
    crate::rowmap::lemma_sorted_rows_of(wa, acc_key());
    let wt = choose|rows: Seq<Transaction>|
        keys_sorted(rows, txn_key()) && rows_map(rows, txn_key()) == c.transactions;
    crate::rowmap::lemma_sorted_rows_of(wt, txn_key());
    let wr = choose|rows: Seq<TagRule>|
        keys_sorted(rows, rule_key()) && rows_map(rows, rule_key()) == c.tag_rules;
    crate::rowmap::lemma_sorted_rows_of(wr, rule_key());
}

/// The undo chain: one checkpoint per step, each well-formed and an
/// actual table snapshot, and replaying any step's captured operations
/// against the content at the following step's start (or the current
/// content, for the newest step) restores the content this step began
/// with.
pub open spec fn chain_ok(s: StoreModel) -> bool {
    &&& s.checkpoints.len() == s.steps.len()
    &&& forall|i: int| 0 <= i < s.checkpoints.len() ==> content_ok(#[trigger] s.checkpoints[i])
    &&& forall|i: int|
        0 <= i < s.checkpoints.len() ==> content_realizable(#[trigger] s.checkpoints[i])
    &&& forall|i: int|
        0 <= i < s.steps.len() ==> undo_apply(chain_ctx(s, i + 1), (#[trigger] s.steps[i]).ops)
            == s.checkpoints[i]
}

/// Full well-formedness of the store.
pub open spec fn model_wf(s: StoreModel) -> bool {
    &&& table_keys_ok(s.accounts, acc_key())
    &&& table_keys_ok(s.transactions, txn_key())
    &&& table_keys_ok(s.tag_rules, rule_key())
    &&& ids_assigned(s)
    &&& constraints_ok(s)
    &&& steps_ok(s)
    &&& chain_ok(s)
    &&& !s.capture_on ==> s.steps.len() == 0
}

/// The store handle: entity tables, undo bookkeeping, the persisted
/// schema version, and whether write capture is installed.
pub struct StingyDb {
    pub accounts: Vec<Account>,
    pub transactions: Vec<Transaction>,
    pub tag_rules: Vec<TagRule>,
    pub steps: Vec<UndoStep>,
    pub version: usize,
    pub capture_on: bool,
    pub location: String,
    pub checkpoints: Ghost<Seq<Content>>,
}

impl StingyDb {
    /// The abstract value of one step record.
    pub open spec fn spec_step_view(st: UndoStep) -> StepView {
        StepView { id: st.id, name: st.name@, ops: st.ops@ }
    }

    /// The abstract value of the store.
    pub open spec fn model(&self) -> StoreModel {
        StoreModel {
            accounts: self.accounts@,
            transactions: self.transactions@,
            tag_rules: self.tag_rules@,
            steps: self.steps@.map_values(|st: UndoStep| Self::spec_step_view(st)),
            version: self.version,
            capture_on: self.capture_on,
            location: self.location@,
            checkpoints: self.checkpoints@,
        }
    }

    /// The store is well-formed.
    pub open spec fn wf(&self) -> bool {
        model_wf(self.model())
    }

    /// The current content of the store's tables.
    pub open spec fn content(&self) -> Content {
        content_of(self.model())
    }

    /// Anchors a captured operation to the newest step, while capture is
    /// installed and a step exists; otherwise records nothing.
    pub fn capture(&mut self, p: OpPayload)
        ensures
            final(self).model() == (StoreModel {
                steps: steps_after_capture(old(self).model().steps, p, old(self).capture_on),
                ..old(self).model()
            }),
    {
        let ghost s0 = self.model();
        if self.capture_on && self.steps.len() > 0 {
            let mut st = self.steps.pop().unwrap();
            let sid = st.id;
            st.ops.push(CapturedOperation { step_id: sid, payload: p });
            self.steps.push(st);
            proof {
                let f = |st: UndoStep| Self::spec_step_view(st);
                assert(self.steps@.map_values(f) =~= steps_after_capture(
                    s0.steps,
                    p,
                    s0.capture_on,
                ));
                assert(self.model() =~= (StoreModel {
                    steps: steps_after_capture(s0.steps, p, s0.capture_on),
                    ..s0
                }));
            }
        } else {
            proof {
                assert(self.model() =~= (StoreModel {
                    steps: steps_after_capture(s0.steps, p, s0.capture_on),
                    ..s0
                }));
            }
        }
    }
}

/// A well-formed store's current content satisfies the content-level
/// constraints: identifiers agree with keys and rows conflict pairwise
/// nowhere.
pub proof fn lemma_content_ok_of_model(s: StoreModel)
    requires
        table_keys_ok(s.accounts, acc_key()),
        table_keys_ok(s.transactions, txn_key()),
        table_keys_ok(s.tag_rules, rule_key()),
        ids_assigned(s),
        constraints_ok(s),
    ensures
        content_ok(content_of(s)),
{
    let c = content_of(s);
    crate::rowmap::lemma_rows_map_dom(s.accounts, acc_key());
    crate::rowmap::lemma_rows_map_dom(s.transactions, txn_key());
    crate::rowmap::lemma_rows_map_dom(s.tag_rules, rule_key());
    assert forall|k: int| #[trigger] c.accounts.dom().contains(k) implies c.accounts[k].id == Some(
        k as i64,
    ) && k >= 1 by {
        let i = choose|i: int| 0 <= i < s.accounts.len() && acc_key()(#[trigger] s.accounts[i])
            == k;
        crate::rowmap::lemma_rows_map_index(s.accounts, acc_key(), i);
    }
    assert forall|k: int| #[trigger] c.transactions.dom().contains(k) implies c.transactions[
        k
    ].id == Some(k as i64) && k >= 1 by {
        let i = choose|i: int|
            0 <= i < s.transactions.len() && txn_key()(#[trigger] s.transactions[i]) == k;
        crate::rowmap::lemma_rows_map_index(s.transactions, txn_key(), i);
    }
    assert forall|k: int| #[trigger] c.tag_rules.dom().contains(k) implies c.tag_rules[k].id
        == Some(k as i64) && k >= 1 by {
        let i = choose|i: int| 0 <= i < s.tag_rules.len() && rule_key()(#[trigger] s.tag_rules[i])
            == k;
        crate::rowmap::lemma_rows_map_index(s.tag_rules, rule_key(), i);
    }
    assert forall|k1: int, k2: int|
        c.accounts.dom().contains(k1) && c.accounts.dom().contains(k2) && k1 != k2 implies
        !account_conflict(#[trigger] c.accounts[k1], #[trigger] c.accounts[k2]) by {
        let i1 = choose|i: int| 0 <= i < s.accounts.len() && acc_key()(#[trigger] s.accounts[i])
            == k1;
        let i2 = choose|i: int| 0 <= i < s.accounts.len() && acc_key()(#[trigger] s.accounts[i])
            == k2;
        crate::rowmap::lemma_rows_map_index(s.accounts, acc_key(), i1);
        crate::rowmap::lemma_rows_map_index(s.accounts, acc_key(), i2);
    }
    assert forall|k1: int, k2: int|
        c.transactions.dom().contains(k1) && c.transactions.dom().contains(k2) && k1 != k2 implies
        !transaction_same(#[trigger] c.transactions[k1], #[trigger] c.transactions[k2]) by {
        let i1 = choose|i: int|
            0 <= i < s.transactions.len() && txn_key()(#[trigger] s.transactions[i]) == k1;
        let i2 = choose|i: int|
            0 <= i < s.transactions.len() && txn_key()(#[trigger] s.transactions[i]) == k2;
        crate::rowmap::lemma_rows_map_index(s.transactions, txn_key(), i1);
        crate::rowmap::lemma_rows_map_index(s.transactions, txn_key(), i2);
    }
    assert forall|k1: int, k2: int|
        c.tag_rules.dom().contains(k1) && c.tag_rules.dom().contains(k2) && k1 != k2 implies
        !tag_rule_same(#[trigger] c.tag_rules[k1], #[trigger] c.tag_rules[k2]) by {
        let i1 = choose|i: int| 0 <= i < s.tag_rules.len() && rule_key()(#[trigger] s.tag_rules[i])
            == k1;
        let i2 = choose|i: int| 0 <= i < s.tag_rules.len() && rule_key()(#[trigger] s.tag_rules[i])
            == k2;
        crate::rowmap::lemma_rows_map_index(s.tag_rules, rule_key(), i1);
        crate::rowmap::lemma_rows_map_index(s.tag_rules, rule_key(), i2);
    }
}

/// Sorted tables whose content satisfies the content-level constraints
/// satisfy the row-level ones.
pub proof fn lemma_tables_ok_from_content(s: StoreModel)
    requires
        keys_sorted(s.accounts, acc_key()),
        keys_sorted(s.transactions, txn_key()),
        keys_sorted(s.tag_rules, rule_key()),
        content_ok(content_of(s)),
    ensures
        table_keys_ok(s.accounts, acc_key()),
        table_keys_ok(s.transactions, txn_key()),
        table_keys_ok(s.tag_rules, rule_key()),
        ids_assigned(s),
        constraints_ok(s),
{
    let c = content_of(s);
    assert forall|i: int| 0 <= i < s.accounts.len() implies acc_key()(#[trigger] s.accounts[i])
        >= 1 && s.accounts[i].id is Some by {
        crate::rowmap::lemma_rows_map_index(s.accounts, acc_key(), i);
    }
    assert forall|i: int| 0 <= i < s.transactions.len() implies txn_key()(
        #[trigger] s.transactions[i],
    ) >= 1 && s.transactions[i].id is Some by {
        crate::rowmap::lemma_rows_map_index(s.transactions, txn_key(), i);
    }
    assert forall|i: int| 0 <= i < s.tag_rules.len() implies rule_key()(#[trigger] s.tag_rules[i])
        >= 1 && s.tag_rules[i].id is Some by {
        crate::rowmap::lemma_rows_map_index(s.tag_rules, rule_key(), i);
    }
    assert forall|i: int, j: int| 0 <= i < j < s.accounts.len() implies !account_conflict(
        #[trigger] s.accounts[i],
        #[trigger] s.accounts[j],
    ) by {
        crate::rowmap::lemma_rows_map_index(s.accounts, acc_key(), i);
        crate::rowmap::lemma_rows_map_index(s.accounts, acc_key(), j);
    }
    assert forall|i: int, j: int| 0 <= i < j < s.transactions.len() implies !transaction_same(
        #[trigger] s.transactions[i],
        #[trigger] s.transactions[j],
    ) by {
        crate::rowmap::lemma_rows_map_index(s.transactions, txn_key(), i);
        crate::rowmap::lemma_rows_map_index(s.transactions, txn_key(), j);
    }
    assert forall|i: int, j: int| 0 <= i < j < s.tag_rules.len() implies !tag_rule_same(
        #[trigger] s.tag_rules[i],
        #[trigger] s.tag_rules[j],
    ) by {
        crate::rowmap::lemma_rows_map_index(s.tag_rules, rule_key(), i);
        crate::rowmap::lemma_rows_map_index(s.tag_rules, rule_key(), j);
    }
}

/// After one write whose captured operation exactly reverses it, the
/// undo chain still holds: older links are untouched, and the newest
/// step's replay first undoes the new operation and then proceeds as
/// before.
pub proof fn lemma_chain_after_write(s0: StoreModel, s2: StoreModel, p: OpPayload)
    requires
        steps_ok(s0),
        chain_ok(s0),
        s0.capture_on || s0.steps.len() == 0,
        s2.steps == steps_after_capture(s0.steps, p, s0.capture_on),
        s2.checkpoints == s0.checkpoints,
        apply_op(content_of(s2), p) == content_of(s0),
    ensures
        steps_ok(s2),
        chain_ok(s2),
{
    let n = s0.steps.len() as int;
    if s0.steps.len() == 0 {
        assert(s2.steps =~= s0.steps);
    } else {
        let last = s0.steps.last();
        let op = CapturedOperation { step_id: last.id, payload: p };
        assert(s2.steps.len() == n);
        assert forall|i: int, j: int|
            0 <= i < s2.steps.len() && 0 <= j < s2.steps[i].ops.len() implies (
        #[trigger] s2.steps[i].ops[j]).step_id == s2.steps[i].id by {
            if i < n - 1 {
                assert(s2.steps[i] == s0.steps[i]);
            } else {
                assert(s2.steps[i].ops =~= last.ops.push(op));
                if j < last.ops.len() {
                    assert(s2.steps[i].ops[j] == last.ops[j]);
                }
            }
        }
        assert forall|i: int| 0 <= i < s2.steps.len() implies undo_apply(
            chain_ctx(s2, i + 1),
            (#[trigger] s2.steps[i]).ops,
        ) == s2.checkpoints[i] by {
            if i < n - 1 {
                assert(s2.steps[i] == s0.steps[i]);
                assert(chain_ctx(s2, i + 1) == chain_ctx(s0, i + 1));
                assert(undo_apply(chain_ctx(s0, i + 1), s0.steps[i].ops) == s0.checkpoints[i]);
            } else {
                let ops2 = s2.steps[n - 1].ops;
                assert(ops2 =~= last.ops.push(op));
                assert(ops2.last() == op);
                assert(ops2.drop_last() =~= last.ops);
                assert(undo_apply(chain_ctx(s2, n), ops2) == undo_apply(
                    apply_op(content_of(s2), p),
                    last.ops,
                ));
                assert(undo_apply(content_of(s0), last.ops) == s0.checkpoints[n - 1]);
            }
        }
    }
}

} // verus!
