//! The store handle's top-level interface: opening a store (running
//! migrations, installing write capture, collecting stale empty steps),
//! resetting it, and the odd lookups the commands need.

use vstd::prelude::*;
use crate::DbError;
use crate::model::{TagRule, tag_rule_same, tag_rule_is_same};
use crate::facade::{ModelOperations, StoreView};
use crate::undo::UndoOperations;
use crate::migrate::{Migration, perform_migrations, spec_perform, migration_view};
use crate::store::{StingyDb, StoreModel, Content, UndoStep, content_of, model_wf, lemma_content_ok_of_model};
use crate::tags::{count_tagged, count_tagged_by, tagged_by};
use crate::numfmt::spec_parse_u64;

verus! {

/// The prefix of every store URI.
pub open spec fn uri_prefix() -> Seq<char> {
    "file://"@
}

/// A fresh, never-migrated store model at the given location.
pub open spec fn fresh_model(location: Seq<char>) -> StoreModel {
    StoreModel {
        accounts: Seq::empty(),
        transactions: Seq::empty(),
        tag_rules: Seq::empty(),
        steps: Seq::empty(),
        version: 0,
        capture_on: false,
        location,
        checkpoints: Seq::empty(),
    }
}

/// A freshly opened store: migrated to the latest version, with write
/// capture installed and no undo history.
pub open spec fn opened_model(location: Seq<char>) -> StoreModel {
    StoreModel { version: 2, capture_on: true, ..fresh_model(location) }
}

/// What `count_matching_transactions` counts for the given rule
/// identifier text.
pub open spec fn spec_count_matching(s: StoreModel, idtext: Seq<char>) -> int {
    match spec_parse_u64(idtext) {
        Some(v) => if v <= i64::MAX {
            count_tagged(s.tag_rules, s.transactions, v as i64)
        } else {
            0
        },
        None => 0,
    }
}

/// Removing all data from the store.
pub trait Reset: StoreView {
    /// What `reset` leaves behind.
    spec fn spec_reset(&self) -> StoreModel;

    /// Removes all data: tables, history and the schema version.
    fn reset(&mut self) -> (r: Result<(), DbError>)
        requires
            old(self).inv(),
        ensures
            final(self).inv(),
            r is Ok,
            final(self).store_model() == old(self).spec_reset(),
    ;
}

/// The full store interface a command works against.
pub trait StingyDatabase: ModelOperations<crate::model::Account> + ModelOperations<
    crate::model::Transaction,
> + ModelOperations<TagRule> + UndoOperations + Reset {
    /// A URI describing where the store lives.
    fn get_uri(&self) -> (r: String)
        requires
            self.inv(),
        ensures
            r@ == uri_prefix() + self.store_model().location,
    ;

    /// How many transactions the store holds.
    fn count_transactions(&self) -> (r: Result<usize, DbError>)
        requires
            self.inv(),
        ensures
            r is Ok,
            r->Ok_0 == self.store_model().transactions.len(),
    ;

    /// The identifier of the rule whose criteria equal the given
    /// record's, if one exists.
    fn lookup_tag_rule(&self, model: &TagRule) -> (r: Result<Option<i64>, DbError>)
        requires
            self.inv(),
        ensures
            r is Ok,
            match r->Ok_0 {
                Some(k) => exists|i: int|
                    0 <= i < self.store_model().tag_rules.len() && tag_rule_same(
                        #[trigger] self.store_model().tag_rules[i],
                        *model,
                    ) && self.store_model().tag_rules[i].id == Some(k),
                None => !(exists|i: int|
                    0 <= i < self.store_model().tag_rules.len() && tag_rule_same(
                        #[trigger] self.store_model().tag_rules[i],
                        *model,
                    )),
            },
    ;

    /// How many transactions the rule with the given identifier tags.
    fn count_matching_transactions(&self, tag_rule_id: &str) -> (r: Result<usize, DbError>)
        requires
            self.inv(),
        ensures
            r is Ok,
            r->Ok_0 as int == spec_count_matching(self.store_model(), tag_rule_id@),
    ;

    /// Populates an empty store with a small fixed data set — three
    /// accounts and ten transactions — through the capturing facade,
    /// for exercising the commands.
    fn insert_test_data(&mut self)
        requires
            old(self).inv(),
            old(self).store_model().accounts.len() == 0,
            old(self).store_model().transactions.len() == 0,
        ensures
            final(self).inv(),
            final(self).store_model().accounts.len() == 3,
            final(self).store_model().transactions.len() == 10,
            final(self).store_model().tag_rules == old(self).store_model().tag_rules,
            final(self).store_model().capture_on == old(self).store_model().capture_on,
            final(self).store_model().location == old(self).store_model().location,
            final(self).store_model().version == old(self).store_model().version,
    ;
}

impl Reset for StingyDb {
    open spec fn spec_reset(&self) -> StoreModel {
        fresh_model(self.model().location)
    }

    fn reset(&mut self) -> (r: Result<(), DbError>) {
        self.accounts = Vec::new();
        self.transactions = Vec::new();
        self.tag_rules = Vec::new();
        self.steps = Vec::new();
        self.version = 0;
        self.capture_on = false;
        proof {
            self.checkpoints@ = Seq::<Content>::empty();
            assert(self.model() =~= fresh_model(old(self).model().location));
        }
        Ok(())
    }
}

impl StingyDatabase for StingyDb {
    fn get_uri(&self) -> (r: String) {
        proof {
            reveal_strlit("file://");
        }
        let mut uri = String::from_str("file://");
        uri.append(self.location.as_str());
        uri
    }

    fn count_transactions(&self) -> (r: Result<usize, DbError>) {
        Ok(self.transactions.len())
    }

    fn lookup_tag_rule(&self, model: &TagRule) -> (r: Result<Option<i64>, DbError>) {
        let mut i: usize = 0;
        while i < self.tag_rules.len()
            invariant
                i <= self.tag_rules@.len(),
                forall|j: int|
                    0 <= j < self.tag_rules@.len() ==> (#[trigger] self.tag_rules@[j]).id
                        is Some,
                forall|j: int|
                    0 <= j < i ==> !tag_rule_same(#[trigger] self.tag_rules@[j], *model),
            decreases self.tag_rules@.len() - i,
        {
            if tag_rule_is_same(&self.tag_rules[i], model) {
                proof {
                    assert(self.store_model().tag_rules == self.tag_rules@);
                    assert(tag_rule_same(self.store_model().tag_rules[i as int], *model));
                    assert(self.store_model().tag_rules[i as int].id is Some);
                }
                return Ok(self.tag_rules[i].id);
            }
            i += 1;
        }
        Ok(None)
    }

    fn count_matching_transactions(&self, tag_rule_id: &str) -> (r: Result<usize, DbError>) {
        let rid: i64 = match crate::numfmt::parse_u64(tag_rule_id) {
            Some(v) => {
                if v > i64::MAX as u64 {
                    return Ok(0);
                }
                v as i64
            },
            None => {
                return Ok(0);
            },
        };
        Ok(count_tagged_by(&self.tag_rules, &self.transactions, rid))
    }

    fn insert_test_data(&mut self) {
        let mut account = crate::model::Account {
            id: None,
            name: String::from_str("000000 - 00000000"),
            alias: None,
            selected: false,
            bank: None,
        };
        proof {
            reveal_strlit("000000 - 00000000");
            reveal_strlit("111111 - 11111111");
            reveal_strlit("333333 - 33333333");
            assert(("000000 - 00000000"@)[0] != ("111111 - 11111111"@)[0]);
            assert(("000000 - 00000000"@)[0] != ("333333 - 33333333"@)[0]);
            assert(("111111 - 11111111"@)[0] != ("333333 - 33333333"@)[0]);
        }
        let _ = ModelOperations::<crate::model::Account>::insert(self, account);
        account = crate::model::Account {
            id: None,
            name: String::from_str("111111 - 11111111"),
            alias: None,
            selected: false,
            bank: None,
        };
        let _ = ModelOperations::<crate::model::Account>::insert(self, account);
        account = crate::model::Account {
            id: None,
            name: String::from_str("333333 - 33333333"),
            alias: None,
            selected: false,
            bank: None,
        };
        let _ = ModelOperations::<crate::model::Account>::insert(self, account);
        proof {
            assert(self.model().accounts.len() == 3);
        }
        let descriptions = [
            "coffee",
            "groceries",
            "GROCERIES 2",
            "PUB LUNCH",
            "TRANSFER",
            "rent",
            "salary",
            "refund",
            "cinema",
            "books",
        ];
        let ghost accounts_now = self.model().accounts;
        let ghost rules_now = self.model().tag_rules;
        let mut k: usize = 0;
        while k < 10
            invariant
                self.wf(),
                k <= 10,
                self.model().accounts == accounts_now,
                self.model().tag_rules == rules_now,
                self.model().capture_on == old(self).model().capture_on,
                self.model().location == old(self).model().location,
                self.model().version == old(self).model().version,
                self.model().transactions.len() == k,
                forall|i: int|
                    0 <= i < k ==> crate::store::txn_key()(#[trigger] self.model().transactions[i])
                        == i + 1,
                forall|i: int|
                    0 <= i < k ==> crate::tags::amount_of(#[trigger] self.model().transactions[i])
                        == 500 + 700 * i,
            decreases 10 - k,
        {
            let ghost rows = self.model().transactions;
            let day = (k as u8) + 20;
            let credit = k == 6 || k == 7;
            let amount: i64 = 500 + 700 * (k as i64);
            let t = crate::model::Transaction {
                id: None,
                account_name: String::from_str(
                    if k < 5 {
                        "000000 - 00000000"
                    } else {
                        "111111 - 11111111"
                    },
                ),
                posted_date: crate::date::Date {
                    year: 2021,
                    month: if day > 28 {
                        3
                    } else {
                        2
                    },
                    day: if day > 28 {
                        (day - 28) as u8
                    } else {
                        day
                    },
                },
                description: String::from_str(descriptions[k]),
                debit_amount: if credit {
                    0
                } else {
                    amount
                },
                credit_amount: if credit {
                    amount
                } else {
                    0
                },
                balance: 10000,
                transaction_type: if credit {
                    crate::model::TransactionType::Credit
                } else if k == 3 {
                    crate::model::TransactionType::DirectDebit
                } else {
                    crate::model::TransactionType::Debit
                },
                currency: String::from_str("EUR"),
            };
            proof {
                // every earlier row moves a different amount, so none is
                // the same logical record
                assert(crate::tags::amount_of(t) == 500 + 700 * (k as int));
                assert forall|i: int| 0 <= i < rows.len() implies !crate::model::transaction_same(
                    #[trigger] rows[i],
                    t,
                ) by {
                    assert(crate::tags::amount_of(rows[i]) == 500 + 700 * i);
                    assert(crate::tags::amount_of(rows[i]) != crate::tags::amount_of(t));
                }
            }
            let _ = ModelOperations::<crate::model::Transaction>::insert(self, t);
            k += 1;
        }
    }
}

/// The library's own schema migrations.  The record layout is fixed at
/// compile time, so the baseline migrations carry only the version
/// number: one for the initial schema, one for the undo bookkeeping.
fn stingy_migrations() -> (r: Vec<Migration>)
    ensures
        r@.len() == 3,
        forall|i: int| 0 <= i < 3 ==> (#[trigger] r@[i]).script@.len() == 0,
{
    let mut v: Vec<Migration> = Vec::new();
    v.push(Migration { name: String::new(), script: Vec::new() });
    v.push(Migration { name: String::from_str("001-initial-schema"), script: Vec::new() });
    v.push(Migration { name: String::from_str("002-undo"), script: Vec::new() });
    v
}

/// A store with nothing in it, not yet migrated, capture not installed.
fn fresh_store(location: &str) -> (r: StingyDb)
    ensures
        r.model() == fresh_model(location@),
        r.wf(),
{
    let db = StingyDb {
        accounts: Vec::new(),
        transactions: Vec::new(),
        tag_rules: Vec::new(),
        steps: Vec::new(),
        version: 0,
        capture_on: false,
        location: String::from_str(location),
        checkpoints: Ghost(Seq::empty()),
    };
    proof {
        assert(db.model() =~= fresh_model(location@));
    }
    db
}

/// Opens a store: runs the migrations, installs the write-capture
/// hooks, and, since migrating invalidates history, leaves no undo
/// steps behind.
fn open_at(location: &str) -> (r: StingyDb)
    ensures
        r.wf(),
        r.model() == opened_model(location@),
{
    let mut db = fresh_store(location);
    let migrations = stingy_migrations();
    let ghost fresh = db.model();
    let res = perform_migrations(&mut db, &migrations);
    proof {
        let migs = migrations@.map_values(|m: Migration| migration_view(m));
        let c0 = content_of(fresh);
        assert(crate::migrate::script_apply(c0, migs[1].script) == Some(c0));
        assert(crate::migrate::script_apply(c0, migs[2].script) == Some(c0));
        assert(crate::migrate::spec_migrations_from(c0, migs, 3) == (
            c0,
            2int,
            None::<Seq<char>>,
        ));
        assert(crate::migrate::spec_migrations_from(c0, migs, 2) == (
            c0,
            2int,
            None::<Seq<char>>,
        ));
        assert(crate::migrate::spec_migrations_from(c0, migs, 1) == (
            c0,
            2int,
            None::<Seq<char>>,
        ));
        crate::rowmap::lemma_sorted_rows_of(fresh.accounts, crate::store::acc_key());
        crate::rowmap::lemma_sorted_rows_of(fresh.transactions, crate::store::txn_key());
        crate::rowmap::lemma_sorted_rows_of(fresh.tag_rules, crate::store::rule_key());
        assert(db.model() =~= (StoreModel { version: 2, ..fresh_model(location@) }));
    }
    // (re)install the write-capture hooks; installing is idempotent
    db.capture_on = true;
    proof {
        assert(db.model() =~= opened_model(location@));
    }
    db
}

/// Opens a store from its persisted state, completing the store-open
/// contract in order: the rows are re-created, the migrations run, the
/// write-capture hooks are (re)installed, and then — if any migration
/// ran this open — the undo history is wiped, since a schema change
/// invalidates it; otherwise the persisted history is restored and its
/// empty steps are garbage-collected.
pub fn open_stingy_database_from(
    location: &str,
    version: usize,
    rows: Vec<crate::store::Record>,
    steps: Vec<UndoStep>,
) -> (r: Result<StingyDb, DbError>)
    ensures
        ({
            let loaded = spec_load(content_of(fresh_model(location@)), rows@);
            let views = steps@.map_values(|st: UndoStep| StingyDb::spec_step_view(st));
            match loaded {
                None => r == Err::<StingyDb, DbError>(DbError::NotUnique),
                Some(c) => {
                    if version < 2 {
                        &&& r is Ok
                        &&& r->Ok_0.wf()
                        &&& content_of(r->Ok_0.model()) == c
                        &&& r->Ok_0.model().steps.len() == 0
                        &&& r->Ok_0.model().version == 2
                        &&& r->Ok_0.model().capture_on
                        &&& r->Ok_0.model().location == location@
                    } else {
                        if history_admissible(c, views) {
                            &&& r is Ok
                            &&& r->Ok_0.wf()
                            &&& content_of(r->Ok_0.model()) == c
                            &&& r->Ok_0.model().version == version
                            &&& r->Ok_0.model().capture_on
                            &&& r->Ok_0.model().location == location@
                            &&& r->Ok_0.model().steps == crate::undo::gc_steps(
                                views,
                                rebuild_cps(c, views),
                            ).0
                            &&& r->Ok_0.model().checkpoints == crate::undo::gc_steps(
                                views,
                                rebuild_cps(c, views),
                            ).1
                        } else {
                            r == Err::<StingyDb, DbError>(DbError::InvalidHistory)
                        }
                    }
                },
            }
        }),
{
    let mut db = fresh_store(location);
    db.version = version;
    let ghost s_fresh = db.model();
    proof {
        assert(s_fresh =~= (StoreModel { version: version, ..fresh_model(location@) }));
        assert(content_of(s_fresh) =~= content_of(fresh_model(location@)));
        assert(model_wf(s_fresh));
    }
    match load_rows(&mut db, rows) {
        Ok(()) => {},
        Err(e) => {
            proof {
                assert(e == DbError::NotUnique);
            }
            return Err(e);
        },
    }
    let ghost s_loaded = db.model();
    let ghost c = content_of(s_loaded);
    let migrations = stingy_migrations();
    let ghost migs = migrations@.map_values(|m: Migration| migration_view(m));
    proof {
        // the baseline migration scripts are empty: they always succeed
        // and change no content
        if version < 2 {
            assert(crate::migrate::script_apply(c, migs[1].script) == Some(c));
            assert(crate::migrate::script_apply(c, migs[2].script) == Some(c));
            assert(crate::migrate::spec_migrations_from(c, migs, 3) == (
                c,
                2int,
                None::<Seq<char>>,
            ));
            assert(crate::migrate::spec_migrations_from(c, migs, 2) == (
                c,
                2int,
                None::<Seq<char>>,
            ));
            if version == 0 {
                assert(crate::migrate::spec_migrations_from(c, migs, 1) == (
                    c,
                    2int,
                    None::<Seq<char>>,
                ));
            }
        }
    }
    let migrated = match perform_migrations(&mut db, &migrations) {
        Ok(b) => b,
        Err(e) => {
            return Err(e);
        },
    };
    proof {
        if version < 2 {
            crate::rowmap::lemma_sorted_rows_of(s_loaded.accounts, crate::store::acc_key());
            crate::rowmap::lemma_sorted_rows_of(
                s_loaded.transactions,
                crate::store::txn_key(),
            );
            crate::rowmap::lemma_sorted_rows_of(s_loaded.tag_rules, crate::store::rule_key());
            assert(db.model() =~= (StoreModel {
                steps: Seq::empty(),
                checkpoints: Seq::empty(),
                version: 2,
                ..s_loaded
            }));
        } else {
            assert(db.model() == s_loaded);
        }
        assert(migrated == (version < 2));
        assert(content_of(db.model()) =~= c);
    }
    // (re)install the write-capture hooks; installing is idempotent
    db.capture_on = true;
    proof {
        assert(model_wf(db.model()));
        assert(content_of(db.model()) =~= c);
    }
    if !migrated {
        match db.load_history(steps) {
            Ok(()) => {},
            Err(e) => {
                return Err(e);
            },
        }
        db.garbage_collect_empty_steps();
    }
    proof {
        assert(content_of(db.model()) =~= c);
    }
    Ok(db)
}

/// Opens the standard store.
pub fn open_stingy_database() -> (r: Result<StingyDb, DbError>)
    ensures
        r is Ok,
        r->Ok_0.wf(),
        r->Ok_0.model() == opened_model("stingy.sqlite"@),
{
    Ok(open_at("stingy.sqlite"))
}

/// Opens a throwaway store for exercising the commands.
pub fn open_stingy_testing_database() -> (r: StingyDb)
    ensures
        r.wf(),
        r.model() == opened_model(":memory:"@),
{
    open_at(":memory:")
}

/// Whether every account row has an assigned, positive identifier.
fn acc_ids_ok(rows: &Vec<crate::model::Account>) -> (r: bool)
    ensures
        r == forall|i: int|
            0 <= i < rows@.len() ==> (#[trigger] rows@[i]).id is Some && crate::store::acc_key()(
                rows@[i],
            ) >= 1,
{
    let mut i: usize = 0;
    while i < rows.len()
        invariant
            i <= rows@.len(),
            forall|j: int|
                0 <= j < i ==> (#[trigger] rows@[j]).id is Some && crate::store::acc_key()(
                    rows@[j],
                ) >= 1,
        decreases rows@.len() - i,
    {
        match rows[i].id {
            Some(k) => {
                if k < 1 {
                    proof {
                        assert(crate::store::acc_key()(rows@[i as int]) < 1);
                    }
                    return false;
                }
                proof {
                    assert(crate::store::acc_key()(rows@[i as int]) >= 1);
                }
            },
            None => {
                return false;
            },
        }
        i += 1;
    }
    true
}

/// Whether every transaction row has an assigned, positive identifier.
fn txn_ids_ok(rows: &Vec<crate::model::Transaction>) -> (r: bool)
    ensures
        r == forall|i: int|
            0 <= i < rows@.len() ==> (#[trigger] rows@[i]).id is Some && crate::store::txn_key()(
                rows@[i],
            ) >= 1,
{
    let mut i: usize = 0;
    while i < rows.len()
        invariant
            i <= rows@.len(),
            forall|j: int|
                0 <= j < i ==> (#[trigger] rows@[j]).id is Some && crate::store::txn_key()(
                    rows@[j],
                ) >= 1,
        decreases rows@.len() - i,
    {
        match rows[i].id {
            Some(k) => {
                if k < 1 {
                    proof {
                        assert(crate::store::txn_key()(rows@[i as int]) < 1);
                    }
                    return false;
                }
                proof {
                    assert(crate::store::txn_key()(rows@[i as int]) >= 1);
                }
            },
            None => {
                return false;
            },
        }
        i += 1;
    }
    true
}

/// Whether every tag-rule row has an assigned, positive identifier.
fn rule_ids_ok(rows: &Vec<TagRule>) -> (r: bool)
    ensures
        r == forall|i: int|
            0 <= i < rows@.len() ==> (#[trigger] rows@[i]).id is Some && crate::store::rule_key()(
                rows@[i],
            ) >= 1,
{
    let mut i: usize = 0;
    while i < rows.len()
        invariant
            i <= rows@.len(),
            forall|j: int|
                0 <= j < i ==> (#[trigger] rows@[j]).id is Some && crate::store::rule_key()(
                    rows@[j],
                ) >= 1,
        decreases rows@.len() - i,
    {
        match rows[i].id {
            Some(k) => {
                if k < 1 {
                    proof {
                        assert(crate::store::rule_key()(rows@[i as int]) < 1);
                    }
                    return false;
                }
                proof {
                    assert(crate::store::rule_key()(rows@[i as int]) >= 1);
                }
            },
            None => {
                return false;
            },
        }
        i += 1;
    }
    true
}

/// Whether no two account rows violate the accounts constraint.
fn acc_pairwise_ok(rows: &Vec<crate::model::Account>) -> (r: bool)
    ensures
        r == forall|i: int, j: int|
            0 <= i < j < rows@.len() ==> !crate::model::account_conflict(
                #[trigger] rows@[i],
                #[trigger] rows@[j],
            ),
{
    let mut i: usize = 0;
    while i < rows.len()
        invariant
            i <= rows@.len(),
            forall|i2: int, j2: int|
                0 <= i2 < i && i2 < j2 < rows@.len() ==> !crate::model::account_conflict(
                    #[trigger] rows@[i2],
                    #[trigger] rows@[j2],
                ),
        decreases rows@.len() - i,
    {
        let mut j: usize = i + 1;
        while j < rows.len()
            invariant
                i < j,
                i < rows@.len(),
                j <= rows@.len(),
                forall|j2: int|
                    i < j2 < j ==> !crate::model::account_conflict(
                        rows@[i as int],
                        #[trigger] rows@[j2],
                    ),
            decreases rows@.len() - j,
        {
            if crate::model::account_conflicts(&rows[i], &rows[j]) {
                return false;
            }
            j += 1;
        }
        i += 1;
    }
    true
}

/// Whether no two transaction rows are the same logical record.
fn txn_pairwise_ok(rows: &Vec<crate::model::Transaction>) -> (r: bool)
    ensures
        r == forall|i: int, j: int|
            0 <= i < j < rows@.len() ==> !crate::model::transaction_same(
                #[trigger] rows@[i],
                #[trigger] rows@[j],
            ),
{
    let mut i: usize = 0;
    while i < rows.len()
        invariant
            i <= rows@.len(),
            forall|i2: int, j2: int|
                0 <= i2 < i && i2 < j2 < rows@.len() ==> !crate::model::transaction_same(
                    #[trigger] rows@[i2],
                    #[trigger] rows@[j2],
                ),
        decreases rows@.len() - i,
    {
        let mut j: usize = i + 1;
        while j < rows.len()
            invariant
                i < j,
                i < rows@.len(),
                j <= rows@.len(),
                forall|j2: int|
                    i < j2 < j ==> !crate::model::transaction_same(
                        rows@[i as int],
                        #[trigger] rows@[j2],
                    ),
            decreases rows@.len() - j,
        {
            if crate::model::transaction_is_same(&rows[i], &rows[j]) {
                return false;
            }
            j += 1;
        }
        i += 1;
    }
    true
}

/// Whether no two tag-rule rows are the same logical record.
fn rule_pairwise_ok(rows: &Vec<TagRule>) -> (r: bool)
    ensures
        r == forall|i: int, j: int|
            0 <= i < j < rows@.len() ==> !crate::model::tag_rule_same(
                #[trigger] rows@[i],
                #[trigger] rows@[j],
            ),
{
    let mut i: usize = 0;
    while i < rows.len()
        invariant
            i <= rows@.len(),
            forall|i2: int, j2: int|
                0 <= i2 < i && i2 < j2 < rows@.len() ==> !crate::model::tag_rule_same(
                    #[trigger] rows@[i2],
                    #[trigger] rows@[j2],
                ),
        decreases rows@.len() - i,
    {
        let mut j: usize = i + 1;
        while j < rows.len()
            invariant
                i < j,
                i < rows@.len(),
                j <= rows@.len(),
                forall|j2: int|
                    i < j2 < j ==> !crate::model::tag_rule_same(
                        rows@[i as int],
                        #[trigger] rows@[j2],
                    ),
            decreases rows@.len() - j,
        {
            if crate::model::tag_rule_is_same(&rows[i], &rows[j]) {
                return false;
            }
            j += 1;
        }
        i += 1;
    }
    true
}

impl StingyDb {
    /// Decides whether the current tables satisfy the content-level
    /// constraints: assigned positive identifiers and no pair of rows
    /// violating a uniqueness constraint.
    pub(crate) fn content_constraints_hold(&self) -> (r: bool)
        requires
            crate::rowmap::keys_sorted(self.accounts@, crate::store::acc_key()),
            crate::rowmap::keys_sorted(self.transactions@, crate::store::txn_key()),
            crate::rowmap::keys_sorted(self.tag_rules@, crate::store::rule_key()),
        ensures
            r == crate::store::content_ok(content_of(self.model())),
    {
        let ok = acc_ids_ok(&self.accounts) && txn_ids_ok(&self.transactions) && rule_ids_ok(
            &self.tag_rules,
        ) && acc_pairwise_ok(&self.accounts) && txn_pairwise_ok(&self.transactions)
            && rule_pairwise_ok(&self.tag_rules);
        proof {
            if ok {
                lemma_content_ok_of_model(self.model());
            } else {
                if crate::store::content_ok(content_of(self.model())) {
                    crate::store::lemma_tables_ok_from_content(self.model());
                }
            }
        }
        ok
    }
}

/// The checkpoints a persisted history implies: the newest step's
/// checkpoint is the current content with its operations replayed, and
/// each older step's checkpoint replays its operations against its
/// successor's.
pub open spec fn rebuild_cps(c: Content, views: Seq<crate::store::StepView>) -> Seq<Content>
    decreases views.len(),
{
    if views.len() == 0 {
        Seq::empty()
    } else {
        let cp = crate::store::undo_apply(c, views.last().ops);
        rebuild_cps(cp, views.drop_last()).push(cp)
    }
}

/// The rebuilt checkpoints link up exactly as the undo chain demands.
pub proof fn lemma_rebuild_links(c: Content, views: Seq<crate::store::StepView>)
    ensures
        rebuild_cps(c, views).len() == views.len(),
        views.len() > 0 ==> rebuild_cps(c, views).last() == crate::store::undo_apply(
            c,
            views.last().ops,
        ),
        forall|i: int|
            0 <= i < views.len() - 1 ==> #[trigger] rebuild_cps(c, views)[i]
                == crate::store::undo_apply(rebuild_cps(c, views)[i + 1], views[i].ops),
    decreases views.len(),
{
    if views.len() > 0 {
        let cp = crate::store::undo_apply(c, views.last().ops);
        lemma_rebuild_links(cp, views.drop_last());
        let inner = rebuild_cps(cp, views.drop_last());
        assert forall|i: int|
            0 <= i < views.len() - 1 implies #[trigger] rebuild_cps(c, views)[i]
            == crate::store::undo_apply(rebuild_cps(c, views)[i + 1], views[i].ops) by {
            if i < views.len() - 2 {
                assert(rebuild_cps(c, views)[i] == inner[i]);
                assert(rebuild_cps(c, views)[i + 1] == inner[i + 1]);
                assert(views.drop_last()[i] == views[i]);
            } else {
                assert(rebuild_cps(c, views)[i] == inner[i]);
                assert(inner.len() > 0);
                assert(inner[i] == inner.last());
                assert(inner.last() == crate::store::undo_apply(
                    cp,
                    views.drop_last().last().ops,
                ));
                assert(views.drop_last().last() == views[i]);
                assert(rebuild_cps(c, views)[i + 1] == cp);
            }
        }
    }
}

/// A persisted history fits the loaded content: steps strictly ordered
/// and anchored, and every implied checkpoint satisfies the content
/// constraints.
pub open spec fn history_admissible(c: Content, views: Seq<crate::store::StepView>) -> bool {
    &&& forall|i: int, j: int| 0 <= i < j < views.len() ==> views[i].id < views[j].id
    &&& forall|i: int| 0 <= i < views.len() ==> (#[trigger] views[i]).id >= 1
    &&& forall|i: int, j: int|
        0 <= i < views.len() && 0 <= j < views[i].ops.len() ==> (#[trigger] views[i].ops[
            j
        ]).step_id == views[i].id
    &&& forall|i: int| 0 <= i < views.len() ==> crate::store::content_ok(
            #[trigger] rebuild_cps(c, views)[i],
        )
}

impl StingyDb {
    /// Re-installs a persisted undo history over freshly loaded tables.
    /// Each step's checkpoint — the content the store had when the step
    /// was opened — is rebuilt by replaying the step's captured
    /// operations, newest step first, on a scratch copy of the tables,
    /// and validated against the content constraints.  An inadmissible
    /// history is rejected whole, leaving the store as it was.
    pub fn load_history(&mut self, steps: Vec<UndoStep>) -> (r: Result<(), DbError>)
        requires
            old(self).wf(),
            old(self).model().steps.len() == 0,
            old(self).model().capture_on,
        ensures
            final(self).wf(),
            ({
                let c0 = content_of(old(self).model());
                let views = steps@.map_values(|st: UndoStep| StingyDb::spec_step_view(st));
                if history_admissible(c0, views) {
                    r is Ok && final(self).model() == (StoreModel {
                        steps: views,
                        checkpoints: rebuild_cps(c0, views),
                        ..old(self).model()
                    })
                } else {
                    r == Err::<(), DbError>(DbError::InvalidHistory) && final(self).model()
                        == old(self).model()
                }
            }),
    {
        let ghost c0 = content_of(self.model());
        let ghost views = steps@.map_values(|st: UndoStep| StingyDb::spec_step_view(st));
        let n = steps.len();
        // the step records themselves: strictly increasing positive
        // identifiers, every operation anchored to its step
        let mut i: usize = 0;
        while i < n
            invariant
                self.wf(),
                self.model() == old(self).model(),
                views == steps@.map_values(|st: UndoStep| StingyDb::spec_step_view(st)),
                n == steps@.len(),
                views.len() == n,
                i <= n,
                forall|p: int, q: int| 0 <= p < q < i ==> views[p].id < views[q].id,
                forall|p: int| 0 <= p < i ==> (#[trigger] views[p]).id >= 1,
                forall|p: int, q: int|
                    0 <= p < i && 0 <= q < views[p].ops.len() ==> (#[trigger] views[p].ops[
                        q
                    ]).step_id == views[p].id,
            decreases n - i,
        {
            let sid = steps[i].id;
            proof {
                assert(views[i as int] == StingyDb::spec_step_view(steps@[i as int]));
            }
            if sid < 1 {
                proof {
                    assert(views[i as int].id < 1);
                }
                return Err(DbError::InvalidHistory);
            }
            if i > 0 && steps[i - 1].id >= sid {
                proof {
                    assert(views[i - 1].id >= views[i as int].id);
                }
                return Err(DbError::InvalidHistory);
            }
            let mut q: usize = 0;
            while q < steps[i].ops.len()
                invariant
                    self.wf(),
                    self.model() == old(self).model(),
                    views == steps@.map_values(|st: UndoStep| StingyDb::spec_step_view(st)),
                    n == steps@.len(),
                    i < n,
                    views.len() == n,
                    views[i as int].ops == steps@[i as int].ops@,
                    sid == views[i as int].id,
                    q <= views[i as int].ops.len(),
                    forall|q2: int|
                        0 <= q2 < q ==> (#[trigger] views[i as int].ops[q2]).step_id == views[
                            i as int
                        ].id,
                decreases views[i as int].ops.len() - q,
            {
                if steps[i].ops[q].step_id != sid {
                    proof {
                        assert(views[i as int].ops[q as int] == steps@[i as int].ops@[q as int]);
                        assert(views[i as int].ops[q as int].step_id != views[i as int].id);
                    }
                    return Err(DbError::InvalidHistory);
                }
                proof {
                    assert(views[i as int].ops[q as int] == steps@[i as int].ops@[q as int]);
                }
                q += 1;
            }
            proof {
                assert forall|p: int| 0 <= p < i implies views[p].id < views[i as int].id by {
                    if p < i - 1 {
                        assert(views[p].id < views[i - 1].id);
                    }
                }
            }
            i += 1;
        }
        // rebuild the checkpoints newest-first on a scratch copy
        let mut temp = StingyDb {
            accounts: crate::facade::clone_accounts(&self.accounts),
            transactions: crate::facade::clone_transactions(&self.transactions),
            tag_rules: crate::facade::clone_tag_rules(&self.tag_rules),
            steps: Vec::new(),
            version: 0,
            capture_on: false,
            location: String::new(),
            checkpoints: Ghost(Seq::empty()),
        };
        proof {
            assert(content_of(temp.model()) =~= c0);
            lemma_rebuild_links(c0, views);
        }
        let ghost mut cps: Seq<Content> = Seq::empty();
        let mut k: usize = n;
        while k > 0
            invariant
                self.wf(),
                self.model() == old(self).model(),
                c0 == content_of(old(self).model()),
                views == steps@.map_values(|st: UndoStep| StingyDb::spec_step_view(st)),
                n == steps@.len(),
                views.len() == n,
                k <= n,
                crate::rowmap::keys_sorted(temp.accounts@, crate::store::acc_key()),
                crate::rowmap::keys_sorted(temp.transactions@, crate::store::txn_key()),
                crate::rowmap::keys_sorted(temp.tag_rules@, crate::store::rule_key()),
                cps.len() == n - k,
                forall|j: int|
                    0 <= j < cps.len() ==> #[trigger] cps[j] == rebuild_cps(c0, views)[k + j],
                forall|j: int|
                    0 <= j < cps.len() ==> crate::store::content_ok(#[trigger] cps[j]),
                forall|j: int|
                    0 <= j < cps.len() ==> crate::store::content_realizable(#[trigger] cps[j]),
                content_of(temp.model()) == if k == n {
                    c0
                } else {
                    cps[0]
                },
                rebuild_cps(c0, views).len() == n,
                n > 0 ==> rebuild_cps(c0, views).last() == crate::store::undo_apply(
                    c0,
                    views.last().ops,
                ),
                forall|i2: int|
                    0 <= i2 < n - 1 ==> #[trigger] rebuild_cps(c0, views)[i2]
                        == crate::store::undo_apply(
                        rebuild_cps(c0, views)[i2 + 1],
                        views[i2].ops,
                    ),
            decreases k,
        {
            k -= 1;
            let ghost c_before = content_of(temp.model());
            let st = &steps[k];
            proof {
                assert(views[k as int] == StingyDb::spec_step_view(steps@[k as int]));
                assert(st.ops@ == views[k as int].ops);
                assert(st.ops@.subrange(0, st.ops@.len() as int) =~= st.ops@);
            }
            let mut p: usize = st.ops.len();
            while p > 0
                invariant
                    p <= st.ops@.len(),
                    crate::rowmap::keys_sorted(temp.accounts@, crate::store::acc_key()),
                    crate::rowmap::keys_sorted(temp.transactions@, crate::store::txn_key()),
                    crate::rowmap::keys_sorted(temp.tag_rules@, crate::store::rule_key()),
                    crate::store::undo_apply(
                        content_of(temp.model()),
                        st.ops@.subrange(0, p as int),
                    ) == crate::store::undo_apply(c_before, st.ops@),
                decreases p,
            {
                p -= 1;
                let ghost c_here = content_of(temp.model());
                temp.raw_apply(&st.ops[p].payload);
                proof {
                    assert(st.ops@.subrange(0, p + 1).drop_last() =~= st.ops@.subrange(
                        0,
                        p as int,
                    ));
                    assert(st.ops@.subrange(0, p + 1).last() == st.ops@[p as int]);
                    assert(crate::store::undo_apply(c_here, st.ops@.subrange(0, p + 1))
                        == crate::store::undo_apply(
                        content_of(temp.model()),
                        st.ops@.subrange(0, p as int),
                    ));
                }
            }
            proof {
                assert(st.ops@.subrange(0, 0) =~= Seq::<crate::store::CapturedOperation>::empty());
                assert(content_of(temp.model()) == crate::store::undo_apply(
                    c_before,
                    views[k as int].ops,
                ));
                // this is exactly the rebuilt checkpoint for step k
                if k == n - 1 {
                    assert(c_before == c0);
                } else {
                    assert(c_before == cps[0]);
                    assert(cps[0] == rebuild_cps(c0, views)[k + 1]);
                }
                assert(content_of(temp.model()) == rebuild_cps(c0, views)[k as int]);
            }
            if !temp.content_constraints_hold() {
                proof {
                    assert(!crate::store::content_ok(rebuild_cps(c0, views)[k as int]));
                    assert(!history_admissible(c0, views));
                }
                return Err(DbError::InvalidHistory);
            }
            proof {
                assert(crate::store::content_realizable(content_of(temp.model()))) by {
                    assert(crate::rowmap::rows_map(temp.accounts@, crate::store::acc_key())
                        == content_of(temp.model()).accounts);
                    assert(crate::rowmap::rows_map(temp.transactions@, crate::store::txn_key())
                        == content_of(temp.model()).transactions);
                    assert(crate::rowmap::rows_map(temp.tag_rules@, crate::store::rule_key())
                        == content_of(temp.model()).tag_rules);
                }
                cps = seq![content_of(temp.model())] + cps;
                assert forall|j: int| 0 <= j < cps.len() implies #[trigger] cps[j]
                    == rebuild_cps(c0, views)[k + j] by {
                    if j > 0 {
                        assert(cps[j] == cps.subrange(1, cps.len() as int)[j - 1]);
                    }
                }
            }
        }
        // the persisted history checks out: install it
        proof {
            assert(cps =~= rebuild_cps(c0, views));
        }
        self.steps = steps;
        proof {
            self.checkpoints@ = cps;
            let f = |st: UndoStep| StingyDb::spec_step_view(st);
            assert(self.steps@.map_values(f) == views);
            let sf = self.model();
            assert(sf =~= (StoreModel {
                steps: views,
                checkpoints: rebuild_cps(c0, views),
                ..old(self).model()
            }));
            assert(history_admissible(c0, views));
            assert(crate::store::steps_ok(sf));
            assert forall|i2: int| 0 <= i2 < sf.steps.len() implies crate::store::undo_apply(
                crate::store::chain_ctx(sf, i2 + 1),
                (#[trigger] sf.steps[i2]).ops,
            ) == sf.checkpoints[i2] by {
                if i2 == sf.steps.len() - 1 {
                    assert(crate::store::chain_ctx(sf, i2 + 1) == content_of(sf));
                    assert(content_of(sf) =~= c0);
                    assert(sf.checkpoints[i2] == rebuild_cps(c0, views).last());
                } else {
                    assert(crate::store::chain_ctx(sf, i2 + 1) == sf.checkpoints[i2 + 1]);
                    assert(sf.checkpoints[i2 + 1] == rebuild_cps(c0, views)[i2 + 1]);
                    assert(sf.checkpoints[i2] == rebuild_cps(c0, views)[i2]);
                }
            }
            assert(model_wf(sf));
        }
        Ok(())
    }
}

/// The content after loading the given rows in order, each under its
/// own stored identifier, or `None` when a row's identifier or
/// uniqueness constraint rejects it.
pub open spec fn spec_load(c: crate::store::Content, rows: Seq<crate::store::Record>) -> Option<
    crate::store::Content,
>
    decreases rows.len(),
{
    if rows.len() == 0 {
        Some(c)
    } else {
        match crate::migrate::script_op_apply(
            c,
            crate::migrate::ScriptOp::Insert(rows.first()),
        ) {
            None => None,
            Some(c2) => spec_load(c2, rows.drop_first()),
        }
    }
}

/// Re-creates previously persisted rows, each under its stored
/// identifier, in a store with no undo history.  A caller that keeps
/// the tables in an outside file loads them through this before any
/// command runs.
pub fn load_rows(db: &mut StingyDb, rows: Vec<crate::store::Record>) -> (r: Result<(), DbError>)
    requires
        old(db).wf(),
        old(db).model().steps.len() == 0,
    ensures
        final(db).wf(),
        final(db).model().steps.len() == 0,
        final(db).model().version == old(db).model().version,
        final(db).model().capture_on == old(db).model().capture_on,
        final(db).model().location == old(db).model().location,
        match spec_load(content_of(old(db).model()), rows@) {
            Some(c2) => r is Ok && content_of(final(db).model()) == c2,
            None => r == Err::<(), DbError>(DbError::NotUnique),
        },
{
    let ghost c0 = content_of(db.model());
    let ghost grows = rows@;
    let mut i: usize = 0;
    proof {
        lemma_content_ok_of_model(db.model());
        assert(grows.skip(0) =~= grows);
    }
    while i < rows.len()
        invariant
            grows == rows@,
            c0 == content_of(old(db).model()),
            i <= grows.len(),
            crate::rowmap::keys_sorted(db.accounts@, crate::store::acc_key()),
            crate::rowmap::keys_sorted(db.transactions@, crate::store::txn_key()),
            crate::rowmap::keys_sorted(db.tag_rules@, crate::store::rule_key()),
            crate::store::content_ok(content_of(db.model())),
            db.model().steps.len() == 0,
            db.checkpoints@.len() == 0,
            db.checkpoints@ == old(db).checkpoints@,
            db.model().steps == old(db).model().steps,
            db.model().version == old(db).model().version,
            db.model().capture_on == old(db).model().capture_on,
            db.model().location == old(db).model().location,
            spec_load(content_of(db.model()), grows.skip(i as int)) == spec_load(c0, grows),
        decreases grows.len() - i,
    {
        let ghost c_here = content_of(db.model());
        let op = crate::migrate::ScriptOp::Insert(rows[i].clone());
        let ghost gop = crate::migrate::ScriptOp::Insert(grows[i as int]);
        proof {
            assert(op == gop);
            assert(grows.skip(i as int).first() == grows[i as int]);
            assert(grows.skip(i as int).drop_first() =~= grows.skip(i + 1));
        }
        let ok = db.script_step(&op);
        if !ok {
            proof {
                crate::store::lemma_tables_ok_from_content(db.model());
                assert(model_wf(db.model()));
                assert(spec_load(content_of(db.model()), grows.skip(i as int))
                    == None::<crate::store::Content>);
            }
            return Err(DbError::NotUnique);
        }
        proof {
            crate::migrate::lemma_script_op_content_ok_pub(c_here, gop);
        }
        i += 1;
    }
    proof {
        assert(grows.skip(grows.len() as int) =~= Seq::<crate::store::Record>::empty());
        let sf = db.model();
        crate::store::lemma_tables_ok_from_content(sf);
        assert(model_wf(sf));
    }
    Ok(())
}

/// Removes all data from the store.
pub fn reset_stingy_database(db: StingyDb) -> (r: Result<(), DbError>)
    requires
        db.wf(),
    ensures
        r is Ok,
{
    let mut db = db;
    db.reset()
}

} // verus!
