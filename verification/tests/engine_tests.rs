//! Engine scenarios: round trips, the undo stack, retention,
//! migrations, and the store-open contract.

use stingy::date::from_ymd;
use stingy::db::{open_stingy_testing_database, Reset, StingyDatabase};
use stingy::facade::{ModelOperations, NewOrExisting};
use stingy::info::command_info;
use stingy::migrate::{perform_migrations, Migration, ScriptOp};
use stingy::model::{Account, Transaction};
use stingy::store::{Record, StingyDb, Table};
use stingy::tags::add_tag_rule;
use stingy::undo::{begin_undo_step, command_undo};
use stingy::DbError;

#[test]
fn info_test() {
    let db = open_stingy_testing_database();
    let info = command_info(&db).unwrap();
    assert_eq!(info.database_uri, "file://:memory:");
    assert_eq!(info.git_sha.len(), 40)
}

fn plain_account(name: &str) -> Account {
    Account {
        id: None,
        name: name.to_string(),
        alias: None,
        selected: false,
        bank: None,
    }
}

fn plain_transaction(account: &str, description: &str, debit: i64) -> Transaction {
    let mut t = Transaction::default();
    t.account_name = account.to_string();
    t.description = description.to_string();
    t.debit_amount = debit;
    t.posted_date = from_ymd(2021, 3, 2).unwrap();
    t
}

// Inserting the same logical account twice: a fresh row, then the
// pre-existing one, with no extra row and no extra captured operation.
#[test]
fn upsert_account_scenario() {
    let mut db = open_stingy_testing_database();
    begin_undo_step(&mut db, "import").unwrap();

    match ModelOperations::<Account>::insert(&mut db, plain_account("Acme")).unwrap() {
        NewOrExisting::New(a) => assert_eq!(a.id, Some(1)),
        NewOrExisting::Existing(_) => assert!(false),
    }
    assert_eq!(db.accounts.len(), 1);
    assert_eq!(db.steps.last().unwrap().ops.len(), 1);

    match ModelOperations::<Account>::insert(&mut db, plain_account("Acme")).unwrap() {
        NewOrExisting::New(_) => assert!(false),
        NewOrExisting::Existing(e) => {
            // the pre-existing row comes back in place of a duplicate
            assert_eq!(e.id, Some(1));
            assert_eq!(e.name, "Acme");
        }
    }
    // Row count unchanged, and still one captured operation, not two.
    assert_eq!(db.accounts.len(), 1);
    assert_eq!(db.steps.last().unwrap().ops.len(), 1);
    assert_eq!(db.accounts[0].id, Some(1));
}

fn snapshot(db: &StingyDb) -> (Vec<Account>, Vec<Transaction>) {
    let accounts: Vec<Account> = db.get_all().unwrap();
    let transactions: Vec<Transaction> = db.get_all().unwrap();
    (accounts, transactions)
}

// A full round trip: a step of mixed writes, undone, restores the
// store's exact content from before the step was opened.
#[test]
fn round_trip_scenario() {
    let mut db = open_stingy_testing_database();
    begin_undo_step(&mut db, "setup").unwrap();
    ModelOperations::<Account>::insert(&mut db, plain_account("A")).unwrap();
    ModelOperations::<Transaction>::insert(&mut db, plain_transaction("A", "one", 100)).unwrap();
    let before = snapshot(&db);

    begin_undo_step(&mut db, "mixed writes").unwrap();
    // an insert, an update, and a delete
    ModelOperations::<Transaction>::insert(&mut db, plain_transaction("A", "two", 200)).unwrap();
    let mut changed: Vec<Transaction> = db.get_all().unwrap();
    let mut first = changed.remove(0);
    first.description = "renamed".to_string();
    ModelOperations::<Transaction>::update(&mut db, &first).unwrap();
    ModelOperations::<Transaction>::delete(&mut db, first).unwrap();

    command_undo(&mut db).unwrap();
    let after = snapshot(&db);
    assert_eq!(before.0, after.0);
    assert_eq!(before.1, after.1);
}

// Stack discipline: a step of two writes, then a step of one write;
// undoing twice returns to the state before the first step, and a
// third undo reports nothing to undo.
#[test]
fn stack_discipline_scenario() {
    let mut db = open_stingy_testing_database();
    let before = snapshot(&db);

    begin_undo_step(&mut db, "first").unwrap();
    ModelOperations::<Account>::insert(&mut db, plain_account("one")).unwrap();
    ModelOperations::<Account>::insert(&mut db, plain_account("two")).unwrap();

    begin_undo_step(&mut db, "second").unwrap();
    ModelOperations::<Account>::insert(&mut db, plain_account("three")).unwrap();

    command_undo(&mut db).unwrap();
    assert_eq!(db.accounts.len(), 2);
    command_undo(&mut db).unwrap();
    let after = snapshot(&db);
    assert_eq!(before.0, after.0);
    assert_eq!(before.1, after.1);
    assert_eq!(command_undo(&mut db), Err(DbError::NothingToUndo));
}

// A step opened by a read-only command has no captured operations:
// it is not undoable, and once collected it no longer blocks undoing
// the step before it.
#[test]
fn empty_step_pruning_scenario() {
    let mut db = open_stingy_testing_database();
    begin_undo_step(&mut db, "writes").unwrap();
    ModelOperations::<Account>::insert(&mut db, plain_account("kept")).unwrap();

    begin_undo_step(&mut db, "read-only").unwrap();
    // the read-only step blocks the stack until collected
    assert_eq!(command_undo(&mut db), Err(DbError::NothingToUndo));

    db.garbage_collect_empty_steps();
    command_undo(&mut db).unwrap();
    assert_eq!(db.accounts.len(), 0);
}

// Adding a tag rule that matches six of ten pre-existing transactions,
// then undoing, leaves the rule table empty and the six untagged; the
// row counts equal the pre-step state exactly.
#[test]
fn tag_rule_undo_scenario() {
    let mut db = open_stingy_testing_database();
    db.insert_test_data();
    let before = snapshot(&db);
    assert_eq!(before.1.len(), 10);

    begin_undo_step(&mut db, "tag rule add").unwrap();
    let r = add_tag_rule(
        &mut db,
        "season",
        None,
        None,
        None,
        None,
        None,
        Some(from_ymd(2021, 2, 24).unwrap()),
        None,
    )
    .unwrap();
    assert_eq!(
        r,
        stingy::tags::AddTagRuleResult::Added {
            tag_rule_id: 1,
            tagged_transactions: 6
        }
    );

    command_undo(&mut db).unwrap();
    assert_eq!(db.tag_rules.len(), 0);
    assert_eq!(db.count_matching_transactions("1").unwrap(), 0);
    let after = snapshot(&db);
    assert_eq!(before.0, after.0);
    assert_eq!(before.1, after.1);
}

fn insert_op(name: &str, id: i64) -> ScriptOp {
    let mut a = plain_account(name);
    a.id = Some(id);
    ScriptOp::Insert(Record::Account(a))
}

#[test]
fn migrate_from_empty_database() {
    let mut db = open_stingy_testing_database();
    db.reset().unwrap();
    let migrations = vec![
        Migration { name: "0".to_string(), script: vec![] },
        Migration { name: "1".to_string(), script: vec![insert_op("first", 1)] },
        Migration { name: "2".to_string(), script: vec![insert_op("second", 2)] },
        Migration {
            name: "3".to_string(),
            script: vec![ScriptOp::Delete { table: Table::Accounts, key: 1 }],
        },
    ];
    assert_eq!(perform_migrations(&mut db, &migrations), Ok(true));
    assert_eq!(db.version, 3);
    let accounts: Vec<Account> = db.get_all().unwrap();
    assert_eq!(accounts.len(), 1);
    assert_eq!(accounts[0].name, "second");
}

#[test]
fn migrate_from_existing_schema() {
    let mut db = open_stingy_testing_database();
    db.reset().unwrap();
    let migrations = vec![
        Migration { name: "0".to_string(), script: vec![] },
        Migration { name: "1".to_string(), script: vec![insert_op("first", 1)] },
    ];
    assert_eq!(perform_migrations(&mut db, &migrations), Ok(true));
    let migrations = vec![
        Migration { name: "0".to_string(), script: vec![] },
        Migration { name: "1".to_string(), script: vec![insert_op("first", 1)] },
        Migration { name: "2".to_string(), script: vec![insert_op("second", 2)] },
    ];
    // The first migration is not re-attempted: re-inserting "first"
    // would fail.
    assert_eq!(perform_migrations(&mut db, &migrations), Ok(true));
    assert_eq!(db.version, 2);
    assert_eq!(db.accounts.len(), 2);
}

#[test]
fn rollback_failed_migration() {
    let mut db = open_stingy_testing_database();
    db.reset().unwrap();
    let migrations = vec![
        Migration { name: "0".to_string(), script: vec![] },
        Migration { name: "1".to_string(), script: vec![insert_op("one", 1)] },
        Migration {
            name: "2".to_string(),
            // the second write collides with the first and fails the
            // whole script
            script: vec![insert_op("two", 2), insert_op("one", 3)],
        },
        Migration { name: "3".to_string(), script: vec![insert_op("three", 4)] },
    ];
    let r = perform_migrations(&mut db, &migrations);
    assert_eq!(r, Err(DbError::MigrationFailure { name: "2".to_string() }));
    // Migration 1 was applied, 2 was rolled back whole, 3 was not
    // attempted.
    assert_eq!(db.version, 1);
    assert_eq!(db.accounts.len(), 1);
    assert_eq!(db.accounts[0].name, "one");
}

// A two-script migration where the second script fails: the persisted
// version stays at the first script, its effects are present, the
// second's are absent, and re-opening does not re-attempt the first.
#[test]
fn migration_failure_scenario() {
    let mut db = open_stingy_testing_database();
    db.reset().unwrap();
    let migrations = vec![
        Migration { name: "0".to_string(), script: vec![] },
        Migration { name: "seed".to_string(), script: vec![insert_op("seeded", 1)] },
        Migration {
            name: "broken".to_string(),
            script: vec![ScriptOp::Delete { table: Table::Accounts, key: 9 }],
        },
    ];
    assert_eq!(
        perform_migrations(&mut db, &migrations),
        Err(DbError::MigrationFailure { name: "broken".to_string() })
    );
    assert_eq!(db.version, 1);
    assert_eq!(db.accounts.len(), 1);
    assert_eq!(db.accounts[0].name, "seeded");

    // a renewed open attempt resumes after the committed script
    assert_eq!(
        perform_migrations(&mut db, &migrations),
        Err(DbError::MigrationFailure { name: "broken".to_string() })
    );
    assert_eq!(db.version, 1);
    assert_eq!(db.accounts.len(), 1);
}

// The identifier space can run out; the insert reports it rather than
// wrapping around.
#[test]
fn insert_reports_full_store() {
    let mut db = open_stingy_testing_database();
    let mut a = plain_account("edge");
    a.id = Some(i64::MAX);
    db.accounts.push(a);
    let r = ModelOperations::<Account>::insert(&mut db, plain_account("next"));
    assert_eq!(r.unwrap_err(), DbError::Full);
}
