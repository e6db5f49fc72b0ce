//! Empty-step pruning at step opening, and undo history surviving a
//! store open.

use stingy::db::{open_stingy_database_from, open_stingy_testing_database};
use stingy::facade::ModelOperations;
use stingy::model::Account;
use stingy::store::{CapturedOperation, OpPayload, Record, StingyDb, Table, UndoStep};
use stingy::undo::{begin_undo_step, command_undo, UndoOperations};
use stingy::DbError;

fn plain_account(name: &str) -> Account {
    Account {
        id: None,
        name: name.to_string(),
        alias: None,
        selected: false,
        bank: None,
    }
}

// A step opened by a read-only command does not persist past the next
// step's opening: the stack skips straight back to the last real step.
#[test]
fn empty_step_gone_after_next_begin() {
    let mut db = open_stingy_testing_database();
    begin_undo_step(&mut db, "writes").unwrap();
    ModelOperations::<Account>::insert(&mut db, plain_account("kept")).unwrap();

    begin_undo_step(&mut db, "read-only").unwrap();
    assert_eq!(db.steps.len(), 2);

    begin_undo_step(&mut db, "more writes").unwrap();
    // the read-only step is gone; only the two capturing steps remain
    assert_eq!(db.steps.len(), 2);
    assert_eq!(db.steps[0].name, "writes");
    assert_eq!(db.steps[1].name, "more writes");

    ModelOperations::<Account>::insert(&mut db, plain_account("also kept")).unwrap();
    command_undo(&mut db).unwrap();
    command_undo(&mut db).unwrap();
    assert_eq!(db.accounts.len(), 0);
    assert_eq!(command_undo(&mut db), Err(DbError::NothingToUndo));
}

fn persisted_parts(db: &StingyDb) -> (Vec<Record>, Vec<UndoStep>) {
    let mut rows: Vec<Record> = Vec::new();
    for a in &db.accounts {
        rows.push(Record::Account(a.clone()));
    }
    for t in &db.transactions {
        rows.push(Record::Transaction(t.clone()));
    }
    for r in &db.tag_rules {
        rows.push(Record::TagRule(r.clone()));
    }
    let mut steps: Vec<UndoStep> = Vec::new();
    for s in &db.steps {
        steps.push(UndoStep { id: s.id, name: s.name.clone(), ops: s.ops.clone() });
    }
    (rows, steps)
}

// The flagship story: a command writes in one invocation, and the undo
// command succeeds in the next, after the history went through
// persistence and a fresh store open.
#[test]
fn undo_survives_reopen() {
    let mut db = open_stingy_testing_database();
    begin_undo_step(&mut db, "first command").unwrap();
    ModelOperations::<Account>::insert(&mut db, plain_account("persisted")).unwrap();
    assert_eq!(db.accounts.len(), 1);

    let (rows, steps) = persisted_parts(&db);
    let mut reopened =
        open_stingy_database_from(":memory:", db.version, rows, steps).unwrap();
    assert_eq!(reopened.accounts.len(), 1);
    assert_eq!(reopened.steps.len(), 1);

    assert_eq!(reopened.get_last_undo_step().unwrap(), "first command");
    command_undo(&mut reopened).unwrap();
    assert_eq!(reopened.accounts.len(), 0);
    assert_eq!(command_undo(&mut reopened), Err(DbError::NothingToUndo));
}

// Two steps survive a reopen and unwind in order.
#[test]
fn undo_stack_survives_reopen() {
    let mut db = open_stingy_testing_database();
    begin_undo_step(&mut db, "one").unwrap();
    ModelOperations::<Account>::insert(&mut db, plain_account("a")).unwrap();
    begin_undo_step(&mut db, "two").unwrap();
    ModelOperations::<Account>::insert(&mut db, plain_account("b")).unwrap();
    let mut changed = db.accounts[0].clone();
    changed.selected = true;
    ModelOperations::<Account>::update(&mut db, &changed).unwrap();

    let (rows, steps) = persisted_parts(&db);
    let mut reopened =
        open_stingy_database_from(":memory:", db.version, rows, steps).unwrap();
    command_undo(&mut reopened).unwrap();
    assert_eq!(reopened.accounts.len(), 1);
    assert_eq!(reopened.accounts[0].selected, false);
    command_undo(&mut reopened).unwrap();
    assert_eq!(reopened.accounts.len(), 0);
}

// A stale read-only step in the persisted history is garbage-collected
// by the open, per the store-open contract, and does not block the
// stack.
#[test]
fn reopen_collects_stale_empty_steps() {
    let mut db = open_stingy_testing_database();
    begin_undo_step(&mut db, "writes").unwrap();
    ModelOperations::<Account>::insert(&mut db, plain_account("a")).unwrap();
    begin_undo_step(&mut db, "stale read-only").unwrap();
    assert_eq!(db.steps.len(), 2);

    let (rows, steps) = persisted_parts(&db);
    let mut reopened =
        open_stingy_database_from(":memory:", db.version, rows, steps).unwrap();
    assert_eq!(reopened.steps.len(), 1);
    command_undo(&mut reopened).unwrap();
    assert_eq!(reopened.accounts.len(), 0);
}

// A persisted history that does not match the data is rejected whole.
#[test]
fn mismatched_history_is_rejected() {
    let mut db = open_stingy_testing_database();
    begin_undo_step(&mut db, "writes").unwrap();
    ModelOperations::<Account>::insert(&mut db, plain_account("a")).unwrap();
    let (rows, mut steps) = persisted_parts(&db);
    // corrupt the captured operation: replaying it would re-create a
    // second row under the same name
    steps[0].ops[0] = CapturedOperation {
        step_id: steps[0].id,
        payload: OpPayload::Insert {
            table: Table::Accounts,
            values: Record::Account(Account {
                id: Some(7),
                name: "a".to_string(),
                alias: None,
                selected: false,
                bank: None,
            }),
        },
    };
    match open_stingy_database_from(":memory:", db.version, rows, steps) {
        Err(e) => assert_eq!(e, DbError::InvalidHistory),
        Ok(_) => panic!("a mismatched history must be rejected"),
    }
}

// A history whose step records are malformed is rejected.
#[test]
fn misordered_history_is_rejected() {
    let mut db = open_stingy_testing_database();
    begin_undo_step(&mut db, "writes").unwrap();
    ModelOperations::<Account>::insert(&mut db, plain_account("a")).unwrap();
    let (rows, steps) = persisted_parts(&db);
    let mut doubled = Vec::new();
    for s in &steps {
        doubled.push(UndoStep { id: s.id, name: s.name.clone(), ops: s.ops.clone() });
    }
    doubled.push(UndoStep { id: steps[0].id, name: "same id again".to_string(), ops: Vec::new() });
    match open_stingy_database_from(":memory:", db.version, rows, doubled) {
        Err(e) => assert_eq!(e, DbError::InvalidHistory),
        Ok(_) => panic!("a malformed history must be rejected"),
    }
}

// When migrations run on an open, the persisted history is invalidated
// and wiped.
#[test]
fn migrating_open_wipes_history() {
    let mut db = open_stingy_testing_database();
    begin_undo_step(&mut db, "writes").unwrap();
    ModelOperations::<Account>::insert(&mut db, plain_account("a")).unwrap();
    let (rows, steps) = persisted_parts(&db);
    // a persisted version before the latest forces the migrations to run
    let reopened = open_stingy_database_from(":memory:", 0, rows, steps).unwrap();
    assert_eq!(reopened.version, 2);
    assert_eq!(reopened.steps.len(), 0);
    assert_eq!(reopened.accounts.len(), 1);
}

// Loading rows that violate a uniqueness constraint is rejected.
#[test]
fn conflicting_rows_are_rejected() {
    let rows = vec![
        Record::Account(Account {
            id: Some(1),
            name: "dup".to_string(),
            alias: None,
            selected: false,
            bank: None,
        }),
        Record::Account(Account {
            id: Some(2),
            name: "dup".to_string(),
            alias: None,
            selected: false,
            bank: None,
        }),
    ];
    match open_stingy_database_from(":memory:", 2, rows, Vec::new()) {
        Err(e) => assert_eq!(e, DbError::NotUnique),
        Ok(_) => panic!("conflicting rows must be rejected"),
    }
}
