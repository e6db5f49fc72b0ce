//! Facade and step-manager edges: missing rows, step naming, capture
//! anchoring, resets, and history invalidation by migrations.

use stingy::db::{open_stingy_testing_database, Reset, StingyDatabase};
use stingy::facade::{ModelOperations, NewOrExisting};
use stingy::migrate::{perform_migrations, Migration};
use stingy::model::Account;
use stingy::store::OpPayload;
use stingy::undo::{begin_undo_step, UndoOperations};

fn account(name: &str) -> Account {
    Account {
        id: None,
        name: name.to_string(),
        alias: None,
        selected: false,
        bank: None,
    }
}

#[test]
fn update_missing_row_is_noop() {
    let mut db = open_stingy_testing_database();
    let mut a = account("ghostly");
    a.id = Some(999);
    ModelOperations::<Account>::update(&mut db, &a).unwrap();
    assert_eq!(db.accounts.len(), 0);

    a.id = None;
    ModelOperations::<Account>::update(&mut db, &a).unwrap();
    assert_eq!(db.accounts.len(), 0);
}

#[test]
fn delete_missing_row_removes_nothing() {
    let mut db = open_stingy_testing_database();
    let mut a = account("ghostly");
    a.id = Some(999);
    assert_eq!(ModelOperations::<Account>::delete(&mut db, a).unwrap(), 0);
    let b = account("unkeyed");
    assert_eq!(ModelOperations::<Account>::delete(&mut db, b).unwrap(), 0);
}

#[test]
fn peek_last_step_name() {
    let mut db = open_stingy_testing_database();
    assert!(db.get_last_undo_step().is_err());
    begin_undo_step(&mut db, "first words").unwrap();
    assert_eq!(db.get_last_undo_step().unwrap(), "first words");
    begin_undo_step(&mut db, "second words").unwrap();
    assert_eq!(db.get_last_undo_step().unwrap(), "second words");
}

#[test]
fn capture_is_anchored_to_the_open_step() {
    let mut db = open_stingy_testing_database();
    begin_undo_step(&mut db, "anchored").unwrap();
    ModelOperations::<Account>::insert(&mut db, account("one")).unwrap();
    let step = db.steps.last().unwrap();
    assert_eq!(step.ops.len(), 1);
    assert_eq!(step.ops[0].step_id, step.id);
    match &step.ops[0].payload {
        OpPayload::Delete { key, .. } => assert_eq!(*key, 1),
        _ => panic!("an insert must capture the delete that reverses it"),
    }
}

#[test]
fn reset_clears_everything() {
    let mut db = open_stingy_testing_database();
    db.insert_test_data();
    begin_undo_step(&mut db, "writes").unwrap();
    ModelOperations::<Account>::insert(&mut db, account("extra")).unwrap();

    db.reset().unwrap();
    assert_eq!(db.accounts.len(), 0);
    assert_eq!(db.transactions.len(), 0);
    assert_eq!(db.tag_rules.len(), 0);
    assert_eq!(db.steps.len(), 0);
    assert_eq!(db.version, 0);
}

#[test]
fn migrations_invalidate_history() {
    let mut db = open_stingy_testing_database();
    begin_undo_step(&mut db, "old history").unwrap();
    ModelOperations::<Account>::insert(&mut db, account("kept")).unwrap();
    assert_eq!(db.steps.len(), 1);

    // a schema change beyond the current version wipes the undo stack
    let migrations = vec![
        Migration { name: "0".to_string(), script: vec![] },
        Migration { name: "1".to_string(), script: vec![] },
        Migration { name: "2".to_string(), script: vec![] },
        Migration { name: "3".to_string(), script: vec![] },
    ];
    assert_eq!(perform_migrations(&mut db, &migrations), Ok(true));
    assert_eq!(db.steps.len(), 0);
    assert_eq!(db.version, 3);
    // the data itself stays
    assert_eq!(db.accounts.len(), 1);
}

#[test]
fn reopen_without_new_migrations_is_a_noop() {
    let mut db = open_stingy_testing_database();
    db.insert_test_data();
    let migrations = vec![
        Migration { name: "0".to_string(), script: vec![] },
        Migration { name: "1".to_string(), script: vec![] },
        Migration { name: "2".to_string(), script: vec![] },
    ];
    // the testing store is already at this version
    assert_eq!(perform_migrations(&mut db, &migrations), Ok(false));
    assert_eq!(db.version, 2);
    assert_eq!(db.accounts.len(), 3);
}
