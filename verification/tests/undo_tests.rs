//! The undo stack: opening steps, undoing writes, retention.

use stingy::db::{open_stingy_testing_database, StingyDatabase};
use stingy::facade::{ModelOperations, NewOrExisting};
use stingy::model;
use stingy::undo::{begin_undo_step, command_undo, MAX_UNDO_STEPS};

#[test]
fn undo_empty() {
    let mut db = open_stingy_testing_database();
    assert!(command_undo(&mut db).is_err());
}

#[test]
fn undo_empty_step() {
    let mut db = open_stingy_testing_database();
    begin_undo_step(&mut db, "empty").unwrap();
    assert!(command_undo(&mut db).is_err());
}

#[test]
fn undo_tag_rule() {
    let mut db = open_stingy_testing_database();
    begin_undo_step(&mut db, "undo_tag_rule").unwrap();

    stingy::tags::add_tag_rule(
        &mut db,
        "test1",
        None,
        None,
        None,
        None,
        None,
        None,
        Some(stingy::date::from_ymd(2021, 2, 24).unwrap()),
    )
    .unwrap();
    command_undo(&mut db).unwrap();
    let tag_rules = stingy::tags::list_tag_rules(&db, None).unwrap();
    assert_eq!(tag_rules.rows.len(), 0);
}

#[test]
fn undo_tag_rule_deletion() {
    let mut db = open_stingy_testing_database();

    stingy::tags::add_tag_rule(
        &mut db,
        "test1",
        None,
        None,
        None,
        None,
        None,
        None,
        Some(stingy::date::from_ymd(2021, 2, 24).unwrap()),
    )
    .unwrap();
    begin_undo_step(&mut db, "undo_tag_rule_deletion").unwrap();
    stingy::tags::delete_tag_rule(&mut db, "1").unwrap();

    command_undo(&mut db).unwrap();
    let tag_rules = stingy::tags::list_tag_rules(&db, None).unwrap();
    assert_eq!(tag_rules.rows.len(), 1);
}

#[test]
fn undo_tagged_transaction_import() {
    let mut db = open_stingy_testing_database();
    db.insert_test_data();
    stingy::tags::add_tag_rule(
        &mut db,
        "test1",
        None,
        Some("coffee"),
        None,
        None,
        None,
        None,
        None,
    )
    .unwrap();

    begin_undo_step(&mut db, "import").unwrap();

    let mut transaction = model::Transaction::default();
    transaction.account_name = "000000 - 00000000".to_string();
    transaction.description = "coffee".to_string();
    transaction.posted_date = stingy::date::from_ymd(2021, 3, 2).unwrap();
    match ModelOperations::<model::Transaction>::insert(&mut db, transaction).unwrap() {
        NewOrExisting::New(_) => {}
        NewOrExisting::Existing(_) => {
            assert!(false);
        }
    }

    let before = db.count_transactions().unwrap();
    command_undo(&mut db).unwrap();
    assert_eq!(before, db.count_transactions().unwrap() + 1);
}

#[test]
fn undo_account_select() {
    let mut db = open_stingy_testing_database();
    db.insert_test_data();

    begin_undo_step(&mut db, "select").unwrap();
    assert_eq!(
        stingy::accounts::get_account_or_selected(&db, None).unwrap().len(),
        0
    );
    stingy::accounts::select(&mut db, "000000 - 00000000").unwrap();
    assert_eq!(
        stingy::accounts::get_account_or_selected(&db, None).unwrap().len(),
        1
    );
    command_undo(&mut db).unwrap();
    assert_eq!(
        stingy::accounts::get_account_or_selected(&db, None).unwrap().len(),
        0
    );
}

#[test]
fn undo_account_unselect() {
    let mut db = open_stingy_testing_database();
    db.insert_test_data();

    assert_eq!(
        stingy::accounts::get_account_or_selected(&db, None).unwrap().len(),
        0
    );
    stingy::accounts::select(&mut db, "000000 - 00000000").unwrap();
    assert_eq!(
        stingy::accounts::get_account_or_selected(&db, None).unwrap().len(),
        1
    );

    begin_undo_step(&mut db, "unselect").unwrap();
    stingy::accounts::unselect(&mut db, Some("000000 - 00000000")).unwrap();
    assert_eq!(
        stingy::accounts::get_account_or_selected(&db, None).unwrap().len(),
        0
    );

    command_undo(&mut db).unwrap();
    assert_eq!(
        stingy::accounts::get_account_or_selected(&db, None).unwrap().len(),
        1
    );
}

#[test]
fn undo_account_unselect_multiple() {
    let mut db = open_stingy_testing_database();
    db.insert_test_data();

    assert_eq!(
        stingy::accounts::get_account_or_selected(&db, None).unwrap().len(),
        0
    );
    stingy::accounts::select(&mut db, "000000 - 00000000").unwrap();
    stingy::accounts::select(&mut db, "111111 - 11111111").unwrap();
    assert_eq!(
        stingy::accounts::get_account_or_selected(&db, None).unwrap().len(),
        2
    );

    begin_undo_step(&mut db, "unselect").unwrap();
    stingy::accounts::unselect(&mut db, None).unwrap();
    assert_eq!(
        stingy::accounts::get_account_or_selected(&db, None).unwrap().len(),
        0
    );

    command_undo(&mut db).unwrap();
    assert_eq!(
        stingy::accounts::get_account_or_selected(&db, None).unwrap().len(),
        2
    );
}

#[test]
fn undo_test_data() {
    let mut db = open_stingy_testing_database();
    begin_undo_step(&mut db, "insert_test_data").unwrap();
    db.insert_test_data();

    assert_ne!(db.count_transactions().unwrap(), 0);
    command_undo(&mut db).unwrap();
    assert_eq!(db.count_transactions().unwrap(), 0);
}

#[test]
fn truncate_history() {
    let mut db = open_stingy_testing_database();

    for step in 0..MAX_UNDO_STEPS + 1 {
        begin_undo_step(&mut db, &format!("undo_truncate_step_{step}")).unwrap();
        let account = model::Account {
            id: None,
            name: format!("account_{step}"),
            alias: None,
            selected: false,
            bank: None,
        };
        ModelOperations::<model::Account>::insert(&mut db, account).unwrap();
    }

    for _ in 0..MAX_UNDO_STEPS {
        command_undo(&mut db).unwrap();
    }
    assert!(command_undo(&mut db).is_err());
}
