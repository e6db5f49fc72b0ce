//! Account listing, selection and aliasing.

use stingy::accounts::{alias, delete_alias, get_account_or_selected, list, select, unselect};
use stingy::db::{open_stingy_testing_database, StingyDatabase};
use stingy::facade::ModelOperations;
use stingy::model;

#[test]
fn alias_simple() {
    let mut db = open_stingy_testing_database();
    db.insert_test_data();

    let account = alias(&mut db, "000000 - 00000000", "0").unwrap();
    assert_eq!(account.name, "000000 - 00000000");
    assert_eq!(account.alias, Some("0".to_string()));

    let accounts: Vec<model::Account> = db.get_all().unwrap();
    let in_list = accounts
        .iter()
        .filter(|a| a.alias == Some("0".to_string()))
        .map(|a| a.clone())
        .next()
        .unwrap();
    assert_eq!(in_list.name, "000000 - 00000000");
    assert_eq!(in_list.alias, Some("0".to_string()));
}

#[test]
fn alias_collision_with_alias() {
    let mut db = open_stingy_testing_database();
    db.insert_test_data();
    alias(&mut db, "000000 - 00000000", "0").unwrap();
    assert!(alias(&mut db, "111111 - 11111111", "0").is_err());
}

#[test]
fn alias_collision_with_account() {
    let mut db = open_stingy_testing_database();
    db.insert_test_data();
    assert!(alias(&mut db, "111111 - 11111111", "000000 - 00000000").is_err());
}

#[test]
fn alias_bad_account() {
    let mut db = open_stingy_testing_database();
    db.insert_test_data();
    assert!(alias(&mut db, "bad", "0").is_err());
}

#[test]
fn delete_alias_simple() {
    let mut db = open_stingy_testing_database();
    db.insert_test_data();

    alias(&mut db, "000000 - 00000000", "0").unwrap();
    delete_alias(&mut db, "0").unwrap();
    let list: Vec<model::Account> = db.get_all().unwrap();
    let in_list = list
        .iter()
        .filter(|a| a.alias == Some("0".to_string()))
        .map(|a| a.clone())
        .next();
    assert!(in_list.is_none());
}

#[test]
fn resolve_alias() {
    let mut db = open_stingy_testing_database();
    db.insert_test_data();

    alias(&mut db, "000000 - 00000000", "0").unwrap();
    let accounts = get_account_or_selected(&db, Some("0")).unwrap();
    let account = accounts.get(0).unwrap();
    assert_eq!(account.name, "000000 - 00000000");
    assert_eq!(account.alias, Some("0".to_string()));
}

#[test]
fn resolve_account_name() {
    let mut db = open_stingy_testing_database();
    db.insert_test_data();

    let accounts = get_account_or_selected(&db, Some("000000 - 00000000")).unwrap();
    let account = accounts.get(0).unwrap();
    assert_eq!(account.name, "000000 - 00000000");
}

#[test]
fn resolve_bad() {
    let mut db = open_stingy_testing_database();
    db.insert_test_data();
    assert!(get_account_or_selected(&db, Some("bad")).is_err());
}

#[test]
fn select_account() {
    let mut db = open_stingy_testing_database();
    db.insert_test_data();
    select(&mut db, "111111 - 11111111").unwrap();

    let accounts = get_account_or_selected(&db, None).unwrap();
    let account = accounts.get(0).unwrap();
    assert_eq!(account.name, "111111 - 11111111");
}

#[test]
fn select_multiple_accounts() {
    let mut db = open_stingy_testing_database();
    db.insert_test_data();
    select(&mut db, "111111 - 11111111").unwrap();
    select(&mut db, "000000 - 00000000").unwrap();

    let accounts = get_account_or_selected(&db, None).unwrap();
    let mut account_names: Vec<&str> = accounts.iter().map(|ac| ac.name.as_str()).collect();
    account_names.sort();
    assert_eq!(account_names, ["000000 - 00000000", "111111 - 11111111"]);
}

#[test]
fn select_alias() {
    let mut db = open_stingy_testing_database();
    db.insert_test_data();
    alias(&mut db, "111111 - 11111111", "1").unwrap();
    select(&mut db, "1").unwrap();

    let accounts = get_account_or_selected(&db, None).unwrap();
    let account = accounts.get(0).unwrap();
    assert_eq!(account.name, "111111 - 11111111");
}

#[test]
fn unselect_one() {
    let mut db = open_stingy_testing_database();
    db.insert_test_data();
    select(&mut db, "111111 - 11111111").unwrap();
    unselect(&mut db, Some("111111 - 11111111")).unwrap();
    assert_eq!(get_account_or_selected(&db, None).unwrap().len(), 0);
}

#[test]
fn unselect_all() {
    let mut db = open_stingy_testing_database();
    db.insert_test_data();
    select(&mut db, "000000 - 00000000").unwrap();
    select(&mut db, "111111 - 11111111").unwrap();
    unselect(&mut db, None).unwrap();
    assert_eq!(get_account_or_selected(&db, None).unwrap().len(), 0);
}

#[test]
fn unselect_invalid() {
    let mut db = open_stingy_testing_database();
    db.insert_test_data();
    select(&mut db, "000000 - 00000000").unwrap();
    select(&mut db, "111111 - 11111111").unwrap();
    assert!(unselect(&mut db, Some("22222 - 22222222")).is_err());
    assert_eq!(get_account_or_selected(&db, None).unwrap().len(), 2);
}

#[test]
fn list_with_alias_and_selection() {
    let mut db = open_stingy_testing_database();
    db.insert_test_data();
    alias(&mut db, "000000 - 00000000", "0").unwrap();
    select(&mut db, "111111 - 11111111").unwrap();

    let mut result = list(&db).unwrap();
    assert_eq!(result.columns, vec!["Name", "Alias", "Selected"]);

    result
        .rows
        .sort_by(|row1, row2| row1[0].partial_cmp(&row2[0]).unwrap());
    assert_eq!(result.rows[0][0], "000000 - 00000000");
    assert_eq!(result.rows[0][1], "0");
    assert_eq!(result.rows[0][2], "");

    assert_eq!(result.rows[1][0], "111111 - 11111111");
    assert_eq!(result.rows[1][1], "");
    assert_eq!(result.rows[1][2], "\u{2705}");
}
