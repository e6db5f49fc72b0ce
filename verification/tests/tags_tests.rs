//! Tag rules: adding, listing, deleting, and how they tag transactions.

use stingy::date::from_ymd;
use stingy::db::{open_stingy_testing_database, StingyDatabase};
use stingy::model;
use stingy::tags::{add_tag_rule, delete_tag_rule, list_tag_rules, AddTagRuleResult};

#[test]
fn add_tag_rule_description_contains() {
    let mut db = open_stingy_testing_database();
    db.insert_test_data();
    // Matching is case-insensitive: "groceries" and "GROCERIES 2".
    let result = add_tag_rule(
        &mut db,
        "test",
        None,
        Some("GRoCeRiEs"),
        None,
        None,
        None,
        None,
        None,
    )
    .unwrap();
    let expected = AddTagRuleResult::Added {
        tag_rule_id: 1,
        tagged_transactions: 2,
    };
    assert_eq!(result, expected);
}

#[test]
fn add_tag_rule_transaction_type() {
    let mut db = open_stingy_testing_database();
    db.insert_test_data();
    let result = add_tag_rule(
        &mut db,
        "test",
        None,
        None,
        Some(model::TransactionType::Debit),
        None,
        None,
        None,
        None,
    )
    .unwrap();
    // A debit rule also matches the one direct debit: 7 debits + 1.
    let expected = AddTagRuleResult::Added {
        tag_rule_id: 1,
        tagged_transactions: 8,
    };
    assert_eq!(result, expected);
}

#[test]
fn add_tag_rule_amount_min() {
    let mut db = open_stingy_testing_database();
    db.insert_test_data();
    // Amounts are cents: 40.00 and up matches the top five transactions.
    let result = add_tag_rule(&mut db, "test", None, None, None, Some(4000), None, None, None)
        .unwrap();
    let expected = AddTagRuleResult::Added {
        tag_rule_id: 1,
        tagged_transactions: 5,
    };
    assert_eq!(result, expected);
}

#[test]
fn add_tag_rule_amount_max() {
    let mut db = open_stingy_testing_database();
    db.insert_test_data();
    // Below 20.00 sit the three smallest debits.
    let result = add_tag_rule(&mut db, "test", None, None, None, None, Some(2000), None, None)
        .unwrap();
    let expected = AddTagRuleResult::Added {
        tag_rule_id: 1,
        tagged_transactions: 3,
    };
    assert_eq!(result, expected);
}

#[test]
fn add_tag_rule_from() {
    let mut db = open_stingy_testing_database();
    db.insert_test_data();
    let result = add_tag_rule(
        &mut db,
        "test",
        None,
        None,
        None,
        None,
        None,
        Some(from_ymd(2021, 2, 26).unwrap()),
        None,
    )
    .unwrap();
    // Four transactions are posted on or after the 26th.
    let expected = AddTagRuleResult::Added {
        tag_rule_id: 1,
        tagged_transactions: 4,
    };
    assert_eq!(result, expected);
}

#[test]
fn add_tag_rule_to() {
    let mut db = open_stingy_testing_database();
    db.insert_test_data();
    let result = add_tag_rule(
        &mut db,
        "test",
        None,
        None,
        None,
        None,
        None,
        None,
        Some(from_ymd(2021, 2, 26).unwrap()),
    )
    .unwrap();
    // Seven transactions are posted on or before the 26th.
    let expected = AddTagRuleResult::Added {
        tag_rule_id: 1,
        tagged_transactions: 7,
    };
    assert_eq!(result, expected);
}

#[test]
fn add_tag_rule_transaction_id() {
    let mut db = open_stingy_testing_database();
    db.insert_test_data();
    let result =
        add_tag_rule(&mut db, "test", Some(8), None, None, None, None, None, None).unwrap();
    let expected = AddTagRuleResult::Added {
        tag_rule_id: 1,
        tagged_transactions: 1,
    };
    assert_eq!(result, expected);
    assert_eq!(db.count_matching_transactions("1").unwrap(), 1);
}

#[test]
fn add_tag_match_after() {
    let mut db = open_stingy_testing_database();
    let result = add_tag_rule(
        &mut db,
        "test",
        None,
        None,
        None,
        None,
        None,
        None,
        Some(from_ymd(2021, 2, 25).unwrap()),
    )
    .unwrap();
    let expected = AddTagRuleResult::Added {
        tag_rule_id: 1,
        tagged_transactions: 0, // The store is empty.
    };
    assert_eq!(result, expected);

    db.insert_test_data();
    // Now the transactions up to the 25th match.
    assert_eq!(db.count_matching_transactions("1").unwrap(), 6);
}

#[test]
fn add_tag_rule_duplicate() {
    let mut db = open_stingy_testing_database();
    add_tag_rule(
        &mut db,
        "test",
        None,
        None,
        Some(model::TransactionType::Debit),
        None,
        None,
        None,
        Some(from_ymd(2021, 2, 26).unwrap()),
    )
    .unwrap();
    let result = add_tag_rule(
        &mut db,
        "test",
        None,
        None,
        Some(model::TransactionType::Debit),
        None,
        None,
        None,
        Some(from_ymd(2021, 2, 26).unwrap()),
    );
    assert_eq!(result.unwrap(), AddTagRuleResult::NotUnique { tag_rule_id: 1 });
}

#[test]
fn list_tag_rules_none() {
    let db = open_stingy_testing_database();
    let result = list_tag_rules(&db, None).unwrap();
    assert_eq!(result.columns, vec!["ID", "Tag", "Description"]);
    assert_eq!(result.rows.len(), 0);
}

#[test]
fn list_tag_rules_multiple() {
    let mut db = open_stingy_testing_database();
    add_tag_rule(
        &mut db,
        "test1",
        None,
        None,
        None,
        None,
        None,
        None,
        Some(from_ymd(2021, 2, 24).unwrap()),
    )
    .unwrap();
    add_tag_rule(
        &mut db,
        "test2",
        None,
        None,
        None,
        None,
        None,
        None,
        Some(from_ymd(2021, 2, 25).unwrap()),
    )
    .unwrap();
    add_tag_rule(
        &mut db,
        "test3",
        None,
        None,
        None,
        None,
        None,
        None,
        Some(from_ymd(2021, 2, 26).unwrap()),
    )
    .unwrap();
    let result = list_tag_rules(&db, None).unwrap();
    assert_eq!(result.rows.len(), 3);
    assert_eq!(result.rows[0][0], "1");
    assert_eq!(result.rows[0][1], "test1");
    assert_eq!(result.rows[1][0], "2");
    assert_eq!(result.rows[1][1], "test2");
    assert_eq!(result.rows[2][0], "3");
    assert_eq!(result.rows[2][1], "test3");
}

#[test]
fn list_tag_rules_filter() {
    let mut db = open_stingy_testing_database();
    add_tag_rule(
        &mut db,
        "test1",
        None,
        None,
        None,
        None,
        None,
        None,
        Some(from_ymd(2021, 2, 24).unwrap()),
    )
    .unwrap();
    add_tag_rule(
        &mut db,
        "test2",
        None,
        None,
        None,
        None,
        None,
        None,
        Some(from_ymd(2021, 2, 25).unwrap()),
    )
    .unwrap();
    // Prefix match.
    let result = list_tag_rules(&db, Some("test")).unwrap();
    assert_eq!(result.rows.len(), 2);
    assert_eq!(result.rows[0][1], "test1");
    assert_eq!(result.rows[1][1], "test2");

    let result = list_tag_rules(&db, Some("test1")).unwrap();
    assert_eq!(result.rows.len(), 1);
    assert_eq!(result.rows[0][1], "test1");

    let result = list_tag_rules(&db, Some("test2")).unwrap();
    assert_eq!(result.rows.len(), 1);
    assert_eq!(result.rows[0][1], "test2");

    let result = list_tag_rules(&db, Some("test3")).unwrap();
    assert_eq!(result.rows.len(), 0);
}

#[test]
fn delete_one_tag_rule() {
    let mut db = open_stingy_testing_database();
    add_tag_rule(
        &mut db,
        "test",
        None,
        Some("transfer"),
        None,
        None,
        None,
        None,
        None,
    )
    .unwrap();
    assert_eq!(delete_tag_rule(&mut db, &1.to_string()).unwrap(), 1);

    // Deleting by an identifier no rule holds removes nothing.
    assert_eq!(delete_tag_rule(&mut db, &1.to_string()).unwrap(), 0);
    assert_eq!(delete_tag_rule(&mut db, &11.to_string()).unwrap(), 0);

    // A non-numeric identifier is an error.
    assert!(delete_tag_rule(&mut db, "eleven").is_err());
}

#[test]
fn untag_after_deleting() {
    let mut db = open_stingy_testing_database();
    db.insert_test_data();
    add_tag_rule(&mut db, "test", None, Some("PUB"), None, None, None, None, None).unwrap();
    add_tag_rule(
        &mut db,
        "test",
        None,
        Some("TRANSFER"),
        None,
        None,
        None,
        None,
        None,
    )
    .unwrap();

    // One match for each rule.
    assert_eq!(db.count_matching_transactions("1").unwrap(), 1);
    assert_eq!(db.count_matching_transactions("2").unwrap(), 1);

    assert_eq!(delete_tag_rule(&mut db, "1").unwrap(), 1);

    // Only rule 2 still matches.
    assert_eq!(db.count_matching_transactions("1").unwrap(), 0);
    assert_eq!(db.count_matching_transactions("2").unwrap(), 1);
}

#[test]
fn transaction_id_tag_overrides_other_tags() {
    let mut db = open_stingy_testing_database();
    db.insert_test_data();

    // Tag transaction 4 using a rule (that doesn't refer to its ID).
    assert_eq!(
        add_tag_rule(&mut db, "pub", None, Some("PUB"), None, None, None, None, None).unwrap(),
        AddTagRuleResult::Added {
            tag_rule_id: 1,
            tagged_transactions: 1
        }
    );
    assert_eq!(db.count_matching_transactions("1").unwrap(), 1);

    // Now tag it by ID, the previous rule disappears.
    assert_eq!(
        add_tag_rule(&mut db, "not pub", Some(4), None, None, None, None, None, None).unwrap(),
        AddTagRuleResult::Added {
            tag_rule_id: 2,
            tagged_transactions: 1
        }
    );
    assert_eq!(db.count_matching_transactions("1").unwrap(), 0);
    assert_eq!(db.count_matching_transactions("2").unwrap(), 1);

    // Add another tag using the transaction ID, both should stay.
    assert_eq!(
        add_tag_rule(&mut db, "not cafe", Some(4), None, None, None, None, None, None).unwrap(),
        AddTagRuleResult::Added {
            tag_rule_id: 3,
            tagged_transactions: 1
        }
    );
    assert_eq!(db.count_matching_transactions("1").unwrap(), 0);
    assert_eq!(db.count_matching_transactions("2").unwrap(), 1);
    assert_eq!(db.count_matching_transactions("3").unwrap(), 1);

    // Remove one of the rules we added, the other should stay.
    delete_tag_rule(&mut db, "2").unwrap();
    assert_eq!(db.count_matching_transactions("1").unwrap(), 0);
    assert_eq!(db.count_matching_transactions("2").unwrap(), 0);
    assert_eq!(db.count_matching_transactions("3").unwrap(), 1);

    // Remove the other rule, now the original rule should return.
    delete_tag_rule(&mut db, "3").unwrap();
    assert_eq!(db.count_matching_transactions("1").unwrap(), 1);
    assert_eq!(db.count_matching_transactions("2").unwrap(), 0);
    assert_eq!(db.count_matching_transactions("3").unwrap(), 0);
}

#[test]
fn transaction_id_tag_not_unique() {
    let mut db = open_stingy_testing_database();
    db.insert_test_data();

    assert_eq!(
        add_tag_rule(
            &mut db,
            "not pub",
            None,
            Some("PUB"),
            None,
            None,
            None,
            None,
            None
        )
        .unwrap(),
        AddTagRuleResult::Added {
            tag_rule_id: 1,
            tagged_transactions: 1
        }
    );
    assert_eq!(db.count_matching_transactions("1").unwrap(), 1);

    // A rule with transaction ID overrides a rule without, even if they set
    // the same tag.
    assert_eq!(
        add_tag_rule(&mut db, "not pub", Some(4), None, None, None, None, None, None).unwrap(),
        AddTagRuleResult::Added {
            tag_rule_id: 2,
            tagged_transactions: 1
        }
    );
    assert_eq!(db.count_matching_transactions("1").unwrap(), 0);
    assert_eq!(db.count_matching_transactions("2").unwrap(), 1);
}
