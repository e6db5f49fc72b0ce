//! Rendering and parsing of numbers, amounts, dates, and rule
//! descriptions.

use stingy::date::{format_iso, format_slashed, from_ymd, last_day_of_month};
use stingy::db::open_stingy_testing_database;
use stingy::numfmt::{cents_to_string, i64_to_string, parse_u64, u64_to_string};
use stingy::tags::{add_tag_rule, contains_ci, list_tag_rules};

#[test]
fn decimal_rendering() {
    assert_eq!(u64_to_string(0), "0");
    assert_eq!(u64_to_string(7), "7");
    assert_eq!(u64_to_string(120034), "120034");
    assert_eq!(i64_to_string(-12), "-12");
    assert_eq!(i64_to_string(i64::MIN), "-9223372036854775808");
}

#[test]
fn amount_rendering() {
    assert_eq!(cents_to_string(500), "5");
    assert_eq!(cents_to_string(5050), "50.5");
    assert_eq!(cents_to_string(512), "5.12");
    assert_eq!(cents_to_string(2000), "20");
    assert_eq!(cents_to_string(7), "0.07");
}

#[test]
fn decimal_parsing() {
    assert_eq!(parse_u64("0"), Some(0));
    assert_eq!(parse_u64("007"), Some(7));
    assert_eq!(parse_u64("18446744073709551615"), Some(u64::MAX));
    assert_eq!(parse_u64("18446744073709551616"), None);
    assert_eq!(parse_u64(""), None);
    assert_eq!(parse_u64("eleven"), None);
    assert_eq!(parse_u64("1x"), None);
    assert_eq!(parse_u64("-1"), None);
}

#[test]
fn date_rendering() {
    let d = from_ymd(2021, 2, 5).unwrap();
    assert_eq!(format_iso(&d), "2021-02-05");
    assert_eq!(format_slashed(&d), "2021/02/05");
}

#[test]
fn calendar_rules() {
    assert_eq!(last_day_of_month(2024, 2).unwrap().day, 29);
    assert_eq!(last_day_of_month(2021, 2).unwrap().day, 28);
    assert_eq!(last_day_of_month(2000, 2).unwrap().day, 29);
    assert_eq!(last_day_of_month(1900, 2).unwrap().day, 28);
    assert_eq!(last_day_of_month(2021, 12).unwrap().day, 31);
    assert_eq!(last_day_of_month(2021, 4).unwrap().day, 30);
    assert!(from_ymd(2021, 2, 30).is_none());
    assert!(from_ymd(2021, 13, 1).is_none());
    assert!(from_ymd(2021, 2, 29).is_none());
    assert!(from_ymd(2024, 2, 29).is_some());
}

#[test]
fn case_insensitive_containment() {
    assert!(contains_ci("Weekly GROCERIES run", "groceries"));
    assert!(contains_ci("coffee", "COFFEE"));
    assert!(contains_ci("anything", ""));
    assert!(!contains_ci("short", "much longer"));
    assert!(!contains_ci("pub lunch", "dinner"));
}

#[test]
fn rule_description_text() {
    let mut db = open_stingy_testing_database();
    add_tag_rule(
        &mut db,
        "test1",
        None,
        None,
        None,
        None,
        None,
        None,
        Some(from_ymd(2021, 2, 24).unwrap()),
    )
    .unwrap();
    let rules = list_tag_rules(&db, None).unwrap();
    assert_eq!(
        rules.rows[0][2],
        "Apply tag 'test1' to any transactions where the date is before 2021/02/24."
    );
}

#[test]
fn rule_description_with_amounts() {
    let mut db = open_stingy_testing_database();
    add_tag_rule(
        &mut db,
        "caps",
        None,
        Some("rent"),
        Some(stingy::model::TransactionType::Debit),
        Some(2000),
        Some(5050),
        None,
        None,
    )
    .unwrap();
    let rules = list_tag_rules(&db, None).unwrap();
    assert_eq!(
        rules.rows[0][2],
        "Apply tag 'caps' to Debit  transactions where the description contains 'rent', \
         and the amount is larger or equal to '20', and the amount is smaller than '50.5'."
    );
}
