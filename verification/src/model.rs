//! The entity records: accounts, transactions and tag rules.
//!
//! Each record has one primary identifier field (`id`) and a uniqueness
//! constraint spanning the other fields, so re-importing identical data
//! is a no-op rather than a duplicate.  Monetary amounts are integer
//! cents; dates are plain year/month/day values.

use vstd::prelude::*;
use vstd::string::StringSliceAdditionalSpecFns;
use crate::date::Date;

verus! {

#[derive(Debug, Clone, Copy, PartialEq, Eq, Structural)]
pub enum TransactionType {
    Debit,
    Credit,
    DirectDebit,
}

impl Default for TransactionType {
    fn default() -> (r: Self)
        ensures
            r == TransactionType::Debit,
    {
        TransactionType::Debit
    }
}

/// A bank account rows are imported into.
#[derive(Debug, PartialEq)]
pub struct Account {
    pub id: Option<i64>,
    pub name: String,
    pub alias: Option<String>,
    pub selected: bool,
    pub bank: Option<String>,
}

/// One imported bank transaction.  Amounts are cents.
#[derive(Debug, PartialEq)]
pub struct Transaction {
    pub id: Option<i64>,
    pub account_name: String,
    pub posted_date: Date,
    pub description: String,
    pub debit_amount: i64,
    pub credit_amount: i64,
    pub balance: i64,
    pub transaction_type: TransactionType,
    pub currency: String,
}

/// A rule that applies a tag to every transaction matching its criteria.
/// Amount bounds are cents.
#[derive(Debug, PartialEq)]
pub struct TagRule {
    pub id: Option<i64>,
    pub tag: String,
    pub human_readable: String,
    pub transaction_id: Option<i64>,
    pub description_contains: Option<String>,
    pub transaction_type: Option<TransactionType>,
    pub amount_min: Option<i64>,
    pub amount_max: Option<i64>,
    pub from_date: Option<Date>,
    pub to_date: Option<Date>,
}

impl Clone for Account {
    fn clone(&self) -> (r: Self)
        ensures
            r == *self,
    {
        Account {
            id: self.id,
            name: self.name.clone(),
            alias: match &self.alias {
                Some(a) => Some(a.clone()),
                None => None,
            },
            selected: self.selected,
            bank: match &self.bank {
                Some(b) => Some(b.clone()),
                None => None,
            },
        }
    }
}

impl Clone for Transaction {
    fn clone(&self) -> (r: Self)
        ensures
            r == *self,
    {
        Transaction {
            id: self.id,
            account_name: self.account_name.clone(),
            posted_date: self.posted_date,
            description: self.description.clone(),
            debit_amount: self.debit_amount,
            credit_amount: self.credit_amount,
            balance: self.balance,
            transaction_type: self.transaction_type,
            currency: self.currency.clone(),
        }
    }
}

impl Clone for TagRule {
    fn clone(&self) -> (r: Self)
        ensures
            r == *self,
    {
        TagRule {
            id: self.id,
            tag: self.tag.clone(),
            human_readable: self.human_readable.clone(),
            transaction_id: self.transaction_id,
            description_contains: match &self.description_contains {
                Some(d) => Some(d.clone()),
                None => None,
            },
            transaction_type: self.transaction_type,
            amount_min: self.amount_min,
            amount_max: self.amount_max,
            from_date: self.from_date,
            to_date: self.to_date,
        }
    }
}

impl Default for Transaction {
    fn default() -> (r: Self)
        ensures
            r.id is None,
            r.account_name@.len() == 0,
            r.posted_date == (Date { year: 1, month: 1, day: 1 }),
            r.description@.len() == 0,
            r.debit_amount == 0,
            r.credit_amount == 0,
            r.balance == 0,
            r.transaction_type == TransactionType::Debit,
            r.currency@.len() == 0,
    {
        Transaction {
            id: None,
            account_name: String::new(),
            posted_date: Date { year: 1, month: 1, day: 1 },
            description: String::new(),
            debit_amount: 0,
            credit_amount: 0,
            balance: 0,
            transaction_type: TransactionType::Debit,
            currency: String::new(),
        }
    }
}

impl Default for TagRule {
    fn default() -> (r: Self)
        ensures
            r.id is None,
            r.tag@.len() == 0,
            r.human_readable@.len() == 0,
            r.transaction_id is None,
            r.description_contains is None,
            r.transaction_type is None,
            r.amount_min is None,
            r.amount_max is None,
            r.from_date is None,
            r.to_date is None,
    {
        TagRule {
            id: None,
            tag: String::new(),
            human_readable: String::new(),
            transaction_id: None,
            description_contains: None,
            transaction_type: None,
            amount_min: None,
            amount_max: None,
            from_date: None,
            to_date: None,
        }
    }
}

/// Whether two pieces of text are equal, compared byte by byte.
pub fn str_eq(a: &str, b: &str) -> (r: bool)
    ensures
        r == (a@ == b@),
{
    let ab = a.as_bytes();
    let bb = b.as_bytes();
    if ab.len() != bb.len() {
        proof {
            if a@ == b@ {
                assert(a.spec_bytes() == b.spec_bytes());
            }
        }
        return false;
    }
    let mut i: usize = 0;
    while i < ab.len()
        invariant
            ab@ == a.spec_bytes(),
            bb@ == b.spec_bytes(),
            ab@.len() == bb@.len(),
            i <= ab@.len(),
            forall|j: int| 0 <= j < i ==> ab@[j] == bb@[j],
        decreases ab@.len() - i,
    {
        if ab[i] != bb[i] {
            proof {
                if a@ == b@ {
                    assert(a.spec_bytes() == b.spec_bytes());
                }
            }
            return false;
        }
        i += 1;
    }
    proof {
        assert(ab@ =~= bb@);
        vstd::utf8::encode_utf8_decode_utf8(a@);
        vstd::utf8::encode_utf8_decode_utf8(b@);
    }
    true
}

/// Two optional strings hold the same text.
pub open spec fn opt_text_eq(a: Option<String>, b: Option<String>) -> bool {
    match (a, b) {
        (Some(x), Some(y)) => x@ == y@,
        (None, None) => true,
        _ => false,
    }
}

/// Executable test of `opt_text_eq`.
pub fn opt_string_eq(a: &Option<String>, b: &Option<String>) -> (r: bool)
    ensures
        r == opt_text_eq(*a, *b),
{
    match (a, b) {
        (Some(x), Some(y)) => x.eq(y),
        (None, None) => true,
        _ => false,
    }
}

/// The uniqueness constraint of the accounts table relates two rows when
/// they cannot coexist: equal names, or an alias that collides with the
/// other row's alias or name.
pub open spec fn account_conflict(a: Account, b: Account) -> bool {
    ||| a.name@ == b.name@
    ||| (a.alias matches Some(x) && (opt_text_eq(a.alias, b.alias) || x@ == b.name@))
    ||| (b.alias matches Some(y) && y@ == a.name@)
}

/// Two transactions are the same logical record: every field but the
/// identifier is equal.
pub open spec fn transaction_same(a: Transaction, b: Transaction) -> bool {
    &&& a.account_name@ == b.account_name@
    &&& a.posted_date == b.posted_date
    &&& a.description@ == b.description@
    &&& a.debit_amount == b.debit_amount
    &&& a.credit_amount == b.credit_amount
    &&& a.balance == b.balance
    &&& a.transaction_type == b.transaction_type
    &&& a.currency@ == b.currency@
}

/// Two tag rules are the same logical record: every field but the
/// identifier is equal.
pub open spec fn tag_rule_same(a: TagRule, b: TagRule) -> bool {
    &&& a.tag@ == b.tag@
    &&& a.human_readable@ == b.human_readable@
    &&& a.transaction_id == b.transaction_id
    &&& opt_text_eq(a.description_contains, b.description_contains)
    &&& a.transaction_type == b.transaction_type
    &&& a.amount_min == b.amount_min
    &&& a.amount_max == b.amount_max
    &&& a.from_date == b.from_date
    &&& a.to_date == b.to_date
}

/// Executable test of `account_conflict`.
pub fn account_conflicts(a: &Account, b: &Account) -> (r: bool)
    ensures
        r == account_conflict(*a, *b),
{
    if a.name == b.name {
        return true;
    }
    if let Some(x) = &a.alias {
        if opt_string_eq(&a.alias, &b.alias) || *x == b.name {
            return true;
        }
    }
    if let Some(y) = &b.alias {
        if *y == a.name {
            return true;
        }
    }
    false
}

/// Executable test of `transaction_same`.
pub fn transaction_is_same(a: &Transaction, b: &Transaction) -> (r: bool)
    ensures
        r == transaction_same(*a, *b),
{
    a.account_name == b.account_name && a.posted_date.year == b.posted_date.year
        && a.posted_date.month == b.posted_date.month && a.posted_date.day == b.posted_date.day
        && a.description == b.description && a.debit_amount == b.debit_amount
        && a.credit_amount == b.credit_amount && a.balance == b.balance && tt_eq(
        &a.transaction_type,
        &b.transaction_type,
    ) && a.currency == b.currency
}

/// Executable test of `tag_rule_same`.
pub fn tag_rule_is_same(a: &TagRule, b: &TagRule) -> (r: bool)
    ensures
        r == tag_rule_same(*a, *b),
{
    a.tag == b.tag && a.human_readable == b.human_readable && opt_i64_eq(
        &a.transaction_id,
        &b.transaction_id,
    ) && opt_string_eq(&a.description_contains, &b.description_contains) && opt_tt_eq(
        &a.transaction_type,
        &b.transaction_type,
    ) && opt_i64_eq(&a.amount_min, &b.amount_min) && opt_i64_eq(&a.amount_max, &b.amount_max)
        && opt_date_eq(&a.from_date, &b.from_date) && opt_date_eq(&a.to_date, &b.to_date)
}

/// Executable equality of transaction types.
pub fn tt_eq(a: &TransactionType, b: &TransactionType) -> (r: bool)
    ensures
        r == (a == b),
{
    match (a, b) {
        (TransactionType::Debit, TransactionType::Debit) => true,
        (TransactionType::Credit, TransactionType::Credit) => true,
        (TransactionType::DirectDebit, TransactionType::DirectDebit) => true,
        _ => false,
    }
}

/// Executable equality of optional transaction types.
pub fn opt_tt_eq(a: &Option<TransactionType>, b: &Option<TransactionType>) -> (r: bool)
    ensures
        r == (a == b),
{
    match (a, b) {
        (Some(x), Some(y)) => tt_eq(x, y),
        (None, None) => true,
        _ => false,
    }
}

/// Executable equality of optional integers.
pub fn opt_i64_eq(a: &Option<i64>, b: &Option<i64>) -> (r: bool)
    ensures
        r == (a == b),
{
    match (a, b) {
        (Some(x), Some(y)) => x == y,
        (None, None) => true,
        _ => false,
    }
}

/// Executable equality of optional dates.
pub fn opt_date_eq(a: &Option<Date>, b: &Option<Date>) -> (r: bool)
    ensures
        r == (a == b),
{
    match (a, b) {
        (Some(x), Some(y)) => x == y,
        (None, None) => true,
        _ => false,
    }
}

} // verus!
