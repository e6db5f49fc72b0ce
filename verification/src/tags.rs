//! Tag rules: matching criteria against transactions, and the commands
//! that list, add and delete rules.
//!
//! A rule tags every transaction matching its criteria.  A rule pinned
//! to one transaction identifier overrides every unpinned rule for that
//! transaction.

use vstd::prelude::*;
use vstd::string::StringSliceAdditionalSpecFns;
use crate::DbError;
use crate::date::Date;
use crate::model::{TagRule, Transaction, TransactionType};

verus! {

/// ASCII lowercasing of one byte, as the storage layer's folding does.
pub open spec fn lower_byte(b: u8) -> u8 {
    if 65 <= b <= 90 {
        (b + 32) as u8
    } else {
        b
    }
}

/// ASCII lowercasing of a byte string.
pub open spec fn lower_bytes(s: Seq<u8>) -> Seq<u8> {
    s.map_values(|b: u8| lower_byte(b))
}

/// `n` occurs in `h` starting at `at`.
pub open spec fn occurs_at(h: Seq<u8>, n: Seq<u8>, at: int) -> bool {
    0 <= at && at + n.len() <= h.len() && h.subrange(at, at + n.len()) == n
}

/// `n` occurs somewhere in `h`.
pub open spec fn contains_bytes(h: Seq<u8>, n: Seq<u8>) -> bool {
    exists|at: int| occurs_at(h, n, at)
}

/// Case-insensitive (ASCII) containment, as the storage layer's
/// `INSTR(LOWER(..), LOWER(..))` computes it.
pub open spec fn instr_match(h: Seq<u8>, n: Seq<u8>) -> bool {
    contains_bytes(lower_bytes(h), lower_bytes(n))
}

/// Lowercases one byte.
fn lower_b(b: u8) -> (r: u8)
    ensures
        r == lower_byte(b),
{
    if b >= 65 && b <= 90 {
        b + 32
    } else {
        b
    }
}

/// Whether the needle occurs, case-insensitively, in the haystack.
pub fn contains_ci(h: &str, n: &str) -> (r: bool)
    ensures
        r == instr_match(h.spec_bytes(), n.spec_bytes()),
{
    let hb = h.as_bytes();
    let nb = n.as_bytes();
    let ghost lh = lower_bytes(hb@);
    let ghost ln = lower_bytes(nb@);
    if nb.len() > hb.len() {
        proof {
            assert(!contains_bytes(lh, ln));
        }
        return false;
    }
    if nb.len() == 0 {
        proof {
            assert(lh.subrange(0, 0) =~= ln);
            assert(occurs_at(lh, ln, 0));
        }
        return true;
    }
    let hn: usize = hb.len();
    let nn: usize = nb.len();
    let mut at: usize = 0;
    while at <= hn - nn
        invariant
            hb@ == h.spec_bytes(),
            nb@ == n.spec_bytes(),
            hn == hb@.len(),
            nn == nb@.len(),
            1 <= nn,
            nb@.len() <= hb@.len(),
            lh == lower_bytes(hb@),
            ln == lower_bytes(nb@),
            at <= hb@.len() - nb@.len() + 1,
            forall|a: int| 0 <= a < at ==> !occurs_at(lh, ln, a),
        decreases hb@.len() - nb@.len() - at + 1,
    {
        let mut j: usize = 0;
        let mut here = true;
        while here && j < nn
            invariant
                nn == nb@.len(),
                hn == hb@.len(),
                nb@.len() <= hb@.len(),
                at + nn <= hn,
                lh == lower_bytes(hb@),
                ln == lower_bytes(nb@),
                lh.len() == hb@.len(),
                ln.len() == nb@.len(),
                j <= nb@.len(),
                here ==> forall|k: int| 0 <= k < j ==> lh[at + k] == ln[k],
                !here ==> !occurs_at(lh, ln, at as int),
            decreases nb@.len() - j + (if here {
                1int
            } else {
                0int
            }),
        {
            if lower_b(hb[at + j]) != lower_b(nb[j]) {
                here = false;
                proof {
                    assert(lh[at + j] != ln[j as int]);
                    assert(!occurs_at(lh, ln, at as int)) by {
                        if occurs_at(lh, ln, at as int) {
                            assert(lh.subrange(at as int, at + ln.len())[j as int] == ln[
                                j as int
                            ]);
                        }
                    }
                }
            } else {
                j += 1;
            }
        }
        if here {
            proof {
                assert(lh.subrange(at as int, at + ln.len()) =~= ln);
                assert(occurs_at(lh, ln, at as int));
            }
            return true;
        }
        at += 1;
    }
    proof {
        assert forall|a: int| occurs_at(lh, ln, a) implies false by {
            assert(a + ln.len() <= lh.len());
            assert(a < at);
        }
    }
    false
}

/// The amount a filter inspects: the credit amount of a credit, the
/// debit amount otherwise.
pub open spec fn amount_of(t: Transaction) -> int {
    if t.transaction_type == TransactionType::Credit {
        t.credit_amount as int
    } else {
        t.debit_amount as int
    }
}

/// Whether a rule's transaction type criterion accepts a transaction's
/// type: a debit criterion also accepts direct debits.
pub open spec fn tt_matches(criterion: TransactionType, tt: TransactionType) -> bool {
    match criterion {
        TransactionType::Debit => tt == TransactionType::Debit || tt
            == TransactionType::DirectDebit,
        TransactionType::Credit => tt == TransactionType::Credit,
        TransactionType::DirectDebit => tt == TransactionType::DirectDebit,
    }
}

/// Every criterion of the rule accepts the transaction.
pub open spec fn rule_applies(r: TagRule, t: Transaction) -> bool {
    &&& (r.transaction_id matches Some(tid) ==> t.id == Some(tid))
    &&& (r.description_contains matches Some(d) ==> instr_match(
        vstd::utf8::encode_utf8(t.description@),
        vstd::utf8::encode_utf8(d@),
    ))
    &&& (r.transaction_type matches Some(c) ==> tt_matches(c, t.transaction_type))
    &&& (r.amount_min matches Some(lo) ==> amount_of(t) >= lo)
    &&& (r.amount_max matches Some(hi) ==> amount_of(t) < hi)
    &&& (r.from_date matches Some(f) ==> f.spec_le(t.posted_date))
    &&& (r.to_date matches Some(u) ==> t.posted_date.spec_le(u))
}

/// A rule tags a transaction when it applies and is not overridden: a
/// rule pinned to a transaction identifier overrides every unpinned
/// rule for that transaction.
pub open spec fn rule_tags(rules: Seq<TagRule>, r: TagRule, t: Transaction) -> bool {
    &&& rule_applies(r, t)
    &&& (r.transaction_id is Some || !(exists|i: int|
        0 <= i < rules.len() && (#[trigger] rules[i]).transaction_id is Some && rule_applies(
            rules[i],
            t,
        )))
}

/// The rule with identifier `rid` tags the transaction.
pub open spec fn tagged_by(rules: Seq<TagRule>, t: Transaction, rid: i64) -> bool {
    exists|i: int|
        0 <= i < rules.len() && (#[trigger] rules[i]).id == Some(rid) && rule_tags(
            rules,
            rules[i],
            t,
        )
}

/// How many of the transactions the rule with identifier `rid` tags.
pub open spec fn count_tagged(rules: Seq<TagRule>, txns: Seq<Transaction>, rid: i64) -> int
    decreases txns.len(),
{
    if txns.len() == 0 {
        0
    } else {
        count_tagged(rules, txns.drop_last(), rid) + if tagged_by(rules, txns.last(), rid) {
            1int
        } else {
            0int
        }
    }
}

/// Whether every criterion of the rule accepts the transaction.
pub fn rule_applies_to(r: &TagRule, t: &Transaction) -> (res: bool)
    ensures
        res == rule_applies(*r, *t),
{
    if let Some(tid) = r.transaction_id {
        match t.id {
            Some(id) => {
                if id != tid {
                    return false;
                }
            },
            None => {
                return false;
            },
        }
    }
    if let Some(d) = &r.description_contains {
        if !contains_ci(t.description.as_str(), d.as_str()) {
            return false;
        }
    }
    if let Some(c) = r.transaction_type {
        let tt_ok = match c {
            TransactionType::Debit => match t.transaction_type {
                TransactionType::Debit => true,
                TransactionType::DirectDebit => true,
                TransactionType::Credit => false,
            },
            TransactionType::Credit => match t.transaction_type {
                TransactionType::Credit => true,
                _ => false,
            },
            TransactionType::DirectDebit => match t.transaction_type {
                TransactionType::DirectDebit => true,
                _ => false,
            },
        };
        if !tt_ok {
            return false;
        }
    }
    let amount: i64 = match t.transaction_type {
        TransactionType::Credit => t.credit_amount,
        _ => t.debit_amount,
    };
    if let Some(lo) = r.amount_min {
        if amount < lo {
            return false;
        }
    }
    if let Some(hi) = r.amount_max {
        if amount >= hi {
            return false;
        }
    }
    if let Some(f) = &r.from_date {
        if !f.le(&t.posted_date) {
            return false;
        }
    }
    if let Some(u) = &r.to_date {
        if !t.posted_date.le(u) {
            return false;
        }
    }
    true
}

/// Whether any rule pinned to a transaction identifier applies to the
/// transaction.
fn any_pinned_rule_applies(rules: &Vec<TagRule>, t: &Transaction) -> (res: bool)
    ensures
        res == exists|i: int|
            0 <= i < rules@.len() && (#[trigger] rules@[i]).transaction_id is Some && rule_applies(
                rules@[i],
                *t,
            ),
{
    let mut i: usize = 0;
    let mut found = false;
    while i < rules.len()
        invariant
            i <= rules@.len(),
            found == exists|j: int|
                0 <= j < i && (#[trigger] rules@[j]).transaction_id is Some && rule_applies(
                    rules@[j],
                    *t,
                ),
        decreases rules@.len() - i,
    {
        if rules[i].transaction_id.is_some() && rule_applies_to(&rules[i], t) {
            found = true;
        }
        i += 1;
    }
    found
}

/// Whether the rule at `ridx` tags the transaction.
fn rule_tags_at(rules: &Vec<TagRule>, ridx: usize, t: &Transaction) -> (res: bool)
    requires
        ridx < rules@.len(),
    ensures
        res == rule_tags(rules@, rules@[ridx as int], *t),
{
    if !rule_applies_to(&rules[ridx], t) {
        return false;
    }
    if rules[ridx].transaction_id.is_some() {
        return true;
    }
    !any_pinned_rule_applies(rules, t)
}

/// Counts the transactions tagged by the rule with identifier `rid`.
pub fn count_tagged_by(rules: &Vec<TagRule>, txns: &Vec<Transaction>, rid: i64) -> (res: usize)
    requires
        forall|i: int, j: int|
            0 <= i < j < rules@.len() ==> crate::store::rule_key()(#[trigger] rules@[i])
                < crate::store::rule_key()(#[trigger] rules@[j]),
        forall|i: int| 0 <= i < rules@.len() ==> (#[trigger] rules@[i]).id is Some,
    ensures
        res as int == count_tagged(rules@, txns@, rid),
{
    let ridx = match crate::facade::rule_find(rules, rid) {
        Some(i) => i,
        None => {
            proof {
                assert forall|k: int| 0 <= k < txns@.len() implies !tagged_by(
                    rules@,
                    #[trigger] txns@[k],
                    rid,
                ) by {
                    assert forall|i: int|
                        0 <= i < rules@.len() implies (#[trigger] rules@[i]).id != Some(rid) by {
                        assert(crate::store::rule_key()(rules@[i]) != rid as int);
                    }
                }
                count_tagged_none(rules@, txns@, rid);
            }
            return 0;
        },
    };
    let mut k: usize = 0;
    let mut count: usize = 0;
    while k < txns.len()
        invariant
            ridx < rules@.len(),
            crate::store::rule_key()(rules@[ridx as int]) == rid as int,
            rules@[ridx as int].id is Some,
            forall|i: int, j: int|
                0 <= i < j < rules@.len() ==> crate::store::rule_key()(#[trigger] rules@[i])
                    < crate::store::rule_key()(#[trigger] rules@[j]),
            forall|i: int| 0 <= i < rules@.len() ==> (#[trigger] rules@[i]).id is Some,
            k <= txns@.len(),
            count <= k,
            count as int == count_tagged(rules@, txns@.subrange(0, k as int), rid),
        decreases txns@.len() - k,
    {
        let hit = rule_tags_at(rules, ridx, &txns[k]);
        proof {
            let pre = txns@.subrange(0, k + 1);
            assert(pre.drop_last() =~= txns@.subrange(0, k as int));
            assert(pre.last() == txns@[k as int]);
            if hit {
                assert(rules@[ridx as int].id == Some(rid));
                assert(tagged_by(rules@, txns@[k as int], rid));
            } else {
                assert forall|i: int|
                    0 <= i < rules@.len() && (#[trigger] rules@[i]).id == Some(rid) implies
                    !rule_tags(rules@, rules@[i], txns@[k as int]) by {
                    if i != ridx {
                        if i < ridx {
                            assert(crate::store::rule_key()(rules@[i]) < crate::store::rule_key()(
                                rules@[ridx as int],
                            ));
                        } else {
                            assert(crate::store::rule_key()(rules@[ridx as int])
                                < crate::store::rule_key()(rules@[i]));
                        }
                    }
                }
                assert(!tagged_by(rules@, txns@[k as int], rid));
            }
        }
        if hit {
            count += 1;
        }
        k += 1;
    }
    proof {
        assert(txns@.subrange(0, txns@.len() as int) =~= txns@);
    }
    count
}

/// The rows `list_tag_rules` renders for the operator.
#[derive(Debug)]
pub struct ListTagRulesResult {
    pub columns: Vec<String>,
    pub rows: Vec<Vec<String>>,
}

/// The outcome of adding a tag rule: a fresh rule and how many
/// transactions it tags, or the identifier of the identical rule that
/// already existed.
#[derive(Debug, PartialEq, Eq, Structural)]
pub enum AddTagRuleResult {
    Added { tag_rule_id: i64, tagged_transactions: usize },
    NotUnique { tag_rule_id: i64 },
}

/// `p` is a prefix of `h`, byte for byte.
pub open spec fn is_prefix(h: Seq<u8>, p: Seq<u8>) -> bool {
    p.len() <= h.len() && h.subrange(0, p.len() as int) == p
}

/// Whether `p` begins `h`.
pub fn starts_with_text(h: &str, p: &str) -> (r: bool)
    ensures
        r == is_prefix(h.spec_bytes(), p.spec_bytes()),
{
    let hb = h.as_bytes();
    let pb = p.as_bytes();
    if pb.len() > hb.len() {
        return false;
    }
    let mut i: usize = 0;
    while i < pb.len()
        invariant
            hb@ == h.spec_bytes(),
            pb@ == p.spec_bytes(),
            pb@.len() <= hb@.len(),
            i <= pb@.len(),
            forall|j: int| 0 <= j < i ==> hb@[j] == pb@[j],
        decreases pb@.len() - i,
    {
        if hb[i] != pb[i] {
            proof {
                assert(hb@.subrange(0, pb@.len() as int)[i as int] != pb@[i as int]);
            }
            return false;
        }
        i += 1;
    }
    proof {
        assert(hb@.subrange(0, pb@.len() as int) =~= pb@);
    }
    true
}

/// The rules `list_tag_rules` shows: those whose tag begins with the
/// given prefix, in identifier order.
pub open spec fn listed_rules(rules: Seq<TagRule>, prefix: Option<Seq<u8>>) -> Seq<TagRule>
    decreases rules.len(),
{
    if rules.len() == 0 {
        Seq::empty()
    } else {
        listed_rules(rules.drop_last(), prefix) + (match prefix {
            Some(p) => {
                if is_prefix(vstd::utf8::encode_utf8(rules.last().tag@), p) {
                    seq![rules.last()]
                } else {
                    Seq::empty()
                }
            },
            None => seq![rules.last()],
        })
    }
}

/// The listed cells of one rule: identifier, tag, and description.
pub open spec fn rule_cells(r: TagRule) -> Seq<Seq<char>> {
    seq![crate::numfmt::int_str(crate::store::id_key(r.id)), r.tag@, r.human_readable@]
}

/// Lists the tag rules, optionally only those whose tag begins with the
/// given prefix.
pub fn list_tag_rules(db: &crate::store::StingyDb, tag: Option<&str>) -> (r: Result<
    ListTagRulesResult,
    DbError,
>)
    requires
        db.wf(),
    ensures
        r is Ok,
        r->Ok_0.columns@.len() == 3,
        r->Ok_0.columns@[0]@ == "ID"@,
        r->Ok_0.columns@[1]@ == "Tag"@,
        r->Ok_0.columns@[2]@ == "Description"@,
        ({
            let shown = listed_rules(
                db.model().tag_rules,
                if tag is Some {
                    Some(tag.unwrap().spec_bytes())
                } else {
                    None
                },
            );
            &&& r->Ok_0.rows@.len() == shown.len()
            &&& forall|i: int|
                0 <= i < shown.len() ==> (#[trigger] r->Ok_0.rows@[i]).deep_view() == rule_cells(
                    shown[i],
                )
        }),
{
    let ghost pre: Option<Seq<u8>> = if tag is Some {
        Some(tag.unwrap().spec_bytes())
    } else {
        None
    };
    let mut columns: Vec<String> = Vec::new();
    columns.push(String::from_str("ID"));
    columns.push(String::from_str("Tag"));
    columns.push(String::from_str("Description"));
    let mut rows: Vec<Vec<String>> = Vec::new();
    let rules = &db.tag_rules;
    let mut i: usize = 0;
    while i < rules.len()
        invariant
            db.wf(),
            rules@ == db.tag_rules@,
            pre == if tag is Some {
                Some(tag.unwrap().spec_bytes())
            } else {
                None::<Seq<u8>>
            },
            i <= rules@.len(),
            rows@.len() == listed_rules(rules@.subrange(0, i as int), pre).len(),
            forall|j: int|
                0 <= j < rows@.len() ==> (#[trigger] rows@[j]).deep_view() == rule_cells(
                    listed_rules(rules@.subrange(0, i as int), pre)[j],
                ),
        decreases rules@.len() - i,
    {
        let keep: bool = match tag {
            Some(t) => starts_with_text(rules[i].tag.as_str(), t),
            None => true,
        };
        proof {
            let prefix = rules@.subrange(0, i + 1);
            assert(prefix.drop_last() =~= rules@.subrange(0, i as int));
            assert(prefix.last() == rules@[i as int]);
        }
        if keep {
            let rule = &rules[i];
            let mut row: Vec<String> = Vec::new();
            let key = crate::engine::rule_row_key(rule);
            row.push(crate::numfmt::i64_to_string(key));
            row.push(rule.tag.clone());
            row.push(rule.human_readable.clone());
            proof {
                assert(row.deep_view() =~= rule_cells(rules@[i as int]));
                let shown = listed_rules(rules@.subrange(0, i + 1), pre);
                assert(shown =~= listed_rules(rules@.subrange(0, i as int), pre) + seq![
                    rules@[i as int],
                ]);
            }
            rows.push(row);
        } else {
            proof {
                let shown = listed_rules(rules@.subrange(0, i + 1), pre);
                assert(shown =~= listed_rules(rules@.subrange(0, i as int), pre));
            }
        }
        i += 1;
    }
    proof {
        assert(rules@.subrange(0, rules@.len() as int) =~= rules@);
    }
    Ok(ListTagRulesResult { columns, rows })
}

/// The store after deleting the rule with the given identifier, with
/// how many rows went: the newest step captures the full image of a
/// removed rule.
pub open spec fn spec_delete_rule_by_id(s: crate::store::StoreModel, rid: i64) -> (
    crate::store::StoreModel,
    usize,
) {
    let rows = s.tag_rules;
    if !(exists|i: int|
        0 <= i < rows.len() && crate::store::rule_key()(#[trigger] rows[i]) == rid as int) {
        (s, 0)
    } else {
        let i0 = choose|i: int|
            0 <= i < rows.len() && crate::store::rule_key()(#[trigger] rows[i]) == rid as int;
        (
            crate::store::StoreModel {
                tag_rules: rows.remove(i0),
                steps: crate::store::steps_after_capture(
                    s.steps,
                    crate::store::OpPayload::Insert {
                        table: crate::store::Table::TagRules,
                        values: crate::store::Record::TagRule(rows[i0]),
                    },
                    s.capture_on,
                ),
                ..s
            },
            1,
        )
    }
}

/// Deletes a tag rule by its identifier text, removing its tag from all
/// transactions it tagged.
pub fn delete_tag_rule(db: &mut crate::store::StingyDb, id: &str) -> (r: Result<usize, DbError>)
    requires
        old(db).wf(),
    ensures
        final(db).wf(),
        match crate::numfmt::spec_parse_u64(id@) {
            Some(v) => {
                if v <= i64::MAX {
                    r == Ok::<usize, DbError>(
                        spec_delete_rule_by_id(old(db).model(), v as i64).1,
                    ) && final(db).model() == spec_delete_rule_by_id(
                        old(db).model(),
                        v as i64,
                    ).0
                } else {
                    r == Err::<usize, DbError>(DbError::InvalidId) && final(db).model() == old(
                        db,
                    ).model()
                }
            },
            None => r == Err::<usize, DbError>(DbError::InvalidId) && final(db).model() == old(
                db,
            ).model(),
        },
{
    let rid: i64 = match crate::numfmt::parse_u64(id) {
        Some(v) => {
            if v > i64::MAX as u64 {
                return Err(DbError::InvalidId);
            }
            v as i64
        },
        None => {
            return Err(DbError::InvalidId);
        },
    };
    let mut rule = TagRule::default();
    rule.id = Some(rid);
    let ghost s0 = db.model();
    let ghost grule = rule;
    let r = crate::facade::ModelOperations::<TagRule>::delete(db, rule);
    proof {
        let (s2, r2) = crate::facade::spec_delete_tag_rule(s0, grule);
        let (starget, n) = spec_delete_rule_by_id(s0, rid);
        assert(crate::store::id_key(grule.id) == rid as int);
        if exists|i: int|
            0 <= i < s0.tag_rules.len() && crate::store::rule_key()(#[trigger] s0.tag_rules[i])
                == rid as int {
            assert(s2 == starget);
            assert(r2 == Ok::<usize, DbError>(1));
        } else {
            assert(s2 == starget);
            assert(r2 == Ok::<usize, DbError>(0));
        }
    }
    match r {
        Ok(n) => Ok(n),
        Err(e) => Err(e),
    }
}

/// A signed amount of cents rendered as whole units.
pub open spec fn signed_amount_str(c: int) -> Seq<char> {
    if c < 0 {
        seq!['-'] + crate::numfmt::amount_str((-c) as nat)
    } else {
        crate::numfmt::amount_str(c as nat)
    }
}

/// Renders a signed amount of cents.
pub fn signed_cents_to_string(c: i64) -> (s: String)
    ensures
        s@ == signed_amount_str(c as int),
{
    if c >= 0 {
        crate::numfmt::cents_to_string(c as u64)
    } else {
        let mag: u64 = if c == i64::MIN {
            9223372036854775808u64
        } else {
            (-c) as u64
        };
        proof {
            reveal_strlit("-");
        }
        let mut s = String::from_str("-");
        let rest = crate::numfmt::cents_to_string(mag);
        s.append(rest.as_str());
        proof {
            assert(s@ =~= signed_amount_str(c as int));
        }
        s
    }
}

/// Criterion phrases joined by `, and `.
pub open spec fn join_and(parts: Seq<Seq<char>>) -> Seq<char>
    decreases parts.len(),
{
    if parts.len() == 0 {
        Seq::empty()
    } else if parts.len() == 1 {
        parts[0]
    } else {
        join_and(parts.drop_last()) + ", and "@ + parts.last()
    }
}

/// The criterion phrases of a rule, in the order they are shown.
pub open spec fn spec_rule_phrases(
    tid: Option<i64>,
    dc: Option<Seq<char>>,
    amin: Option<i64>,
    amax: Option<i64>,
    from: Option<Date>,
    to: Option<Date>,
) -> Seq<Seq<char>> {
    let p1: Seq<Seq<char>> = match tid {
        Some(t) => seq![
            "the transaction id is '"@ + crate::numfmt::int_str(t as int) + "'"@,
        ],
        None => Seq::empty(),
    };
    let p2: Seq<Seq<char>> = match dc {
        Some(d) => seq!["the description contains '"@ + d + "'"@],
        None => Seq::empty(),
    };
    let p3: Seq<Seq<char>> = match amin {
        Some(lo) => {
            if lo == i64::MIN {
                Seq::empty()
            } else {
                seq![
                    "the amount is larger or equal to '"@ + signed_amount_str(lo as int)
                        + "'"@,
                ]
            }
        },
        None => Seq::empty(),
    };
    let p4: Seq<Seq<char>> = match amax {
        Some(hi) => {
            if hi == i64::MAX {
                Seq::empty()
            } else {
                seq![
                    "the amount is smaller than '"@ + signed_amount_str(hi as int) + "'"@,
                ]
            }
        },
        None => Seq::empty(),
    };
    let p5: Seq<Seq<char>> = match (from, to) {
        (Some(f), None) => {
            if f == (Date { year: crate::date::MIN_YEAR, month: 1, day: 1 }) {
                Seq::empty()
            } else {
                seq!["the date is after "@ + crate::date::date_str(f, '/')]
            }
        },
        (None, Some(u)) => {
            if u == (Date { year: crate::date::MAX_YEAR, month: 12, day: 31 }) {
                Seq::empty()
            } else {
                seq!["the date is before "@ + crate::date::date_str(u, '/')]
            }
        },
        (Some(f), Some(u)) => seq![
            "the date is between "@ + crate::date::date_str(f, '/') + " and "@
                + crate::date::date_str(u, '/'),
        ],
        (None, None) => Seq::empty(),
    };
    p1 + p2 + p3 + p4 + p5
}

/// The full human-readable description of a rule.
pub open spec fn spec_rule_description(
    tag: Seq<char>,
    tid: Option<i64>,
    dc: Option<Seq<char>>,
    tt: Option<TransactionType>,
    amin: Option<i64>,
    amax: Option<i64>,
    from: Option<Date>,
    to: Option<Date>,
) -> Seq<char> {
    let ttpart: Seq<char> = match tt {
        Some(TransactionType::Debit) => "Debit "@,
        Some(TransactionType::Credit) => "Credit "@,
        Some(TransactionType::DirectDebit) => "DirectDebit "@,
        None => "any"@,
    };
    "Apply tag '"@ + tag + "' to "@ + ttpart + " transactions where "@ + join_and(
        spec_rule_phrases(tid, dc, amin, amax, from, to),
    ) + "."@
}

/// Appends one criterion phrase, with the joining text where needed.
fn push_phrase(joined: &mut String, any: &mut bool, phrase: &str, Ghost(parts): Ghost<
    Seq<Seq<char>>,
>) -> (newparts: Ghost<Seq<Seq<char>>>)
    requires
        old(joined)@ == join_and(parts),
        *old(any) == (parts.len() > 0),
    ensures
        newparts@ == parts.push(phrase@),
        final(joined)@ == join_and(parts.push(phrase@)),
        *final(any) == (parts.push(phrase@).len() > 0),
{
    proof {
        reveal_strlit(", and ");
    }
    if *any {
        joined.append(", and ");
    }
    joined.append(phrase);
    *any = true;
    proof {
        assert(parts.push(phrase@).drop_last() =~= parts);
        assert(parts.push(phrase@).last() == phrase@);
        if parts.len() == 0 {
            assert(join_and(parts.push(phrase@)) == phrase@);
            assert(joined@ =~= phrase@);
        } else {
            assert(joined@ =~= join_and(parts) + ", and "@ + phrase@);
        }
    }
    Ghost(parts.push(phrase@))
}

/// Builds the human-readable description of a rule.
#[verifier::rlimit(60)]
pub fn build_rule_description(
    tag: &str,
    transaction_id: Option<i64>,
    description_contains: Option<&str>,
    transaction_type: Option<TransactionType>,
    amount_min: Option<i64>,
    amount_max: Option<i64>,
    from: Option<Date>,
    to: Option<Date>,
) -> (r: String)
    requires
        from matches Some(f) ==> f.valid(),
        to matches Some(u) ==> u.valid(),
    ensures
        r@ == spec_rule_description(
            tag@,
            transaction_id,
            match description_contains {
                Some(d) => Some(d@),
                None => None,
            },
            transaction_type,
            amount_min,
            amount_max,
            from,
            to,
        ),
{
    let ghost gdc: Option<Seq<char>> = match description_contains {
        Some(d) => Some(d@),
        None => None,
    };
    let mut joined = String::new();
    let mut any = false;
    let mut parts: Ghost<Seq<Seq<char>>> = Ghost(Seq::empty());
    if let Some(t) = transaction_id {
        proof {
            reveal_strlit("the transaction id is '");
            reveal_strlit("'");
        }
        let mut phrase = String::from_str("the transaction id is '");
        let num = crate::numfmt::i64_to_string(t);
        phrase.append(num.as_str());
        phrase.append("'");
        proof {
            assert(phrase@ =~= "the transaction id is '"@ + crate::numfmt::int_str(t as int)
                + "'"@);
        }
        parts = push_phrase(&mut joined, &mut any, phrase.as_str(), parts);
    }
    if description_contains.is_some() {
        let d = description_contains.unwrap();
        proof {
            reveal_strlit("the description contains '");
            reveal_strlit("'");
        }
        let mut phrase = String::from_str("the description contains '");
        phrase.append(d);
        phrase.append("'");
        proof {
            assert(phrase@ =~= "the description contains '"@ + d@ + "'"@);
        }
        parts = push_phrase(&mut joined, &mut any, phrase.as_str(), parts);
    }
    if let Some(lo) = amount_min {
        if lo != i64::MIN {
            proof {
                reveal_strlit("the amount is larger or equal to '");
                reveal_strlit("'");
            }
            let mut phrase = String::from_str("the amount is larger or equal to '");
            let num = signed_cents_to_string(lo);
            phrase.append(num.as_str());
            phrase.append("'");
            proof {
                assert(phrase@ =~= "the amount is larger or equal to '"@ + signed_amount_str(
                    lo as int,
                ) + "'"@);
            }
            parts = push_phrase(&mut joined, &mut any, phrase.as_str(), parts);
        }
    }
    if let Some(hi) = amount_max {
        if hi != i64::MAX {
            proof {
                reveal_strlit("the amount is smaller than '");
                reveal_strlit("'");
            }
            let mut phrase = String::from_str("the amount is smaller than '");
            let num = signed_cents_to_string(hi);
            phrase.append(num.as_str());
            phrase.append("'");
            proof {
                assert(phrase@ =~= "the amount is smaller than '"@ + signed_amount_str(hi as int)
                    + "'"@);
            }
            parts = push_phrase(&mut joined, &mut any, phrase.as_str(), parts);
        }
    }
    match (from, to) {
        (Some(f), None) => {
            let is_min = f.year == crate::date::MIN_YEAR && f.month == 1 && f.day == 1;
            if !is_min {
                proof {
                    reveal_strlit("the date is after ");
                }
                let mut phrase = String::from_str("the date is after ");
                let ds = crate::date::format_slashed(&f);
                phrase.append(ds.as_str());
                proof {
                    assert(phrase@ =~= "the date is after "@ + crate::date::date_str(f, '/'));
                }
                parts = push_phrase(&mut joined, &mut any, phrase.as_str(), parts);
            }
        },
        (None, Some(u)) => {
            let is_max = u.year == crate::date::MAX_YEAR && u.month == 12 && u.day == 31;
            if !is_max {
                proof {
                    reveal_strlit("the date is before ");
                }
                let mut phrase = String::from_str("the date is before ");
                let ds = crate::date::format_slashed(&u);
                phrase.append(ds.as_str());
                proof {
                    assert(phrase@ =~= "the date is before "@ + crate::date::date_str(u, '/'));
                }
                parts = push_phrase(&mut joined, &mut any, phrase.as_str(), parts);
            }
        },
        (Some(f), Some(u)) => {
            proof {
                reveal_strlit("the date is between ");
                reveal_strlit(" and ");
            }
            let mut phrase = String::from_str("the date is between ");
            let ds = crate::date::format_slashed(&f);
            phrase.append(ds.as_str());
            phrase.append(" and ");
            let ds2 = crate::date::format_slashed(&u);
            phrase.append(ds2.as_str());
            proof {
                assert(phrase@ =~= "the date is between "@ + crate::date::date_str(f, '/')
                    + " and "@ + crate::date::date_str(u, '/'));
            }
            parts = push_phrase(&mut joined, &mut any, phrase.as_str(), parts);
        },
        (None, None) => {},
    }
    proof {
        assert(parts@ =~= spec_rule_phrases(
            transaction_id,
            gdc,
            amount_min,
            amount_max,
            from,
            to,
        ));
    }
    proof {
        reveal_strlit("Apply tag '");
        reveal_strlit("' to ");
        reveal_strlit("Debit ");
        reveal_strlit("Credit ");
        reveal_strlit("DirectDebit ");
        reveal_strlit("any");
        reveal_strlit(" transactions where ");
        reveal_strlit(".");
    }
    let mut out = String::from_str("Apply tag '");
    out.append(tag);
    out.append("' to ");
    match transaction_type {
        Some(TransactionType::Debit) => out.append("Debit "),
        Some(TransactionType::Credit) => out.append("Credit "),
        Some(TransactionType::DirectDebit) => out.append("DirectDebit "),
        None => out.append("any"),
    }
    out.append(" transactions where ");
    out.append(joined.as_str());
    out.append(".");
    proof {
        assert(out@ =~= spec_rule_description(
            tag@,
            transaction_id,
            gdc,
            transaction_type,
            amount_min,
            amount_max,
            from,
            to,
        ));
    }
    out
}

/// Whether an existing rule carries exactly the given criteria and
/// description.
pub open spec fn rule_matches_args(
    r: TagRule,
    tag: Seq<char>,
    hr: Seq<char>,
    tid: Option<i64>,
    dc: Option<Seq<char>>,
    tt: Option<TransactionType>,
    amin: Option<i64>,
    amax: Option<i64>,
    from: Option<Date>,
    to: Option<Date>,
) -> bool {
    &&& r.tag@ == tag
    &&& r.human_readable@ == hr
    &&& r.transaction_id == tid
    &&& (match (r.description_contains, dc) {
        (Some(a), Some(b)) => a@ == b,
        (None, None) => true,
        _ => false,
    })
    &&& r.transaction_type == tt
    &&& r.amount_min == amin
    &&& r.amount_max == amax
    &&& r.from_date == from
    &&& r.to_date == to
}

/// Adds a tag rule.  A rule with identical criteria already present is
/// reported rather than duplicated; a fresh rule reports how many
/// transactions it now tags.
#[verifier::rlimit(100)]
pub fn add_tag_rule(
    db: &mut crate::store::StingyDb,
    tag: &str,
    transaction_id: Option<usize>,
    description_contains: Option<&str>,
    transaction_type: Option<TransactionType>,
    amount_min: Option<i64>,
    amount_max: Option<i64>,
    from: Option<Date>,
    to: Option<Date>,
) -> (r: Result<AddTagRuleResult, DbError>)
    requires
        old(db).wf(),
        transaction_id matches Some(t) ==> t as u64 <= i64::MAX as u64,
        from matches Some(f) ==> f.valid(),
        to matches Some(u) ==> u.valid(),
    ensures
        final(db).wf(),
        ({
            let s0 = old(db).model();
            let gtid: Option<i64> = match transaction_id {
                Some(t) => Some(t as i64),
                None => None,
            };
            let gdc: Option<Seq<char>> = match description_contains {
                Some(d) => Some(d@),
                None => None,
            };
            let hr = spec_rule_description(
                tag@,
                gtid,
                gdc,
                transaction_type,
                amount_min,
                amount_max,
                from,
                to,
            );
            if exists|i: int|
                0 <= i < s0.tag_rules.len() && rule_matches_args(
                    #[trigger] s0.tag_rules[i],
                    tag@,
                    hr,
                    gtid,
                    gdc,
                    transaction_type,
                    amount_min,
                    amount_max,
                    from,
                    to,
                ) {
                &&& final(db).model() == s0
                &&& r matches Ok(AddTagRuleResult::NotUnique { tag_rule_id }) && exists|i: int|
                    0 <= i < s0.tag_rules.len() && rule_matches_args(
                        #[trigger] s0.tag_rules[i],
                        tag@,
                        hr,
                        gtid,
                        gdc,
                        transaction_type,
                        amount_min,
                        amount_max,
                        from,
                        to,
                    ) && s0.tag_rules[i].id == Some(tag_rule_id)
            } else if crate::facade::next_table_key(s0.tag_rules, crate::store::rule_key())
                > i64::MAX as int {
                r == Err::<AddTagRuleResult, DbError>(DbError::Full) && final(db).model() == s0
            } else {
                let nid = crate::facade::next_table_key(
                    s0.tag_rules,
                    crate::store::rule_key(),
                ) as i64;
                let sf = final(db).model();
                &&& sf.tag_rules.len() == s0.tag_rules.len() + 1
                &&& rule_matches_args(
                    sf.tag_rules.last(),
                    tag@,
                    hr,
                    gtid,
                    gdc,
                    transaction_type,
                    amount_min,
                    amount_max,
                    from,
                    to,
                )
                &&& sf.tag_rules.last().id == Some(nid)
                &&& sf.tag_rules.drop_last() == s0.tag_rules
                &&& sf.accounts == s0.accounts
                &&& sf.transactions == s0.transactions
                &&& sf.steps == crate::store::steps_after_capture(
                    s0.steps,
                    crate::store::OpPayload::Delete {
                        table: crate::store::Table::TagRules,
                        key: nid,
                    },
                    s0.capture_on,
                )
                &&& sf.checkpoints == s0.checkpoints
                &&& sf.version == s0.version
                &&& sf.capture_on == s0.capture_on
                &&& sf.location == s0.location
                &&& r matches Ok(AddTagRuleResult::Added { tag_rule_id, tagged_transactions })
                    && tag_rule_id == nid && tagged_transactions as int == count_tagged(
                    sf.tag_rules,
                    s0.transactions,
                    nid,
                )
            }
        }),
{
    let gtid_exec: Option<i64> = match transaction_id {
        Some(t) => Some(t as i64),
        None => None,
    };
    let hr = build_rule_description(
        tag,
        gtid_exec,
        description_contains,
        transaction_type,
        amount_min,
        amount_max,
        from,
        to,
    );
    let rule = TagRule {
        id: None,
        tag: String::from_str(tag),
        human_readable: hr,
        transaction_id: gtid_exec,
        description_contains: match description_contains {
            Some(d) => Some(String::from_str(d)),
            None => None,
        },
        transaction_type,
        amount_min,
        amount_max,
        from_date: from,
        to_date: to,
    };
    let ghost s0 = db.model();
    let ghost grule = rule;
    proof {
        assert forall|i: int| 0 <= i < s0.tag_rules.len() implies crate::model::tag_rule_same(
            #[trigger] s0.tag_rules[i],
            grule,
        ) == rule_matches_args(
            s0.tag_rules[i],
            tag@,
            grule.human_readable@,
            grule.transaction_id,
            match description_contains {
                Some(d) => Some(d@),
                None => None,
            },
            transaction_type,
            amount_min,
            amount_max,
            from,
            to,
        ) by {}
    }
    let looked_up = match crate::db::StingyDatabase::lookup_tag_rule(db, &rule) {
        Ok(v) => v,
        Err(e) => {
            return Err(e);
        },
    };
    if let Some(tag_rule_id) = looked_up {
        return Ok(AddTagRuleResult::NotUnique { tag_rule_id });
    }
    match crate::facade::ModelOperations::<TagRule>::insert(db, rule) {
        Ok(crate::facade::NewOrExisting::New(m)) => {
            let tag_rule_id = crate::engine::rule_row_key(&m);
            let tagged = count_tagged_by(&db.tag_rules, &db.transactions, tag_rule_id);
            proof {
                assert(db.model().tag_rules =~= s0.tag_rules.push(
                    db.model().tag_rules.last(),
                ));
                assert(db.model().tag_rules.drop_last() =~= s0.tag_rules);
            }
            Ok(AddTagRuleResult::Added { tag_rule_id, tagged_transactions: tagged })
        },
        Ok(crate::facade::NewOrExisting::Existing(_)) => {
            // unreachable: the lookup found no identical rule
            Err(DbError::NotUnique)
        },
        Err(e) => Err(e),
    }
}

/// With no rule under the identifier, nothing is tagged by it.
proof fn count_tagged_none(rules: Seq<TagRule>, txns: Seq<Transaction>, rid: i64)
    requires
        forall|k: int| 0 <= k < txns.len() ==> !tagged_by(rules, #[trigger] txns[k], rid),
    ensures
        count_tagged(rules, txns, rid) == 0,
    decreases txns.len(),
{
    if txns.len() > 0 {
        assert(txns.drop_last().len() < txns.len());
        assert forall|k: int| 0 <= k < txns.drop_last().len() implies !tagged_by(
            rules,
            #[trigger] txns.drop_last()[k],
            rid,
        ) by {
            assert(txns.drop_last()[k] == txns[k]);
        }
        count_tagged_none(rules, txns.drop_last(), rid);
        assert(txns.last() == txns[txns.len() - 1]);
    }
}

} // verus!
