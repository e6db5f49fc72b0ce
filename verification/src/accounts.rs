//! Account commands: listing, selecting a default, and aliasing.

use vstd::prelude::*;
use crate::DbError;
use crate::model::{Account, account_conflict};
use crate::facade::{ModelOperations, NewOrExisting, StoreView, spec_update_account};
use crate::store::{StingyDb, StoreModel};

verus! {

/// The rows `list` renders for the operator.
#[derive(Debug)]
pub struct ListAccountsResult {
    pub columns: Vec<String>,
    pub rows: Vec<Vec<String>>,
}

/// The mark shown beside a selected account.
pub fn ok_mark() -> (r: &'static str)
    ensures
        r@ == "\u{2705}"@,
{
    "\u{2705}"
}

/// The listed cells of one account: name, alias (or blank), and the
/// selection mark (or blank).
pub open spec fn account_cells(a: Account) -> Seq<Seq<char>> {
    seq![
        a.name@,
        match a.alias {
            Some(x) => x@,
            None => Seq::empty(),
        },
        if a.selected {
            "\u{2705}"@
        } else {
            Seq::empty()
        },
    ]
}

/// An account answers to the given name: by its own name or its alias.
pub open spec fn answers_to(a: Account, name: Seq<char>) -> bool {
    a.name@ == name || (a.alias matches Some(al) && al@ == name)
}

/// The selected accounts, in table order.
pub open spec fn selected_of(rows: Seq<Account>) -> Seq<Account>
    decreases rows.len(),
{
    if rows.len() == 0 {
        Seq::empty()
    } else {
        selected_of(rows.drop_last()) + if rows.last().selected {
            seq![rows.last()]
        } else {
            Seq::empty()
        }
    }
}

/// The resolution `get_account_or_selected` performs: the first account
/// answering to the name, or — with no name given — every selected
/// account.
pub open spec fn spec_resolve(rows: Seq<Account>, name: Option<Seq<char>>) -> Result<
    Seq<Account>,
    DbError,
> {
    match name {
        Some(n) => {
            if exists|i: int| 0 <= i < rows.len() && answers_to(#[trigger] rows[i], n) {
                let i = first_answering(rows, n);
                Ok(seq![rows[i]])
            } else {
                Err(DbError::AccountNotFound)
            }
        },
        None => Ok(selected_of(rows)),
    }
}

/// The least index of an account answering to the name.
pub open spec fn first_answering(rows: Seq<Account>, name: Seq<char>) -> int {
    choose|i: int|
        0 <= i < rows.len() && answers_to(#[trigger] rows[i], name) && (forall|j: int|
            0 <= j < i ==> !answers_to(#[trigger] rows[j], name))
}

/// Lists every account with its alias and selection mark.
pub fn list(db: &StingyDb) -> (r: Result<ListAccountsResult, DbError>)
    requires
        db.wf(),
    ensures
        r is Ok,
        r->Ok_0.columns@.len() == 3,
        r->Ok_0.columns@[0]@ == "Name"@,
        r->Ok_0.columns@[1]@ == "Alias"@,
        r->Ok_0.columns@[2]@ == "Selected"@,
        r->Ok_0.rows@.len() == db.model().accounts.len(),
        forall|i: int|
            0 <= i < db.model().accounts.len() ==> (#[trigger] r->Ok_0.rows@[i]).deep_view()
                == account_cells(db.model().accounts[i]),
{
    let mut columns: Vec<String> = Vec::new();
    columns.push(String::from_str("Name"));
    columns.push(String::from_str("Alias"));
    columns.push(String::from_str("Selected"));
    let mut rows: Vec<Vec<String>> = Vec::new();
    let mut i: usize = 0;
    while i < db.accounts.len()
        invariant
            db.wf(),
            i <= db.accounts@.len(),
            rows@.len() == i,
            forall|j: int|
                0 <= j < i ==> (#[trigger] rows@[j]).deep_view() == account_cells(
                    db.model().accounts[j],
                ),
        decreases db.accounts@.len() - i,
    {
        let a = &db.accounts[i];
        let mut row: Vec<String> = Vec::new();
        row.push(a.name.clone());
        match &a.alias {
            Some(x) => row.push(x.clone()),
            None => row.push(String::new()),
        }
        if a.selected {
            row.push(String::from_str(ok_mark()));
        } else {
            row.push(String::new());
        }
        proof {
            assert(row.deep_view() =~= account_cells(db.model().accounts[i as int]));
        }
        rows.push(row);
        i += 1;
    }
    Ok(ListAccountsResult { columns, rows })
}

/// The first account answering to the given name or alias, or — with
/// no name — every selected account.
pub fn get_account_or_selected(db: &StingyDb, account_name: Option<&str>) -> (r: Result<
    Vec<Account>,
    DbError,
>)
    requires
        db.wf(),
    ensures
        ({
            let expected = spec_resolve(
                db.model().accounts,
                if account_name is Some {
                    Some(account_name.unwrap()@)
                } else {
                    None
                },
            );
            &&& expected is Ok ==> r is Ok && r->Ok_0@ == expected->Ok_0
            &&& expected is Err ==> r == Err::<Vec<Account>, DbError>(expected->Err_0)
        }),
{
    let rows = &db.accounts;
    if account_name.is_some() {
        let name = account_name.unwrap();
        {
            let mut i: usize = 0;
            while i < rows.len()
                invariant
                    rows@ == db.accounts@,
                    account_name is Some,
                    name == account_name.unwrap(),
                    i <= rows@.len(),
                    forall|j: int| 0 <= j < i ==> !answers_to(#[trigger] rows@[j], name@),
                decreases rows@.len() - i,
            {
                let a = &rows[i];
                let by_alias: bool = match &a.alias {
                    Some(al) => crate::model::str_eq(al.as_str(), name),
                    None => false,
                };
                if crate::model::str_eq(a.name.as_str(), name) || by_alias {
                    proof {
                        assert(answers_to(rows@[i as int], name@));
                        assert(exists|i2: int|
                            0 <= i2 < rows@.len() && answers_to(#[trigger] rows@[i2], name@)
                                && (forall|j: int|
                                0 <= j < i2 ==> !answers_to(#[trigger] rows@[j], name@))) by {
                            assert(0 <= (i as int) && (i as int) < rows@.len() && answers_to(
                                rows@[i as int],
                                name@,
                            ) && (forall|j: int|
                                0 <= j < i as int ==> !answers_to(#[trigger] rows@[j], name@)));
                        }
                        let w = first_answering(db.model().accounts, name@);
                        assert(0 <= w < rows@.len() && answers_to(rows@[w], name@) && (forall|
                            j: int,
                        |
                            0 <= j < w ==> !answers_to(#[trigger] rows@[j], name@)));
                        if w < i as int {
                            assert(!answers_to(rows@[w], name@));
                        }
                        if w > i as int {
                            assert(!answers_to(rows@[i as int], name@));
                        }
                        assert(w == i as int);
                        assert(exists|i2: int|
                            0 <= i2 < db.model().accounts.len() && answers_to(
                                #[trigger] db.model().accounts[i2],
                                name@,
                            )) by {
                            assert(answers_to(db.model().accounts[i as int], name@));
                        }
                    }
                    let mut out: Vec<Account> = Vec::new();
                    out.push(rows[i].clone());
                    proof {
                        assert(out@ =~= seq![db.model().accounts[i as int]]);
                        assert(spec_resolve(db.model().accounts, Some(name@)) == Ok::<
                            Seq<Account>,
                            DbError,
                        >(seq![db.model().accounts[i as int]]));
                        assert(out@ == spec_resolve(
                            db.model().accounts,
                            Some(name@),
                        )->Ok_0);

                    }
                    return Ok(out);
                }
                i += 1;
            }
            Err(DbError::AccountNotFound)
        }
    } else {
        {
            let mut out: Vec<Account> = Vec::new();
            let mut i: usize = 0;
            while i < rows.len()
                invariant
                    rows@ == db.accounts@,
                    i <= rows@.len(),
                    out@ == selected_of(rows@.subrange(0, i as int)),
                decreases rows@.len() - i,
            {
                let ghost pre = rows@.subrange(0, i + 1);
                proof {
                    assert(pre.drop_last() =~= rows@.subrange(0, i as int));
                    assert(pre.last() == rows@[i as int]);
                }
                if rows[i].selected {
                    out.push(rows[i].clone());
                    proof {
                        assert(out@ =~= selected_of(pre));
                    }
                } else {
                    proof {
                        assert(out@ =~= selected_of(pre));
                    }
                }
                i += 1;
            }
            proof {
                assert(rows@.subrange(0, rows@.len() as int) =~= rows@);
            }
            Ok(out)
        }
    }
}

/// Sets or clears the selection of one resolved account row.
fn put_selected(db: &mut StingyDb, account: &Account, value: bool) -> (r: Result<Account, DbError>)
    requires
        old(db).wf(),
        exists|i: int|
            0 <= i < old(db).model().accounts.len() && old(db).model().accounts[i] == *account,
    ensures
        final(db).wf(),
        db_after_flag(old(db).model(), *account, value) == (final(db).model(), r is Ok),
        r matches Ok(a) ==> a == (Account { selected: value, ..*account }),
{
    let updated = Account {
        id: account.id,
        name: account.name.clone(),
        alias: match &account.alias {
            Some(x) => Some(x.clone()),
            None => None,
        },
        selected: value,
        bank: match &account.bank {
            Some(x) => Some(x.clone()),
            None => None,
        },
    };
    let ghost s0 = db.model();
    proof {
        assert(updated == (Account { selected: value, ..*account }));
        let i = choose|i: int| 0 <= i < s0.accounts.len() && s0.accounts[i] == *account;
        lemma_update_flag_ok(s0, *account, value, i);
    }
    match db.update(&updated) {
        Ok(_) => Ok(updated),
        Err(e) => Err(e),
    }
}

/// The store after flipping one account row's selection flag, and
/// whether the update is accepted (it always is: the flag takes no part
/// in any uniqueness constraint).
pub open spec fn db_after_flag(s: StoreModel, account: Account, value: bool) -> (
    StoreModel,
    bool,
) {
    let (s2, r) = spec_update_account(s, Account { selected: value, ..account });
    (s2, r is Ok)
}

/// Updating only the selection flag of an existing row never violates
/// the accounts constraints.
proof fn lemma_update_flag_ok(s: StoreModel, account: Account, value: bool, i: int)
    requires
        crate::store::model_wf(s),
        0 <= i < s.accounts.len(),
        s.accounts[i] == account,
    ensures
        spec_update_account(s, Account { selected: value, ..account }).1 is Ok,
{
    let m = Account { selected: value, ..account };
    let rows = s.accounts;
    let k = crate::store::id_key(m.id);
    assert(crate::store::acc_key()(rows[i]) == k);
    let i0 = choose|j: int|
        0 <= j < rows.len() && crate::store::acc_key()(#[trigger] rows[j]) == k;
    assert(i0 == i);
    assert forall|j: int| 0 <= j < rows.len() && j != i0 implies !account_conflict(
        #[trigger] rows[j],
        m,
    ) by {
        if j < i0 {
            assert(!account_conflict(rows[j], rows[i0]));
        } else {
            assert(!account_conflict(rows[i0], rows[j]));
        }
    }
}

/// Selects the account answering to the name as the default.
#[verifier::rlimit(60)]
pub fn select(db: &mut StingyDb, account_name: &str) -> (r: Result<Vec<Account>, DbError>)
    requires
        old(db).wf(),
    ensures
        final(db).wf(),
        match spec_resolve(old(db).model().accounts, Some(account_name@)) {
            Ok(found) => {
                &&& r is Ok
                &&& r->Ok_0@.len() == 1
                &&& r->Ok_0@[0] == (Account { selected: true, ..found[0] })
                &&& final(db).model() == db_after_flag(old(db).model(), found[0], true).0
            },
            Err(e) => r == Err::<Vec<Account>, DbError>(e) && final(db).model() == old(
                db,
            ).model(),
        },
{
    let found = match get_account_or_selected(db, Some(account_name)) {
        Ok(v) => v,
        Err(e) => {
            return Err(e);
        },
    };
    let a = put_selected(db, &found[0], true)?;
    let mut out: Vec<Account> = Vec::new();
    out.push(a);
    Ok(out)
}

/// Unselects the named account, or every selected account when no name
/// is given.
#[verifier::rlimit(60)]
pub fn unselect(db: &mut StingyDb, account_name: Option<&str>) -> (r: Result<(), DbError>)
    requires
        old(db).wf(),
    ensures
        final(db).wf(),
        match spec_resolve(
            old(db).model().accounts,
            match account_name {
                Some(n) => Some(n@),
                None => None,
            },
        ) {
            Ok(found) => r is Ok && final(db).model() == unselect_fold(old(db).model(), found),
            Err(e) => r == Err::<(), DbError>(e) && final(db).model() == old(db).model(),
        },
{
    let found = match get_account_or_selected(db, account_name) {
        Ok(v) => v,
        Err(e) => {
            return Err(e);
        },
    };
    let ghost s0 = db.model();
    let ghost fseq = found@;
    proof {
        if account_name is Some {
            let n = account_name.unwrap()@;
            let w = first_answering(s0.accounts, n);
            assert(fseq =~= seq![s0.accounts[w]]);
            assert forall|p: int, q: int| 0 <= p < q < fseq.len() implies crate::store::acc_key()(
                #[trigger] fseq[p],
            ) < crate::store::acc_key()(#[trigger] fseq[q]) by {}
            assert forall|p: int| 0 <= p < fseq.len() implies exists|k: int|
                0 <= k < s0.accounts.len() && (#[trigger] s0.accounts[k]) == #[trigger] fseq[p] by {
                assert(s0.accounts[w] == fseq[p]);
            }
        } else {
            lemma_selected_sub(s0.accounts, crate::store::acc_key());
        }
        assert(fseq.subrange(0, 0) =~= Seq::<Account>::empty());
    }
    let mut i: usize = 0;
    while i < found.len()
        invariant
            db.wf(),
            i <= fseq.len(),
            fseq == found@,
            db.model() == unselect_fold_to(s0, fseq, i as int),
            forall|p: int, q: int|
                0 <= p < q < fseq.len() ==> crate::store::acc_key()(#[trigger] fseq[p])
                    < crate::store::acc_key()(#[trigger] fseq[q]),
            forall|j: int|
                i <= j < fseq.len() ==> exists|k: int|
                    0 <= k < db.model().accounts.len() && (#[trigger] db.model().accounts[k])
                        == #[trigger] fseq[j],
        decreases fseq.len() - i,
    {
        let ghost smid = db.model();
        let _ = put_selected(db, &found[i], false);
        proof {
            let (s2, okflag) = db_after_flag(smid, fseq[i as int], false);
            assert(db.model() == s2);
            // the fold advances by one
            assert(fseq.subrange(0, i + 1) =~= fseq.subrange(0, i as int).push(fseq[i as int]));
            lemma_unselect_fold_push(s0, fseq.subrange(0, i as int), fseq[i as int]);
            // later rows keep their images: they sit under different keys
            let rows = smid.accounts;
            let k0 = crate::store::id_key(fseq[i as int].id);
            if exists|ii: int|
                0 <= ii < rows.len() && crate::store::acc_key()(#[trigger] rows[ii]) == k0 {
                let i0 = choose|ii: int|
                    0 <= ii < rows.len() && crate::store::acc_key()(#[trigger] rows[ii]) == k0;
                assert forall|j: int| i + 1 <= j < fseq.len() implies exists|k: int|
                    0 <= k < db.model().accounts.len() && (#[trigger] db.model().accounts[k])
                        == #[trigger] fseq[j] by {
                    let k = choose|k: int|
                        0 <= k < rows.len() && (#[trigger] rows[k]) == fseq[j];
                    assert(crate::store::acc_key()(fseq[i as int]) < crate::store::acc_key()(
                        fseq[j],
                    ));
                    assert(k != i0);
                    assert(db.model().accounts[k] == rows[k]);
                }
            }
        }
        i += 1;
    }
    proof {
        assert(fseq.subrange(0, fseq.len() as int) =~= fseq);
    }
    Ok(())
}

/// The accounts constraint, phrased against a row that would get the
/// given name and alias.
pub open spec fn conflict_with_alias(b: Account, name: Seq<char>, alias: Seq<char>) -> bool {
    ||| b.name@ == name
    ||| (b.alias matches Some(y) && y@ == alias)
    ||| alias == b.name@
    ||| (b.alias matches Some(y) && y@ == name)
}

/// Gives the resolved account a new alias.
#[verifier::rlimit(60)]
pub fn alias(db: &mut StingyDb, account_name: &str, new_alias: &str) -> (r: Result<Account, DbError>)
    requires
        old(db).wf(),
    ensures
        final(db).wf(),
        match spec_resolve(old(db).model().accounts, Some(account_name@)) {
            Ok(found) => {
                let target = found[0];
                let i0 = first_answering(old(db).model().accounts, account_name@);
                if exists|j: int|
                    0 <= j < old(db).model().accounts.len() && j != i0 && conflict_with_alias(
                        #[trigger] old(db).model().accounts[j],
                        target.name@,
                        new_alias@,
                    ) {
                    r == Err::<Account, DbError>(DbError::NotUnique) && final(db).model() == old(
                        db,
                    ).model()
                } else {
                    match r {
                        Ok(acc) => {
                            &&& acc.id == target.id
                            &&& acc.name == target.name
                            &&& acc.selected == target.selected
                            &&& acc.bank == target.bank
                            &&& acc.alias matches Some(al) && al@ == new_alias@
                            &&& spec_update_account(old(db).model(), acc) == (
                                final(db).model(),
                                Ok::<(), DbError>(()),
                            )
                        },
                        Err(_) => false,
                    }
                }
            },
            Err(e) => r == Err::<Account, DbError>(e) && final(db).model() == old(db).model(),
        },
{
    let found = match get_account_or_selected(db, Some(account_name)) {
        Ok(v) => v,
        Err(e) => {
            return Err(e);
        },
    };
    let target = &found[0];
    let updated = Account {
        id: target.id,
        name: target.name.clone(),
        alias: Some(String::from_str(new_alias)),
        selected: target.selected,
        bank: match &target.bank {
            Some(x) => Some(x.clone()),
            None => None,
        },
    };
    let ghost s0 = db.model();
    let ghost i0 = first_answering(s0.accounts, account_name@);
    proof {
        assert(s0.accounts[i0] == found@[0]);
        let rows = s0.accounts;
        let k = crate::store::id_key(updated.id);
        assert(crate::store::acc_key()(rows[i0]) == k);
        let w = choose|j: int|
            0 <= j < rows.len() && crate::store::acc_key()(#[trigger] rows[j]) == k;
        assert(w == i0);
        assert forall|j: int| 0 <= j < rows.len() && j != i0 implies account_conflict(
            #[trigger] rows[j],
            updated,
        ) == conflict_with_alias(rows[j], found@[0].name@, new_alias@) by {}
    }
    match db.update(&updated) {
        Ok(_) => Ok(updated),
        Err(e) => Err(e),
    }
}

/// Deletes the alias of the account answering to it.
#[verifier::rlimit(60)]
pub fn delete_alias(db: &mut StingyDb, alias_name: &str) -> (r: Result<(), DbError>)
    requires
        old(db).wf(),
    ensures
        final(db).wf(),
        match spec_resolve(old(db).model().accounts, Some(alias_name@)) {
            Ok(found) => {
                &&& r is Ok
                &&& spec_update_account(
                    old(db).model(),
                    Account { alias: None, ..found[0] },
                ).0 == final(db).model()
            },
            Err(e) => r == Err::<(), DbError>(e) && final(db).model() == old(db).model(),
        },
{
    let found = match get_account_or_selected(db, Some(alias_name)) {
        Ok(v) => v,
        Err(e) => {
            return Err(e);
        },
    };
    let target = &found[0];
    let updated = Account {
        id: target.id,
        name: target.name.clone(),
        alias: None,
        selected: target.selected,
        bank: match &target.bank {
            Some(x) => Some(x.clone()),
            None => None,
        },
    };
    let ghost s0 = db.model();
    let ghost i0 = first_answering(s0.accounts, alias_name@);
    proof {
        assert(s0.accounts[i0] == found@[0]);
        assert(updated == (Account { alias: None, ..found@[0] }));
        let rows = s0.accounts;
        let k = crate::store::id_key(updated.id);
        assert(crate::store::acc_key()(rows[i0]) == k);
        let w = choose|j: int|
            0 <= j < rows.len() && crate::store::acc_key()(#[trigger] rows[j]) == k;
        assert(w == i0);
        // dropping an alias cannot create a conflict
        assert forall|j: int| 0 <= j < rows.len() && j != i0 implies !account_conflict(
            #[trigger] rows[j],
            updated,
        ) by {
            if j < i0 {
                assert(!account_conflict(rows[j], rows[i0]));
            } else {
                assert(!account_conflict(rows[i0], rows[j]));
            }
        }
    }
    match db.update(&updated) {
        Ok(_) => Ok(()),
        Err(e) => Err(e),
    }
}

/// The selected accounts all occur among the rows, in key order.
proof fn lemma_selected_sub(rows: Seq<Account>, key: spec_fn(Account) -> int)
    requires
        crate::rowmap::keys_sorted(rows, key),
    ensures
        forall|p: int| 0 <= p < selected_of(rows).len() ==> exists|k: int|
            0 <= k < rows.len() && (#[trigger] rows[k]) == #[trigger] selected_of(rows)[p],
        forall|p: int, q: int|
            0 <= p < q < selected_of(rows).len() ==> key(#[trigger] selected_of(rows)[p]) < key(
                #[trigger] selected_of(rows)[q],
            ),
    decreases rows.len(),
{
    if rows.len() > 0 {
        lemma_selected_sub(rows.drop_last(), key);
        let sel = selected_of(rows);
        let prev = selected_of(rows.drop_last());
        assert forall|p: int| 0 <= p < sel.len() implies exists|k: int|
            0 <= k < rows.len() && (#[trigger] rows[k]) == #[trigger] sel[p] by {
            if p < prev.len() {
                assert(sel[p] == prev[p]);
                let k = choose|k: int|
                    0 <= k < rows.drop_last().len() && rows.drop_last()[k] == prev[p];
                assert(rows[k] == sel[p]);
            } else {
                assert(sel[p] == rows.last());
                assert(rows[rows.len() - 1] == sel[p]);
            }
        }
        assert forall|p: int, q: int| 0 <= p < q < sel.len() implies key(#[trigger] sel[p]) < key(
            #[trigger] sel[q],
        ) by {
            if q < prev.len() {
                assert(sel[p] == prev[p] && sel[q] == prev[q]);
            } else {
                assert(sel[q] == rows.last());
                assert(sel[p] == prev[p]);
                let k = choose|k: int|
                    0 <= k < rows.drop_last().len() && rows.drop_last()[k] == prev[p];
                assert(key(rows[k]) < key(rows[rows.len() - 1]));
            }
        }
    }
}

/// Unselecting one more account composes with the fold.
proof fn lemma_unselect_fold_push(s: StoreModel, xs: Seq<Account>, x: Account)
    ensures
        unselect_fold(s, xs.push(x)) == db_after_flag(unselect_fold(s, xs), x, false).0,
    decreases xs.len(),
{
    if xs.len() == 0 {
        assert(xs.push(x).first() == x);
        assert(xs.push(x).drop_first() =~= Seq::<Account>::empty());
        assert(unselect_fold(s, Seq::<Account>::empty()) == s);
        assert(unselect_fold(s, xs.push(x)) == unselect_fold(
            db_after_flag(s, x, false).0,
            Seq::<Account>::empty(),
        ));
        assert(unselect_fold(s, xs) == s);
    } else {
        assert(xs.push(x).first() == xs.first());
        assert(xs.push(x).drop_first() =~= xs.drop_first().push(x));
        lemma_unselect_fold_push(db_after_flag(s, xs.first(), false).0, xs.drop_first(), x);
    }
}

/// The store after unselecting each of the given accounts in order.
pub open spec fn unselect_fold(s: StoreModel, accounts: Seq<Account>) -> StoreModel
    decreases accounts.len(),
{
    if accounts.len() == 0 {
        s
    } else {
        unselect_fold(db_after_flag(s, accounts.first(), false).0, accounts.drop_first())
    }
}

/// The store after unselecting the first `i` of the given accounts.
pub open spec fn unselect_fold_to(s: StoreModel, accounts: Seq<Account>, i: int) -> StoreModel {
    unselect_fold(s, accounts.subrange(0, i))
}

} // verus!
