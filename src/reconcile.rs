//! Importing parsed transactions into an account without duplicating what the ledger holds.
use vstd::prelude::*;
use crate::text::{same_text, chars_of, lower_of, lowercase};
use crate::ledger::{Transaction, TxView, opt_view, tx_views, same_opt, clone_opt, balance_of, new_id};
use crate::rules::{CategoryRule, RuleView, rule_views, categorize, categorized, newly_categorized};

verus! {

broadcast use vstd::string::group_string_axioms;

/// A category of the ledger.
pub struct Category {
    pub id: String,
    pub name: String,
    pub parent_id: Option<String>,
    pub category_type: String,
    pub icon: Option<String>,
    pub color: Option<String>,
    pub is_system: bool,
    pub display_order: i32,
    pub created_at: String,
    pub updated_at: String,
}

/// A transaction to import: an explicit category id wins over a category hint, which names a
/// category.
pub struct ImportRow {
    pub date: String,
    pub amount: i64,
    pub payee: Option<String>,
    pub memo: Option<String>,
    pub category_id: Option<String>,
    pub category_hint: Option<String>,
}

pub struct RowView {
    pub date: Seq<char>,
    pub amount: i64,
    pub payee: Option<Seq<char>>,
    pub memo: Option<Seq<char>>,
    pub category_id: Option<Seq<char>>,
    pub category_hint: Option<Seq<char>>,
}

impl View for ImportRow {
    type V = RowView;

    open spec fn view(&self) -> RowView {
        RowView {
            date: self.date@,
            amount: self.amount,
            payee: opt_view(self.payee),
            memo: opt_view(self.memo),
            category_id: opt_view(self.category_id),
            category_hint: opt_view(self.category_hint),
        }
    }
}

pub open spec fn row_views(v: Seq<ImportRow>) -> Seq<RowView> {
    v.map_values(|r: ImportRow| r@)
}

/// The (id, name) pairs of the categories.
pub open spec fn category_views(v: Seq<Category>) -> Seq<(Seq<char>, Seq<char>)> {
    v.map_values(|c: Category| (c.id@, c.name@))
}

/// What an import reports: how many rows were added, how many were duplicates, how many of the
/// added rows the rules then categorized, and the batch that tags the added rows.
pub struct ImportResult {
    pub imported: usize,
    pub skipped: usize,
    pub auto_categorized: usize,
    pub batch_id: String,
}

/// Whether `t` is a live transaction of `account` with the row's date, amount and payee.
pub open spec fn same_entry(t: TxView, account: Seq<char>, r: RowView) -> bool {
    !t.deleted && t.account_id == account && t.date == r.date && t.amount == r.amount && t.payee
        == r.payee
}

pub open spec fn is_duplicate(txs: Seq<TxView>, account: Seq<char>, r: RowView) -> bool {
    exists|k: int| 0 <= k < txs.len() && same_entry(#[trigger] txs[k], account, r)
}

/// The ledger and the number of added rows after importing `rows` one by one: a row is
/// skipped when the ledger, as it stands by then, holds a live transaction of the account with
/// its date, amount and payee; otherwise it is added as a record of the account, the `n`-th
/// added row taking id `ids[n]`.
pub open spec fn import_fold(
    txs: Seq<TxView>,
    account: Seq<char>,
    rows: Seq<RowView>,
    ids: Seq<Seq<char>>,
    cats: Seq<(Seq<char>, Seq<char>)>,
    batch: Seq<char>,
    source: Seq<char>,
) -> (Seq<TxView>, nat)
    decreases rows.len(),
{
    if rows.len() == 0 {
        (txs, 0)
    } else {
        let (t, n) = import_fold(txs, account, rows.drop_last(), ids, cats, batch, source);
        let r = rows.last();
        if is_duplicate(t, account, r) {
            (t, n)
        } else {
            (t.push(entry_of(r, ids[n as int], account, cats, batch, source)), n + 1)
        }
    }
}

/// An import: the rows are added as `import_fold` says, then the rules categorize the added
/// records. Gives the ledger, the number of added rows and how many of them got a category.
pub open spec fn import_spec(
    txs: Seq<TxView>,
    account: Seq<char>,
    rows: Seq<RowView>,
    ids: Seq<Seq<char>>,
    cats: Seq<(Seq<char>, Seq<char>)>,
    rules: Seq<RuleView>,
    batch: Seq<char>,
    source: Seq<char>,
) -> (Seq<TxView>, nat, nat) {
    let (ins, n) = import_fold(txs, account, rows, ids, cats, batch, source);
    let scope = from_index(ins.len(), txs.len() as int);
    let fin = categorized(ins, rules, scope);
    (fin, n, newly_categorized(ins, fin, scope, ins.len() as int))
}

/// The category of a row: its explicit id, else the first category whose name equals its hint
/// regardless of case.
pub open spec fn resolved_category(r: RowView, cats: Seq<(Seq<char>, Seq<char>)>) -> Option<Seq<char>> {
    match r.category_id {
        Some(c) => Some(c),
        None => match r.category_hint {
            Some(h) => first_named(cats, lower_of(h), cats.len() as int),
            None => None,
        },
    }
}

/// The id of the first of the first `n` categories whose lowercased name is `lower_hint`.
pub open spec fn first_named(cats: Seq<(Seq<char>, Seq<char>)>, lower_hint: Seq<char>, n: int) -> Option<
    Seq<char>,
>
    decreases n,
{
    if n <= 0 {
        None
    } else {
        match first_named(cats, lower_hint, n - 1) {
            Some(c) => Some(c),
            None => if lower_of(cats[n - 1].1) == lower_hint {
                Some(cats[n - 1].0)
            } else {
                None
            },
        }
    }
}

/// The ledger record that a row becomes.
pub open spec fn entry_of(
    r: RowView,
    id: Seq<char>,
    account: Seq<char>,
    cats: Seq<(Seq<char>, Seq<char>)>,
    batch: Seq<char>,
    source: Seq<char>,
) -> TxView {
    TxView {
        id,
        account_id: account,
        date: r.date,
        amount: r.amount,
        payee: r.payee,
        memo: r.memo,
        category_id: resolved_category(r, cats),
        transfer_id: None,
        transfer_account_id: None,
        import_batch_id: Some(batch),
        import_source: Some(source),
        deleted: false,
    }
}

/// Scope of the rules after an import: the records from `start` on.
pub open spec fn from_index(n: nat, start: int) -> Seq<bool> {
    Seq::new(n, |i: int| i >= start)
}

fn resolve(r: &ImportRow, cats: &Vec<Category>) -> (c: Option<String>)
    ensures
        opt_view(c) == resolved_category(r@, category_views(cats@)),
{
    match &r.category_id {
        Some(c) => {
            return Some(c.clone());
        },
        None => {},
    }
    let hint = match &r.category_hint {
        Some(h) => lowercase(chars_of(h.as_str()).as_slice()),
        None => {
            return None;
        },
    };
    let ghost cv = category_views(cats@);
    let mut k: usize = 0;
    while k < cats.len()
        invariant
            k <= cats@.len(),
            cv == category_views(cats@),
            r@.category_id is None,
            r@.category_hint is Some,
            hint@ == lower_of(r@.category_hint->0),
            first_named(cv, hint@, k as int) is None,
        decreases cats.len() - k,
    {
        assert(cv[k as int] == (cats@[k as int].id@, cats@[k as int].name@));
        let name = lowercase(chars_of(cats[k].name.as_str()).as_slice());
        if same_text(&name, &hint) {
            assert(first_named(cv, hint@, k + 1) == Some(cats@[k as int].id@));
            let mut j = k + 1;
            while j < cats.len()
                invariant
                    k < j <= cats@.len(),
                    cv == category_views(cats@),
                    r@.category_id is None,
                    r@.category_hint is Some,
                    hint@ == lower_of(r@.category_hint->0),
                    first_named(cv, hint@, j as int) == Some(cats@[k as int].id@),
                decreases cats.len() - j,
            {
                j += 1;
            }
            return Some(cats[k].id.clone());
        }
        k += 1;
    }
    None
}

/// Adds to `txs` the rows that are not duplicates, as `import_fold` says; returns how many it
/// added.
pub fn insert_rows(
    txs: &mut Vec<Transaction>,
    account: &String,
    rows: &Vec<ImportRow>,
    cats: &Vec<Category>,
    batch: &String,
    source: &String,
    ids: &Vec<String>,
) -> (r: usize)
    requires
        ids@.len() >= rows@.len(),
    ensures
        (tx_views(final(txs)@), r as nat) == import_fold(
            tx_views(old(txs)@),
            account@,
            row_views(rows@),
            crate::rules::id_views(ids@),
            category_views(cats@),
            batch@,
            source@,
        ),
        r <= rows@.len(),
{
    let ghost start = tx_views(txs@);
    let ghost rv = row_views(rows@);
    let ghost cv = category_views(cats@);
    let ghost iv = crate::rules::id_views(ids@);
    let mut added: usize = 0;
    let mut k: usize = 0;
    while k < rows.len()
        invariant
            k <= rows@.len() <= ids@.len(),
            added <= k,
            rv == row_views(rows@),
            cv == category_views(cats@),
            iv == crate::rules::id_views(ids@),
            (tx_views(txs@), added as nat) == import_fold(start, account@, rv.take(k as int), iv, cv, batch@, source@),
        decreases rows.len() - k,
    {
        let row = &rows[k];
        assert(rv[k as int] == row@);
        assert(rv.take(k + 1).drop_last() =~= rv.take(k as int));
        let mut dup = false;
        let mut j: usize = 0;
        while j < txs.len()
            invariant
                j <= txs@.len(),
                rv[k as int] == row@,
                dup == exists|q: int| 0 <= q < j && same_entry(#[trigger] tx_views(txs@)[q], account@, row@),
            decreases txs.len() - j,
        {
            let t = &txs[j];
            assert(tx_views(txs@)[j as int] == t@);
            if !t.deleted && t.account_id == *account && t.date == row.date && t.amount == row.amount
                && same_opt(&t.payee, &row.payee) {
                dup = true;
            }
            j += 1;
        }
        if !dup {
            let category_id = resolve(row, cats);
            let entry = Transaction {
                id: ids[added].clone(),
                account_id: account.clone(),
                date: row.date.clone(),
                amount: row.amount,
                payee: clone_opt(&row.payee),
                memo: clone_opt(&row.memo),
                category_id,
                transfer_id: None,
                transfer_account_id: None,
                import_batch_id: Some(batch.clone()),
                import_source: Some(source.clone()),
                deleted: false,
            };
            assert(iv[added as int] == ids@[added as int]@);
            let ghost before = tx_views(txs@);
            txs.push(entry);
            assert(tx_views(txs@) =~= before.push(entry_of(row@, iv[added as int], account@, cv, batch@, source@)));
            added += 1;
        }
        k += 1;
    }
    assert(rv.take(rows@.len() as int) =~= rv);
    added
}

/// Imports rows into an account with a given batch id and record ids, then lets the rules
/// categorize the added records.
pub fn import_with_ids(
    txs: &mut Vec<Transaction>,
    account_id: &String,
    rows: &Vec<ImportRow>,
    categories: &Vec<Category>,
    rules: &Vec<CategoryRule>,
    batch_id: String,
    ids: &Vec<String>,
    source: &String,
) -> (r: ImportResult)
    requires
        ids@.len() >= rows@.len(),
    ensures
        ({
            let (fin, n, auto) = import_spec(
                tx_views(old(txs)@),
                account_id@,
                row_views(rows@),
                crate::rules::id_views(ids@),
                category_views(categories@),
                rule_views(rules@),
                batch_id@,
                source@,
            );
            &&& tx_views(final(txs)@) == fin
            &&& r.imported == n
            &&& r.skipped == rows@.len() - n
            &&& r.auto_categorized == auto
            &&& r.batch_id@ == batch_id@
        }),
{
    let start = txs.len();
    let added = insert_rows(txs, account_id, rows, categories, &batch_id, source, ids);
    let mut scope: Vec<bool> = Vec::new();
    let mut i: usize = 0;
    while i < txs.len()
        invariant
            i <= txs@.len(),
            scope@ =~= from_index(txs@.len(), start as int).take(i as int),
        decreases txs.len() - i,
    {
        scope.push(i >= start);
        i += 1;
    }
    assert(scope@ =~= from_index(txs@.len(), start as int));
    let auto = categorize(txs, rules, &scope);
    ImportResult { imported: added, skipped: rows.len() - added, auto_categorized: auto, batch_id }
}

/// Imports rows into an account under a fresh batch id, with fresh record ids, then lets the
/// rules categorize the added records.
pub fn import_transactions(
    txs: &mut Vec<Transaction>,
    account_id: &String,
    rows: &Vec<ImportRow>,
    categories: &Vec<Category>,
    rules: &Vec<CategoryRule>,
    source: &String,
) -> (r: ImportResult)
    ensures
        exists|ids: Seq<Seq<char>>|
            #![trigger import_spec(tx_views(old(txs)@), account_id@, row_views(rows@), ids, category_views(categories@), rule_views(rules@), r.batch_id@, source@)]
            ids.len() >= rows@.len() && {
                let (fin, n, auto) = import_spec(
                    tx_views(old(txs)@),
                    account_id@,
                    row_views(rows@),
                    ids,
                    category_views(categories@),
                    rule_views(rules@),
                    r.batch_id@,
                    source@,
                );
                &&& tx_views(final(txs)@) == fin
                &&& r.imported == n
                &&& r.skipped == rows@.len() - n
                &&& r.auto_categorized == auto
            },
{
    let batch = new_id();
    let mut ids: Vec<String> = Vec::new();
    let mut k: usize = 0;
    while k < rows.len()
        invariant
            k <= rows@.len(),
            ids@.len() == k,
        decreases rows.len() - k,
    {
        ids.push(new_id());
        k += 1;
    }
    let r = import_with_ids(txs, account_id, rows, categories, rules, batch, &ids, source);
    assert(crate::rules::id_views(ids@).len() >= rows@.len());
    r
}

proof fn lemma_balance_same(a: Seq<TxView>, b: Seq<TxView>, account: Seq<char>)
    requires
        a.len() == b.len(),
        forall|i: int|
            0 <= i < a.len() ==> (#[trigger] a[i]).deleted == b[i].deleted && a[i].account_id
                == b[i].account_id && a[i].amount == b[i].amount,
    ensures
        balance_of(a, account) == balance_of(b, account),
    decreases a.len(),
{
    if a.len() > 0 {
        lemma_balance_same(a.drop_last(), b.drop_last(), account);
    }
}

/// Categorizing leaves every account's balance as it was.
pub proof fn lemma_categorize_keeps_balance(
    txs: Seq<TxView>,
    rules: Seq<RuleView>,
    scope: Seq<bool>,
    account: Seq<char>,
)
    requires
        scope.len() == txs.len(),
    ensures
        balance_of(categorized(txs, rules, scope), account) == balance_of(txs, account),
{
    let c = categorized(txs, rules, scope);
    let snap = crate::rules::after_rules(txs, rules, scope);
    assert forall|i: int| 0 <= i < c.len() implies (#[trigger] c[i]).deleted == txs[i].deleted
        && c[i].account_id == txs[i].account_id && c[i].amount == txs[i].amount by {
        assert(snap[i].deleted == txs[i].deleted);
    }
    lemma_balance_same(c, txs, account);
}

/// Importing two rows with the same date, amount and payee into an account that holds no
/// such entry yet adds the first and skips the second: afterwards exactly one live record of
/// the account has that date, amount and payee, and the account's balance has grown by the
/// amount once.
pub proof fn lemma_import_twice(
    txs: Seq<TxView>,
    account: Seq<char>,
    r1: RowView,
    r2: RowView,
    ids: Seq<Seq<char>>,
    cats: Seq<(Seq<char>, Seq<char>)>,
    rules: Seq<RuleView>,
    batch: Seq<char>,
    source: Seq<char>,
)
    requires
        !is_duplicate(txs, account, r1),
        r1.date == r2.date,
        r1.amount == r2.amount,
        r1.payee == r2.payee,
        ids.len() >= 2,
    ensures
        ({
            let (fin, n, _) = import_spec(txs, account, seq![r1, r2], ids, cats, rules, batch, source);
            &&& n == 1
            &&& 2 - n == 1
            &&& fin.len() == txs.len() + 1
            &&& forall|k: int| 0 <= k < fin.len() ==> (same_entry(#[trigger] fin[k], account, r1) <==> k == txs.len())
            &&& balance_of(fin, account) == balance_of(txs, account) + r1.amount
        }),
{
    let rows = seq![r1, r2];
    assert(rows.drop_last() =~= seq![r1]);
    assert(seq![r1].drop_last() =~= Seq::<RowView>::empty());
    let e = entry_of(r1, ids[0], account, cats, batch, source);
    assert(import_fold(txs, account, Seq::<RowView>::empty(), ids, cats, batch, source) == (txs, 0nat));
    assert(seq![r1].last() == r1);
    assert(import_fold(txs, account, seq![r1], ids, cats, batch, source) == (txs.push(e), 1nat));
    let ins = txs.push(e);
    assert(same_entry(ins[txs.len() as int], account, r2));
    assert(is_duplicate(ins, account, r2));
    assert(import_fold(txs, account, rows, ids, cats, batch, source) == (ins, 1nat));
    assert(ins.drop_last() =~= txs);
    assert(balance_of(ins, account) == balance_of(txs, account) + r1.amount);
    let scope = from_index(ins.len(), txs.len() as int);
    lemma_categorize_keeps_balance(ins, rules, scope, account);
    let fin = categorized(ins, rules, scope);
    let snap = crate::rules::after_rules(ins, rules, scope);
    assert forall|k: int| 0 <= k < fin.len() implies (same_entry(#[trigger] fin[k], account, r1) <==> k == txs.len()) by {
        assert(snap[k].deleted == ins[k].deleted && snap[k].date == ins[k].date && snap[k].payee == ins[k].payee);
        if k < txs.len() {
            assert(ins[k] == txs[k]);
            assert(!same_entry(txs[k], account, r1));
        }
    }
}

} // verus!
