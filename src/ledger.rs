//! The ledger records that reconciliation reads and writes.
use vstd::prelude::*;
use crate::error::ImportError;

verus! {

broadcast use vstd::string::group_string_axioms;

/// A persisted transaction of an account.
#[derive(Clone, Debug)]
pub struct Transaction {
    pub id: String,
    pub account_id: String,
    pub date: String,
    pub amount: i64,
    pub payee: Option<String>,
    pub memo: Option<String>,
    pub category_id: Option<String>,
    pub transfer_id: Option<String>,
    pub transfer_account_id: Option<String>,
    pub import_batch_id: Option<String>,
    pub import_source: Option<String>,
    pub deleted: bool,
}

pub struct TxView {
    pub id: Seq<char>,
    pub account_id: Seq<char>,
    pub date: Seq<char>,
    pub amount: i64,
    pub payee: Option<Seq<char>>,
    pub memo: Option<Seq<char>>,
    pub category_id: Option<Seq<char>>,
    pub transfer_id: Option<Seq<char>>,
    pub transfer_account_id: Option<Seq<char>>,
    pub import_batch_id: Option<Seq<char>>,
    pub import_source: Option<Seq<char>>,
    pub deleted: bool,
}

pub open spec fn opt_view(o: Option<String>) -> Option<Seq<char>> {
    match o {
        Some(s) => Some(s@),
        None => None,
    }
}

impl View for Transaction {
    type V = TxView;

    open spec fn view(&self) -> TxView {
        TxView {
            id: self.id@,
            account_id: self.account_id@,
            date: self.date@,
            amount: self.amount,
            payee: opt_view(self.payee),
            memo: opt_view(self.memo),
            category_id: opt_view(self.category_id),
            transfer_id: opt_view(self.transfer_id),
            transfer_account_id: opt_view(self.transfer_account_id),
            import_batch_id: opt_view(self.import_batch_id),
            import_source: opt_view(self.import_source),
            deleted: self.deleted,
        }
    }
}

pub open spec fn tx_views(v: Seq<Transaction>) -> Seq<TxView> {
    v.map_values(|t: Transaction| t@)
}

/// Whether two optional texts are equal (absent equals absent).
pub fn same_opt(a: &Option<String>, b: &Option<String>) -> (r: bool)
    ensures
        r == (opt_view(*a) == opt_view(*b)),
{
    match (a, b) {
        (Some(x), Some(y)) => *x == *y,
        (None, None) => true,
        _ => false,
    }
}

pub fn clone_opt(a: &Option<String>) -> (r: Option<String>)
    ensures
        opt_view(r) == opt_view(*a),
{
    match a {
        Some(x) => Some(x.clone()),
        None => None,
    }
}

/// The sum of the amounts of the live transactions of `account` among `txs`.
pub open spec fn balance_of(txs: Seq<TxView>, account: Seq<char>) -> int
    decreases txs.len(),
{
    if txs.len() == 0 {
        0
    } else {
        balance_of(txs.drop_last(), account) + if !txs.last().deleted && txs.last().account_id
            == account {
            txs.last().amount as int
        } else {
            0int
        }
    }
}

/// The running balance of an account: the sum of the amounts of its live transactions, when
/// it fits in `i64`.
pub fn account_balance(txs: &Vec<Transaction>, account_id: &String) -> (r: Option<i64>)
    ensures
        match r {
            Some(b) => b == balance_of(tx_views(txs@), account_id@),
            None => !(i64::MIN <= balance_of(tx_views(txs@), account_id@) <= i64::MAX),
        },
{
    let ghost all = tx_views(txs@);
    let mut sum: i128 = 0;
    let mut i: usize = 0;
    while i < txs.len()
        invariant
            i <= txs@.len(),
            all == tx_views(txs@),
            sum == balance_of(all.take(i as int), account_id@),
            -(i as int) * 0x8000_0000_0000_0000 <= sum <= (i as int) * 0x8000_0000_0000_0000,
        decreases txs.len() - i,
    {
        assert(all.take(i + 1).drop_last() =~= all.take(i as int));
        assert(all.take(i + 1).last() == txs@[i as int]@);
        let t = &txs[i];
        if !t.deleted && t.account_id == *account_id {
            sum = sum + t.amount as i128;
        }
        i += 1;
        assert(-(i as int) * 0x8000_0000_0000_0000 <= sum <= (i as int) * 0x8000_0000_0000_0000)
            by (nonlinear_arith)
            requires
                -((i - 1) as int) * 0x8000_0000_0000_0000 - 0x8000_0000_0000_0000 <= sum <= ((i - 1) as int)
                    * 0x8000_0000_0000_0000 + 0x8000_0000_0000_0000,
        ;
    }
    assert(all.take(txs@.len() as int) =~= all);
    if sum < i64::MIN as i128 || sum > i64::MAX as i128 {
        None
    } else {
        Some(sum as i64)
    }
}

/// Relies on `uuid::Uuid::new_v4` and its `to_string`: a fresh random identifier. Nothing is
/// claimed of its value.
#[verifier::external_body]
pub(crate) fn new_id() -> (r: String) {
    uuid::Uuid::new_v4().to_string()
}

/// Index of the first transaction at or after `k` with id `id`.
pub open spec fn index_from(txs: Seq<TxView>, id: Seq<char>, k: int) -> Option<int>
    decreases txs.len() - k,
{
    if k < 0 || k >= txs.len() {
        None
    } else if txs[k].id == id {
        Some(k)
    } else {
        index_from(txs, id, k + 1)
    }
}

/// Index of the first transaction with id `id`.
pub open spec fn index_of(txs: Seq<TxView>, id: Seq<char>) -> Option<int> {
    index_from(txs, id, 0)
}

proof fn lemma_index_from(txs: Seq<TxView>, id: Seq<char>, k: int)
    requires
        0 <= k,
    ensures
        index_from(txs, id, k) matches Some(i) ==> k <= i < txs.len(),
    decreases txs.len() - k,
{
    if k < txs.len() && txs[k].id != id {
        lemma_index_from(txs, id, k + 1);
    }
}

fn find_index(txs: &Vec<Transaction>, id: &String) -> (r: Option<usize>)
    ensures
        match r {
            Some(k) => k < txs@.len() && index_of(tx_views(txs@), id@) == Some(k as int),
            None => index_of(tx_views(txs@), id@) is None,
        },
{
    let ghost all = tx_views(txs@);
    let mut k: usize = 0;
    while k < txs.len()
        invariant
            k <= txs@.len(),
            all == tx_views(txs@),
            index_from(all, id@, k as int) == index_from(all, id@, 0),
        decreases txs.len() - k,
    {
        assert(all[k as int] == txs@[k as int]@);
        if txs[k].id == *id {
            return Some(k);
        }
        k += 1;
    }
    None
}

/// Whether a transaction holds transfer id `id`.
pub open spec fn held_by(txs: Seq<TxView>, id: Seq<char>) -> bool {
    exists|k: int| 0 <= k < txs.len() && txs[k].transfer_id == Some(id)
}

fn holds_transfer_id(txs: &Vec<Transaction>, id: &Vec<char>) -> (r: bool)
    ensures
        r == held_by(tx_views(txs@), id@),
{
    let ghost all = tx_views(txs@);
    let mut k: usize = 0;
    while k < txs.len()
        invariant
            k <= txs@.len(),
            all == tx_views(txs@),
            forall|m: int| 0 <= m < k ==> all[m].transfer_id != Some(id@),
        decreases txs.len() - k,
    {
        assert(all[k as int] == txs@[k as int]@);
        match &txs[k].transfer_id {
            Some(t) => {
                let tc = crate::text::chars_of(t.as_str());
                if crate::text::same_text(tc.as_slice(), id.as_slice()) {
                    return true;
                }
            },
            None => {},
        }
        k += 1;
    }
    false
}

/// A transfer id that no transaction holds: a fresh random one, lengthened with 'x' while
/// some transaction holds it.
fn fresh_transfer_id(txs: &Vec<Transaction>) -> (r: String)
    ensures
        !held_by(tx_views(txs@), r@),
{
    let ghost all = tx_views(txs@);
    let mut longest: usize = 0;
    let mut k: usize = 0;
    while k < txs.len()
        invariant
            k <= txs@.len(),
            all == tx_views(txs@),
            forall|m: int| 0 <= m < k ==> (#[trigger] all[m].transfer_id matches Some(t) ==> t.len() <= longest),
        decreases txs.len() - k,
    {
        assert(all[k as int] == txs@[k as int]@);
        match &txs[k].transfer_id {
            Some(t) => {
                let n = crate::text::chars_of(t.as_str()).len();
                if n > longest {
                    longest = n;
                }
            },
            None => {},
        }
        k += 1;
    }
    let mut id = crate::text::chars_of(new_id().as_str());
    while holds_transfer_id(txs, &id)
        invariant
            all == tx_views(txs@),
            forall|m: int| 0 <= m < all.len() ==> (#[trigger] all[m].transfer_id matches Some(t) ==> t.len() <= longest),
        decreases longest as int + 1 - id@.len(),
    {
        assert(id@.len() <= longest);
        id.push('x');
    }
    crate::text::string_of(id.as_slice())
}

/// Links the transactions with ids `a` and `b` as the two sides of one transfer under a
/// transfer id that no transaction held, which it returns; each records the other's account.
/// Fails with `NotFound` when either id is unknown, changing nothing.
pub fn link_transfer(txs: &mut Vec<Transaction>, a: &String, b: &String) -> (r: Result<String, ImportError>)
    ensures
        ({
            let before = tx_views(old(txs)@);
            let after = tx_views(final(txs)@);
            match (index_of(before, a@), index_of(before, b@)) {
                (Some(i), Some(j)) => r is Ok && after == before.update(
                    i,
                    TxView { transfer_id: Some(r->Ok_0@), transfer_account_id: Some(before[j].account_id), ..before[i] },
                ).update(
                    j,
                    TxView { transfer_id: Some(r->Ok_0@), transfer_account_id: Some(before[i].account_id), ..before[j] },
                ),
                _ => r == Err::<String, ImportError>(ImportError::NotFound) && after == before,
            }
        }),
        r matches Ok(t) ==> !held_by(tx_views(old(txs)@), t@),
{
    proof {
        lemma_index_from(tx_views(txs@), a@, 0);
        lemma_index_from(tx_views(txs@), b@, 0);
    }
    let ia = match find_index(txs, a) {
        Some(i) => i,
        None => {
            return Err(ImportError::NotFound);
        },
    };
    let ib = match find_index(txs, b) {
        Some(j) => j,
        None => {
            return Err(ImportError::NotFound);
        },
    };
    let ghost before = tx_views(txs@);
    let ghost old_txs = txs@;
    let tid = fresh_transfer_id(txs);
    let account_a = txs[ia].account_id.clone();
    let account_b = txs[ib].account_id.clone();
    txs[ia].transfer_id = Some(tid.clone());
    txs[ia].transfer_account_id = Some(account_b);
    txs[ib].transfer_id = Some(tid.clone());
    txs[ib].transfer_account_id = Some(account_a);
    let ghost goal = before.update(
        ia as int,
        TxView { transfer_id: Some(tid@), transfer_account_id: Some(before[ib as int].account_id), ..before[ia as int] },
    ).update(
        ib as int,
        TxView { transfer_id: Some(tid@), transfer_account_id: Some(before[ia as int].account_id), ..before[ib as int] },
    );
    assert forall|k: int| 0 <= k < txs@.len() implies #[trigger] tx_views(txs@)[k] == goal[k] by {
        assert(before[k] == old_txs[k]@);
        if k != ia && k != ib {
            assert(txs@[k] == old_txs[k]);
        }
    }
    assert(tx_views(txs@) =~= goal);
    Ok(tid)
}

/// The ledger after clearing the transfer link of every transaction that shares transfer id
/// `tid`.
pub open spec fn unlinked(txs: Seq<TxView>, tid: Seq<char>) -> Seq<TxView> {
    Seq::new(
        txs.len(),
        |k: int|
            if txs[k].transfer_id == Some(tid) {
                TxView { transfer_id: None, transfer_account_id: None, ..txs[k] }
            } else {
                txs[k]
            },
    )
}

/// Clears the transfer link of the transaction with id `id` and of every transaction that
/// shares its transfer id. Fails with `NotFound` when the id is unknown.
pub fn unlink_transfer(txs: &mut Vec<Transaction>, id: &String) -> (r: Result<(), ImportError>)
    ensures
        ({
            let before = tx_views(old(txs)@);
            let after = tx_views(final(txs)@);
            match index_of(before, id@) {
                Some(i) => r is Ok && match before[i].transfer_id {
                    Some(tid) => after == unlinked(before, tid),
                    None => after == before,
                },
                None => r == Err::<(), ImportError>(ImportError::NotFound) && after == before,
            }
        }),
{
    let i = match find_index(txs, id) {
        Some(i) => i,
        None => {
            return Err(ImportError::NotFound);
        },
    };
    let tid = match &txs[i].transfer_id {
        Some(t) => t.clone(),
        None => {
            return Ok(());
        },
    };
    let ghost before = tx_views(txs@);
    let ghost goal = unlinked(before, tid@);
    let mut k: usize = 0;
    while k < txs.len()
        invariant
            k <= txs@.len() == before.len(),
            goal == unlinked(before, tid@),
            forall|m: int| 0 <= m < k ==> txs@[m]@ == #[trigger] goal[m],
            forall|m: int| k <= m < txs@.len() ==> txs@[m]@ == #[trigger] before[m],
        decreases txs.len() - k,
    {
        assert(txs@[k as int]@ == before[k as int]);
        let shares = match &txs[k].transfer_id {
            Some(t) => *t == tid,
            None => false,
        };
        if shares {
            txs[k].transfer_id = None;
            txs[k].transfer_account_id = None;
        }
        assert(txs@[k as int]@ == goal[k as int]);
        k += 1;
    }
    assert(tx_views(txs@) =~= goal);
    Ok(())
}

pub open spec fn id_list(v: Seq<String>) -> Seq<Seq<char>> {
    v.map_values(|s: String| s@)
}

/// Whether `id` is among `ids`.
fn listed(ids: &Vec<String>, id: &String) -> (r: bool)
    ensures
        r == id_list(ids@).contains(id@),
{
    let mut k: usize = 0;
    while k < ids.len()
        invariant
            k <= ids@.len(),
            forall|m: int| 0 <= m < k ==> ids@[m]@ != id@,
        decreases ids.len() - k,
    {
        if ids[k] == *id {
            assert(id_list(ids@)[k as int] == id@);
            return true;
        }
        k += 1;
    }
    assert forall|m: int| 0 <= m < id_list(ids@).len() implies id_list(ids@)[m] != id@ by {
        assert(id_list(ids@)[m] == ids@[m]@);
    }
    false
}

/// The ledger with every listed transaction marked deleted.
pub open spec fn soft_deleted(txs: Seq<TxView>, ids: Seq<Seq<char>>) -> Seq<TxView> {
    Seq::new(
        txs.len(),
        |k: int|
            if ids.contains(txs[k].id) {
                TxView { deleted: true, ..txs[k] }
            } else {
                txs[k]
            },
    )
}

/// Marks the listed transactions deleted; their amounts then leave their accounts' balances.
/// Fails with `NotFound`, changing nothing, when an id is unknown.
pub fn delete_transactions(txs: &mut Vec<Transaction>, ids: &Vec<String>) -> (r: Result<(), ImportError>)
    ensures
        ({
            let before = tx_views(old(txs)@);
            let after = tx_views(final(txs)@);
            if forall|m: int| 0 <= m < ids@.len() ==> #[trigger] index_of(before, ids@[m]@) is Some {
                r is Ok && after == soft_deleted(before, id_list(ids@))
            } else {
                r == Err::<(), ImportError>(ImportError::NotFound) && after == before
            }
        }),
{
    let ghost before = tx_views(txs@);
    let mut m: usize = 0;
    while m < ids.len()
        invariant
            m <= ids@.len(),
            before == tx_views(txs@),
            forall|q: int| 0 <= q < m ==> #[trigger] index_of(before, ids@[q]@) is Some,
        decreases ids.len() - m,
    {
        match find_index(txs, &ids[m]) {
            Some(_) => {},
            None => {
                return Err(ImportError::NotFound);
            },
        }
        m += 1;
    }
    let ghost goal = soft_deleted(before, id_list(ids@));
    let mut k: usize = 0;
    while k < txs.len()
        invariant
            k <= txs@.len() == before.len(),
            goal == soft_deleted(before, id_list(ids@)),
            forall|q: int| 0 <= q < k ==> txs@[q]@ == #[trigger] goal[q],
            forall|q: int| k <= q < txs@.len() ==> txs@[q]@ == #[trigger] before[q],
        decreases txs.len() - k,
    {
        assert(txs@[k as int]@ == before[k as int]);
        if listed(ids, &txs[k].id) {
            txs[k].deleted = true;
        }
        assert(txs@[k as int]@ == goal[k as int]);
        k += 1;
    }
    assert(tx_views(txs@) =~= goal);
    Ok(())
}

/// The ledger with every listed transaction given `category`.
pub open spec fn recategorized(txs: Seq<TxView>, ids: Seq<Seq<char>>, category: Seq<char>) -> Seq<TxView> {
    Seq::new(
        txs.len(),
        |k: int|
            if ids.contains(txs[k].id) {
                TxView { category_id: Some(category), ..txs[k] }
            } else {
                txs[k]
            },
    )
}

/// Gives every listed transaction the category `category_id`; unknown ids are passed over.
pub fn bulk_categorize(txs: &mut Vec<Transaction>, ids: &Vec<String>, category_id: &String)
    ensures
        tx_views(final(txs)@) == recategorized(tx_views(old(txs)@), id_list(ids@), category_id@),
{
    let ghost before = tx_views(txs@);
    let ghost goal = recategorized(before, id_list(ids@), category_id@);
    let mut k: usize = 0;
    while k < txs.len()
        invariant
            k <= txs@.len() == before.len(),
            goal == recategorized(before, id_list(ids@), category_id@),
            forall|q: int| 0 <= q < k ==> txs@[q]@ == #[trigger] goal[q],
            forall|q: int| k <= q < txs@.len() ==> txs@[q]@ == #[trigger] before[q],
        decreases txs.len() - k,
    {
        assert(txs@[k as int]@ == before[k as int]);
        if listed(ids, &txs[k].id) {
            txs[k].category_id = Some(category_id.clone());
        }
        assert(txs@[k as int]@ == goal[k as int]);
        k += 1;
    }
    assert(tx_views(txs@) =~= goal);
}

} // verus!
