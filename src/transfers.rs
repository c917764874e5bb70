//! Pairs of transactions in different accounts that look like the two sides of one transfer.
use vstd::prelude::*;
use crate::text::{chars_of, lower_of, lowercase};
use crate::ledger::{Transaction, TxView, tx_views, opt_view};
use crate::dates::{CivilDate, valid_date, day_of, parsed_date, day_number, parse_with_format, day_index};
use crate::document::{count_in, count_words, views, word_list};

verus! {

broadcast use vstd::string::group_string_axioms;

/// A likely transfer: the transactions at `index_a` and `index_b` of the ledger, with their ids,
/// and the confidence of the match in thousandths.
pub struct TransferCandidate {
    pub transaction_a_id: String,
    pub transaction_b_id: String,
    pub index_a: usize,
    pub index_b: usize,
    pub confidence_permille: u32,
}

pub open spec fn transfer_keywords() -> Seq<Seq<char>> {
    seq!["transfer"@, "xfer"@, "payment"@, "ach"@, "wire"@, "zelle"@, "venmo"@]
}

pub open spec fn names_transfer(p: Seq<char>) -> bool {
    count_in(lower_of(p), transfer_keywords()) >= 1
}

/// How alike two payees are, in thousandths: 800 when both name a transfer, 500 when one
/// does, 300 when neither does or either is absent.
pub open spec fn payee_similarity(a: Option<Seq<char>>, b: Option<Seq<char>>) -> int {
    match (a, b) {
        (Some(x), Some(y)) => if names_transfer(x) && names_transfer(y) {
            800
        } else if names_transfer(x) || names_transfer(y) {
            500
        } else {
            300
        },
        _ => 300,
    }
}

/// The day of a ledger date written `YYYY-MM-DD`.
pub open spec fn ledger_day(t: TxView) -> Option<int> {
    match parsed_date(t.date, "%Y-%m-%d"@) {
        Some((y, m, d)) => Some(day_number(y, m, d)),
        None => None,
    }
}

/// A live, unlinked transaction dated within the 90 days up to `today`.
pub open spec fn open_recent(t: TxView, today: int) -> bool {
    !t.deleted && t.transfer_id is None && (ledger_day(t) matches Some(d) && d >= today - 90)
}

pub open spec fn abs(x: int) -> int {
    if x < 0 {
        -x
    } else {
        x
    }
}

/// The confidence, in thousandths, that `a` and `b` are the two sides of one transfer: both
/// open and recent, in different accounts, with opposite amounts, dated at most five days
/// apart; then `600 * (1 - days / 5) + 0.4 * similarity`.
pub open spec fn pair_confidence(a: TxView, b: TxView, today: int) -> Option<int> {
    if open_recent(a, today) && open_recent(b, today) && a.account_id != b.account_id && a.amount
        == -b.amount && abs(ledger_day(a)->0 - ledger_day(b)->0) <= 5 {
        Some(600 - 120 * abs(ledger_day(a)->0 - ledger_day(b)->0) + payee_similarity(a.payee, b.payee)
            * 2 / 5)
    } else {
        None
    }
}

pub struct Pair {
    pub a: int,
    pub b: int,
    pub conf: int,
}

/// The pairs `(i, j)` with `i < j < m` whose confidence exceeds one half, in order of `j`.
pub open spec fn row_pairs(txs: Seq<TxView>, today: int, i: int, m: int) -> Seq<Pair>
    decreases m,
{
    if m <= 0 || m <= i + 1 {
        Seq::empty()
    } else {
        let rest = row_pairs(txs, today, i, m - 1);
        match pair_confidence(txs[i], txs[m - 1], today) {
            Some(c) => if c > 500 {
                rest.push(Pair { a: i, b: m - 1, conf: c })
            } else {
                rest
            },
            None => rest,
        }
    }
}

/// The pairs whose first index is below `k`, by first index, then second.
pub open spec fn all_pairs(txs: Seq<TxView>, today: int, k: int) -> Seq<Pair>
    decreases k,
{
    if k <= 0 {
        Seq::empty()
    } else {
        all_pairs(txs, today, k - 1) + row_pairs(txs, today, k - 1, txs.len() as int)
    }
}

/// Where a pair of confidence `c` goes in a list sorted by confidence, highest first: after
/// every pair of confidence `c` or more.
pub open spec fn insert_pos(l: Seq<Pair>, c: int, k: int) -> int
    decreases l.len() - k,
{
    if k < 0 || k >= l.len() || l[k].conf < c {
        k
    } else {
        insert_pos(l, c, k + 1)
    }
}

/// `l` sorted by confidence, highest first, pairs of equal confidence kept in their order.
pub open spec fn by_confidence(l: Seq<Pair>) -> Seq<Pair>
    decreases l.len(),
{
    if l.len() == 0 {
        l
    } else {
        let s = by_confidence(l.drop_last());
        s.insert(insert_pos(s, l.last().conf, 0), l.last())
    }
}

/// The twenty most confident transfer pairs (or fewer), highest first.
pub open spec fn transfer_matches(txs: Seq<TxView>, today: int) -> Seq<Pair> {
    let s = by_confidence(all_pairs(txs, today, txs.len() as int));
    if s.len() > 20 {
        s.take(20)
    } else {
        s
    }
}

fn transfer_words() -> (r: Vec<Vec<char>>)
    ensures
        views(r@) == transfer_keywords(),
{
    let list = ["transfer", "xfer", "payment", "ach", "wire", "zelle", "venmo"];
    let r = word_list(&list);
    assert(views(r@) =~= transfer_keywords());
    r
}

/// How alike two payees are, in thousandths.
pub fn calculate_payee_similarity(a: &Option<String>, b: &Option<String>) -> (r: u32)
    ensures
        r == payee_similarity(opt_view(*a), opt_view(*b)),
{
    match (a, b) {
        (Some(x), Some(y)) => {
            let words = transfer_words();
            let la = lowercase(chars_of(x.as_str()).as_slice());
            let lb = lowercase(chars_of(y.as_str()).as_slice());
            let ha = count_words(&la, &words) >= 1;
            let hb = count_words(&lb, &words) >= 1;
            if ha && hb {
                800
            } else if ha || hb {
                500
            } else {
                300
            }
        },
        _ => 300,
    }
}

/// The day of each transaction that is open and recent, by index.
fn open_days(txs: &Vec<Transaction>, today: i32) -> (r: Vec<Option<i32>>)
    ensures
        r@.len() == txs@.len(),
        forall|i: int|
            0 <= i < txs@.len() ==> match #[trigger] r@[i] {
                Some(d) => open_recent(txs@[i]@, today as int) && ledger_day(txs@[i]@) == Some(
                    d as int,
                ),
                None => !open_recent(txs@[i]@, today as int),
            },
{
    let mut out: Vec<Option<i32>> = Vec::new();
    let mut i: usize = 0;
    while i < txs.len()
        invariant
            i <= txs@.len(),
            out@.len() == i,
            forall|k: int|
                0 <= k < i ==> match #[trigger] out@[k] {
                    Some(d) => open_recent(txs@[k]@, today as int) && ledger_day(txs@[k]@) == Some(
                        d as int,
                    ),
                    None => !open_recent(txs@[k]@, today as int),
                },
        decreases txs.len() - i,
    {
        let t = &txs[i];
        let mut v: Option<i32> = None;
        if !t.deleted && t.transfer_id.is_none() {
            match parse_with_format(t.date.as_str(), "%Y-%m-%d") {
                Some(d) => {
                    let n = day_index(&d);
                    if n as i64 >= today as i64 - 90 {
                        v = Some(n);
                    }
                },
                None => {},
            }
        }
        out.push(v);
        i += 1;
    }
    out
}

fn insert_sorted(l: &mut Vec<TransferCandidate>, c: TransferCandidate) -> (k: usize)
    ensures
        k == insert_pos(cand_views(old(l)@), c.confidence_permille as int, 0),
        k <= old(l)@.len(),
        final(l)@ == old(l)@.insert(k as int, c),
        cand_views(final(l)@) == cand_views(old(l)@).insert(k as int, cand_view(c)),
{
    let ghost s = cand_views(l@);
    let mut k: usize = 0;
    while k < l.len() && l[k].confidence_permille >= c.confidence_permille
        invariant
            k <= l@.len(),
            s == cand_views(l@),
            insert_pos(s, c.confidence_permille as int, k as int) == insert_pos(
                s,
                c.confidence_permille as int,
                0,
            ),
        decreases l.len() - k,
    {
        assert(s[k as int] == cand_view(l@[k as int]));
        k += 1;
    }
    proof {
        if k < l@.len() {
            assert(s[k as int] == cand_view(l@[k as int]));
        }
    }
    let ghost cv = cand_view(c);
    l.insert(k, c);
    assert(cand_views(l@) =~= s.insert(k as int, cv));
    k
}

pub open spec fn cand_view(c: TransferCandidate) -> Pair {
    Pair { a: c.index_a as int, b: c.index_b as int, conf: c.confidence_permille as int }
}

pub open spec fn cand_views(v: Seq<TransferCandidate>) -> Seq<Pair> {
    v.map_values(|c: TransferCandidate| cand_view(c))
}

/// The twenty most confident transfer pairs among the transactions (or fewer), highest first,
/// `today` being the day that the 90-day window ends.
pub fn detect_transfers(txs: &Vec<Transaction>, today: &CivilDate) -> (r: Vec<TransferCandidate>)
    requires
        valid_date(*today),
    ensures
        cand_views(r@) == transfer_matches(tx_views(txs@), day_of(*today)),
        forall|k: int|
            0 <= k < r@.len() ==> (#[trigger] r@[k]).transaction_a_id@ == txs@[r@[k].index_a as int].id@
                && r@[k].transaction_b_id@ == txs@[r@[k].index_b as int].id@,
{
    let t = day_index(today);
    let ghost all = tx_views(txs@);
    let days = open_days(txs, t);
    let n = txs.len();
    let mut sorted: Vec<TransferCandidate> = Vec::new();
    let ghost found: Seq<Pair> = Seq::empty();
    let mut i: usize = 0;
    while i < n
        invariant
            i <= n == txs@.len() == days@.len(),
            all == tx_views(txs@),
            found == all_pairs(all, t as int, i as int),
            cand_views(sorted@) == by_confidence(found),
            forall|k: int|
                0 <= k < sorted@.len() ==> (#[trigger] sorted@[k]).index_a < n && sorted@[k].index_b < n
                    && sorted@[k].transaction_a_id@ == txs@[sorted@[k].index_a as int].id@
                    && sorted@[k].transaction_b_id@ == txs@[sorted@[k].index_b as int].id@,
            forall|k: int|
                0 <= k < n ==> match #[trigger] days@[k] {
                    Some(d) => open_recent(txs@[k]@, t as int) && ledger_day(txs@[k]@) == Some(d as int),
                    None => !open_recent(txs@[k]@, t as int),
                },
        decreases n - i,
    {
        let ghost row_start = found;
        let mut j: usize = i + 1;
        while j < n
            invariant
                i < n == txs@.len() == days@.len(),
                i + 1 <= j <= n,
                all == tx_views(txs@),
                found == all_pairs(all, t as int, i as int) + row_pairs(all, t as int, i as int, j as int),
                cand_views(sorted@) == by_confidence(found),
                forall|k: int|
                    0 <= k < sorted@.len() ==> (#[trigger] sorted@[k]).index_a < n && sorted@[k].index_b < n
                        && sorted@[k].transaction_a_id@ == txs@[sorted@[k].index_a as int].id@
                        && sorted@[k].transaction_b_id@ == txs@[sorted@[k].index_b as int].id@,
                forall|k: int|
                    0 <= k < n ==> match #[trigger] days@[k] {
                        Some(d) => open_recent(txs@[k]@, t as int) && ledger_day(txs@[k]@) == Some(d as int),
                        None => !open_recent(txs@[k]@, t as int),
                    },
            decreases n - j,
        {
            let a = &txs[i];
            let b = &txs[j];
            assert(all[i as int] == a@ && all[j as int] == b@);
            let ghost conf = pair_confidence(all[i as int], all[j as int], t as int);
            let mut keep: Option<u32> = None;
            match (days[i], days[j]) {
                (Some(da), Some(db)) => {
                    if !(a.account_id == b.account_id) && a.amount as i128 == -(b.amount as i128) {
                        let diff: i64 = if da >= db { da as i64 - db as i64 } else { db as i64 - da as i64 };
                        if diff <= 5 {
                            let sim = calculate_payee_similarity(&a.payee, &b.payee);
                            let c: i64 = 600 - 120 * diff + (sim as i64) * 2 / 5;
                            assert(conf == Some(c as int));
                            if c > 500 {
                                keep = Some(c as u32);
                            }
                        } else {
                            assert(conf is None);
                        }
                    } else {
                        assert(conf is None);
                    }
                },
                _ => {
                    assert(conf is None);
                },
            }
            proof {
                let old_found = found;
                let rp = row_pairs(all, t as int, i as int, j as int);
                assert(row_pairs(all, t as int, i as int, j + 1) == match conf {
                    Some(c) => if c > 500 { rp.push(Pair { a: i as int, b: j as int, conf: c }) } else { rp },
                    None => rp,
                });
                match keep {
                    Some(c) => {
                        found = old_found.push(Pair { a: i as int, b: j as int, conf: c as int });
                        assert(found =~= all_pairs(all, t as int, i as int) + row_pairs(all, t as int, i as int, j + 1));
                        assert(found.drop_last() =~= old_found);
                    },
                    None => {
                        assert(old_found =~= all_pairs(all, t as int, i as int) + row_pairs(all, t as int, i as int, j + 1));
                    },
                }
            }
            match keep {
                Some(c) => {
                    let cand = TransferCandidate {
                        transaction_a_id: a.id.clone(),
                        transaction_b_id: b.id.clone(),
                        index_a: i,
                        index_b: j,
                        confidence_permille: c,
                    };
                    let ghost before = sorted@;
                    let pos = insert_sorted(&mut sorted, cand);
                    assert forall|k: int| 0 <= k < sorted@.len() implies (#[trigger] sorted@[k]).index_a < n
                        && sorted@[k].index_b < n && sorted@[k].transaction_a_id@ == txs@[sorted@[k].index_a as int].id@
                        && sorted@[k].transaction_b_id@ == txs@[sorted@[k].index_b as int].id@ by {
                        if k < pos {
                            assert(sorted@[k] == before[k]);
                        } else if k > pos {
                            assert(sorted@[k] == before[k - 1]);
                        }
                    }
                },
                None => {},
            }
            j += 1;
        }
        assert(found =~= all_pairs(all, t as int, i + 1));
        i += 1;
    }
    if sorted.len() > 20 {
        sorted.truncate(20);
        assert(cand_views(sorted@) =~= by_confidence(found).take(20));
    }
    sorted
}

/// A pair that the matcher may report: two transactions in ledger order whose confidence is
/// `p.conf`, above one half.
pub open spec fn genuine(txs: Seq<TxView>, today: int, p: Pair) -> bool {
    0 <= p.a < p.b < txs.len() && pair_confidence(txs[p.a], txs[p.b], today) == Some(p.conf)
        && p.conf > 500
}

proof fn lemma_row_pairs_genuine(txs: Seq<TxView>, today: int, i: int, m: int)
    requires
        0 <= i,
        m <= txs.len(),
    ensures
        forall|k: int| 0 <= k < row_pairs(txs, today, i, m).len() ==> genuine(txs, today, #[trigger] row_pairs(txs, today, i, m)[k]),
    decreases m,
{
    if m > 0 && m > i + 1 {
        lemma_row_pairs_genuine(txs, today, i, m - 1);
        let rest = row_pairs(txs, today, i, m - 1);
        let r = row_pairs(txs, today, i, m);
        assert forall|k: int| 0 <= k < r.len() implies genuine(txs, today, #[trigger] r[k]) by {
            if k < rest.len() {
                assert(r[k] == rest[k]);
            }
        }
    }
}

proof fn lemma_all_pairs_genuine(txs: Seq<TxView>, today: int, k: int)
    requires
        k <= txs.len(),
    ensures
        forall|q: int| 0 <= q < all_pairs(txs, today, k).len() ==> genuine(txs, today, #[trigger] all_pairs(txs, today, k)[q]),
    decreases k,
{
    if k > 0 {
        lemma_all_pairs_genuine(txs, today, k - 1);
        lemma_row_pairs_genuine(txs, today, k - 1, txs.len() as int);
        let a = all_pairs(txs, today, k - 1);
        let r = row_pairs(txs, today, k - 1, txs.len() as int);
        assert forall|q: int| 0 <= q < (a + r).len() implies genuine(txs, today, #[trigger] (a + r)[q]) by {
            if q < a.len() {
                assert((a + r)[q] == a[q]);
            } else {
                assert((a + r)[q] == r[q - a.len()]);
            }
        }
    }
}

proof fn lemma_by_confidence_genuine(txs: Seq<TxView>, today: int, l: Seq<Pair>)
    requires
        forall|q: int| 0 <= q < l.len() ==> genuine(txs, today, #[trigger] l[q]),
    ensures
        by_confidence(l).len() == l.len(),
        forall|q: int| 0 <= q < by_confidence(l).len() ==> genuine(txs, today, #[trigger] by_confidence(l)[q]),
    decreases l.len(),
{
    if l.len() > 0 {
        let d = l.drop_last();
        assert forall|q: int| 0 <= q < d.len() implies genuine(txs, today, #[trigger] d[q]) by {
            assert(d[q] == l[q]);
        }
        lemma_by_confidence_genuine(txs, today, d);
        let s = by_confidence(d);
        let p = insert_pos(s, l.last().conf, 0);
        lemma_insert_pos(s, l.last().conf, 0);
        assert(genuine(txs, today, l[l.len() - 1]));
        assert forall|q: int| 0 <= q < s.insert(p, l.last()).len() implies genuine(txs, today, #[trigger] s.insert(p, l.last())[q]) by {
            if q < p {
                assert(s.insert(p, l.last())[q] == s[q]);
            } else if q > p {
                assert(s.insert(p, l.last())[q] == s[q - 1]);
            }
        }
    }
}

proof fn lemma_insert_pos(l: Seq<Pair>, c: int, k: int)
    requires
        0 <= k <= l.len(),
    ensures
        k <= insert_pos(l, c, k) <= l.len(),
    decreases l.len() - k,
{
    if k < l.len() && l[k].conf >= c {
        lemma_insert_pos(l, c, k + 1);
    }
}

/// Every reported pair joins two transactions of different accounts whose amounts are exact
/// opposites and whose dates are at most five days apart, with a confidence above one half.
pub proof fn lemma_matches_are_opposite(txs: Seq<TxView>, today: int)
    ensures
        forall|k: int| 0 <= k < transfer_matches(txs, today).len() ==> {
            let p = #[trigger] transfer_matches(txs, today)[k];
            &&& 0 <= p.a < p.b < txs.len()
            &&& txs[p.a].amount == -txs[p.b].amount
            &&& txs[p.a].account_id != txs[p.b].account_id
            &&& abs(ledger_day(txs[p.a])->0 - ledger_day(txs[p.b])->0) <= 5
            &&& p.conf > 500
        },
{
    lemma_all_pairs_genuine(txs, today, txs.len() as int);
    lemma_by_confidence_genuine(txs, today, all_pairs(txs, today, txs.len() as int));
    let s = by_confidence(all_pairs(txs, today, txs.len() as int));
    assert forall|k: int| 0 <= k < transfer_matches(txs, today).len() implies genuine(txs, today, #[trigger] transfer_matches(txs, today)[k]) by {
        assert(transfer_matches(txs, today)[k] == s[k]);
    }
}

} // verus!
