//! Recurring payment series among the transactions of the last year.
use vstd::prelude::*;
use crate::text::{same_text, is_ws, ws, chars_of, string_of, lower_of, lowercase, copy_range};
use crate::document::{md_y_at, ymd_at, digit_run, count_digits};
use crate::ledger::{Transaction, TxView, tx_views, opt_view, clone_opt};
use crate::dates::{CivilDate, valid_date, day_of, parsed_date, parse_with_format, day_index, add_days, date_text, format_date};
use crate::transfers::ledger_day;


verus! {

broadcast use vstd::string::group_string_axioms;

/// Where a pattern that a payee loses matches at `p`: 1 is `M/D/Y`, 2 is `M-D-Y`, 3 is
/// `YYYY-MM-DD`, 4 a run of six digits or more, 5 '#' and digits, 6 '*' and digits.
pub open spec fn pattern_end(kind: int, s: Seq<char>, p: int) -> Option<int> {
    let t = s.skip(p);
    if kind == 1 || kind == 2 {
        match md_y_at(t, if kind == 1 { '/' } else { '-' }) {
            Some((_, _, e)) => Some(p + e),
            None => None,
        }
    } else if kind == 3 {
        if ymd_at(t) {
            Some(p + 10)
        } else {
            None
        }
    } else if kind == 4 {
        let r = digit_run(s, p, s.len() - p);
        if r >= 6 {
            Some(p + r)
        } else {
            None
        }
    } else {
        let mark = if kind == 5 {
            '#'
        } else {
            '*'
        };
        let r = digit_run(s, p + 1, s.len() - p);
        if p < s.len() && s[p] == mark && r >= 1 {
            Some(p + 1 + r)
        } else {
            None
        }
    }
}

/// `s` from `p` on, with each leftmost match of pattern `kind` removed.
pub open spec fn strip_from(kind: int, s: Seq<char>, p: int) -> Seq<char>
    decreases s.len() - p,
{
    if p < 0 || p >= s.len() {
        Seq::empty()
    } else {
        match pattern_end(kind, s, p) {
            Some(e) => if p < e <= s.len() {
                strip_from(kind, s, e)
            } else {
                seq![s[p]] + strip_from(kind, s, p + 1)
            },
            None => seq![s[p]] + strip_from(kind, s, p + 1),
        }
    }
}

/// The words of `s` from `i` on, joined by single spaces; `gap` says a space is owed before the
/// next word.
pub open spec fn collapse_from(s: Seq<char>, i: int, started: bool, gap: bool) -> Seq<char>
    decreases s.len() - i,
{
    if i < 0 || i >= s.len() {
        Seq::empty()
    } else if is_ws(s[i]) {
        collapse_from(s, i + 1, started, started)
    } else {
        (if gap {
            seq![' ']
        } else {
            Seq::<char>::empty()
        }) + seq![s[i]] + collapse_from(s, i + 1, true, false)
    }
}

/// A payee as series are keyed: lowercased, without dates, long numbers, reference numbers
/// and masked card numbers, its words joined by single spaces.
pub open spec fn normalized(p: Seq<char>) -> Seq<char> {
    normalized_lower(lower_of(p))
}

/// A lowercased payee without dates, long numbers, reference numbers and masked card
/// numbers, its words joined by single spaces.
pub open spec fn normalized_lower(l: Seq<char>) -> Seq<char> {
    let s1 = strip_from(1, l, 0);
    let s2 = strip_from(2, s1, 0);
    let s3 = strip_from(3, s2, 0);
    let s4 = strip_from(4, s3, 0);
    let s5 = strip_from(5, s4, 0);
    let s6 = strip_from(6, s5, 0);
    collapse_from(s6, 0, false, false)
}

proof fn lemma_pattern_end(kind: int, s: Seq<char>, p: int)
    requires
        0 <= p < s.len(),
    ensures
        pattern_end(kind, s, p) matches Some(e) ==> p < e <= s.len(),
{
    let t = s.skip(p);
    if kind == 1 || kind == 2 {
        let sep = if kind == 1 { '/' } else { '-' };
        crate::document::lemma_digit_run(t, 0, 2);
        let a = digit_run(t, 0, 2);
        crate::document::lemma_digit_run(t, a + 1, 2);
        let b = digit_run(t, a + 1, 2);
        crate::document::lemma_digit_run(t, a + b + 2, 4);
    } else if kind == 4 {
        crate::document::lemma_digit_run(s, p, s.len() - p);
    } else if kind != 3 {
        crate::document::lemma_digit_run(s, p + 1, s.len() - p);
    }
}

fn match_end(kind: u8, s: &Vec<char>, p: usize) -> (r: Option<usize>)
    requires
        p < s.len(),
    ensures
        match r {
            Some(e) => pattern_end(kind as int, s@, p as int) == Some(e as int) && p < e <= s@.len(),
            None => pattern_end(kind as int, s@, p as int) is None,
        },
{
    proof {
        lemma_pattern_end(kind as int, s@, p as int);
    }
    let n = s.len();
    if kind == 1 || kind == 2 {
        let t = copy_range(s, p, n);
        assert(t@ =~= s@.skip(p as int));
        match crate::document::md_y_find(&t, if kind == 1 { '/' } else { '-' }) {
            Some((_, _, e)) => Some(p + e),
            None => None,
        }
    } else if kind == 3 {
        let t = copy_range(s, p, n);
        assert(t@ =~= s@.skip(p as int));
        if t.len() >= 10 && count_digits(&t, 0, 4) == 4 && t[4] == '-' && count_digits(&t, 5, 2) == 2
            && t[7] == '-' && count_digits(&t, 8, 2) == 2 {
            Some(p + 10)
        } else {
            None
        }
    } else if kind == 4 {
        let r = count_digits(s, p, n - p);
        if r >= 6 {
            Some(p + r)
        } else {
            None
        }
    } else {
        let mark = if kind == 5 { '#' } else { '*' };
        if s[p] != mark {
            return None;
        }
        let r = count_digits(s, p + 1, n - p);
        if r >= 1 {
            Some(p + 1 + r)
        } else {
            None
        }
    }
}

fn strip_pattern(kind: u8, s: &Vec<char>) -> (r: Vec<char>)
    ensures
        r@ == strip_from(kind as int, s@, 0),
{
    let mut out: Vec<char> = Vec::new();
    let mut p: usize = 0;
    while p < s.len()
        invariant
            p <= s@.len(),
            out@ + strip_from(kind as int, s@, p as int) == strip_from(kind as int, s@, 0),
        decreases s.len() - p,
    {
        match match_end(kind, s, p) {
            Some(e) => {
                p = e;
            },
            None => {
                let ghost o = out@;
                out.push(s[p]);
                assert(o + strip_from(kind as int, s@, p as int) =~= out@ + strip_from(kind as int, s@, p + 1));
                p += 1;
            },
        }
    }
    assert(out@ + strip_from(kind as int, s@, p as int) =~= out@);
    out
}

fn collapse(s: &Vec<char>) -> (r: Vec<char>)
    ensures
        r@ == collapse_from(s@, 0, false, false),
{
    let mut out: Vec<char> = Vec::new();
    let mut started = false;
    let mut gap = false;
    let mut i: usize = 0;
    while i < s.len()
        invariant
            i <= s@.len(),
            out@ + collapse_from(s@, i as int, started, gap) == collapse_from(s@, 0, false, false),
        decreases s.len() - i,
    {
        let ghost o = out@;
        let ghost (st, g) = (started, gap);
        if ws(s[i]) {
            gap = started;
        } else {
            if gap {
                out.push(' ');
            }
            out.push(s[i]);
            started = true;
            gap = false;
            assert(o + collapse_from(s@, i as int, st, g) =~= out@ + collapse_from(s@, i + 1, true, false));
        }
        i += 1;
    }
    assert(out@ + collapse_from(s@, i as int, started, gap) =~= out@);
    out
}

/// A payee as series are keyed.
pub fn normalize_payee(payee: &str) -> (r: String)
    ensures
        r@ == normalized(payee@),
{
    let v = normalized_chars(&chars_of(payee));
    string_of(v.as_slice())
}

fn normalized_chars(p: &Vec<char>) -> (r: Vec<char>)
    ensures
        r@ == normalized(p@),
{
    let l = lowercase(p.as_slice());
    normalize_lowered(&l)
}

/// Strips dates, long numbers, reference numbers and masked card numbers from a lowercased
/// payee and joins its words by single spaces.
pub fn normalize_lowered(l: &Vec<char>) -> (r: Vec<char>)
    ensures
        r@ == normalized_lower(l@),
{
    let s1 = strip_pattern(1, l);
    let s2 = strip_pattern(2, &s1);
    let s3 = strip_pattern(3, &s2);
    let s4 = strip_pattern(4, &s3);
    let s5 = strip_pattern(5, &s4);
    let s6 = strip_pattern(6, &s5);
    collapse(&s6)
}

/// One member of a detected series.
pub struct TransactionSummary {
    pub id: String,
    pub date: String,
    pub amount: i64,
}

/// A detected recurring series: its members in date order, the payee and account of its
/// first member, the truncated mean amount, the frequency and the day it is next expected.
pub struct DetectedRecurring {
    pub payee: String,
    pub normalized_payee: String,
    pub average_amount: i64,
    pub frequency: String,
    pub frequency_days: i32,
    pub occurrences: usize,
    pub last_date: String,
    pub next_expected_date: String,
    pub account_id: String,
    pub category_id: Option<String>,
    pub transactions: Vec<TransactionSummary>,
}

pub open spec fn abs(x: int) -> int {
    if x < 0 {
        -x
    } else {
        x
    }
}

/// The amount rounded down to a multiple of $5 (500 cents) by size.
pub open spec fn bucket(a: i64) -> int {
    (abs(a as int) / 500) * 500
}

/// The date of a ledger transaction, read as `%Y-%m-%d`.
pub open spec fn ledger_date(t: TxView) -> Option<CivilDate> {
    match parsed_date(t.date, "%Y-%m-%d"@) {
        Some((y, m, d)) => Some(CivilDate { year: y as i32, month: m as u32, day: d as u32 }),
        None => None,
    }
}

/// A transaction that series are built from: live, not part of a transfer, with a payee whose
/// normalized form has three characters or more, dated within the 365 days up to `today`.
pub open spec fn series_eligible(t: TxView, today: int) -> bool {
    &&& !t.deleted
    &&& t.transfer_id is None
    &&& t.payee matches Some(p) && p.len() > 0 && normalized(p).len() >= 3
    &&& ledger_day(t) matches Some(d) && d >= today - 365
    &&& ledger_date(t) matches Some(x) && x.year < 262142
}

/// Two transactions of one series: same normalized payee, account and amount bucket.
pub open spec fn same_series(a: TxView, b: TxView) -> bool {
    normalized(a.payee->0) == normalized(b.payee->0) && a.account_id == b.account_id && bucket(
        a.amount,
    ) == bucket(b.amount)
}

/// The first group from `gi` on whose first member is in the series of `t`.
pub open spec fn find_group(txs: Seq<TxView>, g: Seq<Seq<int>>, t: TxView, gi: int) -> Option<int>
    decreases g.len() - gi,
{
    if gi < 0 || gi >= g.len() {
        None
    } else if g[gi].len() > 0 && same_series(txs[g[gi][0]], t) {
        Some(gi)
    } else {
        find_group(txs, g, t, gi + 1)
    }
}

/// The eligible transactions among the first `k`, grouped by series in order of first
/// appearance, each group in ledger order.
pub open spec fn series_groups(txs: Seq<TxView>, today: int, k: int) -> Seq<Seq<int>>
    decreases k,
{
    if k <= 0 {
        Seq::empty()
    } else {
        let g = series_groups(txs, today, k - 1);
        if !series_eligible(txs[k - 1], today) {
            g
        } else {
            match find_group(txs, g, txs[k - 1], 0) {
                Some(gi) => g.update(gi, g[gi].push(k - 1)),
                None => g.push(seq![k - 1]),
            }
        }
    }
}

pub open spec fn day_at(txs: Seq<TxView>, i: int) -> int {
    ledger_day(txs[i])->0
}

/// Where a member of day `d` goes in a list sorted by day: after every member of day `d` or
/// earlier.
pub open spec fn day_pos(txs: Seq<TxView>, l: Seq<int>, d: int, k: int) -> int
    decreases l.len() - k,
{
    if k < 0 || k >= l.len() || day_at(txs, l[k]) > d {
        k
    } else {
        day_pos(txs, l, d, k + 1)
    }
}

/// The members sorted by day, members of one day kept in ledger order.
pub open spec fn by_day(txs: Seq<TxView>, l: Seq<int>) -> Seq<int>
    decreases l.len(),
{
    if l.len() == 0 {
        l
    } else {
        let s = by_day(txs, l.drop_last());
        s.insert(day_pos(txs, s, day_at(txs, l.last()), 0), l.last())
    }
}

/// The sum and the number of the positive gaps between consecutive days.
pub open spec fn gaps(days: Seq<int>) -> (int, int)
    decreases days.len(),
{
    if days.len() < 2 {
        (0, 0)
    } else {
        let (s, c) = gaps(days.drop_last());
        let g = days.last() - days[days.len() - 2];
        if g > 0 {
            (s + g, c + 1)
        } else {
            (s, c)
        }
    }
}

/// The frequency whose range holds the mean gap `sum / count`, with its length in days.
pub open spec fn frequency_of(sum: int, count: int) -> Option<(Seq<char>, int)> {
    if count <= 0 {
        None
    } else if 5 * count <= sum <= 9 * count {
        Some(("weekly"@, 7))
    } else if 12 * count <= sum <= 17 * count {
        Some(("biweekly"@, 14))
    } else if 25 * count <= sum <= 35 * count {
        Some(("monthly"@, 30))
    } else if 85 * count <= sum <= 100 * count {
        Some(("quarterly"@, 91))
    } else if 350 * count <= sum <= 380 * count {
        Some(("yearly"@, 365))
    } else {
        None
    }
}

/// The frequency of a series of three or more days, in order.
pub open spec fn detect_frequency_spec(days: Seq<int>) -> Option<(Seq<char>, int)> {
    if days.len() < 3 {
        None
    } else {
        frequency_of(gaps(days).0, gaps(days).1)
    }
}

pub open spec fn amount_sum(txs: Seq<TxView>, ms: Seq<int>) -> int
    decreases ms.len(),
{
    if ms.len() == 0 {
        0
    } else {
        amount_sum(txs, ms.drop_last()) + txs[ms.last()].amount
    }
}

/// Division that rounds toward zero.
pub open spec fn trunc_div(a: int, b: int) -> int {
    if a >= 0 {
        a / b
    } else {
        -((-a) / b)
    }
}

pub struct SeriesView {
    pub members: Seq<int>,
    pub frequency: Seq<char>,
    pub frequency_days: int,
    pub average: int,
    pub next_day: int,
}

/// What a group becomes: a series when it has three members or more and its mean gap falls in
/// a frequency's range.
pub open spec fn summarize(txs: Seq<TxView>, g: Seq<int>) -> Option<SeriesView> {
    let ms = by_day(txs, g);
    let days = ms.map_values(|i: int| day_at(txs, i));
    match detect_frequency_spec(days) {
        Some((f, fd)) => Some(
            SeriesView {
                members: ms,
                frequency: f,
                frequency_days: fd,
                average: trunc_div(amount_sum(txs, ms), ms.len() as int),
                next_day: days.last() + fd,
            },
        ),
        None => None,
    }
}

/// Where a series expected on day `d` goes among series sorted by that day: after every
/// series expected on `d` or earlier.
pub open spec fn next_pos(l: Seq<SeriesView>, d: int, k: int) -> int
    decreases l.len() - k,
{
    if k < 0 || k >= l.len() || l[k].next_day > d {
        k
    } else {
        next_pos(l, d, k + 1)
    }
}

/// The series of the first `k` groups, sorted by the day each is next expected.
pub open spec fn series_upto(txs: Seq<TxView>, g: Seq<Seq<int>>, k: int) -> Seq<SeriesView>
    decreases k,
{
    if k <= 0 {
        Seq::empty()
    } else {
        let s = series_upto(txs, g, k - 1);
        match summarize(txs, g[k - 1]) {
            Some(v) => s.insert(next_pos(s, v.next_day, 0), v),
            None => s,
        }
    }
}

/// The recurring series among the transactions, sorted by the day each is next expected.
pub open spec fn detected(txs: Seq<TxView>, today: int) -> Seq<SeriesView> {
    let g = series_groups(txs, today, txs.len() as int);
    series_upto(txs, g, g.len() as int)
}

/// What a series reports, given the ledger.
pub open spec fn reports(r: DetectedRecurring, v: SeriesView, txs: Seq<Transaction>) -> bool {
    let first = txs[v.members[0]];
    let last = txs[v.members.last()];
    &&& v.members.len() >= 3
    &&& r.transactions@.len() == v.members.len()
    &&& forall|m: int|
        0 <= m < v.members.len() ==> {
            let t = #[trigger] r.transactions@[m];
            let x = txs[v.members[m]];
            t.id@ == x.id@ && t.date@ == x.date@ && t.amount == x.amount
        }
    &&& opt_view(Some(r.payee)) == first@.payee
    &&& r.normalized_payee@ == normalized(r.payee@)
    &&& r.average_amount == v.average
    &&& r.frequency@ == v.frequency
    &&& r.frequency_days == v.frequency_days
    &&& r.occurrences == v.members.len()
    &&& r.last_date@ == last.date@
    &&& r.account_id@ == first.account_id@
    &&& opt_view(r.category_id) == first@.category_id
    &&& exists|x: CivilDate| valid_date(x) && day_of(x) == v.next_day && r.next_expected_date@ == date_text(x)
}

/// The frequency of a series of days in order: `weekly` (mean gap 5 to 9 days), `biweekly`
/// (12 to 17), `monthly` (25 to 35), `quarterly` (85 to 100) or `yearly` (350 to 380), with its
/// length in days; none for fewer than three days, no positive gap, or a mean gap outside
/// every range.
pub fn detect_frequency(days: &Vec<i32>) -> (r: Option<(String, i32)>)
    ensures
        match r {
            Some((f, d)) => detect_frequency_spec(days@.map_values(|x: i32| x as int)) == Some(
                (f@, d as int),
            ),
            None => detect_frequency_spec(days@.map_values(|x: i32| x as int)) is None,
        },
{
    let ghost dv = days@.map_values(|x: i32| x as int);
    if days.len() < 3 {
        return None;
    }
    let mut sum: i128 = 0;
    let mut count: i128 = 0;
    let mut i: usize = 1;
    assert(dv.take(1).len() < 2);
    while i < days.len()
        invariant
            1 <= i <= days@.len(),
            dv == days@.map_values(|x: i32| x as int),
            (sum as int, count as int) == gaps(dv.take(i as int)),
            0 <= sum <= i * 0x1_0000_0000,
            0 <= count <= i,
        decreases days.len() - i,
    {
        assert(dv.take(i + 1).drop_last() =~= dv.take(i as int));
        let g = days[i] as i128 - days[i - 1] as i128;
        if g > 0 {
            sum = sum + g;
            count = count + 1;
        }
        i += 1;
    }
    assert(dv.take(days@.len() as int) =~= dv);
    if count <= 0 {
        None
    } else if 5 * count <= sum && sum <= 9 * count {
        Some((string_of(chars_of("weekly").as_slice()), 7))
    } else if 12 * count <= sum && sum <= 17 * count {
        Some((string_of(chars_of("biweekly").as_slice()), 14))
    } else if 25 * count <= sum && sum <= 35 * count {
        Some((string_of(chars_of("monthly").as_slice()), 30))
    } else if 85 * count <= sum && sum <= 100 * count {
        Some((string_of(chars_of("quarterly").as_slice()), 91))
    } else if 350 * count <= sum && sum <= 380 * count {
        Some((string_of(chars_of("yearly").as_slice()), 365))
    } else {
        None
    }
}

/// What the detector reads from an eligible transaction.
pub struct SeriesInfo {
    pub day: i32,
    pub date: CivilDate,
    pub norm: Vec<char>,
    pub bucket: i128,
}

pub open spec fn info_ok(o: Option<SeriesInfo>, t: TxView, today: int) -> bool {
    match o {
        Some(f) => series_eligible(t, today) && ledger_day(t) == Some(f.day as int) && ledger_date(t)
            == Some(f.date) && valid_date(f.date) && f.date.year < 262142 && day_of(f.date) == f.day as int && f.norm@ == normalized(
            t.payee->0,
        ) && f.bucket == bucket(t.amount),
        None => !series_eligible(t, today),
    }
}

fn series_info(txs: &Vec<Transaction>, today: i32) -> (r: Vec<Option<SeriesInfo>>)
    ensures
        r@.len() == txs@.len(),
        forall|i: int| 0 <= i < txs@.len() ==> info_ok(#[trigger] r@[i], txs@[i]@, today as int),
{
    let mut out: Vec<Option<SeriesInfo>> = Vec::new();
    let mut i: usize = 0;
    while i < txs.len()
        invariant
            i <= txs@.len(),
            out@.len() == i,
            forall|k: int| 0 <= k < i ==> info_ok(#[trigger] out@[k], txs@[k]@, today as int),
        decreases txs.len() - i,
    {
        let t = &txs[i];
        let mut v: Option<SeriesInfo> = None;
        if !t.deleted && t.transfer_id.is_none() {
            match &t.payee {
                Some(p) => {
                    let pc = chars_of(p.as_str());
                    let norm = normalized_chars(&pc);
                    if pc.len() > 0 && norm.len() >= 3 {
                        match parse_with_format(t.date.as_str(), "%Y-%m-%d") {
                            Some(d) => {
                                let n = day_index(&d);
                                if n as i64 >= today as i64 - 365 && d.year < 262142 {
                                    let b: i128 = if t.amount < 0 {
                                        -(t.amount as i128)
                                    } else {
                                        t.amount as i128
                                    };
                                    let bk = (b / 500) * 500;
                                    v = Some(SeriesInfo { day: n, date: d, norm, bucket: bk });
                                }
                            },
                            None => {},
                        }
                    }
                },
                None => {},
            }
        }
        out.push(v);
        i += 1;
    }
    out
}

pub open spec fn group_views(g: Seq<Vec<usize>>) -> Seq<Seq<int>> {
    g.map_values(|v: Vec<usize>| v@.map_values(|x: usize| x as int))
}

pub open spec fn groups_ok(g: Seq<Seq<int>>, info: Seq<Option<SeriesInfo>>, k: int) -> bool {
    forall|gi: int|
        0 <= gi < g.len() ==> (#[trigger] g[gi]).len() > 0 && forall|m: int|
            0 <= m < g[gi].len() ==> 0 <= #[trigger] g[gi][m] < k && info[g[gi][m]] is Some
}

proof fn lemma_find_group_ok(txs: Seq<TxView>, g: Seq<Seq<int>>, t: TxView, gi: int)
    requires
        0 <= gi,
    ensures
        find_group(txs, g, t, gi) matches Some(x) ==> gi <= x < g.len(),
    decreases g.len() - gi,
{
    if gi < g.len() && !(g[gi].len() > 0 && same_series(txs[g[gi][0]], t)) {
        lemma_find_group_ok(txs, g, t, gi + 1);
    }
}

fn group_series(txs: &Vec<Transaction>, info: &Vec<Option<SeriesInfo>>, today: i32) -> (r: Vec<
    Vec<usize>,
>)
    requires
        info@.len() == txs@.len(),
        forall|i: int| 0 <= i < txs@.len() ==> info_ok(#[trigger] info@[i], txs@[i]@, today as int),
    ensures
        group_views(r@) == series_groups(tx_views(txs@), today as int, txs@.len() as int),
        groups_ok(group_views(r@), info@, txs@.len() as int),
{
    let ghost all = tx_views(txs@);
    let mut groups: Vec<Vec<usize>> = Vec::new();
    let mut i: usize = 0;
    while i < txs.len()
        invariant
            i <= txs@.len() == info@.len(),
            all == tx_views(txs@),
            forall|k: int| 0 <= k < txs@.len() ==> info_ok(#[trigger] info@[k], txs@[k]@, today as int),
            group_views(groups@) == series_groups(all, today as int, i as int),
            groups_ok(group_views(groups@), info@, i as int),
        decreases txs.len() - i,
    {
        let ghost gv = group_views(groups@);
        assert(all[i as int] == txs@[i as int]@);
        assert(info_ok(info@[i as int], txs@[i as int]@, today as int));
        match &info[i] {
            None => {
                assert(series_groups(all, today as int, i + 1) == gv);
            },
            Some(fi) => {
                let mut gi: usize = 0;
                let mut hit: Option<usize> = None;
                while gi < groups.len()
                    invariant_except_break
                        hit is None,
                    invariant
                        gi <= groups@.len(),
                        gv == group_views(groups@),
                        groups_ok(gv, info@, i as int),
                        i < txs@.len() == info@.len(),
                        all == tx_views(txs@),
                        forall|k: int| 0 <= k < txs@.len() ==> info_ok(#[trigger] info@[k], txs@[k]@, today as int),
                        info@[i as int] == Some(*fi),
                        find_group(all, gv, all[i as int], gi as int) == find_group(all, gv, all[i as int], 0),
                    ensures
                        match hit {
                            Some(g) => g < groups@.len() && find_group(all, gv, all[i as int], 0) == Some(g as int),
                            None => find_group(all, gv, all[i as int], 0) is None,
                        },
                    decreases groups.len() - gi,
                {
                    let head = groups[gi][0];
                    assert(gv[gi as int][0] == head as int);
                    assert(info@[head as int] is Some);
                    assert(info_ok(info@[head as int], txs@[head as int]@, today as int));
                    assert(all[head as int] == txs@[head as int]@);
                    match &info[head] {
                        Some(fh) => {
                            if same_text(&fh.norm, &fi.norm) && txs[head].account_id == txs[i].account_id
                                && fh.bucket == fi.bucket {
                                hit = Some(gi);
                                break;
                            }
                        },
                        None => {},
                    }
                    gi += 1;
                }
                proof {
                    lemma_find_group_ok(all, gv, all[i as int], 0);
                }
                match hit {
                    Some(g) => {
                        let ghost before = groups@;
                        let mut members = groups.remove(g);
                        let ghost old_members = members@;
                        assert(old_members == before[g as int]@);
                        members.push(i);
                        assert(members@.map_values(|x: usize| x as int) =~= gv[g as int].push(i as int));
                        groups.insert(g, members);
                        assert forall|k: int| 0 <= k < groups@.len() implies #[trigger] group_views(groups@)[k]
                            == gv.update(g as int, gv[g as int].push(i as int))[k] by {
                            if k != g {
                                assert(groups@[k] == before[k]);
                            }
                        }
                        assert(group_views(groups@) =~= gv.update(g as int, gv[g as int].push(i as int)));
                    },
                    None => {
                        let mut members: Vec<usize> = Vec::new();
                        members.push(i);
                        assert(members@.map_values(|x: usize| x as int) =~= seq![i as int]);
                        let ghost before = groups@;
                        groups.push(members);
                        assert forall|k: int| 0 <= k < groups@.len() implies #[trigger] group_views(groups@)[k]
                            == gv.push(seq![i as int])[k] by {
                            if k < before.len() {
                                assert(groups@[k] == before[k]);
                            }
                        }
                        assert(group_views(groups@) =~= gv.push(seq![i as int]));
                    },
                }
            },
        }
        i += 1;
    }
    groups
}

pub open spec fn index_views(v: Seq<usize>) -> Seq<int> {
    v.map_values(|x: usize| x as int)
}

pub open spec fn members_ok(
    g: Seq<int>,
    info: Seq<Option<SeriesInfo>>,
    txs: Seq<Transaction>,
    today: int,
) -> bool {
    &&& info.len() == txs.len()
    &&& forall|m: int| 0 <= m < g.len() ==> 0 <= #[trigger] g[m] < txs.len() && info[g[m]] is Some
    &&& forall|i: int| 0 <= i < txs.len() ==> info_ok(#[trigger] info[i], txs[i]@, today)
}

fn sort_by_day(group: &Vec<usize>, info: &Vec<Option<SeriesInfo>>, Ghost(txs): Ghost<Seq<Transaction>>, Ghost(today): Ghost<int>) -> (r: Vec<usize>)
    requires
        members_ok(index_views(group@), info@, txs, today),
    ensures
        index_views(r@) == by_day(tx_views(txs), index_views(group@)),
        members_ok(index_views(r@), info@, txs, today),
        r@.len() == group@.len(),
{
    let ghost all = tx_views(txs);
    let ghost gv = index_views(group@);
    let mut out: Vec<usize> = Vec::new();
    let mut j: usize = 0;
    while j < group.len()
        invariant
            j <= group@.len(),
            all == tx_views(txs),
            gv == index_views(group@),
            members_ok(gv, info@, txs, today),
            index_views(out@) == by_day(all, gv.take(j as int)),
            members_ok(index_views(out@), info@, txs, today),
            out@.len() == j,
        decreases group.len() - j,
    {
        let m = group[j];
        assert(gv[j as int] == m as int);
        assert(gv.take(j + 1).drop_last() =~= gv.take(j as int));
        assert(info_ok(info@[m as int], txs[m as int]@, today));
        assert(all[m as int] == txs[m as int]@);
        let dm = match &info[m] {
            Some(f) => f.day,
            None => 0,
        };
        let ghost s = index_views(out@);
        let mut k: usize = 0;
        while k < out.len()
            invariant
                k <= out@.len(),
                s == index_views(out@),
                members_ok(s, info@, txs, today),
                all == tx_views(txs),
                day_pos(all, s, dm as int, k as int) == day_pos(all, s, dm as int, 0),
            ensures
                k <= out@.len(),
                day_pos(all, s, dm as int, 0) == k,
            decreases out.len() - k,
        {
            let o = out[k];
            assert(s[k as int] == o as int);
            assert(info_ok(info@[o as int], txs[o as int]@, today));
            assert(all[o as int] == txs[o as int]@);
            let d = match &info[o] {
                Some(f) => f.day,
                None => 0,
            };
            assert(day_at(all, s[k as int]) == d as int);
            if d > dm {
                break;
            }
            k += 1;
        }
        out.insert(k, m);
        assert(index_views(out@) =~= s.insert(k as int, m as int));
        assert(day_at(all, gv.take(j + 1).last()) == dm as int);
        j += 1;
    }
    assert(gv.take(group@.len() as int) =~= gv);
    out
}

proof fn lemma_average_fits(sum: int, n: int)
    requires
        n > 0,
        n * i64::MIN <= sum <= n * i64::MAX,
    ensures
        i64::MIN <= trunc_div(sum, n) <= i64::MAX,
{
    if sum >= 0 {
        assert(sum / n <= i64::MAX) by (nonlinear_arith)
            requires
                n > 0,
                0 <= sum <= n * i64::MAX,
        ;
        assert(sum / n >= 0) by (nonlinear_arith)
            requires
                n > 0,
                0 <= sum,
        ;
    } else {
        assert((-sum) / n <= 0x8000_0000_0000_0000) by (nonlinear_arith)
            requires
                n > 0,
                0 < -sum <= n * 0x8000_0000_0000_0000,
        ;
        assert((-sum) / n >= 0) by (nonlinear_arith)
            requires
                n > 0,
                0 < -sum,
        ;
    }
}

fn days_and_sum(
    ms: &Vec<usize>,
    info: &Vec<Option<SeriesInfo>>,
    txs: &Vec<Transaction>,
    Ghost(today): Ghost<int>,
) -> (r: (Vec<i32>, i128))
    requires
        members_ok(index_views(ms@), info@, txs@, today),
    ensures
        r.0@.map_values(|x: i32| x as int) == index_views(ms@).map_values(|i: int| day_at(tx_views(txs@), i)),
        r.1 == amount_sum(tx_views(txs@), index_views(ms@)),
        (ms@.len() as int) * i64::MIN <= r.1 <= (ms@.len() as int) * i64::MAX,
{
    let ghost all = tx_views(txs@);
    let ghost mv = index_views(ms@);
    let ghost dv = mv.map_values(|i: int| day_at(all, i));
    let mut days: Vec<i32> = Vec::new();
    let mut sum: i128 = 0;
    let mut j: usize = 0;
    while j < ms.len()
        invariant
            j <= ms@.len(),
            all == tx_views(txs@),
            mv == index_views(ms@),
            dv == mv.map_values(|i: int| day_at(all, i)),
            members_ok(mv, info@, txs@, today),
            days@.map_values(|x: i32| x as int) == dv.take(j as int),
            sum == amount_sum(all, mv.take(j as int)),
            (j as int) * i64::MIN <= sum <= (j as int) * i64::MAX,
        decreases ms.len() - j,
    {
        let m = ms[j];
        assert(mv[j as int] == m as int);
        assert(info_ok(info@[m as int], txs@[m as int]@, today));
        assert(all[m as int] == txs@[m as int]@);
        let d = match &info[m] {
            Some(f) => f.day,
            None => 0,
        };
        assert(dv[j as int] == d as int);
        let ghost before = days@;
        days.push(d);
        assert(days@.map_values(|x: i32| x as int) =~= before.map_values(|x: i32| x as int).push(d as int));
        assert(dv.take(j + 1) =~= dv.take(j as int).push(dv[j as int]));
        assert(mv.take(j + 1).drop_last() =~= mv.take(j as int));
        sum = sum + txs[m].amount as i128;
        j += 1;
        assert((j as int) * i64::MIN <= sum <= (j as int) * i64::MAX) by (nonlinear_arith)
            requires
                ((j - 1) as int) * i64::MIN + i64::MIN <= sum <= ((j - 1) as int) * i64::MAX + i64::MAX,
        ;
    }
    assert(dv.take(ms@.len() as int) =~= dv);
    assert(mv.take(ms@.len() as int) =~= mv);
    (days, sum)
}

fn summaries_of(ms: &Vec<usize>, txs: &Vec<Transaction>) -> (r: Vec<TransactionSummary>)
    requires
        forall|m: int| 0 <= m < ms@.len() ==> #[trigger] ms@[m] < txs@.len(),
    ensures
        r@.len() == ms@.len(),
        forall|q: int|
            0 <= q < ms@.len() ==> {
                let t = #[trigger] r@[q];
                let x = txs@[ms@[q] as int];
                t.id@ == x.id@ && t.date@ == x.date@ && t.amount == x.amount
            },
{
    let mut list: Vec<TransactionSummary> = Vec::new();
    let mut k: usize = 0;
    while k < ms.len()
        invariant
            k <= ms@.len(),
            forall|m: int| 0 <= m < ms@.len() ==> #[trigger] ms@[m] < txs@.len(),
            list@.len() == k,
            forall|q: int|
                0 <= q < k ==> {
                    let t = #[trigger] list@[q];
                    let x = txs@[ms@[q] as int];
                    t.id@ == x.id@ && t.date@ == x.date@ && t.amount == x.amount
                },
        decreases ms.len() - k,
    {
        let m = ms[k];
        list.push(TransactionSummary { id: txs[m].id.clone(), date: txs[m].date.clone(), amount: txs[m].amount });
        k += 1;
    }
    list
}

/// The series that a group makes, if it is one, with the day it is next expected.
#[verifier::rlimit(50)]
fn summarize_group(
    group: &Vec<usize>,
    info: &Vec<Option<SeriesInfo>>,
    txs: &Vec<Transaction>,
    Ghost(today): Ghost<int>,
) -> (r: Option<(DetectedRecurring, i64)>)
    requires
        members_ok(index_views(group@), info@, txs@, today),
    ensures
        match summarize(tx_views(txs@), index_views(group@)) {
            Some(v) => r matches Some((d, n)) && reports(d, v, txs@) && n == v.next_day,
            None => r is None,
        },
{
    let ghost all = tx_views(txs@);
    let ms = sort_by_day(group, info, Ghost(txs@), Ghost(today));
    let ghost mv = index_views(ms@);
    let ghost dv = mv.map_values(|i: int| day_at(all, i));
    let (days, sum) = days_and_sum(&ms, info, txs, Ghost(today));
    let (frequency, fd) = match detect_frequency(&days) {
        Some(x) => x,
        None => {
            return None;
        },
    };
    let n = ms.len();
    proof {
        lemma_average_fits(sum as int, n as int);
    }
    let average: i64 = if sum >= 0 {
        (sum / (n as i128)) as i64
    } else {
        -((-sum) / (n as i128)) as i64
    };
    let first = ms[0];
    let last = ms[n - 1];
    assert(mv[0] == first as int && mv[n - 1] == last as int);
    assert(info_ok(info@[first as int], txs@[first as int]@, today));
    assert(info_ok(info@[last as int], txs@[last as int]@, today));
    let last_date = match &info[last] {
        Some(f) => f.date,
        None => CivilDate { year: 0, month: 1, day: 1 },
    };
    let last_day = match &info[last] {
        Some(f) => f.day,
        None => 0,
    };
    let next = match add_days(&last_date, fd as u32) {
        Some(x) => x,
        None => {
            return None;
        },
    };
    let payee = match &txs[first].payee {
        Some(p) => p.clone(),
        None => String::new(),
    };
    assert forall|m: int| 0 <= m < ms@.len() implies #[trigger] ms@[m] < txs@.len() by {
        assert(mv[m] == ms@[m] as int);
    }
    let list = summaries_of(&ms, txs);
    let normalized_payee = normalize_payee(payee.as_str());
    let r = DetectedRecurring {
        payee,
        normalized_payee,
        average_amount: average,
        frequency,
        frequency_days: fd,
        occurrences: n,
        last_date: txs[last].date.clone(),
        next_expected_date: format_date(&next),
        account_id: txs[first].account_id.clone(),
        category_id: clone_opt(&txs[first].category_id),
        transactions: list,
    };
    assert(dv.last() == last_day as int);
    assert(days@.map_values(|x: i32| x as int) == dv);
    assert(summarize(all, index_views(group@)) is Some);
    let ghost v = summarize(all, index_views(group@))->0;
    assert(v.members == mv);
    assert(v.average == average);
    assert(v.next_day == last_day as int + fd as int);
    assert(valid_date(next) && day_of(next) == v.next_day);
    assert(reports(r, v, txs@));
    Some((r, last_day as i64 + fd as i64))
}

/// The recurring series among the ledger's transactions of the 365 days up to `today`,
/// sorted by the day each is next expected (series expected on one day in order of first
/// appearance). See `detected`.
pub fn detect_recurring_transactions(txs: &Vec<Transaction>, today: &CivilDate) -> (r: Vec<
    DetectedRecurring,
>)
    requires
        valid_date(*today),
    ensures
        ({
            let spec = detected(tx_views(txs@), day_of(*today));
            &&& r@.len() == spec.len()
            &&& forall|k: int| 0 <= k < r@.len() ==> reports(#[trigger] r@[k], spec[k], txs@)
        }),
{
    let t = day_index(today);
    let ghost all = tx_views(txs@);
    let info = series_info(txs, t);
    let groups = group_series(txs, &info, t);
    let ghost gv = group_views(groups@);
    let mut out: Vec<DetectedRecurring> = Vec::new();
    let mut keys: Vec<i64> = Vec::new();
    let mut k: usize = 0;
    while k < groups.len()
        invariant
            k <= groups@.len(),
            all == tx_views(txs@),
            gv == group_views(groups@),
            groups_ok(gv, info@, txs@.len() as int),
            info@.len() == txs@.len(),
            forall|i: int| 0 <= i < txs@.len() ==> info_ok(#[trigger] info@[i], txs@[i]@, t as int),
            out@.len() == keys@.len() == series_upto(all, gv, k as int).len(),
            forall|q: int|
                0 <= q < out@.len() ==> reports(#[trigger] out@[q], series_upto(all, gv, k as int)[q], txs@)
                    && keys@[q] == series_upto(all, gv, k as int)[q].next_day,
        decreases groups.len() - k,
    {
        assert(gv[k as int] == index_views(groups@[k as int]@));
        assert(members_ok(index_views(groups@[k as int]@), info@, txs@, t as int));
        let ghost s = series_upto(all, gv, k as int);
        assert forall|q: int| 0 <= q < keys@.len() implies keys@[q] == #[trigger] s[q].next_day by {
            assert(reports(out@[q], series_upto(all, gv, k as int)[q], txs@));
        }
        match summarize_group(&groups[k], &info, txs, Ghost(t as int)) {
            Some((d, nd)) => {
                let mut p: usize = 0;
                while p < keys.len() && keys[p] <= nd
                    invariant
                        p <= keys@.len() == s.len(),
                        forall|q: int| 0 <= q < keys@.len() ==> keys@[q] == #[trigger] s[q].next_day,
                        next_pos(s, nd as int, p as int) == next_pos(s, nd as int, 0),
                    decreases keys.len() - p,
                {
                    p += 1;
                }
                let ghost old_out = out@;
                let ghost old_keys = keys@;
                out.insert(p, d);
                keys.insert(p, nd);
                assert forall|q: int| 0 <= q < out@.len() implies reports(#[trigger] out@[q], series_upto(all, gv, k + 1)[q], txs@)
                    && keys@[q] == series_upto(all, gv, k + 1)[q].next_day by {
                    if q < p {
                        assert(out@[q] == old_out[q]);
                    } else if q > p {
                        assert(out@[q] == old_out[q - 1]);
                    }
                }
            },
            None => {},
        }
        k += 1;
    }
    out
}

} // verus!
