//! Statement text recovered from a document: line classification, transaction extraction and a
//! parse-quality measure.
use vstd::prelude::*;
use crate::text::{
    is_ws, is_digit, digit, ws, trimmed, trim, without, remove_char, copy_range, chars_of,
    string_of, lower_of, lowercase, lines_of, split_lines, starts_with, contains,
    begins_with, includes, matches_at, same_text,
};
use crate::amount::{bounded, signed_cents, parse_signed, all_digits};
use crate::fixed_layout::{u32_value, parse_u32, iso_text, iso_date};
use crate::error::ImportError;
use crate::dates::{is_calendar_day, calendar_day};

verus! {

broadcast use vstd::string::group_string_axioms;

/// Amount text of a card statement: white space, ',' and '$' are ignored; a trailing `CR`
/// (in either case) marks a credit, which is positive; every other amount is a charge, which
/// is negative, whether it is written plain, with a leading or trailing '-', or in parentheses.
pub open spec fn doc_amount(s: Seq<char>) -> Option<i64> {
    let c = without(without(trimmed(s), ','), '$');
    let n = c.len();
    if n == 0 {
        None
    } else {
        let credit = n >= 2 && (c[n - 2] == 'C' || c[n - 2] == 'c') && (c[n - 1] == 'R' || c[n
            - 1] == 'r');
        let a = if credit {
            c.take(n - 2)
        } else {
            c
        };
        let m = a.len();
        let num = if m >= 2 && a[0] == '(' && a[m - 1] == ')' {
            a.subrange(1, m - 1)
        } else if m >= 1 && a[0] == '-' {
            a.skip(1)
        } else if m >= 1 && a[m - 1] == '-' {
            a.take(m - 1)
        } else {
            a
        };
        match bounded(signed_cents(num)) {
            Some(v) => if credit {
                Some(v)
            } else {
                Some((-v) as i64)
            },
            None => None,
        }
    }
}

/// Reads card-statement amount text into cents.
pub fn amount_of(s: &Vec<char>) -> (r: Option<i64>)
    ensures
        r == doc_amount(s@),
{
    let t = trim(s);
    let c1 = remove_char(&t, ',');
    let c = remove_char(&c1, '$');
    let n = c.len();
    if n == 0 {
        return None;
    }
    let credit = n >= 2 && (c[n - 2] == 'C' || c[n - 2] == 'c') && (c[n - 1] == 'R' || c[n - 1]
        == 'r');
    let a = if credit {
        copy_range(&c, 0, n - 2)
    } else {
        copy_range(&c, 0, n)
    };
    assert(credit ==> a@ =~= c@.take(n - 2));
    assert(!credit ==> a@ =~= c@);
    let m = a.len();
    let num = if m >= 2 && a[0] == '(' && a[m - 1] == ')' {
        copy_range(&a, 1, m - 1)
    } else if m >= 1 && a[0] == '-' {
        let r = copy_range(&a, 1, m);
        assert(r@ =~= a@.skip(1));
        r
    } else if m >= 1 && a[m - 1] == '-' {
        let r = copy_range(&a, 0, m - 1);
        assert(r@ =~= a@.take(m - 1));
        r
    } else {
        copy_range(&a, 0, m)
    };
    assert(!(m >= 2 && a@[0] == '(' && a@[m - 1] == ')') && !(m >= 1 && a@[0] == '-') && !(m
        >= 1 && a@[m - 1] == '-') ==> num@ =~= a@);
    match parse_signed(&num) {
        Some(v) => if credit {
            Some(v)
        } else {
            Some(-v)
        },
        None => None,
    }
}

/// Parses card-statement amount text such as `113.19CR` or `($50.00)` into cents.
pub fn parse_amount(s: &str) -> (r: Option<i64>)
    ensures
        r == doc_amount(s@),
{
    amount_of(&chars_of(s))
}

/// How many digits stand at `i` and after, counting no further than `max`.
pub open spec fn digit_run(s: Seq<char>, i: int, max: int) -> int
    decreases max,
{
    if max <= 0 || i < 0 || i >= s.len() || !is_digit(s[i]) {
        0
    } else {
        1 + digit_run(s, i + 1, max - 1)
    }
}

pub proof fn lemma_digit_run(s: Seq<char>, i: int, max: int)
    requires
        0 <= i,
        0 <= max,
    ensures
        0 <= digit_run(s, i, max) <= max,
        i + digit_run(s, i, max) <= s.len() || digit_run(s, i, max) == 0,
        forall|k: int| i <= k < i + digit_run(s, i, max) ==> is_digit(s[k]) && k < s.len(),
    decreases max,
{
    if max > 0 && i < s.len() && is_digit(s[i]) {
        lemma_digit_run(s, i + 1, max - 1);
    }
}

/// How many digits stand at `i` and after, counting no further than `max`.
pub fn count_digits(s: &Vec<char>, i: usize, max: usize) -> (r: usize)
    ensures
        r == digit_run(s@, i as int, max as int),
{
    let mut k: usize = 0;
    while k < max && i < s.len() && k < s.len() - i && digit(s[i + k])
        invariant
            k <= max,
            digit_run(s@, i as int, max as int) == k + digit_run(s@, i + k, max - k),
        decreases max - k,
    {
        k += 1;
    }
    k
}

/// A date that opens `s`: one or two digits, `sep`, one or two digits, `sep`, then two to four
/// digits, the last field taken as long as it goes. Gives the ends of the three fields.
pub open spec fn md_y_at(s: Seq<char>, sep: char) -> Option<(int, int, int)> {
    let a = digit_run(s, 0, 2);
    let b = digit_run(s, a + 1, 2);
    let c = digit_run(s, a + b + 2, 4);
    if a >= 1 && a < s.len() && s[a] == sep && b >= 1 && a + b + 1 < s.len() && s[a + b + 1]
        == sep && c >= 2 {
        Some((a, a + 1 + b, a + b + 2 + c))
    } else {
        None
    }
}

/// `YYYY-MM-DD` at the start of `s`.
pub open spec fn ymd_at(s: Seq<char>) -> bool {
    s.len() >= 10 && digit_run(s, 0, 4) == 4 && s[4] == '-' && digit_run(s, 5, 2) == 2 && s[7]
        == '-' && digit_run(s, 8, 2) == 2
}

/// Years written with two digits fall in the 2000s.
pub open spec fn windowed(y: u32) -> u32 {
    if y < 100 {
        (y + 2000) as u32
    } else {
        y
    }
}

/// The date that opens a line, as `YYYY-MM-DD`, and where it ends. The forms are tried in
/// this order: `M/D/Y`, `YYYY-MM-DD`, `M-D-Y`; a form that matches but names no day of the
/// calendar gives none.
pub open spec fn leading_date(s: Seq<char>) -> Option<(Seq<char>, int)> {
    match md_y_at(s, '/') {
        Some((p, q, e)) => md_y_date(s, p, q, e),
        None => if ymd_at(s) {
            match (u32_value(s.take(4)), u32_value(s.subrange(5, 7)), u32_value(s.subrange(8, 10))) {
                (Some(y), Some(m), Some(d)) => if is_calendar_day(y as int, m as int, d as int) {
                    Some((iso_text(y, m, d), 10))
                } else {
                    None
                },
                _ => None,
            }
        } else {
            match md_y_at(s, '-') {
                Some((p, q, e)) => md_y_date(s, p, q, e),
                None => None,
            }
        },
    }
}

pub open spec fn md_y_date(s: Seq<char>, p: int, q: int, e: int) -> Option<(Seq<char>, int)> {
    match (u32_value(s.take(p)), u32_value(s.subrange(p + 1, q)), u32_value(s.subrange(q + 1, e))) {
        (Some(m), Some(d), Some(y)) => if is_calendar_day(windowed(y) as int, m as int, d as int) {
            Some((iso_text(windowed(y), m, d), e))
        } else {
            None
        },
        _ => None,
    }
}

/// A date `M<sep>D<sep>Y` that opens `s`, with the ends of its three fields.
pub fn md_y_find(s: &Vec<char>, sep: char) -> (r: Option<(usize, usize, usize)>)
    ensures
        match r {
            Some((p, q, e)) => md_y_at(s@, sep) == Some((p as int, q as int, e as int)) && e
                <= s@.len(),
            None => md_y_at(s@, sep) is None,
        },
{
    let n = s.len();
    let a = count_digits(s, 0, 2);
    proof {
        lemma_digit_run(s@, 0, 2);
    }
    if a < 1 || a >= n || s[a] != sep {
        return None;
    }
    let b = count_digits(s, a + 1, 2);
    proof {
        lemma_digit_run(s@, a + 1, 2);
    }
    if b < 1 || a + b + 1 >= n || s[a + b + 1] != sep {
        return None;
    }
    let c = count_digits(s, a + b + 2, 4);
    proof {
        lemma_digit_run(s@, a + b + 2, 4);
    }
    if c < 2 {
        return None;
    }
    Some((a, a + 1 + b, a + b + 2 + c))
}

fn u32_in(s: &Vec<char>, lo: usize, hi: usize) -> (r: Option<u32>)
    requires
        lo <= hi <= s.len(),
    ensures
        r == u32_value(s@.subrange(lo as int, hi as int)),
{
    let v = copy_range(s, lo, hi);
    parse_u32(&v)
}

/// The date that opens a line, and where it ends.
pub fn date_prefix(s: &Vec<char>) -> (r: Option<(String, usize)>)
    ensures
        match r {
            Some((d, e)) => leading_date(s@) == Some((d@, e as int)) && e <= s@.len(),
            None => leading_date(s@) is None,
        },
{
    match md_y_find(s, '/') {
        Some((p, q, e)) => {
            assert(s@.take(p as int) =~= s@.subrange(0, p as int));
            return md_y_convert(s, p, q, e);
        },
        None => {},
    }
    let n = s.len();
    if n >= 10 && count_digits(s, 0, 4) == 4 && s[4] == '-' && count_digits(s, 5, 2) == 2 && s[7]
        == '-' && count_digits(s, 8, 2) == 2 {
        assert(s@.take(4) =~= s@.subrange(0, 4));
        return match (u32_in(s, 0, 4), u32_in(s, 5, 7), u32_in(s, 8, 10)) {
            (Some(y), Some(m), Some(d)) => if calendar_day(y, m, d) {
                Some((iso_date(y, m, d), 10))
            } else {
                None
            },
            _ => None,
        };
    }
    match md_y_find(s, '-') {
        Some((p, q, e)) => {
            assert(s@.take(p as int) =~= s@.subrange(0, p as int));
            md_y_convert(s, p, q, e)
        },
        None => None,
    }
}

fn md_y_convert(s: &Vec<char>, p: usize, q: usize, e: usize) -> (r: Option<(String, usize)>)
    requires
        p < q < e <= s.len(),
    ensures
        match r {
            Some((d, end)) => md_y_date(s@, p as int, q as int, e as int) == Some((d@, end as int))
                && end == e,
            None => md_y_date(s@, p as int, q as int, e as int) is None,
        },
{
    assert(s@.take(p as int) =~= s@.subrange(0, p as int));
    match (u32_in(s, 0, p), u32_in(s, p + 1, q), u32_in(s, q + 1, e)) {
        (Some(m), Some(d), Some(y)) => {
            let yy = if y < 100 { y + 2000 } else { y };
            if calendar_day(yy, m, d) {
                Some((iso_date(yy, m, d), e))
            } else {
                None
            }
        },
        _ => None,
    }
}

/// Reads a date that opens the text into `YYYY-MM-DD`.
pub fn parse_date(s: &str) -> (r: Option<String>)
    ensures
        match r {
            Some(d) => leading_date(trimmed(s@)) matches Some((v, _)) && v == d@,
            None => leading_date(trimmed(s@)) is None,
        },
{
    let t = trim(&chars_of(s));
    match date_prefix(&t) {
        Some((d, _)) => Some(d),
        None => None,
    }
}

pub open spec fn is_amount_class(c: char) -> bool {
    is_digit(c) || c == ','
}

/// Length of the run of digits and commas at `i`.
pub open spec fn class_run(s: Seq<char>, i: int) -> int
    decreases s.len() - i,
{
    if i < 0 || i >= s.len() || !is_amount_class(s[i]) {
        0
    } else {
        1 + class_run(s, i + 1)
    }
}

proof fn lemma_class_run(s: Seq<char>, i: int)
    requires
        0 <= i,
    ensures
        0 <= class_run(s, i),
        i + class_run(s, i) <= s.len() || class_run(s, i) == 0,
    decreases s.len() - i,
{
    if i < s.len() && is_amount_class(s[i]) {
        lemma_class_run(s, i + 1);
    }
}

/// An amount token at `p`: an optional '$', an optional '-' or '(', one to twelve digits and
/// commas, '.', two digits, an optional ')' or '-', and an optional `CR`. Gives the end of
/// the token without and with its suffixes.
pub open spec fn token_at(s: Seq<char>, p: int) -> Option<(int, int)> {
    let i1 = if p < s.len() && s[p] == '$' {
        p + 1
    } else {
        p
    };
    let i2 = if i1 < s.len() && (s[i1] == '-' || s[i1] == '(') {
        i1 + 1
    } else {
        i1
    };
    let r = class_run(s, i2);
    let d = i2 + r;
    if 1 <= r <= 12 && d + 2 < s.len() && s[d] == '.' && is_digit(s[d + 1]) && is_digit(s[d + 2]) {
        let j1 = if d + 3 < s.len() && (s[d + 3] == ')' || s[d + 3] == '-') {
            d + 4
        } else {
            d + 3
        };
        let j2 = if j1 + 1 < s.len() && s[j1] == 'C' && s[j1 + 1] == 'R' {
            j1 + 2
        } else {
            j1
        };
        Some((d + 3, j2))
    } else {
        None
    }
}

/// The amount tokens of `s` from `p` on, as a left-to-right search finds them: the first
/// position that starts a token, then on from its end.
pub open spec fn tokens_from(s: Seq<char>, p: int) -> Seq<(int, int)>
    decreases s.len() - p,
{
    if p < 0 || p >= s.len() {
        Seq::empty()
    } else {
        match token_at(s, p) {
            Some((_, e)) => if e > p {
                seq![(p, e)] + tokens_from(s, e)
            } else {
                Seq::empty()
            },
            None => tokens_from(s, p + 1),
        }
    }
}

/// The first amount token of `s`, with its start.
pub open spec fn first_token(s: Seq<char>) -> Option<int> {
    let t = tokens_from(s, 0);
    if t.len() > 0 {
        Some(t[0].0)
    } else {
        None
    }
}

fn token_find(s: &Vec<char>, p: usize) -> (r: Option<(usize, usize)>)
    requires
        p < s.len(),
    ensures
        match r {
            Some((a, b)) => token_at(s@, p as int) == Some((a as int, b as int)) && p < a <= b
                <= s@.len(),
            None => token_at(s@, p as int) is None,
        },
{
    let n = s.len();
    let i1 = if s[p] == '$' { p + 1 } else { p };
    let i2 = if i1 < n && (s[i1] == '-' || s[i1] == '(') { i1 + 1 } else { i1 };
    let mut r: usize = 0;
    while i2 + r < n && (digit(s[i2 + r]) || s[i2 + r] == ',')
        invariant
            i2 <= n == s.len(),
            i2 + r <= n,
            class_run(s@, i2 as int) == r + class_run(s@, i2 + r),
        decreases n - i2 - r,
    {
        r += 1;
    }
    let d = i2 + r;
    if 1 <= r && r <= 12 && d < n && n - d > 2 && s[d] == '.' && digit(s[d + 1]) && digit(
        s[d + 2],
    ) {
        let j1 = if d + 3 < n && (s[d + 3] == ')' || s[d + 3] == '-') { d + 4 } else { d + 3 };
        let j2 = if j1 < n && n - j1 > 1 && s[j1] == 'C' && s[j1 + 1] == 'R' { j1 + 2 } else { j1 };
        Some((d + 3, j2))
    } else {
        None
    }
}

/// The amount tokens of `s` from `p` on, as (start, end) pairs.
pub fn find_tokens(s: &Vec<char>) -> (r: Vec<(usize, usize)>)
    ensures
        r@.len() == tokens_from(s@, 0).len(),
        forall|i: int|
            0 <= i < r@.len() ==> (#[trigger] r@[i]).0 as int == tokens_from(s@, 0)[i].0 && r@[i].1
                as int == tokens_from(s@, 0)[i].1 && r@[i].0 < r@[i].1 <= s@.len(),
{
    let mut out: Vec<(usize, usize)> = Vec::new();
    let ghost done: Seq<(int, int)> = Seq::empty();
    let mut p: usize = 0;
    while p < s.len()
        invariant
            p <= s.len(),
            out@.len() == done.len(),
            forall|i: int|
                0 <= i < out@.len() ==> (#[trigger] out@[i]).0 as int == done[i].0 && out@[i].1 as int
                    == done[i].1 && out@[i].0 < out@[i].1 <= s@.len(),
            done + tokens_from(s@, p as int) == tokens_from(s@, 0),
        decreases s.len() - p,
    {
        match token_find(s, p) {
            Some((_, e)) => {
                out.push((p, e));
                proof {
                    done = done.push((p as int, e as int));
                    assert(done + tokens_from(s@, e as int) =~= tokens_from(s@, 0));
                }
                p = e;
            },
            None => {
                p += 1;
            },
        }
    }
    assert(done =~= tokens_from(s@, 0));
    out
}

/// Words of a transaction-table header row.
pub open spec fn header_keywords() -> Seq<Seq<char>> {
    seq![
        "date"@,
        "description"@,
        "amount"@,
        "balance"@,
        "debit"@,
        "credit"@,
        "withdrawal"@,
        "deposit"@,
        "transaction"@,
        "posted"@,
    ]
}

/// Month abbreviations.
pub open spec fn month_abbrevs() -> Seq<Seq<char>> {
    seq![
        "jan"@,
        "feb"@,
        "mar"@,
        "apr"@,
        "may"@,
        "jun"@,
        "jul"@,
        "aug"@,
        "sep"@,
        "oct"@,
        "nov"@,
        "dec"@,
    ]
}

/// Full month names.
pub open spec fn month_names() -> Seq<Seq<char>> {
    seq![
        "january"@,
        "february"@,
        "march"@,
        "april"@,
        "may"@,
        "june"@,
        "july"@,
        "august"@,
        "september"@,
        "october"@,
        "november"@,
        "december"@,
    ]
}

/// Words of summary and total rows.
pub open spec fn summary_keywords() -> Seq<Seq<char>> {
    seq![
        "total"@,
        "summary"@,
        "subtotal"@,
        "balance forward"@,
        "previous balance"@,
        "ending balance"@,
        "beginning balance"@,
        "opening balance"@,
        "closing balance"@,
        "average"@,
        "minimum"@,
        "maximum"@,
        "page"@,
        "continued"@,
        "spending"@,
        "income"@,
        "net"@,
        "cash flow"@,
        "overview"@,
        "breakdown"@,
    ]
}

/// Category names that statements print as group headings.
pub open spec fn category_keywords() -> Seq<Seq<char>> {
    seq![
        "groceries"@,
        "dining"@,
        "restaurants"@,
        "shopping"@,
        "entertainment"@,
        "utilities"@,
        "bills"@,
        "transportation"@,
        "gas"@,
        "travel"@,
        "healthcare"@,
        "medical"@,
        "insurance"@,
        "education"@,
        "subscriptions"@,
        "personal"@,
        "home"@,
        "automotive"@,
        "clothing"@,
        "electronics"@,
        "gifts"@,
        "donations"@,
        "fees"@,
        "taxes"@,
        "income"@,
        "salary"@,
        "transfer"@,
        "payment"@,
    ]
}

/// Words that open the transaction section.
pub open spec fn section_keywords() -> Seq<Seq<char>> {
    seq!["transaction"@, "activity"@, "details"@, "account activity"@]
}

/// The words of a list.
pub fn word_list(list: &[&str]) -> (r: Vec<Vec<char>>)
    ensures
        r@.len() == list@.len(),
        forall|i: int| 0 <= i < r@.len() ==> (#[trigger] r@[i])@ == list@[i]@,
{
    let mut out: Vec<Vec<char>> = Vec::new();
    let mut i: usize = 0;
    while i < list.len()
        invariant
            i <= list@.len(),
            out@.len() == i,
            forall|k: int| 0 <= k < i ==> (#[trigger] out@[k])@ == list@[k]@,
        decreases list.len() - i,
    {
        out.push(chars_of(list[i]));
        i += 1;
    }
    out
}

/// How many words of `kws` occur in `h`.
pub open spec fn count_in(h: Seq<char>, kws: Seq<Seq<char>>) -> nat
    decreases kws.len(),
{
    if kws.len() == 0 {
        0
    } else {
        count_in(h, kws.drop_last()) + if contains(h, kws.last()) {
            1nat
        } else {
            0nat
        }
    }
}

/// The words of `kws` that occur in `h`, in list order.
pub open spec fn found_in(h: Seq<char>, kws: Seq<Seq<char>>) -> Seq<Seq<char>>
    decreases kws.len(),
{
    if kws.len() == 0 {
        Seq::empty()
    } else if contains(h, kws.last()) {
        found_in(h, kws.drop_last()).push(kws.last())
    } else {
        found_in(h, kws.drop_last())
    }
}

/// How many words of `kws` occur in `h`.
pub fn count_words(h: &Vec<char>, kws: &Vec<Vec<char>>) -> (r: usize)
    ensures
        r == count_in(h@, views(kws@)),
{
    let ghost ks = views(kws@);
    let mut n: usize = 0;
    let mut i: usize = 0;
    while i < kws.len()
        invariant
            i <= kws@.len(),
            n <= i,
            ks == views(kws@),
            n == count_in(h@, ks.take(i as int)),
        decreases kws.len() - i,
    {
        assert(ks.take(i + 1).drop_last() =~= ks.take(i as int));
        if includes(h, &kws[i]) {
            n += 1;
        }
        i += 1;
    }
    assert(ks.take(kws@.len() as int) =~= ks);
    n
}

/// The words of `kws` that occur in `h`, in list order.
pub fn words_found(h: &Vec<char>, kws: &Vec<Vec<char>>) -> (r: Vec<String>)
    ensures
        r@.len() == found_in(h@, views(kws@)).len(),
        forall|i: int|
            0 <= i < r@.len() ==> (#[trigger] r@[i])@ == found_in(h@, views(kws@))[i],
{
    let ghost ks = views(kws@);
    let mut out: Vec<String> = Vec::new();
    let mut i: usize = 0;
    while i < kws.len()
        invariant
            i <= kws@.len(),
            ks == views(kws@),
            out@.len() == found_in(h@, ks.take(i as int)).len(),
            forall|k: int| 0 <= k < out@.len() ==> (#[trigger] out@[k])@ == found_in(h@, ks.take(i as int))[k],
        decreases kws.len() - i,
    {
        assert(ks.take(i + 1).drop_last() =~= ks.take(i as int));
        if includes(h, &kws[i]) {
            out.push(string_of(kws[i].as_slice()));
        }
        i += 1;
    }
    assert(ks.take(kws@.len() as int) =~= ks);
    out
}

/// `t` without its trailing ':' characters.
pub open spec fn strip_colons(t: Seq<char>) -> Seq<char>
    decreases t.len(),
{
    if t.len() > 0 && t.last() == ':' {
        strip_colons(t.drop_last())
    } else {
        t
    }
}

fn drop_colons(t: &Vec<char>) -> (r: Vec<char>)
    ensures
        r@ == strip_colons(t@),
{
    let mut e = t.len();
    assert(t@.take(t@.len() as int) =~= t@);
    while e > 0 && t[e - 1] == ':'
        invariant
            e <= t@.len(),
            strip_colons(t@.take(e as int)) == strip_colons(t@),
        decreases e,
    {
        assert(t@.take(e as int).drop_last() =~= t@.take(e - 1));
        e -= 1;
    }
    assert(t@.take(e as int) =~= t@.subrange(0, e as int));
    copy_range(t, 0, e)
}

/// `t` is a category name of `kws`, alone or followed by a space and more text.
pub open spec fn names_category(t: Seq<char>, kws: Seq<Seq<char>>) -> bool {
    exists|i: int| 0 <= i < kws.len() && (t == kws[i] || starts_with(t, kws[i].push(' ')))
}

/// A category heading: a line that is not led by a date and that, lowercased and without
/// trailing colons, is a category name. Gives the line's own text, without trailing colons.
pub open spec fn category_header(s: Seq<char>) -> Option<Seq<char>> {
    if leading_date(trimmed(s)) is Some {
        None
    } else if names_category(strip_colons(trimmed(lower_of(s))), category_keywords()) {
        Some(strip_colons(trimmed(s)))
    } else {
        None
    }
}

pub open spec fn dated(s: Seq<char>) -> bool {
    leading_date(trimmed(s)) is Some
}

/// Whether a line opens with a date.
pub fn line_starts_with_date(s: &Vec<char>) -> (r: bool)
    ensures
        r == dated(s@),
{
    let t = trim(s);
    match date_prefix(&t) {
        Some(_) => true,
        None => false,
    }
}

/// Whether the line is a header row: two or more header words occur in it.
pub open spec fn is_header(s: Seq<char>) -> bool {
    count_in(lower_of(s), header_keywords()) >= 2
}

/// Whether the line names a monthly breakdown: two or more month abbreviations occur in it.
pub open spec fn is_summary_table(s: Seq<char>) -> bool {
    count_in(lower_of(s), month_abbrevs()) >= 2
}

pub open spec fn is_section_start(s: Seq<char>) -> bool {
    count_in(lower_of(s), section_keywords()) >= 1
}

pub open spec fn is_period_total(s: Seq<char>) -> bool {
    starts_with(lower_of(s), "quarterly"@) || starts_with(lower_of(s), "annual"@)
}

/// `u` is a dollar amount and nothing else: '$', digits and commas, '.', two digits.
pub open spec fn is_dollar_amount(u: Seq<char>) -> bool {
    let n = u.len();
    n >= 5 && u[0] == '$' && u[n - 3] == '.' && is_digit(u[n - 2]) && is_digit(u[n - 1])
        && forall|k: int| 1 <= k < n - 3 ==> is_amount_class(#[trigger] u[k])
}

pub open spec fn is_ascii_upper(c: char) -> bool {
    'A' <= c && c <= 'Z'
}

pub open spec fn is_ascii_letter(c: char) -> bool {
    is_ascii_upper(c) || ('a' <= c && c <= 'z')
}

/// A number (digits, at most one '.', led by a digit), white space, then three capital
/// letters: a chart label such as `1957.35 FEB`.
pub open spec fn is_chart_label(t: Seq<char>) -> bool {
    let n = t.len();
    let m = n - 3;
    let w = num_end(t, m);
    let num = t.take(w);
    let dot = crate::amount::dot_from(num, 0);
    n >= 5 && is_ascii_upper(t[n - 3]) && is_ascii_upper(t[n - 2]) && is_ascii_upper(t[n - 1])
        && 0 < w < m && is_digit(num[0]) && all_digits(num.take(dot)) && (dot < num.len()
        ==> all_digits(num.skip(dot + 1)))
}

/// Start of the white-space run that ends at `j`.
pub open spec fn num_end(t: Seq<char>, j: int) -> int
    decreases j,
{
    if 0 < j <= t.len() && is_ws(t[j - 1]) {
        num_end(t, j - 1)
    } else {
        j
    }
}

/// Every character is a digit, '.', ',', '%', '$' or white space.
pub open spec fn all_figures(t: Seq<char>) -> bool {
    forall|k: int|
        0 <= k < t.len() ==> {
            let c = #[trigger] t[k];
            is_digit(c) || c == '.' || c == ',' || c == '%' || c == '$' || is_ws(c)
        }
}

pub open spec fn is_month_word(l: Seq<char>) -> bool {
    exists|i: int|
        0 <= i < month_abbrevs().len() && (l == month_abbrevs()[i] || l == month_abbrevs()[i].push(
            '.',
        ))
}

pub open spec fn is_month_row(l: Seq<char>) -> bool {
    exists|i: int|
        0 <= i < month_names().len() && (l == month_names()[i] || (starts_with(l, month_names()[i])
            && contains(l, "$"@)))
}

/// Chart residue: very short lines, a bare dollar amount, bare figures, chart labels, a bare
/// month, or a row led by a month name that holds dollar amounts.
pub open spec fn is_chart_noise(s: Seq<char>) -> bool {
    let t = trimmed(s);
    let l = lower_of(t);
    t.len() < 3 || is_dollar_amount(t) || (all_figures(t) && (!contains(t, "."@) || t.len() < 4))
        || is_chart_label(t) || is_month_word(l) || is_month_row(l)
}

/// A category subtotal such as `Department Store $60.73`: a letter, then letters, white space
/// and '/', then a dollar amount that ends the line; not led by a date.
pub open spec fn is_category_total(s: Seq<char>) -> bool {
    let t = trimmed(s);
    let p = crate::text::index_from(t, '$', 0);
    contains(t, "$"@) && !dated(s) && p >= 2 && is_ascii_letter(t[0]) && (forall|k: int|
        1 <= k < p ==> {
            let c = #[trigger] t[k];
            is_ascii_letter(c) || is_ws(c) || c == '/'
        }) && is_dollar_amount(t.skip(p))
}

/// Whether a line is to be passed over: it holds a summary word, is a monthly breakdown, a
/// category heading, chart residue, a category subtotal, or a quarterly or annual total.
pub open spec fn should_skip(s: Seq<char>) -> bool {
    count_in(lower_of(s), summary_keywords()) >= 1 || is_summary_table(s) || category_header(s) is Some
        || is_chart_noise(s) || is_category_total(s) || is_period_total(s)
}

pub open spec fn views(v: Seq<Vec<char>>) -> Seq<Seq<char>> {
    v.map_values(|w: Vec<char>| w@)
}

fn header_words() -> (r: Vec<Vec<char>>)
    ensures
        views(r@) == header_keywords(),
{
    let list = [
        "date",
        "description",
        "amount",
        "balance",
        "debit",
        "credit",
        "withdrawal",
        "deposit",
        "transaction",
        "posted",
    ];
    let r = word_list(&list);
    assert(views(r@) =~= header_keywords());
    r
}

fn month_words() -> (r: Vec<Vec<char>>)
    ensures
        views(r@) == month_abbrevs(),
{
    let list = [
        "jan",
        "feb",
        "mar",
        "apr",
        "may",
        "jun",
        "jul",
        "aug",
        "sep",
        "oct",
        "nov",
        "dec",
    ];
    let r = word_list(&list);
    assert(views(r@) =~= month_abbrevs());
    r
}

fn month_name_words() -> (r: Vec<Vec<char>>)
    ensures
        views(r@) == month_names(),
{
    let list = [
        "january",
        "february",
        "march",
        "april",
        "may",
        "june",
        "july",
        "august",
        "september",
        "october",
        "november",
        "december",
    ];
    let r = word_list(&list);
    assert(views(r@) =~= month_names());
    r
}

fn summary_words() -> (r: Vec<Vec<char>>)
    ensures
        views(r@) == summary_keywords(),
{
    let list = [
        "total",
        "summary",
        "subtotal",
        "balance forward",
        "previous balance",
        "ending balance",
        "beginning balance",
        "opening balance",
        "closing balance",
        "average",
        "minimum",
        "maximum",
        "page",
        "continued",
        "spending",
        "income",
        "net",
        "cash flow",
        "overview",
        "breakdown",
    ];
    let r = word_list(&list);
    assert(views(r@) =~= summary_keywords());
    r
}

fn category_words() -> (r: Vec<Vec<char>>)
    ensures
        views(r@) == category_keywords(),
{
    let list = [
        "groceries",
        "dining",
        "restaurants",
        "shopping",
        "entertainment",
        "utilities",
        "bills",
        "transportation",
        "gas",
        "travel",
        "healthcare",
        "medical",
        "insurance",
        "education",
        "subscriptions",
        "personal",
        "home",
        "automotive",
        "clothing",
        "electronics",
        "gifts",
        "donations",
        "fees",
        "taxes",
        "income",
        "salary",
        "transfer",
        "payment",
    ];
    let r = word_list(&list);
    assert(views(r@) =~= category_keywords());
    r
}

fn section_words() -> (r: Vec<Vec<char>>)
    ensures
        views(r@) == section_keywords(),
{
    let list = [
        "transaction",
        "activity",
        "details",
        "account activity",
    ];
    let r = word_list(&list);
    assert(views(r@) =~= section_keywords());
    r
}

/// The word lists that the line classifiers consult.
pub struct Vocabulary {
    pub header: Vec<Vec<char>>,
    pub months: Vec<Vec<char>>,
    pub month_names: Vec<Vec<char>>,
    pub summary: Vec<Vec<char>>,
    pub categories: Vec<Vec<char>>,
    pub section: Vec<Vec<char>>,
    pub dollar: Vec<char>,
    pub dot: Vec<char>,
    pub quarterly: Vec<char>,
    pub annual: Vec<char>,
}

impl Vocabulary {
    pub open spec fn wf(&self) -> bool {
        &&& views(self.header@) == header_keywords()
        &&& views(self.months@) == month_abbrevs()
        &&& views(self.month_names@) == month_names()
        &&& views(self.summary@) == summary_keywords()
        &&& views(self.categories@) == category_keywords()
        &&& views(self.section@) == section_keywords()
        &&& self.dollar@ == "$"@
        &&& self.dot@ == "."@
        &&& self.quarterly@ == "quarterly"@
        &&& self.annual@ == "annual"@
    }

    pub fn new() -> (r: Vocabulary)
        ensures
            r.wf(),
    {
        Vocabulary {
            header: header_words(),
            months: month_words(),
            month_names: month_name_words(),
            summary: summary_words(),
            categories: category_words(),
            section: section_words(),
            dollar: chars_of("$"),
            dot: chars_of("."),
            quarterly: chars_of("quarterly"),
            annual: chars_of("annual"),
        }
    }
}

fn dollar_amount(u: &Vec<char>) -> (r: bool)
    ensures
        r == is_dollar_amount(u@),
{
    let n = u.len();
    if n < 5 || u[0] != '$' || u[n - 3] != '.' || !digit(u[n - 2]) || !digit(u[n - 1]) {
        return false;
    }
    let mut k: usize = 1;
    while k < n - 3
        invariant
            5 <= n == u@.len(),
            1 <= k <= n - 3,
            forall|j: int| 1 <= j < k ==> is_amount_class(#[trigger] u@[j]),
        decreases n - 3 - k,
    {
        if !(digit(u[k]) || u[k] == ',') {
            assert(!is_amount_class(u@[k as int]));
            return false;
        }
        k += 1;
    }
    true
}

fn upper(c: char) -> (r: bool)
    ensures
        r == is_ascii_upper(c),
{
    'A' <= c && c <= 'Z'
}

fn letter(c: char) -> (r: bool)
    ensures
        r == is_ascii_letter(c),
{
    ('A' <= c && c <= 'Z') || ('a' <= c && c <= 'z')
}

fn digits_in(s: &Vec<char>, lo: usize, hi: usize) -> (r: bool)
    requires
        lo <= hi <= s.len(),
    ensures
        r == all_digits(s@.subrange(lo as int, hi as int)),
{
    let mut k = lo;
    while k < hi
        invariant
            lo <= k <= hi <= s.len(),
            forall|j: int| lo <= j < k ==> is_digit(#[trigger] s@[j]),
        decreases hi - k,
    {
        if !digit(s[k]) {
            assert(s@.subrange(lo as int, hi as int)[k - lo] == s@[k as int]);
            return false;
        }
        k += 1;
    }
    assert forall|j: int| 0 <= j < hi - lo implies is_digit(
        #[trigger] s@.subrange(lo as int, hi as int)[j],
    ) by {
        assert(s@.subrange(lo as int, hi as int)[j] == s@[lo + j]);
    }
    true
}

fn chart_label(t: &Vec<char>) -> (r: bool)
    ensures
        r == is_chart_label(t@),
{
    let n = t.len();
    if n < 5 || !upper(t[n - 3]) || !upper(t[n - 2]) || !upper(t[n - 1]) {
        return false;
    }
    let m = n - 3;
    let mut w = m;
    while w > 0 && ws(t[w - 1])
        invariant
            w <= m < n == t@.len(),
            num_end(t@, w as int) == num_end(t@, m as int),
        decreases w,
    {
        w -= 1;
    }
    if w == 0 || w >= m || !digit(t[0]) {
        return false;
    }
    let num = copy_range(t, 0, w);
    assert(num@ =~= t@.take(w as int));
    let dot = crate::text::find_char(&num, '.', 0);
    proof {
        crate::text::lemma_index_from(num@, '.', 0);
        lemma_dot_is_index(num@, 0);
    }
    let head = digits_in(&num, 0, dot);
    assert(num@.subrange(0, dot as int) =~= num@.take(dot as int));
    if !head {
        return false;
    }
    if dot < w {
        let tail = digits_in(&num, dot + 1, w);
        assert(num@.subrange(dot + 1, w as int) =~= num@.skip(dot + 1));
        tail
    } else {
        true
    }
}

proof fn lemma_dot_is_index(s: Seq<char>, i: int)
    requires
        0 <= i <= s.len(),
    ensures
        crate::amount::dot_from(s, i) == crate::text::index_from(s, '.', i),
    decreases s.len() - i,
{
    if i < s.len() && s[i] != '.' {
        lemma_dot_is_index(s, i + 1);
    }
}

fn figures_only(t: &Vec<char>) -> (r: bool)
    ensures
        r == all_figures(t@),
{
    let mut k: usize = 0;
    while k < t.len()
        invariant
            k <= t@.len(),
            forall|j: int|
                0 <= j < k ==> {
                    let c = #[trigger] t@[j];
                    is_digit(c) || c == '.' || c == ',' || c == '%' || c == '$' || is_ws(c)
                },
        decreases t.len() - k,
    {
        let c = t[k];
        if !(digit(c) || c == '.' || c == ',' || c == '%' || c == '$' || ws(c)) {
            return false;
        }
        k += 1;
    }
    true
}

/// Whether lowercased text is a month abbreviation, alone or with a period.
pub fn month_word(l: &Vec<char>, months: &Vec<Vec<char>>) -> (r: bool)
    requires
        views(months@) == month_abbrevs(),
    ensures
        r == is_month_word(l@),
{
    let mut i: usize = 0;
    while i < months.len()
        invariant
            i <= months@.len() == month_abbrevs().len(),
            views(months@) == month_abbrevs(),
            forall|j: int|
                0 <= j < i ==> !(l@ == #[trigger] month_abbrevs()[j] || l@ == month_abbrevs()[j].push(
                    '.',
                )),
        decreases months.len() - i,
    {
        let m = &months[i];
        assert(m@ == month_abbrevs()[i as int]);
        if same_text(l, m) {
            return true;
        }
        if l.len() > m.len() && l.len() - m.len() == 1 && matches_at(l, m, 0) && l[m.len()] == '.' {
            assert(l@ =~= m@.push('.'));
            return true;
        }
        assert(l@ != m@.push('.')) by {
            if l@ == m@.push('.') {
                assert(l@.subrange(0, m@.len() as int) =~= m@);
            }
        }
        i += 1;
    }
    false
}

/// Whether lowercased text is a month name alone, or a row led by one that holds '$'.
pub fn month_row(l: &Vec<char>, names: &Vec<Vec<char>>, dollar: &Vec<char>) -> (r: bool)
    requires
        views(names@) == month_names(),
        dollar@ == "$"@,
    ensures
        r == is_month_row(l@),
{
    let has_dollar = includes(l, dollar);
    let mut i: usize = 0;
    while i < names.len()
        invariant
            i <= names@.len() == month_names().len(),
            views(names@) == month_names(),
            has_dollar == contains(l@, "$"@),
            forall|j: int|
                0 <= j < i ==> !(l@ == #[trigger] month_names()[j] || (starts_with(l@, month_names()[j])
                    && contains(l@, "$"@))),
        decreases names.len() - i,
    {
        let m = &names[i];
        assert(m@ == month_names()[i as int]);
        if same_text(l, m) || (begins_with(l, m) && has_dollar) {
            return true;
        }
        i += 1;
    }
    false
}

/// Whether the line is chart residue.
pub fn chart_noise(s: &Vec<char>, v: &Vocabulary) -> (r: bool)
    requires
        v.wf(),
    ensures
        r == is_chart_noise(s@),
{
    let t = trim(s);
    let l = lowercase(t.as_slice());
    t.len() < 3 || dollar_amount(&t) || (figures_only(&t) && (!includes(&t, &v.dot) || t.len() < 4))
        || chart_label(&t) || month_word(&l, &v.months) || month_row(&l, &v.month_names, &v.dollar)
}

/// Whether the line is a category subtotal.
pub fn category_total(s: &Vec<char>, v: &Vocabulary) -> (r: bool)
    requires
        v.wf(),
    ensures
        r == is_category_total(s@),
{
    let t = trim(s);
    if !includes(&t, &v.dollar) {
        return false;
    }
    if line_starts_with_date(s) {
        return false;
    }
    let p = crate::text::find_char(&t, '$', 0);
    proof {
        crate::text::lemma_index_from(t@, '$', 0);
    }
    if p < 2 || p > t.len() || !letter(t[0]) {
        return false;
    }
    let mut k: usize = 1;
    while k < p
        invariant
            2 <= p <= t@.len(),
            1 <= k <= p,
            t@ == trimmed(s@),
            p as int == crate::text::index_from(t@, '$', 0),
            is_ascii_letter(t@[0]),
            contains(t@, "$"@),
            !dated(s@),
            forall|j: int|
                1 <= j < k ==> {
                    let c = #[trigger] t@[j];
                    is_ascii_letter(c) || is_ws(c) || c == '/'
                },
        decreases p - k,
    {
        let c = t[k];
        if !(letter(c) || ws(c) || c == '/') {
            assert(!(is_ascii_letter(t@[k as int]) || is_ws(t@[k as int]) || t@[k as int] == '/'));
            return false;
        }
        k += 1;
    }
    let rest = copy_range(&t, p, t.len());
    assert(rest@ =~= t@.skip(p as int));
    dollar_amount(&rest)
}

/// Whether the line names a category, and its heading text.
pub fn category_heading(s: &Vec<char>, v: &Vocabulary) -> (r: Option<Vec<char>>)
    requires
        v.wf(),
    ensures
        match r {
            Some(c) => category_header(s@) == Some(c@),
            None => category_header(s@) is None,
        },
{
    if line_starts_with_date(s) {
        return None;
    }
    let l = lowercase(s.as_slice());
    let lt = trim(&l);
    let t = drop_colons(&lt);
    let mut i: usize = 0;
    while i < v.categories.len()
        invariant
            v.wf(),
            i <= v.categories@.len() == category_keywords().len(),
            t@ == strip_colons(trimmed(lower_of(s@))),
            leading_date(trimmed(s@)) is None,
            forall|j: int|
                0 <= j < i ==> !(t@ == #[trigger] category_keywords()[j] || starts_with(
                    t@,
                    category_keywords()[j].push(' '),
                )),
        decreases v.categories.len() - i,
    {
        let c = &v.categories[i];
        assert(c@ == category_keywords()[i as int]);
        let hit = same_text(&t, c) || (begins_with(&t, c) && t.len() > c.len() && t[c.len()] == ' ');
        assert(starts_with(t@, c@.push(' ')) ==> opens_with_word(t@, c@)) by {
            if starts_with(t@, c@.push(' ')) {
                assert forall|k: int| 0 <= k < c@.len() implies t@[k] == c@[k] by {
                    assert(t@.subrange(0, c@.len() as int + 1)[k] == c@.push(' ')[k]);
                }
                assert(t@.subrange(0, c@.len() as int + 1)[c@.len() as int] == ' ');
                assert(t@.subrange(0, c@.len() as int) =~= c@);
            }
        }
        if hit {
            assert(opens_with_word(t@, c@) ==> starts_with(t@, c@.push(' '))) by {
                if opens_with_word(t@, c@) {
                    assert forall|k: int| 0 <= k < c@.len() implies t@[k] == c@[k] by {
                        assert(t@.subrange(0, c@.len() as int)[k] == c@[k]);
                    }
                    assert(t@.subrange(0, c@.len() as int + 1) =~= c@.push(' '));
                }
            }
            assert(names_category(t@, category_keywords()));
            let st = trim(s);
            return Some(drop_colons(&st));
        }
        i += 1;
    }
    None
}

/// `t` starts with the word `c` followed by a space.
pub open spec fn opens_with_word(t: Seq<char>, c: Seq<char>) -> bool {
    starts_with(t, c) && t.len() > c.len() && t[c.len() as int] == ' '
}

/// Whether a line is to be passed over.
pub fn skip_line(s: &Vec<char>, v: &Vocabulary) -> (r: bool)
    requires
        v.wf(),
    ensures
        r == should_skip(s@),
{
    let l = lowercase(s.as_slice());
    if count_words(&l, &v.summary) >= 1 {
        return true;
    }
    if count_words(&l, &v.months) >= 2 {
        return true;
    }
    match category_heading(s, v) {
        Some(_) => {
            return true;
        },
        None => {},
    }
    chart_noise(s, v) || category_total(s, v) || begins_with(&l, &v.quarterly) || begins_with(
        &l,
        &v.annual,
    )
}

/// A transaction read from a statement line.
pub struct PdfTransaction {
    pub date: String,
    pub description: String,
    pub amount: i64,
    pub running_balance: Option<i64>,
    pub raw_line: String,
    pub category: Option<String>,
}

pub struct DocRow {
    pub date: Seq<char>,
    pub description: Seq<char>,
    pub amount: i64,
    pub running_balance: Option<i64>,
    pub raw_line: Seq<char>,
    pub category: Option<Seq<char>>,
}

pub open spec fn opt_view(o: Option<String>) -> Option<Seq<char>> {
    match o {
        Some(s) => Some(s@),
        None => None,
    }
}

impl View for PdfTransaction {
    type V = DocRow;

    open spec fn view(&self) -> DocRow {
        DocRow {
            date: self.date@,
            description: self.description@,
            amount: self.amount,
            running_balance: self.running_balance,
            raw_line: self.raw_line@,
            category: opt_view(self.category),
        }
    }
}

/// Amounts of the tokens `toks` of `s`, in order, leaving out those that are not amounts or
/// exceed ten million in size.
pub open spec fn amounts_of_tokens(s: Seq<char>, toks: Seq<(int, int)>) -> Seq<i64>
    decreases toks.len(),
{
    if toks.len() == 0 {
        Seq::empty()
    } else {
        let rest = amounts_of_tokens(s, toks.drop_last());
        let (a, b) = toks.last();
        match doc_amount(s.subrange(a, b)) {
            Some(v) => if -1_000_000_000 <= v <= 1_000_000_000 {
                rest.push(v)
            } else {
                rest
            },
            None => rest,
        }
    }
}

/// The amounts of the last three amount tokens of a line, in the order they stand.
pub open spec fn line_amounts(s: Seq<char>) -> Seq<i64> {
    let t = tokens_from(s, 0);
    amounts_of_tokens(
        s,
        if t.len() > 3 {
            t.skip(t.len() - 3)
        } else {
            t
        },
    )
}

/// The amounts of the last three amount tokens of a line, in the order they stand.
pub fn extract_amounts_from_end(line: &Vec<char>) -> (r: Vec<i64>)
    ensures
        r@ == line_amounts(line@),
{
    let toks = find_tokens(line);
    let ghost all = tokens_from(line@, 0);
    let n = toks.len();
    let start: usize = if n > 3 { n - 3 } else { 0 };
    let ghost last = if all.len() > 3 {
        all.skip(all.len() - 3)
    } else {
        all
    };
    assert(n <= 3 ==> last =~= all.skip(0));
    let mut out: Vec<i64> = Vec::new();
    let mut k = start;
    while k < n
        invariant
            start <= k <= n == all.len(),
            n == toks@.len(),
            last == all.skip(start as int),
            forall|i: int|
                0 <= i < toks@.len() ==> (#[trigger] toks@[i]).0 as int == all[i].0 && toks@[i].1 as int
                    == all[i].1 && toks@[i].0 < toks@[i].1 <= line@.len(),
            out@ == amounts_of_tokens(line@, last.take(k - start)),
        decreases n - k,
    {
        let (a, b) = toks[k];
        assert(last.take(k - start + 1).drop_last() =~= last.take(k - start));
        assert(last.take(k - start + 1).last() == all[k as int]);
        let piece = copy_range(line, a, b);
        match amount_of(&piece) {
            Some(v) => {
                if -1_000_000_000 <= v && v <= 1_000_000_000 {
                    out.push(v);
                }
            },
            None => {},
        }
        k += 1;
    }
    assert(last.take(n - start) =~= last);
    out
}

/// One transaction line: the date that opens it, its amounts (the first is the amount, the
/// last of two or more the running balance), and the text between the date and the first
/// amount token as its description, which must have two characters or more.
pub open spec fn doc_line(s: Seq<char>, category: Option<Seq<char>>) -> Option<DocRow> {
    let t = trimmed(s);
    match leading_date(t) {
        None => None,
        Some((date, de)) => {
            let am = line_amounts(s);
            let after = if de < t.len() {
                t.skip(de)
            } else {
                Seq::empty()
            };
            let description = match first_token(after) {
                Some(p) => trimmed(after.take(p)),
                None => trimmed(after),
            };
            if am.len() == 0 || description.len() < 2 {
                None
            } else {
                Some(
                    DocRow {
                        date,
                        description,
                        amount: am[0],
                        running_balance: if am.len() >= 2 {
                            Some(am.last())
                        } else {
                            None
                        },
                        raw_line: s,
                        category,
                    },
                )
            }
        },
    }
}

/// Reads one transaction line, tagging it with the category heading in force.
pub fn transaction_of(line: &Vec<char>, category: Option<String>) -> (r: Option<PdfTransaction>)
    ensures
        match r {
            Some(t) => doc_line(line@, opt_view(category)) == Some(t@),
            None => doc_line(line@, opt_view(category)) is None,
        },
{
    let t = trim(line);
    let (date, de) = match date_prefix(&t) {
        Some(x) => x,
        None => {
            return None;
        },
    };
    let am = extract_amounts_from_end(line);
    let after = if de < t.len() {
        let a = copy_range(&t, de, t.len());
        assert(a@ =~= t@.skip(de as int));
        a
    } else {
        Vec::new()
    };
    let toks = find_tokens(&after);
    let description = if toks.len() > 0 {
        let (p, _) = toks[0];
        let head = copy_range(&after, 0, p);
        assert(head@ =~= after@.take(p as int));
        trim(&head)
    } else {
        trim(&after)
    };
    if am.len() == 0 || description.len() < 2 {
        return None;
    }
    let running_balance = if am.len() >= 2 {
        Some(am[am.len() - 1])
    } else {
        None
    };
    Some(
        PdfTransaction {
            date,
            description: string_of(description.as_slice()),
            amount: am[0],
            running_balance,
            raw_line: string_of(line.as_slice()),
            category,
        },
    )
}

/// Reads one transaction line, tagging it with a category.
pub fn parse_transaction_line(line: &str, category: Option<String>) -> (r: Option<PdfTransaction>)
    ensures
        match r {
            Some(t) => doc_line(line@, opt_view(category)) == Some(t@),
            None => doc_line(line@, opt_view(category)) is None,
        },
{
    transaction_of(&chars_of(line), category)
}

/// Whether the line is a header row.
pub fn is_header_line(line: &str) -> (r: bool)
    ensures
        r == is_header(line@),
{
    let l = lowercase(chars_of(line).as_slice());
    count_words(&l, &header_words()) >= 2
}

/// Whether the line is a row of a monthly breakdown.
pub fn is_summary_table_line(line: &str) -> (r: bool)
    ensures
        r == is_summary_table(line@),
{
    let l = lowercase(chars_of(line).as_slice());
    count_words(&l, &month_words()) >= 2
}

/// The category that a heading line names, if it is one.
pub fn extract_category_header(line: &str) -> (r: Option<String>)
    ensures
        opt_view(r) == category_header(line@),
{
    let v = Vocabulary::new();
    match category_heading(&chars_of(line), &v) {
        Some(c) => Some(string_of(c.as_slice())),
        None => None,
    }
}

/// Whether the line is a category heading.
pub fn is_category_header(line: &str) -> (r: bool)
    ensures
        r == category_header(line@) is Some,
{
    let v = Vocabulary::new();
    match category_heading(&chars_of(line), &v) {
        Some(_) => true,
        None => false,
    }
}

/// Whether the line is a quarterly or annual total.
pub fn is_total_row(line: &str) -> (r: bool)
    ensures
        r == is_period_total(line@),
{
    let l = lowercase(chars_of(line).as_slice());
    begins_with(&l, &chars_of("quarterly")) || begins_with(&l, &chars_of("annual"))
}

/// Whether the line is to be passed over.
pub fn should_skip_line(line: &str) -> (r: bool)
    ensures
        r == should_skip(line@),
{
    let v = Vocabulary::new();
    skip_line(&chars_of(line), &v)
}

/// Whether the line opens the transaction section.
pub fn is_transaction_section_start(line: &str) -> (r: bool)
    ensures
        r == is_section_start(line@),
{
    let l = lowercase(chars_of(line).as_slice());
    count_words(&l, &section_words()) >= 1
}

/// Whether the line opens with a date.
pub fn starts_with_date(line: &str) -> (r: bool)
    ensures
        r == dated(line@),
{
    line_starts_with_date(&chars_of(line))
}

/// The date that opens a line, and where it ends within the trimmed line.
pub fn extract_date_from_line(line: &str) -> (r: Option<(String, usize)>)
    ensures
        match r {
            Some((d, e)) => leading_date(trimmed(line@)) == Some((d@, e as int)),
            None => leading_date(trimmed(line@)) is None,
        },
{
    date_prefix(&trim(&chars_of(line)))
}

/// The issuer that the text names, or `Generic`.
pub open spec fn issuer(lower: Seq<char>) -> Seq<char> {
    if contains(lower, "bank of america"@) {
        "Bank of America"@
    } else if contains(lower, "chase"@) {
        "Chase"@
    } else if contains(lower, "wells fargo"@) {
        "Wells Fargo"@
    } else if contains(lower, "citi"@) {
        "Citi"@
    } else {
        "Generic"@
    }
}

/// Index of the first header row among `lines`.
pub open spec fn first_header(lines: Seq<Seq<char>>) -> Option<int>
    decreases lines.len(),
{
    if lines.len() == 0 {
        None
    } else if is_header(lines[0]) {
        Some(0)
    } else {
        match first_header(lines.skip(1)) {
            Some(i) => Some(i + 1),
            None => None,
        }
    }
}

fn issuer_name(lower: &Vec<char>) -> (r: String)
    ensures
        r@ == issuer(lower@),
{
    if includes(lower, &chars_of("bank of america")) {
        string_of(chars_of("Bank of America").as_slice())
    } else if includes(lower, &chars_of("chase")) {
        string_of(chars_of("Chase").as_slice())
    } else if includes(lower, &chars_of("wells fargo")) {
        string_of(chars_of("Wells Fargo").as_slice())
    } else if includes(lower, &chars_of("citi")) {
        string_of(chars_of("Citi").as_slice())
    } else {
        string_of(chars_of("Generic").as_slice())
    }
}

proof fn lemma_first_header_prefix(lines: Seq<Seq<char>>, k: int)
    requires
        0 <= k < lines.len(),
        forall|j: int| 0 <= j < k ==> !is_header(#[trigger] lines[j]),
    ensures
        is_header(lines[k]) ==> first_header(lines) == Some(k),
        first_header(lines) == (if is_header(lines[k]) {
            Some(k)
        } else {
            match first_header(lines.skip(k + 1)) {
                Some(i) => Some(i + k + 1),
                None => None,
            }
        }),
    decreases k,
{
    if k > 0 {
        lemma_first_header_prefix(lines.skip(1), k - 1);
        assert(lines.skip(1).skip(k) =~= lines.skip(k + 1));
    }
}

pub open spec fn string_views(v: Seq<String>) -> Seq<Seq<char>> {
    v.map_values(|w: String| w@)
}

/// What format detection reports for `text`: the issuer and the header words of its first
/// header row, or nothing when it has none.
pub open spec fn detected_format(text: Seq<char>) -> (Option<Seq<char>>, Seq<Seq<char>>) {
    let lines = lines_of(text);
    match first_header(lines) {
        Some(i) => (Some(issuer(lower_of(text))), found_in(lower_of(lines[i]), header_keywords())),
        None => (None, Seq::empty()),
    }
}

/// The issuer and the header words of the first header row, if the text has one.
pub fn detect_format(text: &Vec<char>) -> (r: (Option<String>, Vec<String>))
    ensures
        (opt_view(r.0), string_views(r.1@)) == detected_format(text@),
{
    let lines = split_lines(text);
    let ghost all = lines_of(text@);
    let header = header_words();
    let mut k: usize = 0;
    while k < lines.len()
        invariant
            k <= lines@.len() == all.len(),
            all == lines_of(text@),
            forall|i: int| 0 <= i < lines@.len() ==> (#[trigger] lines@[i])@ == all[i],
            views(header@) == header_keywords(),
            forall|j: int| 0 <= j < k ==> !is_header(#[trigger] all[j]),
        decreases lines.len() - k,
    {
        let l = lowercase(lines[k].as_slice());
        assert(lines@[k as int]@ == all[k as int]);
        if count_words(&l, &header) >= 2 {
            assert(is_header(all[k as int]));
            proof {
                lemma_first_header_prefix(all, k as int);
            }
            let columns = words_found(&l, &header);
            let lower = lowercase(text.as_slice());
            let name = issuer_name(&lower);
            assert(string_views(columns@) =~= found_in(lower_of(all[k as int]), header_keywords()));
            return (Some(name), columns);
        }
        k += 1;
    }
    proof {
        lemma_no_header(all);
    }
    let r: (Option<String>, Vec<String>) = (None, Vec::new());
    assert(string_views(r.1@) =~= Seq::<Seq<char>>::empty());
    r
}

proof fn lemma_no_header(lines: Seq<Seq<char>>)
    requires
        forall|j: int| 0 <= j < lines.len() ==> !is_header(#[trigger] lines[j]),
    ensures
        first_header(lines) is None,
    decreases lines.len(),
{
    if lines.len() > 0 {
        assert forall|j: int| 0 <= j < lines.skip(1).len() implies !is_header(
            #[trigger] lines.skip(1)[j],
        ) by {
            assert(lines.skip(1)[j] == lines[j + 1]);
        }
        lemma_no_header(lines.skip(1));
    }
}

/// What a document preview reports. The confidence of the parse is `lines_parsed` over
/// `lines_with_date` (zero when no line opens with a date).
pub struct PdfPreview {
    pub transactions: Vec<PdfTransaction>,
    pub total_rows: usize,
    pub detected_format: Option<String>,
    pub detected_columns: Vec<String>,
    pub raw_text_sample: String,
    pub lines_with_date: usize,
    pub lines_parsed: usize,
}

/// What a pass over the lines has gathered so far.
pub struct DocScan {
    pub rows: Seq<DocRow>,
    pub in_section: bool,
    pub past_summary: bool,
    pub dated: nat,
    pub parsed: nat,
    pub category: Option<Seq<char>>,
}

/// What a line of statement text is.
#[derive(Clone, Copy, Debug, PartialEq, Eq, Structural)]
pub enum LineKind {
    Blank,
    SectionStart,
    Header,
    CategoryHeader,
    Skip,
    Transaction,
    Unclassified,
}

/// The kind of a trimmed line: the classifiers are asked in this order and the first that
/// accepts the line decides. Section and header lines are recognized only with section gating.
pub open spec fn line_kind(t: Seq<char>, gated: bool) -> LineKind {
    if t.len() == 0 {
        LineKind::Blank
    } else if gated && is_section_start(t) {
        LineKind::SectionStart
    } else if gated && is_header(t) {
        LineKind::Header
    } else if category_header(t) is Some {
        LineKind::CategoryHeader
    } else if should_skip(t) {
        LineKind::Skip
    } else if dated(t) {
        LineKind::Transaction
    } else {
        LineKind::Unclassified
    }
}

/// Classifies a trimmed line; for a category heading, also gives the category it names.
pub fn classify_line(t: &Vec<char>, v: &Vocabulary, gated: bool) -> (r: (LineKind, Option<Vec<char>>))
    requires
        v.wf(),
    ensures
        r.0 == line_kind(t@, gated),
        r.0 == LineKind::CategoryHeader ==> (r.1 matches Some(c) && category_header(t@) == Some(c@)),
{
    if t.len() == 0 {
        return (LineKind::Blank, None);
    }
    if gated && count_words(&lowercase(t.as_slice()), &v.section) >= 1 {
        return (LineKind::SectionStart, None);
    }
    if gated && count_words(&lowercase(t.as_slice()), &v.header) >= 2 {
        return (LineKind::Header, None);
    }
    match category_heading(t, v) {
        Some(c) => {
            return (LineKind::CategoryHeader, Some(c));
        },
        None => {},
    }
    if skip_line(t, v) {
        (LineKind::Skip, None)
    } else if line_starts_with_date(t) {
        (LineKind::Transaction, None)
    } else {
        (LineKind::Unclassified, None)
    }
}

/// One line's effect, by its kind. With section gating, section and header lines only set the
/// state, and a parsed row is kept once the summary is behind (or while nothing has been kept
/// yet); without it, every parsed row is kept.
pub open spec fn doc_step(st: DocScan, line: Seq<char>, gated: bool) -> DocScan {
    let t = trimmed(line);
    match line_kind(t, gated) {
        LineKind::SectionStart => DocScan { in_section: true, past_summary: true, ..st },
        LineKind::Header => DocScan { past_summary: true, ..st },
        LineKind::CategoryHeader => DocScan { category: category_header(t), ..st },
        LineKind::Transaction => match doc_line(t, st.category) {
            Some(row) => DocScan {
                dated: st.dated + 1,
                parsed: st.parsed + 1,
                rows: if !gated || st.past_summary || st.in_section || st.rows.len() == 0 {
                    st.rows.push(row)
                } else {
                    st.rows
                },
                ..st
            },
            None => DocScan { dated: st.dated + 1, ..st },
        },
        _ => st,
    }
}

pub open spec fn doc_scan(lines: Seq<Seq<char>>, gated: bool) -> DocScan
    decreases lines.len(),
{
    if lines.len() == 0 {
        DocScan {
            rows: Seq::empty(),
            in_section: false,
            past_summary: false,
            dated: 0,
            parsed: 0,
            category: None,
        }
    } else {
        doc_step(doc_scan(lines.drop_last(), gated), lines.last(), gated)
    }
}

/// The gated pass, or the ungated one when the gated pass keeps fewer than three rows.
pub open spec fn doc_result(lines: Seq<Seq<char>>) -> DocScan {
    let first = doc_scan(lines, true);
    if first.rows.len() < 3 {
        doc_scan(lines, false)
    } else {
        first
    }
}

/// How many characters of `s` are not white space.
pub open spec fn signal(s: Seq<char>) -> nat
    decreases s.len(),
{
    if s.len() == 0 {
        0
    } else {
        signal(s.drop_last()) + if is_ws(s.last()) {
            0nat
        } else {
            1nat
        }
    }
}

fn signal_of(s: &Vec<char>) -> (r: usize)
    ensures
        r == signal(s@),
{
    let mut n: usize = 0;
    let mut i: usize = 0;
    while i < s.len()
        invariant
            i <= s@.len(),
            n <= i,
            n == signal(s@.take(i as int)),
        decreases s.len() - i,
    {
        assert(s@.take(i + 1).drop_last() =~= s@.take(i as int));
        if !ws(s[i]) {
            n += 1;
        }
        i += 1;
    }
    assert(s@.take(s@.len() as int) =~= s@);
    n
}

pub open spec fn same_rows(v: Seq<PdfTransaction>, rows: Seq<DocRow>) -> bool {
    v.len() == rows.len() && forall|i: int| 0 <= i < v.len() ==> (#[trigger] v[i])@ == rows[i]
}

fn clone_category(c: &Option<Vec<char>>) -> (r: Option<String>)
    ensures
        opt_view(r) == match c {
            Some(v) => Some(v@),
            None => None::<Seq<char>>,
        },
{
    match c {
        Some(v) => Some(string_of(v.as_slice())),
        None => None,
    }
}

/// One pass over the lines, with or without section gating.
fn scan_lines(lines: &Vec<Vec<char>>, v: &Vocabulary, gated: bool) -> (r: (
    Vec<PdfTransaction>,
    usize,
    usize,
))
    requires
        v.wf(),
    ensures
        ({
            let st = doc_scan(views(lines@), gated);
            same_rows(r.0@, st.rows) && r.1 == st.dated && r.2 == st.parsed
        }),
{
    let ghost all = views(lines@);
    let mut rows: Vec<PdfTransaction> = Vec::new();
    let mut in_section = false;
    let mut past_summary = false;
    let mut dated_count: usize = 0;
    let mut parsed_count: usize = 0;
    let mut category: Option<Vec<char>> = None;
    let mut k: usize = 0;
    while k < lines.len()
        invariant
            v.wf(),
            k <= lines@.len() == all.len(),
            all == views(lines@),
            parsed_count <= dated_count <= k,
            ({
                let st = doc_scan(all.take(k as int), gated);
                &&& same_rows(rows@, st.rows)
                &&& st.in_section == in_section
                &&& st.past_summary == past_summary
                &&& st.dated == dated_count
                &&& st.parsed == parsed_count
                &&& st.category == match category {
                    Some(c) => Some(c@),
                    None => None::<Seq<char>>,
                }
            }),
        decreases lines.len() - k,
    {
        assert(all.take(k + 1).drop_last() =~= all.take(k as int));
        assert(all.take(k + 1).last() == lines@[k as int]@);
        let t = trim(&lines[k]);
        let (kind, named) = classify_line(&t, v, gated);
        match kind {
            LineKind::SectionStart => {
                in_section = true;
                past_summary = true;
            },
            LineKind::Header => {
                past_summary = true;
            },
            LineKind::CategoryHeader => {
                category = named;
            },
            LineKind::Transaction => {
                dated_count += 1;
                match transaction_of(&t, clone_category(&category)) {
                    Some(tx) => {
                        parsed_count += 1;
                        if !gated || past_summary || in_section || rows.len() == 0 {
                            rows.push(tx);
                        }
                    },
                    None => {},
                }
            },
            _ => {},
        }
        k += 1;
    }
    assert(all.take(k as int) =~= all);
    (rows, dated_count, parsed_count)
}

/// The first `n` characters of `s` (all of them when it is shorter).
fn sample_of(s: &Vec<char>, n: usize) -> (r: String)
    ensures
        r@ == s@.take(if s@.len() < n {
            s@.len() as int
        } else {
            n as int
        }),
{
    let e = if s.len() < n { s.len() } else { n };
    let v = copy_range(s, 0, e);
    assert(v@ =~= s@.take(e as int));
    string_of(v.as_slice())
}

/// Reads the text of a statement document: its transactions (up to `limit`), their count,
/// the detected format, a sample of the text and the counts that measure parse quality.
/// Text with fewer than 100 characters that are not white space is refused.
pub fn preview_pdf(text: &str, limit: usize) -> (r: Result<PdfPreview, ImportError>)
    ensures
        signal(text@) < 100 <==> r == Err::<PdfPreview, ImportError>(ImportError::LowSignalDocument),
        signal(text@) >= 100 <==> r is Ok,
        r is Ok ==> ({
            let p = r->Ok_0;
            let st = doc_result(lines_of(text@));
            let shown = if limit < st.rows.len() {
                limit as int
            } else {
                st.rows.len() as int
            };
            &&& p.total_rows == st.rows.len()
            &&& same_rows(p.transactions@, st.rows.take(shown))
            &&& p.lines_with_date == st.dated
            &&& p.lines_parsed == st.parsed
            &&& (opt_view(p.detected_format), string_views(p.detected_columns@)) == detected_format(
                text@,
            )
            &&& p.raw_text_sample@ == text@.take(if text@.len() < 500 {
                text@.len() as int
            } else {
                500
            })
        }),
{
    let chars = chars_of(text);
    if signal_of(&chars) < 100 {
        return Err(ImportError::LowSignalDocument);
    }
    let (detected_format, detected_columns) = detect_format(&chars);
    let lines = split_lines(&chars);
    assert(views(lines@) =~= lines_of(text@));
    let v = Vocabulary::new();
    let (rows, dated_count, parsed_count) = {
        let first = scan_lines(&lines, &v, true);
        if first.0.len() < 3 {
            scan_lines(&lines, &v, false)
        } else {
            first
        }
    };
    let total = rows.len();
    let mut rows = rows;
    rows.truncate(limit);
    let ghost st = doc_result(lines_of(text@));
    assert(same_rows(rows@, st.rows.take(rows@.len() as int))) by {
        assert forall|i: int| 0 <= i < rows@.len() implies (#[trigger] rows@[i])@ == st.rows.take(
            rows@.len() as int,
        )[i] by {}
    }
    Ok(
        PdfPreview {
            transactions: rows,
            total_rows: total,
            detected_format,
            detected_columns,
            raw_text_sample: sample_of(&chars, 500),
            lines_with_date: dated_count,
            lines_parsed: parsed_count,
        },
    )
}

/// Every transaction of a statement document's text.
pub fn parse_pdf(text: &str) -> (r: Result<Vec<PdfTransaction>, ImportError>)
    ensures
        signal(text@) < 100 <==> r == Err::<Vec<PdfTransaction>, ImportError>(
            ImportError::LowSignalDocument,
        ),
        signal(text@) >= 100 <==> r is Ok,
        r is Ok ==> same_rows(r->Ok_0@, doc_result(lines_of(text@)).rows),
{
    match preview_pdf(text, usize::MAX) {
        Ok(p) => {
            assert(doc_result(lines_of(text@)).rows.take(p.total_rows as int) =~= doc_result(
                lines_of(text@),
            ).rows);
            Ok(p.transactions)
        },
        Err(e) => Err(e),
    }
}

} // verus!
