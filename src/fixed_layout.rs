//! Line-oriented bank exports with a fixed leading date column and right-aligned amounts.
use vstd::prelude::*;
use crate::text::{
    is_digit, digit, trimmed, trim, without, remove_char, copy_range, chars_of, string_of,
    index_from, lemma_index_from, find_char, last_word, last_word_of, lines_of, split_lines,
    starts_with, contains, begins_with, includes,
};
use crate::amount::{
    bounded, signed_cents, parse_signed, all_digits, digits_value, lemma_digits_value_step,
    lemma_digits_value_grows, padded, push_padded, amount_text, digits_of, digit_char,
    lemma_amount_text_round_trip, lemma_digits_of,
};
use crate::text::{is_ws, skip_ws, back_ws, lower_of, lowercase};
use crate::dates::{is_calendar_day, calendar_day};

verus! {

broadcast use vstd::string::group_string_axioms;

/// A transaction row of a fixed-layout export.
pub struct BoaTransaction {
    pub date: String,
    pub description: String,
    pub amount: i64,
    pub running_balance: Option<i64>,
}

/// What a fixed-layout export holds: its transactions (up to a limit), how many there are in
/// all, and the balances that its summary lines state.
pub struct BoaPreview {
    pub transactions: Vec<BoaTransaction>,
    pub total_rows: usize,
    pub beginning_balance: Option<i64>,
    pub ending_balance: Option<i64>,
}

pub struct FixedRow {
    pub date: Seq<char>,
    pub description: Seq<char>,
    pub amount: i64,
    pub running_balance: Option<i64>,
}

impl View for BoaTransaction {
    type V = FixedRow;

    open spec fn view(&self) -> FixedRow {
        FixedRow {
            date: self.date@,
            description: self.description@,
            amount: self.amount,
            running_balance: self.running_balance,
        }
    }
}

/// Amount text of this format: white space and ',' are ignored, a leading or trailing '-' or
/// enclosing parentheses make it negative.
pub open spec fn fixed_amount(s: Seq<char>) -> Option<i64> {
    let c = without(trimmed(s), ',');
    if c.len() == 0 {
        None
    } else if c[0] == '-' {
        negated(bounded(signed_cents(c.skip(1))))
    } else if c[0] == '(' && c.last() == ')' {
        negated(bounded(signed_cents(c.subrange(1, c.len() - 1))))
    } else if c.last() == '-' {
        negated(bounded(signed_cents(c.take(c.len() - 1))))
    } else {
        bounded(signed_cents(c))
    }
}

pub open spec fn negated(v: Option<i64>) -> Option<i64> {
    match v {
        Some(x) => Some((-x) as i64),
        None => None,
    }
}

/// Reads amount text of this format into cents.
pub fn amount_of(s: &Vec<char>) -> (r: Option<i64>)
    ensures
        r == fixed_amount(s@),
{
    let t = trim(s);
    let c = remove_char(&t, ',');
    let n = c.len();
    if n == 0 {
        None
    } else if c[0] == '-' {
        let rest = copy_range(&c, 1, n);
        assert(rest@ =~= c@.skip(1));
        match parse_signed(&rest) {
            Some(v) => Some(-v),
            None => None,
        }
    } else if c[0] == '(' && c[n - 1] == ')' {
        let inner = copy_range(&c, 1, n - 1);
        match parse_signed(&inner) {
            Some(v) => Some(-v),
            None => None,
        }
    } else if c[n - 1] == '-' {
        let head = copy_range(&c, 0, n - 1);
        assert(head@ =~= c@.take(n - 1));
        match parse_signed(&head) {
            Some(v) => Some(-v),
            None => None,
        }
    } else {
        parse_signed(&c)
    }
}

/// Parses an amount such as `1,285.00`, `-1,050.00`, `100.00-` or `(100.00)` into cents.
pub fn parse_amount(s: &str) -> (r: Option<i64>)
    ensures
        r == fixed_amount(s@),
{
    amount_of(&chars_of(s))
}

/// An unsigned 32-bit number in decimal, with an optional leading '+'.
pub open spec fn u32_value(s: Seq<char>) -> Option<u32> {
    let d = if s.len() > 0 && s[0] == '+' {
        s.skip(1)
    } else {
        s
    };
    if d.len() > 0 && all_digits(d) && digits_value(d) <= u32::MAX {
        Some(digits_value(d) as u32)
    } else {
        None
    }
}

/// Reads an unsigned 32-bit number in decimal.
pub fn parse_u32(s: &Vec<char>) -> (r: Option<u32>)
    ensures
        r == u32_value(s@),
{
    let n = s.len();
    let start: usize = if n > 0 && s[0] == '+' { 1 } else { 0 };
    let ghost d = if n > 0 && s@[0] == '+' {
        s@.skip(1)
    } else {
        s@
    };
    assert(d =~= s@.skip(start as int));
    if start >= n {
        return None;
    }
    let mut v: u64 = 0;
    let mut i: usize = start;
    while i < n
        invariant
            start <= i <= n == s.len(),
            start < n,
            d == s@.skip(start as int),
            d == (if s@.len() > 0 && s@[0] == '+' {
                s@.skip(1)
            } else {
                s@
            }),
            v == digits_value(d.take(i - start)),
            v <= u32::MAX,
            forall|k: int| 0 <= k < i - start ==> is_digit(d[k]),
        decreases n - i,
    {
        if !digit(s[i]) {
            assert(d[i - start] == s@[i as int]);
            assert(!all_digits(d));
            return None;
        }
        assert(d[i - start] == s@[i as int]);
        proof {
            lemma_digits_value_step(d, i - start);
        }
        v = v * 10 + (s[i] as u32 - '0' as u32) as u64;
        i += 1;
        assert(v == digits_value(d.take(i - start)));
        if v > u32::MAX as u64 {
            proof {
                if all_digits(d) {
                    lemma_digits_value_grows(d, i - start);
                }
            }
            return None;
        }
    }
    assert(d.take(n - start) =~= d);
    Some(v as u32)
}

/// `YYYY-MM-DD`, each field zero-padded to its width.
pub open spec fn iso_text(y: u32, m: u32, d: u32) -> Seq<char> {
    padded(y as nat, 4) + seq!['-'] + padded(m as nat, 2) + seq!['-'] + padded(d as nat, 2)
}

/// Writes a date as `YYYY-MM-DD`.
pub fn iso_date(y: u32, m: u32, d: u32) -> (r: String)
    ensures
        r@ == iso_text(y, m, d),
{
    let mut out: Vec<char> = Vec::new();
    push_padded(&mut out, y as u64, 4);
    out.push('-');
    push_padded(&mut out, m as u64, 2);
    out.push('-');
    push_padded(&mut out, d as u64, 2);
    assert(out@ =~= iso_text(y, m, d));
    string_of(out.as_slice())
}

/// Years written with fewer than three digits fall in the 2000s.
pub open spec fn two_digit_year(y: u32) -> u32 {
    if y < 100 {
        (y + 2000) as u32
    } else {
        y
    }
}

/// `MM/DD/YYYY` read field by field into `YYYY-MM-DD`, a two-digit year taken in the 2000s;
/// none when the fields name no day of the calendar.
pub open spec fn fixed_date(s: Seq<char>) -> Option<Seq<char>> {
    let t = trimmed(s);
    let slash1 = index_from(t, '/', 0);
    let slash2 = index_from(t, '/', slash1 + 1);
    if slash1 < t.len() && slash2 < t.len() && index_from(t, '/', slash2 + 1) == t.len() {
        match (
            u32_value(t.take(slash1)),
            u32_value(t.subrange(slash1 + 1, slash2)),
            u32_value(t.skip(slash2 + 1)),
        ) {
            (Some(m), Some(d), Some(y)) => {
                let yy = two_digit_year(y);
                if is_calendar_day(yy as int, m as int, d as int) {
                    Some(iso_text(yy, m, d))
                } else {
                    None
                }
            },
            _ => None,
        }
    } else {
        None
    }
}

/// Reads a `MM/DD/YYYY` date into `YYYY-MM-DD`.
pub fn date_of(s: &Vec<char>) -> (r: Option<String>)
    ensures
        r matches Some(v) ==> fixed_date(s@) == Some(v@),
        r is None ==> fixed_date(s@) is None,
{
    let t = trim(s);
    let n = t.len();
    let slash1 = find_char(&t, '/', 0);
    proof {
        lemma_index_from(t@, '/', 0);
    }
    if slash1 >= n {
        return None;
    }
    let slash2 = find_char(&t, '/', slash1 + 1);
    proof {
        lemma_index_from(t@, '/', slash1 + 1);
    }
    if slash2 >= n {
        return None;
    }
    let slash3 = find_char(&t, '/', slash2 + 1);
    if slash3 != n {
        return None;
    }
    let a = copy_range(&t, 0, slash1);
    let b = copy_range(&t, slash1 + 1, slash2);
    let c = copy_range(&t, slash2 + 1, n);
    assert(a@ =~= t@.take(slash1 as int));
    assert(c@ =~= t@.skip(slash2 + 1));
    match (parse_u32(&a), parse_u32(&b), parse_u32(&c)) {
        (Some(m), Some(d), Some(y)) => {
            let yy = if y < 100 { y + 2000 } else { y };
            if calendar_day(yy, m, d) {
                Some(iso_date(yy, m, d))
            } else {
                None
            }
        },
        _ => None,
    }
}

/// Reads a `MM/DD/YYYY` date into `YYYY-MM-DD`.
pub fn parse_date(s: &str) -> (r: Option<String>)
    ensures
        r matches Some(v) ==> fixed_date(s@) == Some(v@),
        r is None ==> fixed_date(s@) is None,
{
    date_of(&chars_of(s))
}

/// The amount that closes a summary line: its last word, read as an amount.
pub open spec fn summary_amount(s: Seq<char>) -> Option<i64> {
    match last_word(s) {
        Some(w) => fixed_amount(w),
        None => None,
    }
}

/// The amount that closes a summary line such as `Beginning balance as of 01/01/2025 7,703.79`.
pub fn extract_summary_amount(line: &Vec<char>) -> (r: Option<i64>)
    ensures
        r == summary_amount(line@),
{
    match last_word_of(line) {
        Some(w) => amount_of(&w),
        None => None,
    }
}

pub open spec fn is_numeric(c: char) -> bool {
    is_digit(c) || c == '.' || c == ',' || c == '-'
}

/// Start of the run of numeric characters that ends at `j`.
pub open spec fn run_start(s: Seq<char>, j: int) -> int
    decreases j,
{
    if 0 < j <= s.len() && is_numeric(s[j - 1]) {
        run_start(s, j - 1)
    } else {
        j
    }
}

/// End of the last run of numeric characters before `j`.
pub open spec fn run_end(s: Seq<char>, j: int) -> int
    decreases j,
{
    if 0 < j <= s.len() && !is_numeric(s[j - 1]) {
        run_end(s, j - 1)
    } else {
        j
    }
}

proof fn lemma_run_bounds(s: Seq<char>, j: int)
    requires
        0 <= j <= s.len(),
    ensures
        0 <= run_end(s, j) <= j,
        0 <= run_start(s, run_end(s, j)) <= run_end(s, j),
        run_end(s, j) > 0 ==> run_start(s, run_end(s, j)) < run_end(s, j),
    decreases j,
{
    if j > 0 && !is_numeric(s[j - 1]) {
        lemma_run_bounds(s, j - 1);
    } else {
        lemma_run_start(s, j);
    }
}

proof fn lemma_run_start(s: Seq<char>, j: int)
    requires
        0 <= j <= s.len(),
    ensures
        0 <= run_start(s, j) <= j,
        j > 0 && is_numeric(s[j - 1]) ==> run_start(s, j) < j,
    decreases j,
{
    if j > 0 && is_numeric(s[j - 1]) {
        lemma_run_start(s, j - 1);
    }
}

/// The amounts read from the numeric runs before `j`, right to left; runs that are not
/// amounts are passed over.
pub open spec fn numbers_before(s: Seq<char>, j: int) -> Seq<i64>
    decreases j,
{
    let e = run_end(s, j);
    let b = run_start(s, e);
    if 0 <= b < e <= j && j <= s.len() {
        let rest = numbers_before(s, b);
        match fixed_amount(s.subrange(b, e)) {
            Some(v) => seq![v] + rest,
            None => rest,
        }
    } else {
        Seq::empty()
    }
}

/// The last two amounts of a line (or fewer), in the order they stand.
pub open spec fn trailing_numbers(s: Seq<char>) -> Seq<i64> {
    let n = numbers_before(s, s.len() as int);
    if n.len() >= 2 {
        seq![n[1], n[0]]
    } else {
        n
    }
}

/// The last two amounts of a line (or fewer), in the order they stand.
pub fn extract_numbers_from_end(line: &Vec<char>) -> (r: Vec<i64>)
    ensures
        r@ == trailing_numbers(line@),
{
    let mut found: Vec<i64> = Vec::new();
    let mut j: usize = line.len();
    loop
        invariant_except_break
            found@.len() < 2,
        invariant
            j <= line.len(),
            found@ + numbers_before(line@, j as int) == numbers_before(line@, line@.len() as int),
        ensures
            found@.len() <= 2,
            found@.len() == 2 || numbers_before(line@, j as int).len() == 0,
            found@ + numbers_before(line@, j as int) == numbers_before(line@, line@.len() as int),
        decreases j,
    {
        proof {
            lemma_run_bounds(line@, j as int);
        }
        let mut e = j;
        while e > 0 && !is_numeric_char(line[e - 1])
            invariant
                e <= j <= line.len(),
                run_end(line@, e as int) == run_end(line@, j as int),
            decreases e,
        {
            e -= 1;
        }
        if e == 0 {
            break;
        }
        let mut b = e;
        while b > 0 && is_numeric_char(line[b - 1])
            invariant
                b <= e <= line.len(),
                run_start(line@, b as int) == run_start(line@, e as int),
            decreases b,
        {
            b -= 1;
        }
        let run = copy_range(line, b, e);
        let ghost before = found@;
        match amount_of(&run) {
            Some(v) => {
                found.push(v);
                assert(before + numbers_before(line@, j as int) =~= found@ + numbers_before(
                    line@,
                    b as int,
                ));
            },
            None => {},
        }
        j = b;
        if found.len() >= 2 {
            break;
        }
    }
    let ghost all = numbers_before(line@, line@.len() as int);
    if found.len() == 2 {
        assert(all[0] == found@[0] && all[1] == found@[1]);
        let a = found[0];
        let b = found[1];
        let mut out: Vec<i64> = Vec::new();
        out.push(b);
        out.push(a);
        assert(out@ =~= trailing_numbers(line@));
        out
    } else {
        assert(found@ =~= all);
        found
    }
}

pub fn is_numeric_char(c: char) -> (r: bool)
    ensures
        r == is_numeric(c),
{
    digit(c) || c == '.' || c == ',' || c == '-'
}

/// Where the amount columns begin: the start of the first run of three or more spaces (at or
/// after column 12) that is followed by a digit or '-', else the length of the line.
pub open spec fn amount_start_from(s: Seq<char>, i: int, spaces: int) -> int
    decreases s.len() - i,
{
    if i < 0 || i >= s.len() {
        s.len() as int
    } else if s[i] == ' ' {
        amount_start_from(s, i + 1, spaces + 1)
    } else if spaces >= 3 && (is_digit(s[i]) || s[i] == '-') {
        i - spaces
    } else {
        amount_start_from(s, i + 1, 0)
    }
}

/// Where the amount columns of a line begin.
pub fn find_amount_start(line: &Vec<char>) -> (r: usize)
    ensures
        r == amount_start_from(line@, 12, 0),
        line@.len() >= 12 ==> 12 <= r <= line@.len(),
{
    let n = line.len();
    if n < 12 {
        return n;
    }
    let mut spaces: usize = 0;
    let mut i: usize = 12;
    while i < n
        invariant
            12 <= i <= n == line.len(),
            spaces <= i - 12,
            amount_start_from(line@, i as int, spaces as int) == amount_start_from(line@, 12, 0),
        decreases n - i,
    {
        let c = line[i];
        if c == ' ' {
            spaces += 1;
        } else {
            if spaces >= 3 && (digit(c) || c == '-') {
                return i - spaces;
            }
            spaces = 0;
        }
        i += 1;
    }
    n
}

/// One transaction row: a date in the first ten columns, the last amounts after column 12, and the text
/// from column 12 to where the amounts begin.
pub open spec fn fixed_line(s: Seq<char>) -> Option<FixedRow> {
    if s.len() < 15 {
        None
    } else {
        match fixed_date(s.take(10)) {
            None => None,
            Some(date) => {
                let nums = trailing_numbers(s.skip(12));
                if nums.len() == 0 {
                    None
                } else {
                    let de = amount_start_from(s, 12, 0);
                    let description = if de > 12 {
                        trimmed(s.subrange(12, de))
                    } else {
                        trimmed(s.skip(12))
                    };
                    Some(
                        FixedRow {
                            date,
                            description,
                            amount: if nums.len() >= 2 {
                                nums[0]
                            } else {
                                nums[0]
                            },
                            running_balance: if nums.len() >= 2 {
                                Some(nums[1])
                            } else {
                                None
                            },
                        },
                    )
                }
            },
        }
    }
}

/// Reads one transaction row.
pub fn parse_transaction_line(line: &Vec<char>) -> (r: Option<BoaTransaction>)
    ensures
        r matches Some(t) ==> fixed_line(line@) == Some(t@),
        r is None ==> fixed_line(line@) is None,
{
    let n = line.len();
    if n < 15 {
        return None;
    }
    let head = copy_range(line, 0, 10);
    assert(head@ =~= line@.take(10));
    let date = match date_of(&head) {
        Some(d) => d,
        None => {
            return None;
        },
    };
    let tail = copy_range(line, 12, n);
    assert(tail@ =~= line@.skip(12));
    let nums = extract_numbers_from_end(&tail);
    if nums.len() == 0 {
        return None;
    }
    let (amount, running_balance) = if nums.len() >= 2 {
        (nums[0], Some(nums[1]))
    } else {
        (nums[0], None)
    };
    let de = find_amount_start(line);
    let desc = if de > 12 {
        let d = copy_range(line, 12, de);
        trim(&d)
    } else {
        let d = copy_range(line, 12, n);
        assert(d@ =~= line@.skip(12));
        trim(&d)
    };
    Some(BoaTransaction { date, description: string_of(desc.as_slice()), amount, running_balance })
}

/// What a pass over the lines has gathered so far.
pub struct FixedScan {
    pub rows: Seq<FixedRow>,
    pub beginning: Option<i64>,
    pub ending: Option<i64>,
    pub in_table: bool,
}

pub open spec fn is_table_header(t: Seq<char>) -> bool {
    let l = lower_of(t);
    starts_with(l, "date"@) && contains(l, "description"@) && contains(l, "amount"@)
}

/// One line's effect: summary lines set the balances, the table header opens the table, and
/// within the table each transaction row is kept unless it is the beginning-balance row.
pub open spec fn fixed_step(st: FixedScan, line: Seq<char>) -> FixedScan {
    let t = trimmed(line);
    let st1 = if starts_with(t, "Beginning balance as of"@) {
        match summary_amount(t) {
            Some(a) => FixedScan { beginning: Some(a), ..st },
            None => st,
        }
    } else if starts_with(t, "Ending balance as of"@) {
        match summary_amount(t) {
            Some(a) => FixedScan { ending: Some(a), ..st },
            None => st,
        }
    } else {
        st
    };
    if is_table_header(t) {
        FixedScan { in_table: true, ..st1 }
    } else if !st1.in_table || t.len() == 0 {
        st1
    } else {
        match fixed_line(line) {
            Some(row) => if contains(row.description, "Beginning balance"@) {
                st1
            } else {
                FixedScan { rows: st1.rows.push(row), ..st1 }
            },
            None => st1,
        }
    }
}

pub open spec fn fixed_scan(lines: Seq<Seq<char>>) -> FixedScan
    decreases lines.len(),
{
    if lines.len() == 0 {
        FixedScan { rows: Seq::empty(), beginning: None, ending: None, in_table: false }
    } else {
        fixed_step(fixed_scan(lines.drop_last()), lines.last())
    }
}

/// Reads a fixed-layout export: up to `limit` transactions, their total count, and the
/// beginning and ending balances of its summary lines.
pub fn preview_boa(content: &str, limit: usize) -> (r: BoaPreview)
    ensures
        ({
            let st = fixed_scan(lines_of(content@));
            &&& r.total_rows == st.rows.len()
            &&& r.beginning_balance == st.beginning
            &&& r.ending_balance == st.ending
            &&& r.transactions@.len() == (if limit < st.rows.len() {
                limit as int
            } else {
                st.rows.len() as int
            })
            &&& forall|i: int|
                0 <= i < r.transactions@.len() ==> (#[trigger] r.transactions@[i])@ == st.rows[i]
        }),
{
    let text = chars_of(content);
    let lines = split_lines(&text);
    let ghost all = lines_of(content@);
    let begin_marker = chars_of("Beginning balance as of");
    let end_marker = chars_of("Ending balance as of");
    let date_word = chars_of("date");
    let desc_word = chars_of("description");
    let amount_word = chars_of("amount");
    let opening_row = chars_of("Beginning balance");
    let mut rows: Vec<BoaTransaction> = Vec::new();
    let mut beginning: Option<i64> = None;
    let mut ending: Option<i64> = None;
    let mut in_table = false;
    let mut k: usize = 0;
    while k < lines.len()
        invariant
            k <= lines@.len() == all.len(),
            forall|i: int| 0 <= i < lines@.len() ==> (#[trigger] lines@[i])@ == all[i],
            begin_marker@ == "Beginning balance as of"@,
            end_marker@ == "Ending balance as of"@,
            date_word@ == "date"@,
            desc_word@ == "description"@,
            amount_word@ == "amount"@,
            opening_row@ == "Beginning balance"@,
            ({
                let st = fixed_scan(all.take(k as int));
                &&& st.beginning == beginning
                &&& st.ending == ending
                &&& st.in_table == in_table
                &&& st.rows.len() == rows@.len()
                &&& forall|i: int| 0 <= i < rows@.len() ==> (#[trigger] rows@[i])@ == st.rows[i]
            }),
        decreases lines.len() - k,
    {
        let line = &lines[k];
        assert(all.take(k + 1).drop_last() =~= all.take(k as int));
        let t = trim(line);
        if begins_with(&t, &begin_marker) {
            match extract_summary_amount(&t) {
                Some(a) => {
                    beginning = Some(a);
                },
                None => {},
            }
        } else if begins_with(&t, &end_marker) {
            match extract_summary_amount(&t) {
                Some(a) => {
                    ending = Some(a);
                },
                None => {},
            }
        }
        let l = lowercase(t.as_slice());
        if begins_with(&l, &date_word) && includes(&l, &desc_word) && includes(&l, &amount_word) {
            in_table = true;
        } else if in_table && t.len() > 0 {
            match parse_transaction_line(line) {
                Some(tx) => {
                    let d = chars_of(tx.description.as_str());
                    if !includes(&d, &opening_row) {
                        rows.push(tx);
                    }
                },
                None => {},
            }
        }
        k += 1;
    }
    assert(all.take(k as int) =~= all);
    let total = rows.len();
    let mut shown: Vec<BoaTransaction> = Vec::new();
    let mut rows = rows;
    rows.truncate(limit);
    BoaPreview {
        transactions: rows,
        total_rows: total,
        beginning_balance: beginning,
        ending_balance: ending,
    }
}

/// Every transaction of a fixed-layout export.
pub fn parse_boa(content: &str) -> (r: Vec<BoaTransaction>)
    ensures
        ({
            let st = fixed_scan(lines_of(content@));
            &&& r@.len() == st.rows.len()
            &&& forall|i: int| 0 <= i < r@.len() ==> (#[trigger] r@[i])@ == st.rows[i]
        }),
{
    let p = preview_boa(content, usize::MAX);
    p.transactions
}

proof fn lemma_without_absent(s: Seq<char>, c: char)
    requires
        forall|i: int| 0 <= i < s.len() ==> s[i] != c,
    ensures
        without(s, c) == s,
    decreases s.len(),
{
    if s.len() > 0 {
        lemma_without_absent(s.drop_last(), c);
        assert(s.drop_last().push(s.last()) =~= s);
    }
}

proof fn lemma_trimmed_plain(s: Seq<char>)
    requires
        s.len() > 0,
        !is_ws(s[0]),
        !is_ws(s.last()),
    ensures
        trimmed(s) == s,
{
    assert(skip_ws(s, 0) == 0);
    assert(back_ws(s, s.len() as int) == s.len());
    assert(s.subrange(0, s.len() as int) =~= s);
}

proof fn lemma_amount_text_chars(v: int)
    ensures
        forall|i: int| 0 <= i < amount_text(v).len() ==> {
            let c = #[trigger] amount_text(v)[i];
            c == '-' || c == '.' || ('0' <= c && c <= '9')
        },
        amount_text(v).len() >= 4,
        amount_text(v)[0] == '-' <==> v < 0,
{
    let a = if v < 0 {
        -v
    } else {
        v
    };
    lemma_digits_of((a / 100) as nat);
    let d = digits_of((a / 100) as nat);
    let tail = seq!['.', digit_char((a % 100) / 10), digit_char(a % 10)];
    let u = d + tail;
    assert(forall|i: int| 0 <= i < d.len() ==> crate::text::is_digit(#[trigger] d[i]));
    assert forall|i: int| 0 <= i < u.len() implies {
        let c = #[trigger] u[i];
        c == '-' || c == '.' || ('0' <= c && c <= '9')
    } by {
        if i < d.len() {
            assert(u[i] == d[i]);
        } else {
            assert(u[i] == tail[i - d.len()]);
        }
    }
    if v < 0 {
        assert(amount_text(v) =~= seq!['-'] + u);
        assert forall|i: int| 0 <= i < amount_text(v).len() implies {
            let c = #[trigger] amount_text(v)[i];
            c == '-' || c == '.' || ('0' <= c && c <= '9')
        } by {
            if i > 0 {
                assert(amount_text(v)[i] == u[i - 1]);
            }
        }
    } else {
        assert(amount_text(v) =~= u);
        assert(u[0] == d[0]);
    }
}

/// Reading an amount, writing it in canonical form and reading that again gives the same
/// amount.
pub proof fn lemma_parse_format_round_trip(s: Seq<char>)
    requires
        fixed_amount(s) is Some,
    ensures
        fixed_amount(amount_text(fixed_amount(s)->0 as int)) == fixed_amount(s),
{
    let v = fixed_amount(s)->0 as int;
    let t = amount_text(v);
    lemma_amount_text_chars(v);
    assert(!is_ws(t[0]));
    assert(!is_ws(t.last())) by {
        assert(t.last() == t[t.len() - 1]);
    }
    lemma_trimmed_plain(t);
    lemma_without_absent(t, ',');
    assert(v > i64::MIN);
    if v < 0 {
        lemma_amount_text_round_trip(-v);
        assert(t.skip(1) =~= amount_text(-v));
    } else {
        lemma_amount_text_round_trip(v);
        assert(t[0] != '(');
    }
}

pub open spec fn pow10(n: nat) -> nat
    decreases n,
{
    if n == 0 {
        1
    } else {
        10 * pow10((n - 1) as nat)
    }
}

/// Digits grouped by ',', then '.', then exactly two digits: `1,285.00`. At most sixteen
/// digits stand before the point.
pub open spec fn grouped_amount(u: Seq<char>) -> bool {
    let n = u.len();
    let head = u.take(n - 3);
    &&& n >= 4
    &&& is_digit(u[0])
    &&& u[n - 3] == '.'
    &&& is_digit(u[n - 2])
    &&& is_digit(u[n - 1])
    &&& forall|k: int| 0 <= k < n - 3 ==> is_digit(#[trigger] u[k]) || u[k] == ','
    &&& without(head, ',').len() <= 16
}

/// Well-formed amount text: a grouped amount, alone, after '-', or in parentheses.
pub open spec fn well_formed_amount(s: Seq<char>) -> bool {
    ||| grouped_amount(s)
    ||| (s.len() > 0 && s[0] == '-' && grouped_amount(s.skip(1)))
    ||| (s.len() > 1 && s[0] == '(' && s.last() == ')' && grouped_amount(s.subrange(1, s.len() - 1)))
}

proof fn lemma_without_concat(a: Seq<char>, b: Seq<char>, c: char)
    ensures
        without(a + b, c) == without(a, c) + without(b, c),
    decreases b.len(),
{
    if b.len() == 0 {
        assert(a + b =~= a);
        assert(without(a, c) + without(b, c) =~= without(a, c));
    } else {
        lemma_without_concat(a, b.drop_last(), c);
        assert((a + b).drop_last() =~= a + b.drop_last());
        assert((a + b).last() == b.last());
        if b.last() == c {
        } else {
            assert(without(a, c) + without(b.drop_last(), c).push(b.last()) =~= (without(a, c) + without(b.drop_last(), c)).push(b.last()));
        }
    }
}

proof fn lemma_without_digits(a: Seq<char>)
    requires
        forall|k: int| 0 <= k < a.len() ==> is_digit(#[trigger] a[k]) || a[k] == ',',
    ensures
        all_digits(without(a, ',')),
        a.len() > 0 && is_digit(a[0]) ==> without(a, ',').len() > 0,
    decreases a.len(),
{
    if a.len() > 0 {
        let d = a.drop_last();
        assert forall|k: int| 0 <= k < d.len() implies is_digit(#[trigger] d[k]) || d[k] == ',' by {
            assert(d[k] == a[k]);
        }
        lemma_without_digits(d);
        if a.len() > 1 && is_digit(a[0]) {
            assert(d[0] == a[0]);
        }
        if a.last() != ',' {
            let w = without(d, ',');
            assert forall|k: int| 0 <= k < w.push(a.last()).len() implies is_digit(#[trigger] w.push(a.last())[k]) by {
                if k < w.len() {
                    assert(w.push(a.last())[k] == w[k]);
                }
            }
        }
    }
}

proof fn lemma_digits_value_bound(w: Seq<char>)
    requires
        all_digits(w),
    ensures
        digits_value(w) < pow10(w.len()),
    decreases w.len(),
{
    if w.len() > 0 {
        let d = w.drop_last();
        assert(all_digits(d)) by {
            assert forall|k: int| 0 <= k < d.len() implies is_digit(#[trigger] d[k]) by {
                assert(d[k] == w[k]);
            }
        }
        lemma_digits_value_bound(d);
        assert(is_digit(w[w.len() - 1]));
    }
}

proof fn lemma_pow10_16(n: nat)
    requires
        n <= 16,
    ensures
        pow10(n) <= 10_000_000_000_000_000,
    decreases n,
{
    if n > 0 {
        lemma_pow10_16((n - 1) as nat);
    }
    assert(pow10(0) == 1);
    reveal_with_fuel(pow10, 17);
}

proof fn lemma_grouped_parses(u: Seq<char>)
    requires
        grouped_amount(u),
    ensures
        bounded(signed_cents(without(u, ','))) is Some,
        without(u, ',').len() > 0 && is_digit(without(u, ',')[0]),
{
    let n = u.len();
    let head = u.take(n - 3);
    let tail = u.skip(n - 3);
    assert(u =~= head + tail);
    assert forall|k: int| 0 <= k < head.len() implies is_digit(#[trigger] head[k]) || head[k] == ',' by {
        assert(head[k] == u[k]);
    }
    lemma_without_digits(head);
    assert(head[0] == u[0]);
    lemma_without_concat(head, tail, ',');
    lemma_without_absent(tail, ',');
    let w = without(head, ',');
    let c = w + tail;
    assert(without(u, ',') == c);
    assert(c.take(w.len() as int) =~= w);
    assert(c[w.len() as int] == '.');
    crate::amount::lemma_dot_from_digits(c, 0, w.len() as int);
    assert(c.skip(w.len() as int + 1) =~= seq![u[n - 2], u[n - 1]]);
    assert(c[0] == w[0]);
    lemma_digits_value_bound(w);
    lemma_pow10_16(w.len());
    assert(crate::amount::decimal_cents(c) is Some);
}

/// Every well-formed amount reads as an amount, and writing that amount in canonical form
/// and reading it again gives it back.
pub proof fn lemma_well_formed_round_trip(s: Seq<char>)
    requires
        well_formed_amount(s),
    ensures
        fixed_amount(s) is Some,
        fixed_amount(amount_text(fixed_amount(s)->0 as int)) == fixed_amount(s),
{
    let n = s.len();
    if grouped_amount(s) {
        lemma_grouped_parses(s);
        assert(!is_ws(s[0]));
        assert(!is_ws(s.last()));
        lemma_trimmed_plain(s);
        let c = without(s, ',');
        assert(c[0] != '-' && c[0] != '(');
    } else if n > 0 && s[0] == '-' && grouped_amount(s.skip(1)) {
        let u = s.skip(1);
        lemma_grouped_parses(u);
        assert(s.last() == u.last());
        lemma_trimmed_plain(s);
        assert(s =~= seq!['-'] + u);
        lemma_without_concat(seq!['-'], u, ',');
        lemma_without_absent(seq!['-'], ',');
        let c = without(s, ',');
        assert(c.skip(1) =~= without(u, ','));
    } else {
        let u = s.subrange(1, n - 1);
        lemma_grouped_parses(u);
        lemma_trimmed_plain(s);
        assert(s =~= seq!['('] + u + seq![')']);
        lemma_without_concat(seq!['('] + u, seq![')'], ',');
        lemma_without_concat(seq!['('], u, ',');
        lemma_without_absent(seq!['('], ',');
        lemma_without_absent(seq![')'], ',');
        let c = without(s, ',');
        let w = without(u, ',');
        assert(c =~= seq!['('] + w + seq![')']);
        assert(c.subrange(1, c.len() - 1) =~= w);
        assert(c.last() == ')');
        assert(c[0] == '(');
    }
    lemma_parse_format_round_trip(s);
}

} // verus!
