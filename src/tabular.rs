//! Delimited exports read through a column mapping.
use vstd::prelude::*;
use crate::text::{trimmed, trim, without, remove_char, chars_of, string_of};
use crate::amount::{bounded, signed_cents, parse_signed};
use crate::dates::{CivilDate, parsed_date, parse_with_format, date_text, format_date};
use crate::document::string_views;
use crate::error::ImportError;

verus! {

broadcast use vstd::string::group_string_axioms;

/// The headers of a delimited export, its first rows, and how many rows it has in all.
pub struct CsvPreview {
    pub headers: Vec<String>,
    pub rows: Vec<Vec<String>>,
    pub total_rows: usize,
}

/// Which column holds what. With both a debit and a credit column the amount is credit minus
/// debit; `invert_amounts` flips the sign of the amount; an empty `date_format` tries the
/// common formats in turn.
pub struct ColumnMapping {
    pub date_column: usize,
    pub amount_column: usize,
    pub debit_column: Option<usize>,
    pub credit_column: Option<usize>,
    pub payee_column: Option<usize>,
    pub memo_column: Option<usize>,
    pub category_column: Option<usize>,
    pub date_format: String,
    pub invert_amounts: bool,
}

/// A transaction read from a row, with every header and value of the row.
pub struct ParsedTransaction {
    pub date: String,
    pub amount: i64,
    pub payee: Option<String>,
    pub memo: Option<String>,
    pub category_hint: Option<String>,
    pub raw_data: Vec<(String, String)>,
}

/// What the csv crate reads from a text, records of any length allowed: the header record and
/// each following record, or none for a record it cannot read; none at all when the header
/// record cannot be read.
pub uninterp spec fn csv_table(text: Seq<char>) -> Option<(Seq<Seq<char>>, Seq<Option<Seq<Seq<char>>>>)>;

pub open spec fn record_views(v: Seq<Option<Vec<String>>>) -> Seq<Option<Seq<Seq<char>>>> {
    v.map_values(
        |r: Option<Vec<String>>|
            match r {
                Some(f) => Some(string_views(f@)),
                None => None,
            },
    )
}

pub open spec fn table_view(t: Option<(Vec<String>, Vec<Option<Vec<String>>>)>) -> Option<
    (Seq<Seq<char>>, Seq<Option<Seq<Seq<char>>>>),
> {
    match t {
        Some((h, r)) => Some((string_views(h@), record_views(r@))),
        None => None,
    }
}

/// Relies on `csv::ReaderBuilder` with `flexible(true)`, `Reader::headers` and
/// `Reader::records`: the header record and the records that follow it, which depend on the
/// text alone.
#[verifier::external_body]
fn read_csv(text: &str) -> (r: Option<(Vec<String>, Vec<Option<Vec<String>>>)>)
    ensures
        table_view(r) == csv_table(text@),
{
    let mut reader = csv::ReaderBuilder::new().flexible(true).from_reader(text.as_bytes());
    let headers: Vec<String> = match reader.headers() {
        Ok(h) => h.iter().map(|s| s.to_string()).collect(),
        Err(_) => return None,
    };
    let records = reader.records().map(|r| r.ok().map(|x| x.iter().map(|s| s.to_string()).collect()));
    Some((headers, records.collect()))
}

/// `s` with '(' read as '-' and ')' left out.
pub open spec fn parens_as_minus(s: Seq<char>) -> Seq<char>
    decreases s.len(),
{
    if s.len() == 0 {
        s
    } else {
        let r = parens_as_minus(s.drop_last());
        if s.last() == ')' {
            r
        } else if s.last() == '(' {
            r.push('-')
        } else {
            r.push(s.last())
        }
    }
}

/// Amount text of a delimited export: '$' and ',' are ignored, parentheses make it negative;
/// an empty cell is zero, and text that is not an amount has none.
pub open spec fn strict_amount(s: Seq<char>) -> Option<i64> {
    let c = trimmed(parens_as_minus(without(without(trimmed(s), '$'), ',')));
    if c.len() == 0 {
        Some(0)
    } else {
        bounded(signed_cents(c))
    }
}

/// Amount text of a delimited export, text that is not an amount counting as zero.
pub open spec fn tabular_amount(s: Seq<char>) -> i64 {
    match strict_amount(s) {
        Some(v) => v,
        None => 0,
    }
}

fn minus_for_parens(s: &Vec<char>) -> (r: Vec<char>)
    ensures
        r@ == parens_as_minus(s@),
{
    let mut out: Vec<char> = Vec::new();
    let mut i: usize = 0;
    while i < s.len()
        invariant
            i <= s@.len(),
            out@ == parens_as_minus(s@.take(i as int)),
        decreases s.len() - i,
    {
        assert(s@.take(i + 1).drop_last() =~= s@.take(i as int));
        if s[i] == '(' {
            out.push('-');
        } else if s[i] != ')' {
            out.push(s[i]);
        }
        i += 1;
    }
    assert(s@.take(s@.len() as int) =~= s@);
    out
}

/// Reads amount text of a delimited export: zero for an empty cell, none for text that is
/// not an amount.
pub fn amount_strict(s: &Vec<char>) -> (r: Option<i64>)
    ensures
        r == strict_amount(s@),
        r matches Some(v) ==> v > i64::MIN,
{
    let t = trim(s);
    let a = remove_char(&t, '$');
    let b = remove_char(&a, ',');
    let c = trim(&minus_for_parens(&b));
    if c.len() == 0 {
        Some(0)
    } else {
        parse_signed(&c)
    }
}

fn amount_in(s: &Vec<char>) -> (r: i64)
    ensures
        r == tabular_amount(s@),
        r > i64::MIN,
{
    match amount_strict(s) {
        Some(v) => v,
        None => 0,
    }
}

/// Reads amount text of a delimited export: zero for an empty cell, none for text that is
/// not an amount.
pub fn read_amount(s: &str) -> (r: Option<i64>)
    ensures
        r == strict_amount(s@),
{
    amount_strict(&chars_of(s))
}

/// Parses amount text such as `$1,234.56` or `(100.00)` into cents; zero when it is empty or
/// not an amount.
pub fn parse_amount(s: &str) -> (r: i64)
    ensures
        r == tabular_amount(s@),
{
    amount_in(&chars_of(s))
}

/// The formats tried when none is given, in order.
pub open spec fn common_formats() -> Seq<Seq<char>> {
    seq!["%Y-%m-%d"@, "%m/%d/%Y"@, "%m/%d/%y"@, "%d/%m/%Y"@, "%Y/%m/%d"@, "%m-%d-%Y"@, "%d-%m-%Y"@]
}

pub open spec fn formats_for(fmt: Seq<char>) -> Seq<Seq<char>> {
    if fmt.len() == 0 {
        common_formats()
    } else {
        seq![fmt]
    }
}

/// The date read by the first of `fmts[k..]` that reads `t`.
pub open spec fn first_parse(t: Seq<char>, fmts: Seq<Seq<char>>, k: int) -> Option<(int, int, int)>
    decreases fmts.len() - k,
{
    if k < 0 || k >= fmts.len() {
        None
    } else {
        match parsed_date(t, fmts[k]) {
            Some(d) => Some(d),
            None => first_parse(t, fmts, k + 1),
        }
    }
}

/// A row's date as `YYYY-MM-DD`: the trimmed text read with the given format, or with the
/// first common format that reads it.
pub open spec fn tabular_date(s: Seq<char>, fmt: Seq<char>) -> Option<Seq<char>> {
    let t = trimmed(s);
    if t.len() == 0 {
        None
    } else {
        match first_parse(t, formats_for(fmt), 0) {
            Some((y, m, d)) => Some(date_text(CivilDate { year: y as i32, month: m as u32, day: d as u32 })),
            None => None,
        }
    }
}

fn format_list(fmt: &String) -> (r: Vec<String>)
    ensures
        string_views(r@) == formats_for(fmt@),
{
    let mut out: Vec<String> = Vec::new();
    if fmt.as_str().is_empty() {
        let list = ["%Y-%m-%d", "%m/%d/%Y", "%m/%d/%y", "%d/%m/%Y", "%Y/%m/%d", "%m-%d-%Y", "%d-%m-%Y"];
        let mut i: usize = 0;
        while i < 7
            invariant
                i <= 7,
                list@ == seq!["%Y-%m-%d", "%m/%d/%Y", "%m/%d/%y", "%d/%m/%Y", "%Y/%m/%d", "%m-%d-%Y", "%d-%m-%Y"],
                string_views(out@) =~= common_formats().take(i as int),
            decreases 7 - i,
        {
            let ghost before = out@;
            let f = string_of(chars_of(list[i]).as_slice());
            assert(f@ == common_formats()[i as int]);
            out.push(f);
            assert(string_views(out@) =~= string_views(before).push(f@));
            assert(common_formats().take(i + 1) =~= common_formats().take(i as int).push(common_formats()[i as int]));
            i += 1;
        }
        assert(common_formats().take(7) =~= common_formats());
    } else {
        out.push(fmt.clone());
        assert(string_views(out@) =~= seq![fmt@]);
    }
    out
}

/// Reads a date with the given format, or with the common formats in turn when the format is
/// empty, and writes it as `YYYY-MM-DD`. Fails with `FormatError` when no format reads it.
pub fn parse_date(s: &str, format: &String) -> (r: Result<String, ImportError>)
    ensures
        match tabular_date(s@, format@) {
            Some(d) => r is Ok && r->Ok_0@ == d,
            None => r == Err::<String, ImportError>(ImportError::FormatError),
        },
{
    let t = trim(&chars_of(s));
    if t.len() == 0 {
        return Err(ImportError::FormatError);
    }
    let ts = string_of(t.as_slice());
    let fmts = format_list(format);
    let ghost fv = string_views(fmts@);
    let mut k: usize = 0;
    while k < fmts.len()
        invariant
            k <= fmts@.len(),
            fv == string_views(fmts@),
            fv == formats_for(format@),
            ts@ == trimmed(s@),
            ts@.len() > 0,
            first_parse(ts@, fv, k as int) == first_parse(ts@, fv, 0),
        decreases fmts.len() - k,
    {
        assert(fv[k as int] == fmts@[k as int]@);
        match parse_with_format(ts.as_str(), fmts[k].as_str()) {
            Some(d) => {
                assert(CivilDate { year: d.year as int as i32, month: d.month as int as u32, day: d.day as int as u32 } == d);
                return Ok(format_date(&d));
            },
            None => {},
        }
        k += 1;
    }
    Err(ImportError::FormatError)
}

/// The value in column `col`, or empty text past the end of the row.
pub open spec fn cell(fields: Seq<Seq<char>>, col: int) -> Seq<char> {
    if 0 <= col < fields.len() {
        fields[col]
    } else {
        Seq::empty()
    }
}

/// The trimmed value of an optional column, when it is there and not empty.
pub open spec fn optional_cell(fields: Seq<Seq<char>>, col: Option<usize>) -> Option<Seq<char>> {
    match col {
        Some(c) => if c < fields.len() && trimmed(fields[c as int]).len() > 0 {
            Some(trimmed(fields[c as int]))
        } else {
            None
        },
        None => None,
    }
}

/// A row's amount: credit minus debit when both columns are mapped, else the amount column;
/// its sign flipped when the mapping asks; none when a cell it reads holds text that is not an
/// amount, or when it does not fit in `i64`.
pub open spec fn row_amount(fields: Seq<Seq<char>>, m: ColumnMapping) -> Option<i64> {
    let raw: Option<int> = match (m.debit_column, m.credit_column) {
        (Some(d), Some(c)) => match (strict_amount(cell(fields, c as int)), strict_amount(cell(fields, d as int))) {
            (Some(x), Some(y)) => Some(x - y),
            _ => None,
        },
        _ => match strict_amount(cell(fields, m.amount_column as int)) {
            Some(x) => Some(x as int),
            None => None,
        },
    };
    match raw {
        None => None,
        Some(r) => {
            let v = if m.invert_amounts {
                -r
            } else {
                r
            };
            if i64::MIN <= v <= i64::MAX {
                Some(v as i64)
            } else {
                None
            }
        },
    }
}

pub struct ParsedView {
    pub date: Seq<char>,
    pub amount: i64,
    pub payee: Option<Seq<char>>,
    pub memo: Option<Seq<char>>,
    pub category_hint: Option<Seq<char>>,
    pub raw_data: Seq<(Seq<char>, Seq<char>)>,
}

pub open spec fn pair_views(v: Seq<(String, String)>) -> Seq<(Seq<char>, Seq<char>)> {
    v.map_values(|p: (String, String)| (p.0@, p.1@))
}

impl View for ParsedTransaction {
    type V = ParsedView;

    open spec fn view(&self) -> ParsedView {
        ParsedView {
            date: self.date@,
            amount: self.amount,
            payee: crate::ledger::opt_view(self.payee),
            memo: crate::ledger::opt_view(self.memo),
            category_hint: crate::ledger::opt_view(self.category_hint),
            raw_data: pair_views(self.raw_data@),
        }
    }
}

/// Each header paired with the row's value in its column, for the columns the row has.
pub open spec fn raw_pairs(headers: Seq<Seq<char>>, fields: Seq<Seq<char>>) -> Seq<(Seq<char>, Seq<char>)> {
    Seq::new(
        if headers.len() < fields.len() {
            headers.len()
        } else {
            fields.len()
        },
        |i: int| (headers[i], fields[i]),
    )
}

/// The transaction that a row holds, none when its date or amount cannot be read.
pub open spec fn tabular_row(headers: Seq<Seq<char>>, fields: Seq<Seq<char>>, m: ColumnMapping) -> Option<ParsedView> {
    match (tabular_date(cell(fields, m.date_column as int), m.date_format@), row_amount(fields, m)) {
        (Some(date), Some(amount)) => Some(
            ParsedView {
                date,
                amount,
                payee: optional_cell(fields, m.payee_column),
                memo: optional_cell(fields, m.memo_column),
                category_hint: optional_cell(fields, m.category_column),
                raw_data: raw_pairs(headers, fields),
            },
        ),
        _ => None,
    }
}

fn cell_of(fields: &Vec<String>, col: usize) -> (r: Vec<char>)
    ensures
        r@ == cell(string_views(fields@), col as int),
{
    if col < fields.len() {
        chars_of(fields[col].as_str())
    } else {
        Vec::new()
    }
}

fn optional_cell_of(fields: &Vec<String>, col: Option<usize>) -> (r: Option<String>)
    ensures
        crate::ledger::opt_view(r) == optional_cell(string_views(fields@), col),
{
    match col {
        Some(c) => {
            if c < fields.len() {
                let t = trim(&chars_of(fields[c].as_str()));
                if t.len() > 0 {
                    return Some(string_of(t.as_slice()));
                }
            }
            None
        },
        None => None,
    }
}

/// Reads the transaction that a row holds.
pub fn row_of(headers: &Vec<String>, fields: &Vec<String>, m: &ColumnMapping) -> (r: Option<ParsedTransaction>)
    ensures
        match tabular_row(string_views(headers@), string_views(fields@), *m) {
            Some(p) => r matches Some(t) && t@ == p,
            None => r is None,
        },
{
    let ghost fv = string_views(fields@);
    let date_text_cell = cell_of(fields, m.date_column);
    let date = match parse_date(string_of(date_text_cell.as_slice()).as_str(), &m.date_format) {
        Ok(d) => d,
        Err(_) => {
            return None;
        },
    };
    let raw: i128 = match (m.debit_column, m.credit_column) {
        (Some(d), Some(c)) => match (amount_strict(&cell_of(fields, c)), amount_strict(&cell_of(fields, d))) {
            (Some(x), Some(y)) => x as i128 - y as i128,
            _ => {
                return None;
            },
        },
        _ => match amount_strict(&cell_of(fields, m.amount_column)) {
            Some(x) => x as i128,
            None => {
                return None;
            },
        },
    };
    let v = if m.invert_amounts { -raw } else { raw };
    if v < i64::MIN as i128 || v > i64::MAX as i128 {
        return None;
    }
    let n = if headers.len() < fields.len() { headers.len() } else { fields.len() };
    let mut raw_data: Vec<(String, String)> = Vec::new();
    let mut i: usize = 0;
    while i < n
        invariant
            i <= n,
            n <= headers@.len(),
            n <= fields@.len(),
            pair_views(raw_data@) =~= raw_pairs(string_views(headers@), string_views(fields@)).take(i as int),
        decreases n - i,
    {
        let ghost before = raw_data@;
        raw_data.push((headers[i].clone(), fields[i].clone()));
        assert(pair_views(raw_data@) =~= pair_views(before).push((headers@[i as int]@, fields@[i as int]@)));
        i += 1;
    }
    assert(raw_pairs(string_views(headers@), string_views(fields@)).take(n as int) =~= raw_pairs(
        string_views(headers@),
        string_views(fields@),
    ));
    Some(
        ParsedTransaction {
            date,
            amount: v as i64,
            payee: optional_cell_of(fields, m.payee_column),
            memo: optional_cell_of(fields, m.memo_column),
            category_hint: optional_cell_of(fields, m.category_column),
            raw_data,
        },
    )
}

/// The records that could be read, in order.
pub open spec fn readable(recs: Seq<Option<Seq<Seq<char>>>>) -> Seq<Seq<Seq<char>>>
    decreases recs.len(),
{
    if recs.len() == 0 {
        Seq::empty()
    } else {
        match recs.last() {
            Some(f) => readable(recs.drop_last()).push(f),
            None => readable(recs.drop_last()),
        }
    }
}

pub open spec fn row_views(v: Seq<Vec<String>>) -> Seq<Seq<Seq<char>>> {
    v.map_values(|r: Vec<String>| string_views(r@))
}

/// The headers of a delimited export, its first `max_rows` readable rows, and how many rows
/// it has in all. Fails with `SourceUnreadable` when the header row cannot be read.
pub fn preview_csv(text: &str, max_rows: usize) -> (r: Result<CsvPreview, ImportError>)
    ensures
        match csv_table(text@) {
            None => r == Err::<CsvPreview, ImportError>(ImportError::SourceUnreadable),
            Some((h, recs)) => r is Ok && {
                let p = r->Ok_0;
                let ok = readable(recs);
                &&& string_views(p.headers@) == h
                &&& row_views(p.rows@) == ok.take(if max_rows < ok.len() { max_rows as int } else { ok.len() as int })
                &&& p.total_rows == recs.len()
            },
        },
{
    let (headers, records) = match read_csv(text) {
        Some(t) => t,
        None => {
            return Err(ImportError::SourceUnreadable);
        },
    };
    let ghost rv = record_views(records@);
    let mut rows: Vec<Vec<String>> = Vec::new();
    let mut k: usize = 0;
    while k < records.len()
        invariant
            k <= records@.len(),
            rv == record_views(records@),
            row_views(rows@) == {
                let ok = readable(rv.take(k as int));
                ok.take(if max_rows < ok.len() { max_rows as int } else { ok.len() as int })
            },
        decreases records.len() - k,
    {
        assert(rv.take(k + 1).drop_last() =~= rv.take(k as int));
        let ghost before = rows@;
        let ghost ok0 = readable(rv.take(k as int));
        match &records[k] {
            Some(f) => {
                if rows.len() < max_rows {
                    rows.push(f.clone());
                    assert(row_views(rows@) =~= row_views(before).push(string_views(f@)));
                }
                assert(readable(rv.take(k + 1)) == ok0.push(string_views(f@)));
                assert(ok0.push(string_views(f@)).take(if max_rows < ok0.len() + 1 { max_rows as int } else { ok0.len() as int + 1 }) =~= if max_rows <= ok0.len() { ok0.take(max_rows as int) } else { ok0.push(string_views(f@)) });
            },
            None => {},
        }
        k += 1;
    }
    assert(rv.take(records@.len() as int) =~= rv);
    Ok(CsvPreview { headers, rows, total_rows: records.len() })
}

/// Reads every row of a delimited export through the mapping: a row whose record, date or
/// amount cannot be read gives `FormatError` and the others are read all the same. Fails as a
/// whole with `SourceUnreadable` when the header row cannot be read.
pub fn parse_csv(text: &str, mapping: &ColumnMapping) -> (r: Result<Vec<Result<ParsedTransaction, ImportError>>, ImportError>)
    ensures
        match csv_table(text@) {
            None => r is Err && r->Err_0 == ImportError::SourceUnreadable,
            Some((h, recs)) => r is Ok && r->Ok_0@.len() == recs.len() && forall|i: int|
                0 <= i < recs.len() ==> {
                    let x = #[trigger] r->Ok_0@[i];
                    match recs[i] {
                        Some(f) => match tabular_row(h, f, *mapping) {
                            Some(p) => x matches Ok(t) && t@ == p,
                            None => x == Err::<ParsedTransaction, ImportError>(ImportError::FormatError),
                        },
                        None => x == Err::<ParsedTransaction, ImportError>(ImportError::FormatError),
                    }
                },
        },
{
    let (headers, records) = match read_csv(text) {
        Some(t) => t,
        None => {
            return Err(ImportError::SourceUnreadable);
        },
    };
    let ghost rv = record_views(records@);
    let ghost hv = string_views(headers@);
    let mut out: Vec<Result<ParsedTransaction, ImportError>> = Vec::new();
    let mut k: usize = 0;
    while k < records.len()
        invariant
            k <= records@.len(),
            rv == record_views(records@),
            hv == string_views(headers@),
            out@.len() == k,
            forall|i: int|
                0 <= i < k ==> {
                    let x = #[trigger] out@[i];
                    match rv[i] {
                        Some(f) => match tabular_row(hv, f, *mapping) {
                            Some(p) => x matches Ok(t) && t@ == p,
                            None => x == Err::<ParsedTransaction, ImportError>(ImportError::FormatError),
                        },
                        None => x == Err::<ParsedTransaction, ImportError>(ImportError::FormatError),
                    }
                },
        decreases records.len() - k,
    {
        match &records[k] {
            Some(f) => match row_of(&headers, f, mapping) {
                Some(t) => out.push(Ok(t)),
                None => out.push(Err(ImportError::FormatError)),
            },
            None => out.push(Err(ImportError::FormatError)),
        }
        k += 1;
    }
    Ok(out)
}

} // verus!
