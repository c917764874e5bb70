use tally::document;
use tally::document::{classify_line, LineKind, Vocabulary};
use tally::error::ImportError;
use tally::fixed_layout;
use tally::tabular::{self, ColumnMapping};

#[test]
fn boa_parser_test_parse_amount() {
    assert_eq!(fixed_layout::parse_amount("1,285.00"), Some(128500));
    assert_eq!(fixed_layout::parse_amount("-1,050.00"), Some(-105000));
    assert_eq!(fixed_layout::parse_amount("0.09"), Some(9));
    assert_eq!(fixed_layout::parse_amount("7,703.79"), Some(770379));
}

#[test]
fn boa_parser_test_parse_date() {
    assert_eq!(fixed_layout::parse_date("01/06/2025"), Some("2025-01-06".to_string()));
    assert_eq!(fixed_layout::parse_date("12/30/2025"), Some("2025-12-30".to_string()));
}

#[test]
fn csv_parser_test_parse_amount() {
    assert_eq!(tabular::parse_amount("100.00"), 10000);
    assert_eq!(tabular::parse_amount("-50.25"), -5025);
    assert_eq!(tabular::parse_amount("$1,234.56"), 123456);
    assert_eq!(tabular::parse_amount("(100.00)"), -10000);
    assert_eq!(tabular::parse_amount(""), 0);
}

#[test]
fn pdf_parser_test_parse_amount() {
    assert_eq!(document::parse_amount("1,285.00"), Some(-128500));
    assert_eq!(document::parse_amount("$100.50"), Some(-10050));
    assert_eq!(document::parse_amount("-1,050.00"), Some(-105000));
    assert_eq!(document::parse_amount("($50.00)"), Some(-5000));
    assert_eq!(document::parse_amount("50.00-"), Some(-5000));
    assert_eq!(document::parse_amount("113.19CR"), Some(11319));
    assert_eq!(document::parse_amount("$50.00CR"), Some(5000));
}

#[test]
fn pdf_parser_test_parse_date() {
    assert_eq!(document::parse_date("01/15/2025"), Some("2025-01-15".to_string()));
    assert_eq!(document::parse_date("1/5/25"), Some("2025-01-05".to_string()));
    assert_eq!(document::parse_date("2025-01-15"), Some("2025-01-15".to_string()));
    assert_eq!(document::parse_date("01-15-2025"), Some("2025-01-15".to_string()));
}

#[test]
fn test_is_header_line() {
    assert!(document::is_header_line("Date Description Amount Balance"));
    assert!(document::is_header_line("POSTED DATE  DESCRIPTION  AMOUNT"));
    assert!(!document::is_header_line("01/15/2025 Coffee Shop -5.00"));
}

#[test]
fn test_parse_transaction_line() {
    let line = "01/15/25 COFFEE SHOP PALO ALTO, CA 5.50";
    let tx = document::parse_transaction_line(line, None).unwrap();
    assert_eq!(tx.date, "2025-01-15");
    assert_eq!(tx.amount, -550);
    assert!(tx.description.contains("COFFEE"));
    assert!(tx.category.is_none());

    let line_cr = "01/29/24 SQ *SELF EDGE WEB STOR San Francisco, CA 113.19CR";
    let tx_cr = document::parse_transaction_line(line_cr, Some("Dining".to_string())).unwrap();
    assert_eq!(tx_cr.date, "2024-01-29");
    assert_eq!(tx_cr.amount, 11319);
    assert_eq!(tx_cr.category, Some("Dining".to_string()));
}

#[test]
fn amounts_of_each_notation() {
    assert_eq!(fixed_layout::parse_amount("1,285.00"), Some(128500));
    assert_eq!(fixed_layout::parse_amount("-1,050.00"), Some(-105000));
    assert_eq!(fixed_layout::parse_amount("(100.00)"), Some(-10000));
    assert_eq!(fixed_layout::parse_amount("12.345"), Some(1235));
    assert_eq!(fixed_layout::parse_amount("12.344"), Some(1234));
    assert_eq!(fixed_layout::parse_amount("abc"), None);
    assert_eq!(fixed_layout::parse_amount(""), None);
    assert_eq!(fixed_layout::parse_amount("99999999999999999999.00"), None);
}

#[test]
fn canonical_amount_reads_back() {
    for text in ["1,285.00", "-1,050.00", "(100.00)", "0.09", "7", "-0.5"] {
        let v = fixed_layout::parse_amount(text).unwrap();
        let canon = tally::amount::format_amount(v);
        assert_eq!(fixed_layout::parse_amount(&canon), Some(v));
    }
    assert_eq!(tally::amount::format_amount(-128500), "-1285.00");
    assert_eq!(tally::amount::format_amount(9), "0.09");
}

#[test]
fn fixed_layout_statement() {
    let text = "Bank statement\n\
Beginning balance as of 01/01/2025            7,703.79\n\
Ending balance as of 01/31/2025               8,938.79\n\
Date        Description                                  Amount   Running Bal.\n\
01/01/2025  Beginning balance as of 01/01/2025                      7,703.79\n\
01/06/2025  PAYROLL ACME CORP DES:DIRECT DEP         1,285.00       8,988.79\n\
01/07/2025  COFFEE SHOP                                   -50.00    8,938.79\n\
\n\
01/08/2025  x\n";
    let p = fixed_layout::preview_boa(text, 10);
    assert_eq!(p.beginning_balance, Some(770379));
    assert_eq!(p.ending_balance, Some(893879));
    assert_eq!(p.total_rows, 2);
    assert_eq!(p.transactions[0].date, "2025-01-06");
    assert_eq!(p.transactions[0].description, "PAYROLL ACME CORP DES:DIRECT DEP");
    assert_eq!(p.transactions[0].amount, 128500);
    assert_eq!(p.transactions[0].running_balance, Some(898879));
    assert_eq!(p.transactions[1].amount, -5000);
    let limited = fixed_layout::preview_boa(text, 1);
    assert_eq!(limited.transactions.len(), 1);
    assert_eq!(limited.total_rows, 2);
    assert_eq!(fixed_layout::parse_boa(text).len(), 2);
}

#[test]
fn line_classifiers() {
    assert!(document::is_summary_table_line("Jan Feb Mar totals"));
    assert!(!document::is_summary_table_line("January rent"));
    assert_eq!(document::extract_category_header("Groceries:"), Some("Groceries".to_string()));
    assert_eq!(document::extract_category_header("Dining out"), Some("Dining out".to_string()));
    assert_eq!(document::extract_category_header("01/02/25 Groceries 5.00"), None);
    assert!(document::is_category_header("SHOPPING"));
    assert!(document::is_total_row("Quarterly total $400.00"));
    assert!(document::is_transaction_section_start("Account Activity"));
    assert!(document::should_skip_line("Page 2 of 4"));
    assert!(document::should_skip_line("$60.73"));
    assert!(document::should_skip_line("1957.35 FEB"));
    assert!(document::should_skip_line("Department Store $60.73"));
    assert!(document::should_skip_line("JANUARY $1,312.74 $382.13"));
    assert!(!document::should_skip_line("01/15/25 COFFEE SHOP PALO ALTO, CA 5.50"));
    assert!(document::starts_with_date("  1/5/25 Lunch 5.00"));
    assert_eq!(document::extract_date_from_line("2025-01-15 Rent 900.00"), Some(("2025-01-15".to_string(), 10)));
}

#[test]
fn document_preview() {
    let text = "Chase Sapphire statement for the period ending 01/31/2025 with details below.\n\
Account Activity\n\
Date Description Amount Balance\n\
Dining\n\
01/15/25 COFFEE SHOP PALO ALTO, CA 5.50\n\
01/16/25 TAQUERIA SAN JOSE, CA 12.25\n\
Groceries\n\
01/17/25 MARKET HALL OAKLAND, CA 40.00\n\
01/29/24 SQ *SELF EDGE WEB STOR San Francisco, CA 113.19CR\n\
01/30/25 ?\n\
Total $57.75\n";
    let p = document::preview_pdf(text, 2).unwrap();
    assert_eq!(p.detected_format, Some("Chase".to_string()));
    assert_eq!(p.detected_columns, vec!["date", "description", "amount", "balance"]);
    assert_eq!(p.total_rows, 4);
    assert_eq!(p.transactions.len(), 2);
    assert_eq!(p.transactions[0].category, Some("Dining".to_string()));
    assert_eq!(p.lines_with_date, 5);
    assert_eq!(p.lines_parsed, 4);
    let all = document::parse_pdf(text).unwrap();
    assert_eq!(all[2].category, Some("Groceries".to_string()));
    assert_eq!(all[3].amount, 11319);
}

#[test]
fn short_document_is_refused() {
    let r = document::preview_pdf("01/15/25 COFFEE 5.50", 10);
    assert!(matches!(r, Err(ImportError::LowSignalDocument)));
    assert!(matches!(document::parse_pdf("   \n  "), Err(ImportError::LowSignalDocument)));
}

fn mapping(date_format: &str) -> ColumnMapping {
    ColumnMapping {
        date_column: 0,
        amount_column: 2,
        debit_column: None,
        credit_column: None,
        payee_column: Some(1),
        memo_column: Some(3),
        category_column: None,
        date_format: date_format.to_string(),
        invert_amounts: false,
    }
}

#[test]
fn tabular_dates() {
    assert_eq!(tabular::parse_date("01/15/2025", &String::new()), Ok("2025-01-15".to_string()));
    assert_eq!(tabular::parse_date("2025-01-15", &String::new()), Ok("2025-01-15".to_string()));
    assert_eq!(tabular::parse_date("15.01.2025", &"%d.%m.%Y".to_string()), Ok("2025-01-15".to_string()));
    assert_eq!(tabular::parse_date("", &String::new()), Err(ImportError::FormatError));
    assert_eq!(tabular::parse_date("soon", &String::new()), Err(ImportError::FormatError));
}

#[test]
fn tabular_preview_and_parse() {
    let text = "Date,Payee,Amount,Memo\n01/02/2025,Coffee,-4.50,\n01/03/2025,  Salary ,\"1,000.00\",jan\nnot a date,X,1.00,\n";
    let p = tabular::preview_csv(text, 2).unwrap();
    assert_eq!(p.headers, vec!["Date", "Payee", "Amount", "Memo"]);
    assert_eq!(p.rows.len(), 2);
    assert_eq!(p.total_rows, 3);
    let rows = tabular::parse_csv(text, &mapping("")).unwrap();
    assert_eq!(rows.len(), 3);
    let first = rows[0].as_ref().unwrap();
    assert_eq!(first.date, "2025-01-02");
    assert_eq!(first.amount, -450);
    assert_eq!(first.payee, Some("Coffee".to_string()));
    assert_eq!(first.memo, None);
    assert_eq!(first.raw_data[2], ("Amount".to_string(), "-4.50".to_string()));
    let second = rows[1].as_ref().unwrap();
    assert_eq!(second.amount, 100000);
    assert_eq!(second.payee, Some("Salary".to_string()));
    assert_eq!(second.memo, Some("jan".to_string()));
    assert!(matches!(rows[2], Err(ImportError::FormatError)));
}

#[test]
fn tabular_debit_credit_and_inversion() {
    let text = "Date,Debit,Credit\n2025-01-02,10.00,\n2025-01-03,,25.00\n";
    let mut m = mapping("%Y-%m-%d");
    m.payee_column = None;
    m.memo_column = None;
    m.debit_column = Some(1);
    m.credit_column = Some(2);
    let rows = tabular::parse_csv(text, &m).unwrap();
    assert_eq!(rows[0].as_ref().unwrap().amount, -1000);
    assert_eq!(rows[1].as_ref().unwrap().amount, 2500);
    let single = "Date,Payee,Amount\n2025-01-02,Shop,12.00\n";
    let mut inv = mapping("%Y-%m-%d");
    inv.memo_column = None;
    inv.invert_amounts = true;
    let r = tabular::parse_csv(single, &inv).unwrap();
    assert_eq!(r[0].as_ref().unwrap().amount, -1200);
}

#[test]
fn lines_are_classified_in_order() {
    let v = Vocabulary::new();
    let kind = |s: &str, gated: bool| classify_line(&s.chars().collect(), &v, gated).0;
    assert_eq!(kind("", true), LineKind::Blank);
    assert_eq!(kind("Account Activity", true), LineKind::SectionStart);
    assert_eq!(kind("Date Description Amount", true), LineKind::Header);
    assert_eq!(kind("Date Description Amount", false), LineKind::Unclassified);
    assert_eq!(kind("Groceries", true), LineKind::CategoryHeader);
    assert_eq!(kind("Total $5.00", true), LineKind::Skip);
    assert_eq!(kind("01/15/25 COFFEE SHOP 5.50", true), LineKind::Transaction);
    assert_eq!(kind("Thank you for banking with us", true), LineKind::Unclassified);
}

#[test]
fn trailing_minus_and_calendar_dates() {
    assert_eq!(fixed_layout::parse_amount("100.00-"), Some(-10000));
    assert_eq!(fixed_layout::parse_amount("0.129"), Some(13));
    assert_eq!(fixed_layout::parse_date("02/30/2025"), None);
    assert_eq!(fixed_layout::parse_date("13/45/2025"), None);
    assert_eq!(fixed_layout::parse_date("02/29/2024"), Some("2024-02-29".to_string()));
    assert_eq!(fixed_layout::parse_date("1/5/25"), Some("2025-01-05".to_string()));
    assert_eq!(document::parse_date("02/30/2025"), None);
    assert_eq!(document::parse_date("13/45/2025"), None);
    assert_eq!(document::parse_date("2025-02-30"), None);
    assert_eq!(document::parse_date(""), None);
    assert!(!document::starts_with_date("02/30/25 Lunch 5.00"));
}

#[test]
fn fixed_layout_header_case_and_single_amount() {
    let text = "DATE   DESCRIPTION   AMOUNT\n01/08/2025  REFUND FROM STORE                 25.00\n01/09/2025  FEE                                2.00-\n";
    let p = fixed_layout::preview_boa(text, 10);
    assert_eq!(p.total_rows, 2);
    assert_eq!(p.transactions[0].amount, 2500);
    assert_eq!(p.transactions[0].running_balance, None);
    assert_eq!(p.transactions[0].description, "REFUND FROM STORE");
    assert_eq!(p.transactions[1].amount, -200);
}

#[test]
fn tabular_rows_with_bad_amounts_fail() {
    assert_eq!(tabular::read_amount(""), Some(0));
    assert_eq!(tabular::read_amount("abc"), None);
    assert_eq!(tabular::read_amount("(1.50)"), Some(-150));
    let text = "Date,Payee,Amount\n2025-01-02,Shop,abc\n2025-01-03,Shop,\n";
    let mut m = mapping("%Y-%m-%d");
    m.memo_column = None;
    let rows = tabular::parse_csv(text, &m).unwrap();
    assert!(matches!(rows[0], Err(ImportError::FormatError)));
    assert_eq!(rows[1].as_ref().unwrap().amount, 0);
}

#[test]
fn lowercased_month_text() {
    let v = Vocabulary::new();
    let l = |s: &str| -> Vec<char> { s.chars().collect() };
    assert!(document::month_word(&l("feb."), &v.months));
    assert!(!document::month_word(&l("FEB"), &v.months));
    assert!(document::month_row(&l("january $1.00 $2.00"), &v.month_names, &v.dollar));
    assert!(!document::month_row(&l("january rent"), &v.month_names, &v.dollar));
}
