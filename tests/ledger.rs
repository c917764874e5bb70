use tally::budgets::{self, Budget};
use tally::dates::CivilDate;
use tally::error::ImportError;
use tally::ledger::{self, Transaction};
use tally::reconcile::{self, Category, ImportRow};
use tally::recurring;
use tally::rules::{self, CategoryRule};
use tally::transfers;

fn tx(id: &str, account: &str, date: &str, amount: i64, payee: Option<&str>) -> Transaction {
    Transaction {
        id: id.to_string(),
        account_id: account.to_string(),
        date: date.to_string(),
        amount,
        payee: payee.map(|p| p.to_string()),
        memo: None,
        category_id: None,
        transfer_id: None,
        transfer_account_id: None,
        import_batch_id: None,
        import_source: None,
        deleted: false,
    }
}

fn rule(category: &str, kind: &str, pattern: &str, priority: i32) -> CategoryRule {
    CategoryRule {
        id: format!("rule-{}", category),
        category_id: category.to_string(),
        rule_type: kind.to_string(),
        pattern: pattern.to_string(),
        amount_min: None,
        amount_max: None,
        account_id: None,
        priority,
        is_active: true,
        created_at: String::new(),
        updated_at: String::new(),
    }
}

fn row(date: &str, amount: i64, payee: Option<&str>) -> ImportRow {
    ImportRow {
        date: date.to_string(),
        amount,
        payee: payee.map(|p| p.to_string()),
        memo: None,
        category_id: None,
        category_hint: None,
    }
}

fn day(year: i32, month: u32, day: u32) -> CivilDate {
    CivilDate { year, month, day }
}

#[test]
fn importing_an_entry_twice_adds_it_once() {
    let mut txs = vec![tx("a", "chk", "2025-01-01", 1000, Some("Opening"))];
    let rows = vec![row("2025-01-05", -450, Some("Coffee")), row("2025-01-05", -450, Some("Coffee"))];
    let r = reconcile::import_transactions(&mut txs, &"chk".to_string(), &rows, &vec![], &vec![], &"csv".to_string());
    assert_eq!(r.imported, 1);
    assert_eq!(r.skipped, 1);
    assert_eq!(txs.len(), 2);
    assert_eq!(txs[1].import_batch_id, Some(r.batch_id.clone()));
    assert_eq!(ledger::account_balance(&txs, &"chk".to_string()), Some(550));
    let again = reconcile::import_transactions(&mut txs, &"chk".to_string(), &rows, &vec![], &vec![], &"csv".to_string());
    assert_eq!(again.imported, 0);
    assert_eq!(again.skipped, 2);
    assert_eq!(ledger::account_balance(&txs, &"chk".to_string()), Some(550));
}

#[test]
fn import_resolves_hints_and_runs_rules() {
    let mut txs = Vec::new();
    let cats = vec![Category {
        id: "cat-food".to_string(),
        name: "Food".to_string(),
        parent_id: None,
        category_type: "expense".to_string(),
        icon: None,
        color: None,
        is_system: false,
        display_order: 0,
        created_at: String::new(),
        updated_at: String::new(),
    }];
    let mut hinted = row("2025-02-01", -1200, Some("Deli"));
    hinted.category_hint = Some("FOOD".to_string());
    let rows = vec![hinted, row("2025-02-02", -3000, Some("SHELL OIL 1234"))];
    let rules = vec![rule("cat-gas", "payee_contains", "shell", 1)];
    let r = reconcile::import_transactions(&mut txs, &"chk".to_string(), &rows, &cats, &rules, &"csv".to_string());
    assert_eq!(r.imported, 2);
    assert_eq!(r.auto_categorized, 1);
    assert_eq!(txs[0].category_id, Some("cat-food".to_string()));
    assert_eq!(txs[1].category_id, Some("cat-gas".to_string()));
}

#[test]
fn rules_apply_by_priority_then_history() {
    let mut txs = vec![
        tx("1", "chk", "2025-01-01", -500, Some("Starbucks #123")),
        tx("2", "chk", "2025-01-02", -500, Some("Corner Deli")),
        tx("3", "chk", "2025-01-03", -500, Some("Corner Deli")),
        tx("4", "chk", "2025-01-04", -500, None),
        tx("5", "sav", "2025-01-05", 900, Some("Interest")),
    ];
    txs[2].category_id = Some("cat-lunch".to_string());
    let rules = vec![
        rule("cat-low", "payee_contains", "star", 1),
        rule("cat-coffee", "payee_regex", "^Starbucks #\\d+$", 5),
        rule("cat-bad", "payee_regex", "(", 9),
        rule("cat-other", "unknown_kind", "Interest", 9),
    ];
    let n = rules::apply_category_rules(&mut txs, &rules, None);
    assert_eq!(n, 2);
    assert_eq!(txs[0].category_id, Some("cat-coffee".to_string()));
    assert_eq!(txs[1].category_id, Some("cat-lunch".to_string()));
    assert_eq!(txs[3].category_id, None);
    assert_eq!(txs[4].category_id, None);
    let second = rules::apply_category_rules(&mut txs, &rules, None);
    assert_eq!(second, 0);
}

#[test]
fn rules_limited_to_listed_ids() {
    let mut txs = vec![tx("1", "chk", "2025-01-01", -500, Some("Shell")), tx("2", "chk", "2025-01-02", -500, Some("Shell"))];
    let mut r = rule("cat-gas", "payee_exact", "SHELL", 1);
    r.amount_min = Some(-1000);
    r.amount_max = Some(0);
    let n = rules::apply_category_rules(&mut txs, &vec![r], Some(vec!["2".to_string()]));
    assert_eq!(n, 1);
    assert_eq!(txs[0].category_id, None);
    assert_eq!(txs[1].category_id, Some("cat-gas".to_string()));
}

#[test]
fn monthly_series_is_detected() {
    let txs = vec![
        tx("n1", "card", "2025-01-01", -1599, Some("NETFLIX.COM 88120345")),
        tx("n2", "card", "2025-01-31", -1599, Some("Netflix.com #4521")),
        tx("x", "card", "2025-02-10", -2000, Some("Grocer")),
        tx("n3", "card", "2025-02-28", -1599, Some("NETFLIX.COM")),
        tx("n4", "card", "2025-04-01", -1650, Some("netflix.com 1234567")),
    ];
    let found = recurring::detect_recurring_transactions(&txs, &day(2025, 4, 15));
    assert_eq!(found.len(), 1);
    let s = &found[0];
    assert_eq!(s.frequency, "monthly");
    assert_eq!(s.frequency_days, 30);
    assert_eq!(s.occurrences, 4);
    assert_eq!(s.normalized_payee, "netflix.com");
    assert_eq!(s.payee, "NETFLIX.COM 88120345");
    assert_eq!(s.last_date, "2025-04-01");
    assert_eq!(s.next_expected_date, "2025-05-01");
    assert_eq!(s.average_amount, -1611);
    assert_eq!(s.transactions[3].id, "n4");
}

#[test]
fn series_outside_every_range_is_dropped() {
    let txs = vec![
        tx("a", "card", "2025-01-01", -1000, Some("Gym Club")),
        tx("b", "card", "2025-01-21", -1000, Some("Gym Club")),
        tx("c", "card", "2025-02-10", -1000, Some("Gym Club")),
    ];
    assert_eq!(recurring::detect_recurring_transactions(&txs, &day(2025, 3, 1)).len(), 0);
    let weekly = vec![
        tx("a", "card", "2025-01-01", -1000, Some("Gym Club")),
        tx("b", "card", "2025-01-08", -1000, Some("Gym Club")),
        tx("c", "card", "2025-01-15", -1000, Some("Gym Club")),
    ];
    let found = recurring::detect_recurring_transactions(&weekly, &day(2025, 3, 1));
    assert_eq!(found[0].frequency, "weekly");
    assert_eq!(found[0].next_expected_date, "2025-01-22");
    assert_eq!(recurring::detect_recurring_transactions(&weekly, &day(2026, 3, 1)).len(), 0);
}

#[test]
fn payees_are_normalized() {
    assert_eq!(recurring::normalize_payee("AMAZON  Mktp 01/15/2025 #998 *4421"), "amazon mktp");
    assert_eq!(recurring::normalize_payee("Spotify 2025-01-15 ref 123456789"), "spotify 20 ref");
    assert_eq!(recurring::normalize_payee("Spotify ref 2025-01-15"), "spotify ref 20");
    assert_eq!(recurring::normalize_payee("a1"), "a1");
    assert_eq!(recurring::detect_frequency(&vec![10, 40, 70]), Some(("monthly".to_string(), 30)));
    assert_eq!(recurring::detect_frequency(&vec![10, 40]), None);
    assert_eq!(recurring::detect_frequency(&vec![10, 10, 10]), None);
}

#[test]
fn zelle_pair_is_a_likely_transfer() {
    let txs = vec![
        tx("a", "chk", "2025-04-10", 5000, Some("Zelle from Sam")),
        tx("b", "sav", "2025-04-11", -5000, Some("ZELLE to Checking")),
        tx("c", "card", "2025-04-11", -4999, Some("Zelle payment")),
        tx("d", "chk", "2025-04-12", -5000, Some("Store")),
    ];
    let found = transfers::detect_transfers(&txs, &day(2025, 4, 20));
    assert_eq!(found.len(), 1);
    assert_eq!(found[0].transaction_a_id, "a");
    assert_eq!(found[0].transaction_b_id, "b");
    assert_eq!(found[0].confidence_permille, 800);
    assert!(found.iter().all(|c| c.transaction_b_id != "c" && c.transaction_a_id != "c"));
}

#[test]
fn same_day_transfer_scores_highest() {
    let txs = vec![
        tx("a", "chk", "2025-04-10", 5000, Some("Zelle from Sam")),
        tx("b", "sav", "2025-04-10", -5000, Some("Zelle to Checking")),
        tx("c", "chk", "2025-04-12", 700, None),
        tx("d", "sav", "2025-04-12", -700, None),
        tx("e", "chk", "2024-01-12", 800, None),
        tx("f", "sav", "2024-01-12", -800, None),
    ];
    let found = transfers::detect_transfers(&txs, &day(2025, 4, 20));
    assert_eq!(found.len(), 2);
    assert_eq!(found[0].confidence_permille, 920);
    assert_eq!(found[1].confidence_permille, 720);
    assert_eq!(transfers::calculate_payee_similarity(&Some("ACH deposit".to_string()), &None), 300);
    assert_eq!(transfers::calculate_payee_similarity(&Some("ACH deposit".to_string()), &Some("Shop".to_string())), 500);
}

#[test]
fn linking_and_unlinking() {
    let mut txs = vec![tx("a", "chk", "2025-04-10", 5000, None), tx("b", "sav", "2025-04-10", -5000, None)];
    let tid = ledger::link_transfer(&mut txs, &"a".to_string(), &"b".to_string()).unwrap();
    assert_eq!(txs[0].transfer_id, Some(tid.clone()));
    assert_eq!(txs[1].transfer_id, Some(tid));
    assert_eq!(txs[0].transfer_account_id, Some("sav".to_string()));
    assert_eq!(txs[1].transfer_account_id, Some("chk".to_string()));
    assert_eq!(ledger::link_transfer(&mut txs, &"a".to_string(), &"zz".to_string()), Err(ImportError::NotFound));
    ledger::unlink_transfer(&mut txs, &"b".to_string()).unwrap();
    assert_eq!(txs[0].transfer_id, None);
    assert_eq!(txs[1].transfer_account_id, None);
    assert_eq!(ledger::unlink_transfer(&mut txs, &"zz".to_string()), Err(ImportError::NotFound));
}

#[test]
fn balances_and_hex_and_paths() {
    let mut txs = vec![tx("a", "chk", "2025-01-01", 1000, None), tx("b", "chk", "2025-01-02", -250, None), tx("c", "sav", "2025-01-02", 99, None)];
    txs[1].deleted = true;
    assert_eq!(ledger::account_balance(&txs, &"chk".to_string()), Some(1000));
    assert_eq!(tally::encoding::encode(&[0x00, 0xab, 0x7f]), "00ab7f");
    assert_eq!(tally::config::AppConfig::data_dir_in(&Some("/data".to_string())), "/data/tally");
    assert_eq!(tally::config::AppConfig::data_dir_in(&None), "./tally");
    let mut c = tally::config::AppConfig { database_path: None };
    c.set_db_path(Some("/tmp/x.db".to_string()));
    assert_eq!(c.get_db_path(), "/tmp/x.db");
    c.set_db_path(Some(String::new()));
    assert_eq!(c.database_path, None);
    assert!(c.get_db_path().ends_with("tally/data.db"));
    assert!(tally::config::AppConfig::config_path().ends_with("tally/config.json"));
}

#[test]
fn budget_summary_for_a_month() {
    let budget = Budget {
        id: "b1".to_string(),
        category_id: "cat-food".to_string(),
        period_type: "monthly".to_string(),
        amount: 30000,
        rollover: false,
        created_at: String::new(),
        updated_at: String::new(),
    };
    let category = Category {
        id: "cat-food".to_string(),
        name: "Food".to_string(),
        parent_id: None,
        category_type: "expense".to_string(),
        icon: None,
        color: None,
        is_system: false,
        display_order: 0,
        created_at: String::new(),
        updated_at: String::new(),
    };
    let mut txs = vec![
        tx("1", "chk", "2025-02-01", -1200, Some("Deli")),
        tx("2", "chk", "2025-02-28", -800, Some("Deli")),
        tx("3", "chk", "2025-03-01", -500, Some("Deli")),
        tx("4", "chk", "2025-02-10", 400, Some("Refund")),
        tx("5", "chk", "2025-01-31", -700, Some("Deli")),
    ];
    for t in txs.iter_mut() {
        t.category_id = Some("cat-food".to_string());
    }
    let out = budgets::get_budget_summary("2025-02", &vec![(budget, category)], &txs).unwrap();
    assert_eq!(out[0].spent, 2000);
    assert_eq!(out[0].remaining, 28000);
    assert_eq!(budgets::month_bounds("2024-12"), Ok(("2024-12-01".to_string(), "2025-01-01".to_string())));
    assert!(matches!(budgets::month_bounds("2024-13"), Err(ImportError::ValidationError)));
    assert!(matches!(budgets::month_bounds("2024"), Err(ImportError::ValidationError)));
    assert!(matches!(budgets::get_budget_summary("soon", &vec![], &txs), Err(ImportError::ValidationError)));
}

#[test]
fn soft_delete_and_bulk_categorize() {
    let mut txs = vec![tx("a", "chk", "2025-01-01", 1000, None), tx("b", "chk", "2025-01-02", -300, None)];
    assert_eq!(ledger::delete_transactions(&mut txs, &vec!["b".to_string(), "zz".to_string()]), Err(ImportError::NotFound));
    assert!(!txs[1].deleted);
    ledger::delete_transactions(&mut txs, &vec!["b".to_string()]).unwrap();
    assert!(txs[1].deleted);
    assert!(!txs[0].deleted);
    assert_eq!(ledger::account_balance(&txs, &"chk".to_string()), Some(1000));
    ledger::bulk_categorize(&mut txs, &vec!["a".to_string(), "zz".to_string()], &"cat-x".to_string());
    assert_eq!(txs[0].category_id, Some("cat-x".to_string()));
    assert_eq!(txs[1].category_id, None);
}

#[test]
fn lowercased_payees_are_normalized() {
    let l: Vec<char> = "netflix.com  #991 12/01/2024".chars().collect();
    let r: String = recurring::normalize_lowered(&l).into_iter().collect();
    assert_eq!(r, "netflix.com");
    let upper: Vec<char> = "NETFLIX".chars().collect();
    let kept: String = recurring::normalize_lowered(&upper).into_iter().collect();
    assert_eq!(kept, "NETFLIX");
}

#[test]
fn transfer_ids_are_fresh() {
    let mut txs = vec![tx("a", "chk", "2025-04-10", 5000, None), tx("b", "sav", "2025-04-10", -5000, None), tx("c", "chk", "2025-04-11", 10, None)];
    txs[2].transfer_id = Some("t-old".to_string());
    let tid = ledger::link_transfer(&mut txs, &"a".to_string(), &"b".to_string()).unwrap();
    assert_ne!(tid, "t-old");
    assert_eq!(txs[2].transfer_id, Some("t-old".to_string()));
}
