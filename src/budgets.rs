//! What each budget's category has spent in a month.
use vstd::prelude::*;
use crate::text::{chars_of, text_le, le_text, find_char, index_from, lemma_index_from, copy_range};
use crate::fixed_layout::{u32_value, parse_u32, iso_text, iso_date};
use crate::ledger::{Transaction, TxView, tx_views, opt_view, clone_opt};
use crate::reconcile::Category;
use crate::error::ImportError;

verus! {

broadcast use vstd::string::group_string_axioms;

/// A spending limit for a category.
pub struct Budget {
    pub id: String,
    pub category_id: String,
    pub period_type: String,
    pub amount: i64,
    pub rollover: bool,
    pub created_at: String,
    pub updated_at: String,
}

/// A budget with its category, what the category spent in the month, and what is left.
pub struct BudgetSummary {
    pub budget: Budget,
    pub category: Category,
    pub spent: i64,
    pub remaining: i64,
}

/// The first day of a month and of the month after it, from `YYYY-MM` text: a year of at most
/// four digits and a month from 1 to 12.
pub open spec fn month_bounds_spec(s: Seq<char>) -> Option<(Seq<char>, Seq<char>)> {
    let p = index_from(s, '-', 0);
    if p < s.len() && index_from(s, '-', p + 1) == s.len() {
        match (u32_value(s.take(p)), u32_value(s.skip(p + 1))) {
            (Some(y), Some(m)) => if y <= 9999 && 1 <= m <= 12 {
                Some(
                    (
                        iso_text(y, m, 1),
                        if m == 12 {
                            iso_text((y + 1) as u32, 1, 1)
                        } else {
                            iso_text(y, (m + 1) as u32, 1)
                        },
                    ),
                )
            } else {
                None
            },
            _ => None,
        }
    } else {
        None
    }
}

/// The first day of the month and of the next month; `ValidationError` when the text is not a
/// month.
pub fn month_bounds(month: &str) -> (r: Result<(String, String), ImportError>)
    ensures
        match month_bounds_spec(month@) {
            Some((a, b)) => r matches Ok((x, y)) && x@ == a && y@ == b,
            None => r == Err::<(String, String), ImportError>(ImportError::ValidationError),
        },
{
    let s = chars_of(month);
    let n = s.len();
    let p = find_char(&s, '-', 0);
    proof {
        lemma_index_from(s@, '-', 0);
    }
    if p >= n {
        return Err(ImportError::ValidationError);
    }
    let q = find_char(&s, '-', p + 1);
    if q != n {
        return Err(ImportError::ValidationError);
    }
    let a = copy_range(&s, 0, p);
    let b = copy_range(&s, p + 1, n);
    assert(a@ =~= s@.take(p as int));
    assert(b@ =~= s@.skip(p + 1));
    match (parse_u32(&a), parse_u32(&b)) {
        (Some(y), Some(m)) => {
            if y <= 9999 && 1 <= m && m <= 12 {
                let start = iso_date(y, m, 1);
                let end = if m == 12 { iso_date(y + 1, 1, 1) } else { iso_date(y, m + 1, 1) };
                Ok((start, end))
            } else {
                Err(ImportError::ValidationError)
            }
        },
        _ => Err(ImportError::ValidationError),
    }
}

/// Whether a transaction counts against a category in a month: a live outflow of the category,
/// not part of a transfer, dated on or after `start` and before `end`.
pub open spec fn spends(t: TxView, category: Seq<char>, start: Seq<char>, end: Seq<char>) -> bool {
    &&& !t.deleted
    &&& t.transfer_id is None
    &&& t.category_id == Some(category)
    &&& t.amount < 0
    &&& text_le(start, t.date)
    &&& !text_le(end, t.date)
}

/// The total outflow of the first `n` transactions that count against the category.
pub open spec fn spent_of(txs: Seq<TxView>, category: Seq<char>, start: Seq<char>, end: Seq<char>, n: int) -> int
    decreases n,
{
    if n <= 0 {
        0
    } else {
        spent_of(txs, category, start, end, n - 1) + if spends(txs[n - 1], category, start, end) {
            -(txs[n - 1].amount as int)
        } else {
            0
        }
    }
}

/// The spending that a summary reports: the total, or zero when the total does not fit in `i64`.
pub open spec fn reported_spent(total: int) -> int {
    if total <= i64::MAX {
        total
    } else {
        0
    }
}

/// `a - b` held within the bounds of `i64`.
pub open spec fn clamped_difference(a: int, b: int) -> int {
    if a - b < i64::MIN {
        i64::MIN as int
    } else if a - b > i64::MAX {
        i64::MAX as int
    } else {
        a - b
    }
}

fn spent_in(txs: &Vec<Transaction>, category: &String, start: &Vec<char>, end: &Vec<char>) -> (r: i64)
    ensures
        r == reported_spent(spent_of(tx_views(txs@), category@, start@, end@, txs@.len() as int)),
        r >= 0,
{
    let ghost all = tx_views(txs@);
    let mut sum: i128 = 0;
    let mut i: usize = 0;
    while i < txs.len()
        invariant
            i <= txs@.len(),
            all == tx_views(txs@),
            sum == spent_of(all, category@, start@, end@, i as int),
            0 <= sum <= (i as int) * 0x8000_0000_0000_0000,
        decreases txs.len() - i,
    {
        let t = &txs[i];
        assert(all[i as int] == t@);
        let counts = !t.deleted && t.transfer_id.is_none() && t.amount < 0 && match &t.category_id {
            Some(c) => *c == *category,
            None => false,
        };
        if counts {
            let d = chars_of(t.date.as_str());
            if le_text(start.as_slice(), d.as_slice()) && !le_text(end.as_slice(), d.as_slice()) {
                sum = sum - t.amount as i128;
            }
        }
        i += 1;
        assert(0 <= sum <= (i as int) * 0x8000_0000_0000_0000) by (nonlinear_arith)
            requires
                0 <= sum <= ((i - 1) as int) * 0x8000_0000_0000_0000 + 0x8000_0000_0000_0000,
        ;
    }
    if sum > i64::MAX as i128 {
        0
    } else {
        sum as i64
    }
}

fn copy_budget(b: &Budget) -> (r: Budget)
    ensures
        r.id@ == b.id@ && r.category_id@ == b.category_id@ && r.period_type@ == b.period_type@
            && r.amount == b.amount && r.rollover == b.rollover && r.created_at@ == b.created_at@
            && r.updated_at@ == b.updated_at@,
{
    Budget {
        id: b.id.clone(),
        category_id: b.category_id.clone(),
        period_type: b.period_type.clone(),
        amount: b.amount,
        rollover: b.rollover,
        created_at: b.created_at.clone(),
        updated_at: b.updated_at.clone(),
    }
}

fn copy_category(c: &Category) -> (r: Category)
    ensures
        r.id@ == c.id@ && r.name@ == c.name@ && opt_view(r.parent_id) == opt_view(c.parent_id)
            && r.category_type@ == c.category_type@ && opt_view(r.icon) == opt_view(c.icon)
            && opt_view(r.color) == opt_view(c.color) && r.is_system == c.is_system
            && r.display_order == c.display_order && r.created_at@ == c.created_at@
            && r.updated_at@ == c.updated_at@,
{
    Category {
        id: c.id.clone(),
        name: c.name.clone(),
        parent_id: clone_opt(&c.parent_id),
        category_type: c.category_type.clone(),
        icon: clone_opt(&c.icon),
        color: clone_opt(&c.color),
        is_system: c.is_system,
        display_order: c.display_order,
        created_at: c.created_at.clone(),
        updated_at: c.updated_at.clone(),
    }
}

/// For each budget with its category, what the category spent in the month `YYYY-MM` and what
/// is left of the budget. `ValidationError` when the text is not a month.
pub fn get_budget_summary(month: &str, budgets: &Vec<(Budget, Category)>, txs: &Vec<Transaction>) -> (r: Result<Vec<BudgetSummary>, ImportError>)
    ensures
        match month_bounds_spec(month@) {
            None => r == Err::<Vec<BudgetSummary>, ImportError>(ImportError::ValidationError),
            Some((start, end)) => r is Ok && r->Ok_0@.len() == budgets@.len() && forall|k: int|
                0 <= k < budgets@.len() ==> {
                    let s = #[trigger] r->Ok_0@[k];
                    let (b, c) = budgets@[k];
                    let spent = reported_spent(spent_of(tx_views(txs@), b.category_id@, start, end, txs@.len() as int));
                    &&& s.budget.id@ == b.id@ && s.budget.category_id@ == b.category_id@
                    &&& s.budget.amount == b.amount
                    &&& s.category.id@ == c.id@ && s.category.name@ == c.name@
                    &&& s.spent == spent
                    &&& s.remaining == clamped_difference(b.amount as int, spent)
                },
        },
{
    let (start, end) = match month_bounds(month) {
        Ok(x) => x,
        Err(e) => {
            return Err(e);
        },
    };
    let sv = chars_of(start.as_str());
    let ev = chars_of(end.as_str());
    let mut out: Vec<BudgetSummary> = Vec::new();
    let mut k: usize = 0;
    while k < budgets.len()
        invariant
            k <= budgets@.len(),
            month_bounds_spec(month@) == Some((sv@, ev@)),
            out@.len() == k,
            forall|q: int|
                0 <= q < k ==> {
                    let s = #[trigger] out@[q];
                    let (b, c) = budgets@[q];
                    let spent = reported_spent(spent_of(tx_views(txs@), b.category_id@, sv@, ev@, txs@.len() as int));
                    &&& s.budget.id@ == b.id@ && s.budget.category_id@ == b.category_id@
                    &&& s.budget.amount == b.amount
                    &&& s.category.id@ == c.id@ && s.category.name@ == c.name@
                    &&& s.spent == spent
                    &&& s.remaining == clamped_difference(b.amount as int, spent)
                },
        decreases budgets.len() - k,
    {
        let (b, c) = &budgets[k];
        let spent = spent_in(txs, &b.category_id, &sv, &ev);
        let remaining: i64 = if b.amount < i64::MIN + spent {
            i64::MIN
        } else {
            b.amount - spent
        };
        out.push(BudgetSummary { budget: copy_budget(b), category: copy_category(c), spent, remaining });
        k += 1;
    }
    Ok(out)
}

} // verus!
