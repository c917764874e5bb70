//! Assigning categories to uncategorized transactions: ordered pattern rules first, then the
//! category of the latest transaction with the same payee.
use vstd::prelude::*;
use crate::text::{same_text, chars_of, lower_of, lowercase, contains, starts_with, includes, begins_with, text_le, le_text};
use crate::ledger::{Transaction, TxView, opt_view, tx_views, same_opt};

verus! {

broadcast use vstd::string::group_string_axioms;

/// A categorization rule: when it is active and its filters and pattern accept a transaction,
/// the transaction gets `category_id`. `rule_type` is one of `payee_contains`, `payee_exact`,
/// `payee_starts_with` and `payee_regex`; any other type accepts nothing.
pub struct CategoryRule {
    pub id: String,
    pub category_id: String,
    pub rule_type: String,
    pub pattern: String,
    pub amount_min: Option<i64>,
    pub amount_max: Option<i64>,
    pub account_id: Option<String>,
    pub priority: i32,
    pub is_active: bool,
    pub created_at: String,
    pub updated_at: String,
}

pub struct RuleView {
    pub category_id: Seq<char>,
    pub rule_type: Seq<char>,
    pub pattern: Seq<char>,
    pub amount_min: Option<i64>,
    pub amount_max: Option<i64>,
    pub account_id: Option<Seq<char>>,
    pub priority: i32,
    pub is_active: bool,
}

impl View for CategoryRule {
    type V = RuleView;

    open spec fn view(&self) -> RuleView {
        RuleView {
            category_id: self.category_id@,
            rule_type: self.rule_type@,
            pattern: self.pattern@,
            amount_min: self.amount_min,
            amount_max: self.amount_max,
            account_id: opt_view(self.account_id),
            priority: self.priority,
            is_active: self.is_active,
        }
    }
}

pub open spec fn rule_views(v: Seq<CategoryRule>) -> Seq<RuleView> {
    v.map_values(|r: CategoryRule| r@)
}

/// Whether the regular expression `pattern` matches somewhere in `text`; a pattern that does
/// not compile matches nothing.
pub uninterp spec fn regex_accepts(pattern: Seq<char>, text: Seq<char>) -> bool;

/// Relies on `regex::Regex::new` and `regex::Regex::is_match`: whether the compiled pattern
/// matches somewhere in the text, which depends on the two texts alone; a compile error
/// counts as no match.
#[verifier::external_body]
fn regex_match(pattern: &str, text: &str) -> (r: bool)
    ensures
        r == regex_accepts(pattern@, text@),
{
    regex::Regex::new(pattern).map(|re| re.is_match(text)).unwrap_or(false)
}

/// Whether the rule's pattern accepts the payee; an absent payee is accepted by none.
pub open spec fn pattern_matches(rule: RuleView, payee: Option<Seq<char>>) -> bool {
    match payee {
        None => false,
        Some(p) => if rule.rule_type == "payee_contains"@ {
            contains(lower_of(p), lower_of(rule.pattern))
        } else if rule.rule_type == "payee_exact"@ {
            lower_of(p) == lower_of(rule.pattern)
        } else if rule.rule_type == "payee_starts_with"@ {
            starts_with(lower_of(p), lower_of(rule.pattern))
        } else if rule.rule_type == "payee_regex"@ {
            regex_accepts(rule.pattern, p)
        } else {
            false
        },
    }
}

/// Whether an active rule accepts a transaction: its account filter, its inclusive amount
/// bounds and its pattern all hold.
pub open spec fn rule_applies(rule: RuleView, t: TxView) -> bool {
    &&& rule.is_active
    &&& (rule.account_id matches Some(a) ==> a == t.account_id)
    &&& (rule.amount_min matches Some(m) ==> t.amount >= m)
    &&& (rule.amount_max matches Some(m) ==> t.amount <= m)
    &&& pattern_matches(rule, t.payee)
}

/// The rule that decides for `t` among the first `n` rules: of those that apply, the one of
/// highest priority, the earliest among equals.
pub open spec fn best_rule(rules: Seq<RuleView>, t: TxView, n: int) -> Option<int>
    decreases n,
{
    if n <= 0 {
        None
    } else {
        let b = best_rule(rules, t, n - 1);
        if rule_applies(rules[n - 1], t) && (b matches Some(k) ==> rules[n - 1].priority
            > rules[k].priority) {
            Some(n - 1)
        } else {
            b
        }
    }
}

/// A transaction that categorization may change: in scope, live, and without a category.
pub open spec fn candidate(t: TxView, in_scope: bool) -> bool {
    in_scope && t.category_id is None && !t.deleted
}

/// The transactions after the rule pass.
pub open spec fn after_rules(txs: Seq<TxView>, rules: Seq<RuleView>, scope: Seq<bool>) -> Seq<
    TxView,
> {
    Seq::new(
        txs.len(),
        |i: int|
            if candidate(txs[i], scope[i]) && best_rule(rules, txs[i], rules.len() as int) is Some {
                TxView {
                    category_id: Some(
                        rules[best_rule(rules, txs[i], rules.len() as int)->0].category_id,
                    ),
                    ..txs[i]
                }
            } else {
                txs[i]
            },
    )
}

/// Whether `j` can teach `i` its category: another live transaction with the same payee that
/// has a category.
pub open spec fn teaches(txs: Seq<TxView>, i: int, j: int) -> bool {
    j != i && !txs[j].deleted && txs[j].payee == txs[i].payee && txs[j].category_id is Some
}

/// Among the first `n` transactions, the latest by date that can teach `i` (the earliest
/// among equal dates).
pub open spec fn learned_from(txs: Seq<TxView>, i: int, n: int) -> Option<int>
    decreases n,
{
    if n <= 0 {
        None
    } else {
        let b = learned_from(txs, i, n - 1);
        if teaches(txs, i, n - 1) && (b matches Some(k) ==> !text_le(txs[n - 1].date, txs[k].date)) {
            Some(n - 1)
        } else {
            b
        }
    }
}

/// Whether the learning pass looks at `i`: a candidate that no rule accepted, with a payee.
pub open spec fn learner(txs: Seq<TxView>, rules: Seq<RuleView>, scope: Seq<bool>, i: int) -> bool {
    candidate(txs[i], scope[i]) && best_rule(rules, txs[i], rules.len() as int) is None
        && txs[i].payee is Some
}

/// The transactions after both passes. The learning pass reads the ledger as the rule pass
/// left it.
pub open spec fn categorized(txs: Seq<TxView>, rules: Seq<RuleView>, scope: Seq<bool>) -> Seq<
    TxView,
> {
    let snap = after_rules(txs, rules, scope);
    Seq::new(
        txs.len(),
        |i: int|
            if learner(txs, rules, scope, i) && learned_from(snap, i, txs.len() as int) is Some {
                TxView {
                    category_id: snap[learned_from(snap, i, txs.len() as int)->0].category_id,
                    ..txs[i]
                }
            } else {
                snap[i]
            },
    )
}

/// How many of the first `n` candidates of `before` have a category in `after`.
pub open spec fn newly_categorized(
    before: Seq<TxView>,
    after: Seq<TxView>,
    scope: Seq<bool>,
    n: int,
) -> nat
    decreases n,
{
    if n <= 0 {
        0
    } else {
        newly_categorized(before, after, scope, n - 1) + if candidate(before[n - 1], scope[n - 1])
            && after[n - 1].category_id is Some {
            1nat
        } else {
            0nat
        }
    }
}

/// Whether the rule's pattern accepts the payee.
fn pattern_accepts(rule: &CategoryRule, payee: &Option<String>) -> (r: bool)
    ensures
        r == pattern_matches(rule@, opt_view(*payee)),
{
    let p = match payee {
        Some(p) => p,
        None => {
            return false;
        },
    };
    let kind = chars_of(rule.rule_type.as_str());
    if same_text(&kind, &chars_of("payee_contains")) {
        let lp = lowercase(chars_of(p.as_str()).as_slice());
        let lq = lowercase(chars_of(rule.pattern.as_str()).as_slice());
        includes(&lp, &lq)
    } else if same_text(&kind, &chars_of("payee_exact")) {
        let lp = lowercase(chars_of(p.as_str()).as_slice());
        let lq = lowercase(chars_of(rule.pattern.as_str()).as_slice());
        same_text(&lp, &lq)
    } else if same_text(&kind, &chars_of("payee_starts_with")) {
        let lp = lowercase(chars_of(p.as_str()).as_slice());
        let lq = lowercase(chars_of(rule.pattern.as_str()).as_slice());
        begins_with(&lp, &lq)
    } else if same_text(&kind, &chars_of("payee_regex")) {
        regex_match(rule.pattern.as_str(), p.as_str())
    } else {
        false
    }
}

/// Whether a rule accepts a transaction.
pub fn rule_accepts(rule: &CategoryRule, t: &Transaction) -> (r: bool)
    ensures
        r == rule_applies(rule@, t@),
{
    if !rule.is_active {
        return false;
    }
    match &rule.account_id {
        Some(a) => {
            if !(*a == t.account_id) {
                return false;
            }
        },
        None => {},
    }
    match rule.amount_min {
        Some(m) => {
            if t.amount < m {
                return false;
            }
        },
        None => {},
    }
    match rule.amount_max {
        Some(m) => {
            if t.amount > m {
                return false;
            }
        },
        None => {},
    }
    pattern_accepts(rule, &t.payee)
}

/// The rule that decides for a transaction, if any.
pub fn choose_rule(rules: &Vec<CategoryRule>, t: &Transaction) -> (r: Option<usize>)
    ensures
        match r {
            Some(k) => best_rule(rule_views(rules@), t@, rules@.len() as int) == Some(k as int)
                && k < rules@.len(),
            None => best_rule(rule_views(rules@), t@, rules@.len() as int) is None,
        },
{
    let ghost rs = rule_views(rules@);
    let mut best: Option<usize> = None;
    let mut n: usize = 0;
    while n < rules.len()
        invariant
            n <= rules@.len(),
            rs == rule_views(rules@),
            match best {
                Some(k) => best_rule(rs, t@, n as int) == Some(k as int) && k < n,
                None => best_rule(rs, t@, n as int) is None,
            },
        decreases rules.len() - n,
    {
        assert(rs[n as int] == rules@[n as int]@);
        if rule_accepts(&rules[n], t) {
            match best {
                Some(k) => {
                    assert(rs[k as int] == rules@[k as int]@);
                    if rules[n].priority > rules[k].priority {
                        best = Some(n);
                    }
                },
                None => {
                    best = Some(n);
                },
            }
        }
        n += 1;
    }
    best
}

proof fn lemma_learned_teaches(txs: Seq<TxView>, i: int, n: int)
    ensures
        learned_from(txs, i, n) matches Some(j) ==> 0 <= j < n && teaches(txs, i, j),
    decreases n,
{
    if n > 0 {
        lemma_learned_teaches(txs, i, n - 1);
    }
}

/// The category that transaction `i` learns from the latest other live transaction with the
/// same payee that has one.
fn find_teacher(txs: &Vec<Transaction>, i: usize) -> (r: Option<String>)
    requires
        i < txs@.len(),
    ensures
        match learned_from(tx_views(txs@), i as int, txs@.len() as int) {
            Some(j) => r is Some && opt_view(r) == tx_views(txs@)[j].category_id,
            None => r is None,
        },
{
    let ghost all = tx_views(txs@);
    let mut best: Option<usize> = None;
    let mut j: usize = 0;
    while j < txs.len()
        invariant
            j <= txs@.len(),
            i < txs@.len(),
            all == tx_views(txs@),
            match best {
                Some(k) => learned_from(all, i as int, j as int) == Some(k as int) && k < j,
                None => learned_from(all, i as int, j as int) is None,
            },
        decreases txs.len() - j,
    {
        assert(all[j as int] == txs@[j as int]@);
        assert(all[i as int] == txs@[i as int]@);
        let t = &txs[j];
        if j != i && !t.deleted && same_opt(&t.payee, &txs[i].payee) && t.category_id.is_some() {
            match best {
                Some(k) => {
                    assert(all[k as int] == txs@[k as int]@);
                    let dj = chars_of(t.date.as_str());
                    let dk = chars_of(txs[k].date.as_str());
                    if !le_text(dj.as_slice(), dk.as_slice()) {
                        best = Some(j);
                    }
                },
                None => {
                    best = Some(j);
                },
            }
        }
        j += 1;
    }
    proof {
        lemma_learned_teaches(all, i as int, txs@.len() as int);
    }
    match best {
        Some(k) => {
            assert(all[k as int] == txs@[k as int]@);
            crate::ledger::clone_opt(&txs[k].category_id)
        },
        None => None,
    }
}

/// Categorizes the live, uncategorized transactions in scope (`scope[i]` for `txs[i]`): each
/// takes the category of the deciding rule; one that no rule accepts and that has a payee then
/// takes the category of the latest other live transaction with the same payee. Returns how
/// many transactions got a category.
pub fn categorize(txs: &mut Vec<Transaction>, rules: &Vec<CategoryRule>, scope: &Vec<bool>) -> (r: usize)
    requires
        old(txs)@.len() == scope@.len(),
    ensures
        tx_views(final(txs)@) == categorized(tx_views(old(txs)@), rule_views(rules@), scope@),
        r == newly_categorized(tx_views(old(txs)@), tx_views(final(txs)@), scope@, scope@.len() as int),
{
    let ghost before = tx_views(txs@);
    let ghost rs = rule_views(rules@);
    let ghost snap = after_rules(before, rs, scope@);
    let n = txs.len();
    let mut learners: Vec<bool> = Vec::new();
    let mut cands: Vec<bool> = Vec::new();
    let mut i: usize = 0;
    while i < n
        invariant
            i <= n == txs@.len() == scope@.len() == before.len(),
            learners@.len() == i,
            cands@.len() == i,
            rs == rule_views(rules@),
            snap == after_rules(before, rs, scope@),
            forall|k: int| 0 <= k < i ==> txs@[k]@ == #[trigger] snap[k],
            forall|k: int| i <= k < n ==> txs@[k]@ == #[trigger] before[k],
            forall|k: int| 0 <= k < i ==> learners@[k] == learner(before, rs, scope@, k),
            forall|k: int| 0 <= k < i ==> cands@[k] == candidate(before[k], scope@[k]),
        decreases n - i,
    {
        assert(txs@[i as int]@ == before[i as int]);
        let cand = scope[i] && txs[i].category_id.is_none() && !txs[i].deleted;
        let mut learns = false;
        if cand {
            match choose_rule(rules, &txs[i]) {
                Some(k) => {
                    let c = rules[k].category_id.clone();
                    assert(rs[k as int] == rules@[k as int]@);
                    txs[i].category_id = Some(c);
                },
                None => {
                    learns = txs[i].payee.is_some();
                },
            }
        }
        assert(txs@[i as int]@ == snap[i as int]);
        learners.push(learns);
        cands.push(cand);
        i += 1;
    }
    assert(tx_views(txs@) =~= snap);
    let mut learned: Vec<Option<String>> = Vec::new();
    i = 0;
    while i < n
        invariant
            i <= n == txs@.len() == learners@.len() == before.len() == scope@.len(),
            learned@.len() == i,
            tx_views(txs@) == snap,
            forall|k: int| 0 <= k < n ==> learners@[k] == learner(before, rs, scope@, k),
            forall|k: int|
                0 <= k < i ==> match #[trigger] learned@[k] {
                    Some(c) => learners@[k] && learned_from(snap, k, n as int) is Some && c@
                        == snap[learned_from(snap, k, n as int)->0].category_id->0,
                    None => !learners@[k] || learned_from(snap, k, n as int) is None,
                },
        decreases n - i,
    {
        if learners[i] {
            let c = find_teacher(txs, i);
            learned.push(c);
        } else {
            learned.push(None);
        }
        i += 1;
    }
    let ghost goal = categorized(before, rs, scope@);
    assert forall|k: int| 0 <= k < n implies (#[trigger] learned_from(snap, k, n as int) matches Some(j) ==> 0 <= j < n
        && teaches(snap, k, j)) by {
        lemma_learned_teaches(snap, k, n as int);
    }
    let mut count: usize = 0;
    i = 0;
    while i < n
        invariant
            i <= n == txs@.len() == learned@.len() == cands@.len() == before.len() == scope@.len(),
            count <= i,
            rs == rule_views(rules@),
            snap == after_rules(before, rs, scope@),
            goal == categorized(before, rs, scope@),
            forall|k: int| 0 <= k < n ==> learners@[k] == learner(before, rs, scope@, k),
            forall|k: int| 0 <= k < n ==> cands@[k] == candidate(before[k], scope@[k]),
            forall|k: int|
                0 <= k < n ==> match #[trigger] learned@[k] {
                    Some(c) => learners@[k] && learned_from(snap, k, n as int) is Some && c@
                        == snap[learned_from(snap, k, n as int)->0].category_id->0,
                    None => !learners@[k] || learned_from(snap, k, n as int) is None,
                },
            forall|k: int| 0 <= k < i ==> txs@[k]@ == #[trigger] goal[k],
            forall|k: int| i <= k < n ==> txs@[k]@ == #[trigger] snap[k],
            forall|k: int|
                0 <= k < n ==> (#[trigger] learned_from(snap, k, n as int) matches Some(j) ==> 0 <= j
                    < n && teaches(snap, k, j)),
            count == newly_categorized(before, goal, scope@, i as int),
        decreases n - i,
    {
        assert(txs@[i as int]@ == snap[i as int]);
        match &learned[i] {
            Some(c) => {
                let c2 = c.clone();
                txs[i].category_id = Some(c2);
            },
            None => {},
        }
        assert(txs@[i as int]@ == goal[i as int]);
        if cands[i] && txs[i].category_id.is_some() {
            count += 1;
        }
        i += 1;
    }
    assert(tx_views(txs@) =~= goal);
    count
}

/// Whether each transaction is in scope: all of them, or those whose id is listed.
pub open spec fn in_scope(txs: Seq<TxView>, ids: Option<Seq<Seq<char>>>) -> Seq<bool> {
    Seq::new(
        txs.len(),
        |i: int|
            match ids {
                None => true,
                Some(l) => l.contains(txs[i].id),
            },
    )
}

pub open spec fn id_views(v: Seq<String>) -> Seq<Seq<char>> {
    v.map_values(|s: String| s@)
}

pub open spec fn ids_view(o: Option<Vec<String>>) -> Option<Seq<Seq<char>>> {
    match o {
        Some(v) => Some(id_views(v@)),
        None => None,
    }
}

/// Applies the categorization rules to every live, uncategorized transaction, or to those
/// among them whose id is listed, and returns how many got a category.
pub fn apply_category_rules(
    txs: &mut Vec<Transaction>,
    rules: &Vec<CategoryRule>,
    transaction_ids: Option<Vec<String>>,
) -> (r: usize)
    ensures
        ({
            let scope = in_scope(tx_views(old(txs)@), ids_view(transaction_ids));
            &&& tx_views(final(txs)@) == categorized(tx_views(old(txs)@), rule_views(rules@), scope)
            &&& r == newly_categorized(
                tx_views(old(txs)@),
                tx_views(final(txs)@),
                scope,
                scope.len() as int,
            )
        }),
{
    let ghost ids = ids_view(transaction_ids);
    let ghost target = in_scope(tx_views(txs@), ids);
    let mut scope: Vec<bool> = Vec::new();
    let mut i: usize = 0;
    while i < txs.len()
        invariant
            i <= txs@.len(),
            target == in_scope(tx_views(txs@), ids),
            ids == ids_view(transaction_ids),
            scope@ =~= target.take(i as int),
        decreases txs.len() - i,
    {
        let inside = match &transaction_ids {
            None => true,
            Some(list) => {
                let mut found = false;
                let mut k: usize = 0;
                while k < list.len()
                    invariant
                        k <= list@.len(),
                        i < txs@.len(),
                        found == exists|m: int| 0 <= m < k && list@[m]@ == txs@[i as int].id@,
                    decreases list.len() - k,
                {
                    if list[k] == txs[i].id {
                        found = true;
                    }
                    k += 1;
                }
                proof {
                    let l = id_views(list@);
                    if found {
                        let m = choose|m: int| 0 <= m < k && list@[m]@ == txs@[i as int].id@;
                        assert(l[m] == txs@[i as int].id@);
                    } else {
                        assert forall|m: int| 0 <= m < l.len() implies l[m] != txs@[i as int].id@ by {
                            assert(l[m] == list@[m]@);
                        }
                    }
                }
                found
            },
        };
        assert(tx_views(txs@)[i as int] == txs@[i as int]@);
        scope.push(inside);
        i += 1;
    }
    assert(scope@ =~= target);
    categorize(txs, rules, &scope)
}

proof fn lemma_learned_none(txs: Seq<TxView>, i: int, n: int, j: int)
    requires
        learned_from(txs, i, n) is None,
        0 <= j < n,
    ensures
        !teaches(txs, i, j),
    decreases n,
{
    if j < n - 1 {
        lemma_learned_none(txs, i, n - 1, j);
    }
}

proof fn lemma_no_count(before: Seq<TxView>, after: Seq<TxView>, scope: Seq<bool>, n: int)
    requires
        forall|k: int| 0 <= k < n ==> !(candidate(before[k], scope[k]) && after[k].category_id is Some),
    ensures
        newly_categorized(before, after, scope, n) == 0,
    decreases n,
{
    if n > 0 {
        lemma_no_count(before, after, scope, n - 1);
    }
}

/// Categorizing a second time changes nothing and counts nothing: every transaction that the
/// first pass left without a category is one that neither a rule nor the payee history can
/// place.
pub proof fn lemma_categorize_idempotent(txs: Seq<TxView>, rules: Seq<RuleView>, scope: Seq<bool>)
    requires
        scope.len() == txs.len(),
    ensures
        categorized(categorized(txs, rules, scope), rules, scope) == categorized(txs, rules, scope),
        newly_categorized(
            categorized(txs, rules, scope),
            categorized(categorized(txs, rules, scope), rules, scope),
            scope,
            scope.len() as int,
        ) == 0,
{
    let n = txs.len() as int;
    let a = categorized(txs, rules, scope);
    let snap1 = after_rules(txs, rules, scope);
    let snap2 = after_rules(a, rules, scope);
    let b = categorized(a, rules, scope);
    // Candidates left by the first pass are unchanged transactions that no rule accepts.
    assert forall|k: int| 0 <= k < n && candidate(a[k], scope[k]) implies a[k] == txs[k]
        && candidate(txs[k], scope[k]) && best_rule(rules, txs[k], rules.len() as int) is None
        && snap1[k] == txs[k] by {
        if !candidate(txs[k], scope[k]) {
            assert(a[k].category_id == txs[k].category_id || a[k].category_id is Some);
        }
    }
    assert forall|k: int| 0 <= k < n implies #[trigger] snap2[k] == a[k] by {
        if candidate(a[k], scope[k]) {
            assert(best_rule(rules, a[k], rules.len() as int) is None);
        }
    }
    assert(snap2 =~= a);
    assert forall|i: int| 0 <= i < n implies #[trigger] b[i] == a[i] by {
        if learner(a, rules, scope, i) && learned_from(snap2, i, n) is Some {
            let j = learned_from(snap2, i, n)->0;
            lemma_learned_teaches(snap2, i, n);
            assert(teaches(a, i, j));
            assert(learner(txs, rules, scope, i));
            lemma_learned_teaches(snap1, i, n);
            assert(snap1[i] == txs[i]);
            assert(a[j].payee == snap1[j].payee && a[j].deleted == snap1[j].deleted);
            if snap1[j].category_id is Some {
                assert(teaches(snap1, i, j));
                if learned_from(snap1, i, n) is None {
                    lemma_learned_none(snap1, i, n, j);
                }
            } else {
                assert(learner(txs, rules, scope, j) && learned_from(snap1, j, n) is Some);
                let m = learned_from(snap1, j, n)->0;
                lemma_learned_teaches(snap1, j, n);
                assert(teaches(snap1, i, m));
                if learned_from(snap1, i, n) is None {
                    lemma_learned_none(snap1, i, n, m);
                }
            }
        }
    }
    assert(b =~= a);
    lemma_no_count(a, b, scope, n);
}

} // verus!
