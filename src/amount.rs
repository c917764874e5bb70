//! Decimal amounts in plain notation, read into and written from integer cents.
use vstd::prelude::*;
use crate::text::{is_digit, digit_val, digit, copy_range, string_of};

verus! {

pub open spec fn all_digits(s: Seq<char>) -> bool {
    forall|i: int| 0 <= i < s.len() ==> is_digit(#[trigger] s[i])
}

/// The number that a run of decimal digits denotes.
pub open spec fn digits_value(s: Seq<char>) -> nat
    decreases s.len(),
{
    if s.len() == 0 {
        0
    } else {
        (digits_value(s.drop_last()) * 10 + digit_val(s.last())) as nat
    }
}

/// Index of the first '.' at or after `i`, or the length of `s`.
pub open spec fn dot_from(s: Seq<char>, i: int) -> int
    decreases s.len() - i,
{
    if i < 0 || i >= s.len() {
        s.len() as int
    } else if s[i] == '.' {
        i
    } else {
        dot_from(s, i + 1)
    }
}

/// The `k`-th digit after the point, or zero past the end.
pub open spec fn frac_digit(f: Seq<char>, k: int) -> int {
    if k < f.len() {
        digit_val(f[k])
    } else {
        0
    }
}

/// Cents of `int_part.frac_part`, rounded half away from zero at the third decimal.
pub open spec fn cents_of_parts(int_part: Seq<char>, frac_part: Seq<char>) -> int {
    digits_value(int_part) * 100 + frac_digit(frac_part, 0) * 10 + frac_digit(frac_part, 1) + (
    if frac_digit(frac_part, 2) >= 5 {
        1int
    } else {
        0int
    })
}

/// Cents denoted by unsigned plain decimal text: digits with at most one '.', and at
/// least one digit in all.
pub open spec fn decimal_cents(s: Seq<char>) -> Option<int> {
    let d = dot_from(s, 0);
    let ip = s.take(d);
    let fp = if d < s.len() {
        s.skip(d + 1)
    } else {
        Seq::empty()
    };
    if all_digits(ip) && all_digits(fp) && ip.len() + fp.len() > 0 {
        Some(cents_of_parts(ip, fp))
    } else {
        None
    }
}

/// Cents denoted by decimal text with an optional leading sign.
pub open spec fn signed_cents(s: Seq<char>) -> Option<int> {
    if s.len() > 0 && s[0] == '-' {
        match decimal_cents(s.skip(1)) {
            Some(v) => Some(-v),
            None => None,
        }
    } else if s.len() > 0 && s[0] == '+' {
        decimal_cents(s.skip(1))
    } else {
        decimal_cents(s)
    }
}

/// An amount that fits in `i64`, else none.
pub open spec fn bounded(v: Option<int>) -> Option<i64> {
    match v {
        Some(x) => if i64::MIN < x <= i64::MAX {
            Some(x as i64)
        } else {
            None
        },
        None => None,
    }
}

pub proof fn lemma_digits_value_step(s: Seq<char>, i: int)
    requires
        0 <= i < s.len(),
        is_digit(s[i]),
    ensures
        digits_value(s.take(i + 1)) == digits_value(s.take(i)) * 10 + digit_val(s[i]),
{
    assert(s.take(i + 1).drop_last() =~= s.take(i));
    assert(s.take(i + 1).last() == s[i]);
}

pub proof fn lemma_digits_value_grows(s: Seq<char>, i: int)
    requires
        0 <= i <= s.len(),
        all_digits(s),
    ensures
        digits_value(s.take(i)) <= digits_value(s),
    decreases s.len() - i,
{
    if i < s.len() {
        lemma_digits_value_step(s, i);
        lemma_digits_value_grows(s, i + 1);
    } else {
        assert(s.take(i) =~= s);
    }
}

proof fn lemma_dot_from(s: Seq<char>, i: int)
    requires
        0 <= i <= s.len(),
    ensures
        i <= dot_from(s, i) <= s.len(),
        forall|k: int| i <= k < dot_from(s, i) ==> s[k] != '.',
        dot_from(s, i) < s.len() ==> s[dot_from(s, i)] == '.',
    decreases s.len() - i,
{
    if i < s.len() && s[i] != '.' {
        lemma_dot_from(s, i + 1);
    }
}

/// Cents denoted by unsigned plain decimal text, when they fit in `i64`.
pub fn parse_decimal(s: &Vec<char>) -> (r: Option<i64>)
    ensures
        r == bounded(decimal_cents(s@)),
{
    let n = s.len();
    let mut d: usize = 0;
    while d < n && s[d] != '.'
        invariant
            d <= n == s.len(),
            dot_from(s@, d as int) == dot_from(s@, 0),
        decreases n - d,
    {
        d += 1;
    }
    proof {
        lemma_dot_from(s@, 0);
    }
    assert(dot_from(s@, 0) == d);
    let ghost ip = s@.take(d as int);
    let ghost fp = if d < n {
        s@.skip(d + 1)
    } else {
        Seq::<char>::empty()
    };
    let mut v: i64 = 0;
    let mut i: usize = 0;
    while i < d
        invariant
            i <= d <= n == s.len(),
            ip == s@.take(d as int),
            d as int == dot_from(s@, 0),
            fp == (if d < n {
                s@.skip(d + 1)
            } else {
                Seq::<char>::empty()
            }),
            v as int == digits_value(ip.take(i as int)),
            forall|k: int| 0 <= k < i ==> is_digit(s@[k]),
        decreases d - i,
    {
        if !digit(s[i]) {
            assert(ip[i as int] == s@[i as int]);
            assert(!all_digits(ip));
            return None;
        }
        assert(ip[i as int] == s@[i as int]);
        proof {
            lemma_digits_value_step(ip, i as int);
        }
        let dv = (s[i] as u32 - '0' as u32) as i64;
        match v.checked_mul(10) {
            Some(t) => match t.checked_add(dv) {
                Some(u) => {
                    v = u;
                },
                None => {
                    proof {
                        lemma_spec_none_or_large(s@, ip, fp, i as int + 1);
                    }
                    return None;
                },
            },
            None => {
                proof {
                    lemma_spec_none_or_large(s@, ip, fp, i as int + 1);
                }
                return None;
            },
        }
        i += 1;
    }
    assert(ip.take(d as int) =~= ip);
    assert forall|k: int| 0 <= k < ip.len() implies is_digit(#[trigger] ip[k]) by {
        assert(ip[k] == s@[k]);
    }
    let mut f: [i64; 3] = [0, 0, 0];
    if d < n {
        let mut j: usize = d + 1;
        while j < n
            invariant
                d < n == s.len(),
                d + 1 <= j <= n,
                d as int == dot_from(s@, 0),
                fp == s@.skip(d + 1),
                all_digits(fp.take(j - d - 1)),
                forall|k: int| 0 <= k < 3 ==> f[k] == (if k < j - d - 1 {
                    frac_digit(fp, k)
                } else {
                    0
                }),
            decreases n - j,
        {
            if !digit(s[j]) {
                assert(fp[j - d - 1] == s@[j as int]);
                assert(!all_digits(fp));
                return None;
            }
            let dv = (s[j] as u32 - '0' as u32) as i64;
            let k = j - d - 1;
            if k < 3 {
                f.set(k, dv);
            }
            j += 1;
            assert(forall|m: int| 0 <= m < j - d - 1 ==> fp.take(j - d - 1)[m] == fp[m]);
        }
        assert(fp.take(j - d - 1) =~= fp);
    }
    if d == 0 && n <= 1 {
        return None;
    }
    assert(ip.len() + fp.len() > 0);
    assert(forall|k: int| 0 <= k < 3 ==> f[k] == frac_digit(fp, k));
    let ghost spec_v = cents_of_parts(ip, fp);
    assert(decimal_cents(s@) == Some(spec_v));
    let round: i64 = if f[2] >= 5 { 1 } else { 0 };
    assert(0 <= f[0] <= 9 && 0 <= f[1] <= 9);
    match v.checked_mul(100) {
        Some(t) => {
            let extra = f[0] * 10 + f[1] + round;
            match t.checked_add(extra) {
                Some(c) => Some(c),
                None => None,
            }
        },
        None => None,
    }
}

proof fn lemma_spec_none_or_large(s: Seq<char>, ip: Seq<char>, fp: Seq<char>, i: int)
    requires
        ip == s.take(dot_from(s, 0)),
        fp == (if dot_from(s, 0) < s.len() {
            s.skip(dot_from(s, 0) + 1)
        } else {
            Seq::<char>::empty()
        }),
        0 <= i <= ip.len(),
        digits_value(ip.take(i)) > i64::MAX,
    ensures
        bounded(decimal_cents(s)) is None,
{
    if all_digits(ip) {
        lemma_digits_value_grows(ip, i);
    }
}

/// Cents denoted by decimal text with an optional leading sign, when they fit in `i64`.
pub fn parse_signed(s: &Vec<char>) -> (r: Option<i64>)
    ensures
        r == bounded(signed_cents(s@)),
{
    let n = s.len();
    if n > 0 && (s[0] == '-' || s[0] == '+') {
        let rest = copy_range(s, 1, n);
        assert(rest@ =~= s@.skip(1));
        match parse_decimal(&rest) {
            Some(v) => {
                if s[0] == '-' {
                    Some(-v)
                } else {
                    Some(v)
                }
            },
            None => None,
        }
    } else {
        parse_decimal(s)
    }
}

pub open spec fn digit_char(d: int) -> char {
    (d + 48) as char
}

/// Decimal digits of `n`, most significant first, without leading zeros.
pub open spec fn digits_of(n: nat) -> Seq<char>
    decreases n,
{
    if n < 10 {
        seq![digit_char(n as int)]
    } else {
        digits_of(n / 10).push(digit_char((n % 10) as int))
    }
}

/// Digits of `n`, left-padded with zeros to at least `w` characters.
pub open spec fn padded(n: nat, w: nat) -> Seq<char> {
    let d = digits_of(n);
    if d.len() < w {
        Seq::new((w - d.len()) as nat, |i: int| '0') + d
    } else {
        d
    }
}

/// The canonical text of an amount of cents: an optional '-', the whole units, '.', and
/// exactly two decimals, with no grouping separators.
pub open spec fn amount_text(v: int) -> Seq<char> {
    let a = if v < 0 {
        -v
    } else {
        v
    };
    let sign = if v < 0 {
        seq!['-']
    } else {
        Seq::<char>::empty()
    };
    sign + digits_of((a / 100) as nat) + seq!['.', digit_char((a % 100) / 10), digit_char(a % 10)]
}

pub proof fn lemma_digits_of(n: nat)
    ensures
        all_digits(digits_of(n)),
        digits_value(digits_of(n)) == n,
        digits_of(n).len() >= 1,
    decreases n,
{
    let c = digit_char((n % 10) as int);
    assert(c as int == n % 10 + 48);
    assert(digit_val(c) == n % 10);
    if n >= 10 {
        lemma_digits_of(n / 10);
        let d = digits_of(n / 10);
        assert(digits_of(n).drop_last() =~= d);
        assert(digits_of(n).last() == c);
        assert(digits_value(digits_of(n)) == (digits_value(d) * 10 + digit_val(c)) as nat);
        assert(n == (n / 10) * 10 + n % 10);
    } else {
        assert(digits_of(n).drop_last() =~= Seq::<char>::empty());
        assert(digits_of(n).last() == c);
        assert(digits_value(digits_of(n)) == (digits_value(Seq::<char>::empty()) * 10 + digit_val(c)) as nat);
    }
}

/// Reading the canonical text of an amount gives the amount back.
pub proof fn lemma_amount_text_round_trip(v: int)
    ensures
        signed_cents(amount_text(v)) == Some(v),
{
    let a = if v < 0 {
        -v
    } else {
        v
    };
    let u = digits_of((a / 100) as nat) + seq!['.', digit_char((a % 100) / 10), digit_char(a % 10)];
    lemma_digits_of((a / 100) as nat);
    let ip = digits_of((a / 100) as nat);
    let k = ip.len() as int;
    assert(u.take(k) =~= ip);
    assert(u.skip(k + 1) =~= seq![digit_char((a % 100) / 10), digit_char(a % 10)]);
    assert forall|i: int| 0 <= i < k implies dot_from(u, i) == k by {
        lemma_dot_from_digits(u, i, k);
    }
    assert(dot_from(u, 0) == k);
    assert(decimal_cents(u) == Some(a));
    if v < 0 {
        assert(amount_text(v) =~= seq!['-'] + u);
        assert((seq!['-'] + u).skip(1) =~= u);
    } else {
        assert(amount_text(v) =~= u);
        assert(is_digit(u[0]));
    }
}

pub proof fn lemma_dot_from_digits(u: Seq<char>, i: int, k: int)
    requires
        0 <= i <= k < u.len(),
        all_digits(u.take(k)),
        u[k] == '.',
    ensures
        dot_from(u, i) == k,
    decreases k - i,
{
    if i < k {
        assert(u.take(k)[i] == u[i]);
        lemma_dot_from_digits(u, i + 1, k);
    }
}

/// Appends the digits of `n`.
pub fn push_digits(out: &mut Vec<char>, n: u64)
    ensures
        final(out)@ == old(out)@ + digits_of(n as nat),
    decreases n,
{
    if n >= 10 {
        push_digits(out, n / 10);
    }
    let c = ((n % 10) as u8 + 48) as char;
    out.push(c);
    assert(final(out)@ =~= old(out)@ + digits_of(n as nat));
}

/// How many digits `n` has.
pub fn digit_count(n: u64) -> (r: u64)
    ensures
        r == digits_of(n as nat).len(),
        r <= n / 10 + 1,
    decreases n,
{
    if n >= 10 {
        let r = digit_count(n / 10);
        assert(n / 10 / 10 + 1 <= n / 10);
        r + 1
    } else {
        1
    }
}

/// Appends the digits of `n`, left-padded with zeros to at least `w` characters.
pub fn push_padded(out: &mut Vec<char>, n: u64, w: usize)
    ensures
        final(out)@ == old(out)@ + padded(n as nat, w as nat),
{
    let c = digit_count(n);
    let ghost start = out@;
    if c < w as u64 {
        let c = c as usize;
        let mut i: usize = 0;
        while i < w - c
            invariant
                c < w,
                i <= w - c,
                out@ == start + Seq::new(i as nat, |k: int| '0'),
            decreases w - c - i,
        {
            out.push('0');
            i += 1;
            assert(out@ =~= start + Seq::new(i as nat, |k: int| '0'));
        }
    }
    let ghost mid = out@;
    push_digits(out, n);
    assert(out@ =~= start + padded(n as nat, w as nat));
}

/// The canonical text of an amount of cents, such as `-1285.00`.
pub fn format_amount(v: i64) -> (r: String)
    requires
        v > i64::MIN,
    ensures
        r@ == amount_text(v as int),
{
    let mut out: Vec<char> = Vec::new();
    let a: u64 = if v < 0 {
        (-v) as u64
    } else {
        v as u64
    };
    if v < 0 {
        out.push('-');
    }
    push_digits(&mut out, a / 100);
    out.push('.');
    out.push((((a % 100) / 10) as u8 + 48) as char);
    out.push(((a % 10) as u8 + 48) as char);
    assert(out@ =~= amount_text(v as int));
    string_of(out.as_slice())
}

} // verus!
