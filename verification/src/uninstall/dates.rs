//! Days since an app was last used, from `mdls -raw kMDItemLastUsedDate`.
use vstd::prelude::*;
use crate::text::{chars_of, is_whitespace, is_ws, split_on, string_of};
use crate::path::split_bounds;

verus! {

broadcast use vstd::string::group_string_axioms;

pub open spec fn is_digit(c: char) -> bool {
    '0' <= c && c <= '9'
}

/// The number written by the decimal digits `ds`.
pub open spec fn digits_value(ds: Seq<char>) -> int
    decreases ds.len(),
{
    if ds.len() == 0 {
        0
    } else {
        digits_value(ds.drop_last()) * 10 + (ds.last() as int - '0' as int)
    }
}

pub open spec fn all_digits(ds: Seq<char>) -> bool {
    forall|i: int| 0 <= i < ds.len() ==> is_digit(#[trigger] ds[i])
}

/// What `s.parse::<i64>()` gives: an optional sign, then one or more ASCII digits,
/// the value within the `i64` range.
pub open spec fn parsed_i64(s: Seq<char>) -> Option<int> {
    let neg = s.len() > 0 && s[0] == '-';
    let signed = s.len() > 0 && (s[0] == '-' || s[0] == '+');
    let ds = if signed {
        s.skip(1)
    } else {
        s
    };
    if ds.len() == 0 || !all_digits(ds) {
        None
    } else {
        let v = if neg {
            -digits_value(ds)
        } else {
            digits_value(ds)
        };
        if i64::MIN <= v <= i64::MAX {
            Some(v)
        } else {
            None
        }
    }
}

proof fn lemma_digits_prefix(ds: Seq<char>, j: int)
    requires
        0 <= j <= ds.len(),
        all_digits(ds),
    ensures
        0 <= digits_value(ds.take(j)) <= digits_value(ds),
    decreases ds.len() - j,
{
    if j < ds.len() {
        lemma_digits_prefix(ds, j + 1);
        assert(ds.take(j + 1).drop_last() =~= ds.take(j));
        assert(is_digit(ds[j]));
        lemma_digits_nonneg(ds.take(j));
    } else {
        assert(ds.take(j) =~= ds);
        lemma_digits_nonneg(ds);
    }
}

proof fn lemma_digits_nonneg(ds: Seq<char>)
    requires
        all_digits(ds),
    ensures
        digits_value(ds) >= 0,
    decreases ds.len(),
{
    if ds.len() > 0 {
        assert(is_digit(ds[ds.len() - 1]));
        assert(all_digits(ds.drop_last())) by {
            assert forall|i: int| 0 <= i < ds.drop_last().len() implies is_digit(#[trigger] ds.drop_last()[i]) by {
                assert(ds.drop_last()[i] == ds[i]);
            }
        }
        lemma_digits_nonneg(ds.drop_last());
    }
}

/// `s.parse::<i64>()`.
pub fn parse_i64(s: &str) -> (r: Option<i64>)
    ensures
        r matches Some(v) ==> parsed_i64(s@) == Some(v as int),
        r is None ==> parsed_i64(s@) is None,
{
    let v = chars_of(s);
    let n = v.len();
    let neg = n > 0 && v[0] == '-';
    let signed = n > 0 && (v[0] == '-' || v[0] == '+');
    let start: usize = if signed { 1 } else { 0 };
    let ghost ds = if signed { s@.skip(1) } else { s@ };
    assert(ds =~= v@.subrange(start as int, n as int));
    if start == n {
        return None;
    }
    let mut acc: i64 = 0;
    let mut i: usize = start;
    while i < n
        invariant
            start <= i <= n,
            n == v@.len(),
            v@ == s@,
            ds == v@.subrange(start as int, n as int),
            neg == (s@.len() > 0 && s@[0] == '-'),
            signed == (s@.len() > 0 && (s@[0] == '-' || s@[0] == '+')),
            start == (if signed { 1usize } else { 0usize }),
            ds == (if signed { s@.skip(1) } else { s@ }),
            ds.len() > 0,
            all_digits(ds.take(i - start)),
            acc as int == if neg { -digits_value(ds.take(i - start)) } else { digits_value(ds.take(i - start)) },
        decreases n - i,
    {
        let c = v[i];
        assert(ds[i - start] == c);
        if !('0' <= c && c <= '9') {
            proof {
                assert(!is_digit(ds[i - start]));
            }
            return None;
        }
        let d = ((c as u32) - 48) as i64;
        let ghost t0 = ds.take(i - start);
        let ghost t1 = ds.take(i - start + 1);
        assert(t1.drop_last() =~= t0);
        assert(t1.last() == c);
        assert(all_digits(t1)) by {
            assert forall|k: int| 0 <= k < t1.len() implies is_digit(#[trigger] t1[k]) by {
                if k < t0.len() {
                    assert(t1[k] == t0[k]);
                }
            }
        }
        let step = if neg {
            match acc.checked_mul(10) {
                Some(x) => x.checked_sub(d),
                None => None,
            }
        } else {
            match acc.checked_mul(10) {
                Some(x) => x.checked_add(d),
                None => None,
            }
        };
        match step {
            Some(x) => {
                acc = x;
            },
            None => {
                proof {
                    lemma_digits_nonneg(t0);
                    if all_digits(ds) {
                        lemma_digits_prefix(ds, i - start + 1);
                    }
                }
                return None;
            },
        }
        i += 1;
    }
    assert(ds.take(n - start) =~= ds);
    Some(acc)
}

/// Days from 1970-01-01 to the civil date `y-m-d` (proleptic Gregorian); none for a
/// month outside 1..=12 or a day outside 1..=31.
pub open spec fn civil_days(y: int, m: int, d: int) -> Option<int> {
    if m < 1 || m > 12 || d < 1 || d > 31 {
        None
    } else {
        let yy = if m <= 2 {
            y - 1
        } else {
            y
        };
        let era = yy / 400;
        let yoe = yy - era * 400;
        let mp = if m > 2 {
            m - 3
        } else {
            m + 9
        };
        let doy = (153 * mp + 2) / 5 + d - 1;
        let doe = yoe * 365 + yoe / 4 - yoe / 100 + doy;
        Some(era * 146097 + doe - 719468)
    }
}

/// The years for which the day count fits the arithmetic.
pub open spec fn year_in_range(y: int) -> bool {
    -10_000_000_000_000_000 <= y <= 10_000_000_000_000_000
}

/// Days since the civil epoch 1970-01-01 of `y-m-d`.
pub fn days_from_civil(y: i64, m: i64, d: i64) -> (r: Option<i64>)
    requires
        year_in_range(y as int),
    ensures
        r matches Some(v) ==> civil_days(y as int, m as int, d as int) == Some(v as int),
        r is None ==> civil_days(y as int, m as int, d as int) is None,
{
    if m < 1 || m > 12 || d < 1 || d > 31 {
        return None;
    }
    let yy = if m <= 2 { y - 1 } else { y };
    // Shift by a multiple of 400 so that the division is of a non-negative number.
    let shifted = yy + 10_000_000_000_000_400;
    let q = shifted / 400;
    let era = q - 25_000_000_000_001;
    proof {
        let qq = (yy as int) / 400;
        let rr = (yy as int) % 400;
        vstd::arithmetic::div_mod::lemma_fundamental_div_mod(yy as int, 400);
        assert(shifted as int == (qq + 25_000_000_000_001) * 400 + rr) by (nonlinear_arith)
            requires
                yy as int == 400 * qq + rr,
                shifted as int == yy as int + 10_000_000_000_000_400,
        ;
        vstd::arithmetic::div_mod::lemma_fundamental_div_mod_converse(
            shifted as int,
            400,
            qq + 25_000_000_000_001,
            rr,
        );
    }
    assert(era as int == (yy as int) / 400);
    let yoe = yy - era * 400;
    assert(yoe as int == (yy as int) % 400) by {
        vstd::arithmetic::div_mod::lemma_fundamental_div_mod(yy as int, 400);
    }
    let mp = if m > 2 { m - 3 } else { m + 9 };
    let doy = (153 * mp + 2) / 5 + d - 1;
    let doe = yoe * 365 + yoe / 4 - yoe / 100 + doy;
    Some(era * 146_097 + doe - 719_468)
}

/// The first run of non-whitespace characters of `s` (`split_whitespace().next()`).
pub open spec fn first_token(s: Seq<char>) -> Option<Seq<char>> {
    let t = crate::text::trim_start(s);
    if t.len() == 0 {
        None
    } else {
        Some(t.take(token_len(t)))
    }
}

/// Length of the leading run of non-whitespace characters of `t`.
pub open spec fn token_len(t: Seq<char>) -> int
    decreases t.len(),
{
    if t.len() == 0 || is_ws(t[0]) {
        0
    } else {
        1 + token_len(t.drop_first())
    }
}

/// The date `(year, month, day)` at the start of an `mdls` value such as
/// `2026-04-15 09:12:33 +0000`; none for an empty value or `(null)`.
pub open spec fn mdls_date(raw: Seq<char>) -> Option<(int, int, int)> {
    if raw.len() == 0 || raw == "(null)"@ {
        None
    } else {
        match first_token(raw) {
            None => None,
            Some(tok) => {
                let ps = split_on(tok, '-');
                if ps.len() < 3 {
                    None
                } else {
                    match (parsed_i64(ps[0]), parsed_i64(ps[1]), parsed_i64(ps[2])) {
                        (Some(y), Some(m), Some(d)) => Some((y, m, d)),
                        _ => None,
                    }
                }
            },
        }
    }
}

/// Whole days from the `mdls` date to `now_secs` (seconds since the epoch), zero when
/// the date lies ahead.
pub open spec fn mdls_days(raw: Seq<char>, now_secs: nat) -> Option<nat> {
    match mdls_date(raw) {
        None => None,
        Some((y, m, d)) => match civil_days(y, m, d) {
            None => None,
            Some(last) => {
                let diff = now_secs as int / 86400 - last;
                if diff < 0 {
                    Some(0)
                } else {
                    Some(diff as nat)
                }
            },
        },
    }
}

fn first_token_of(v: &Vec<char>) -> (r: Option<(usize, usize)>)
    ensures
        r matches Some(b) ==> b.0 <= b.1 <= v@.len() && first_token(v@) == Some(v@.subrange(b.0 as int, b.1 as int)),
        r is None ==> first_token(v@) is None,
{
    let n = v.len();
    let mut a: usize = 0;
    assert(v@.skip(0) =~= v@);
    while a < n && is_whitespace(v[a])
        invariant
            a <= n,
            n == v@.len(),
            crate::text::trim_start(v@) == crate::text::trim_start(v@.skip(a as int)),
        decreases n - a,
    {
        assert(v@.skip(a as int).drop_first() =~= v@.skip(a + 1));
        a += 1;
    }
    let ghost t = v@.skip(a as int);
    assert(a < n ==> !is_ws(t[0]));
    assert(crate::text::trim_start(t) == t);
    if a == n {
        return None;
    }
    let mut b: usize = a;
    while b < n && !is_whitespace(v[b])
        invariant
            a <= b <= n,
            n == v@.len(),
            t == v@.skip(a as int),
            token_len(t) == (b - a) + token_len(v@.skip(b as int)),
        decreases n - b,
    {
        assert(v@.skip(b as int).drop_first() =~= v@.skip(b + 1));
        b += 1;
    }
    assert(token_len(v@.skip(b as int)) == 0);
    assert(t.take(token_len(t)) =~= v@.subrange(a as int, b as int));
    Some((a, b))
}

/// The `year-month-day` date at the start of a raw `mdls` value, when there is one.
pub fn mdls_date_of(raw: &str) -> (r: Option<(i64, i64, i64)>)
    ensures
        r matches Some(t) ==> mdls_date(raw@) == Some((t.0 as int, t.1 as int, t.2 as int)),
        r is None ==> mdls_date(raw@) is None,
{
    proof {
        reveal_strlit("(null)");
    }
    let v = chars_of(raw);
    if v.len() == 0 || crate::text::str_eq(raw, "(null)") {
        return None;
    }
    let (a, b) = match first_token_of(&v) {
        None => {
            return None;
        },
        Some(x) => x,
    };
    let tok = string_of(&v, a, b);
    let tv = chars_of(tok.as_str());
    let parts = split_bounds(&tv, '-');
    if parts.len() < 3 {
        return None;
    }
    let ghost ps = split_on(tok@, '-');
    assert(ps[0] == tv@.subrange(parts@[0].0 as int, parts@[0].1 as int));
    assert(ps[1] == tv@.subrange(parts@[1].0 as int, parts@[1].1 as int));
    assert(ps[2] == tv@.subrange(parts@[2].0 as int, parts@[2].1 as int));
    let ys = string_of(&tv, parts[0].0, parts[0].1);
    let ms = string_of(&tv, parts[1].0, parts[1].1);
    let dstr = string_of(&tv, parts[2].0, parts[2].1);
    let y = match parse_i64(ys.as_str()) {
        None => {
            return None;
        },
        Some(y) => y,
    };
    let m = match parse_i64(ms.as_str()) {
        None => {
            return None;
        },
        Some(m) => m,
    };
    let d = match parse_i64(dstr.as_str()) {
        None => {
            return None;
        },
        Some(d) => d,
    };
    assert(mdls_date(raw@) == Some((y as int, m as int, d as int)));
    Some((y, m, d))
}

/// Days since the app was last used, from the raw `mdls` value and the current time
/// (`now_secs` since the epoch); none for an empty value, `(null)`, or a value that
/// does not start with a valid `year-month-day` date.
pub fn parse_mdls_days_ago(raw: &str, now_secs: u64) -> (r: Option<u64>)
    requires
        now_secs <= i64::MAX,
        mdls_date(raw@) matches Some(t) ==> year_in_range(t.0),
    ensures
        r matches Some(x) ==> mdls_days(raw@, now_secs as nat) == Some(x as nat),
        r is None ==> mdls_days(raw@, now_secs as nat) is None,
{
    let (y, m, d) = match mdls_date_of(raw) {
        None => {
            return None;
        },
        Some(t) => t,
    };
    let last = match days_from_civil(y, m, d) {
        None => {
            return None;
        },
        Some(l) => l,
    };
    let now_day = (now_secs as i64) / 86_400;
    assert(-3_700_000_000_000_000_000 <= last <= 3_700_000_000_000_000_000) by (nonlinear_arith)
        requires
            civil_days(y as int, m as int, d as int) == Some(last as int),
            year_in_range(y as int),
            1 <= m <= 12,
            1 <= d <= 31,
    ;
    let diff = now_day - last;
    if diff < 0 {
        Some(0)
    } else {
        Some(diff as u64)
    }
}

} // verus!
