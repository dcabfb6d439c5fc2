//! Pure formatting helpers shared across commands: byte counts, durations,
//! truncation and pluralisation.
use vstd::prelude::*;
use crate::text::{append_chars, append_str, chars_of, decimal, digit_char, push_char, push_decimal};

verus! {

broadcast use vstd::string::group_string_axioms;

/// `2^e`.
pub open spec fn p2(e: nat) -> nat
    decreases e,
{
    if e == 0 {
        1
    } else {
        2 * p2((e - 1) as nat)
    }
}

/// Number of binary digits of `n` (0 for 0).
pub open spec fn bit_len(n: nat) -> nat
    decreases n,
{
    if n == 0 {
        0
    } else {
        1 + bit_len(n / 2)
    }
}

/// `n / d` rounded to the nearest integer, ties to the even neighbour.
pub open spec fn div_round_even(n: nat, d: nat) -> nat
    recommends
        d > 0,
{
    let q = n / d;
    let r = n % d;
    if 2 * r > d || (2 * r == d && q % 2 == 1) {
        q + 1
    } else {
        q
    }
}

/// The integer that `b as f64` holds: `b` rounded to a 53-bit significand,
/// ties to even.
pub open spec fn f64_value(b: nat) -> nat {
    let len = bit_len(b);
    if len <= 53 {
        b
    } else {
        let p = p2((len - 53) as nat);
        div_round_even(b, p) * p
    }
}

/// `1024^k`.
pub open spec fn kib_pow(k: nat) -> nat
    decreases k,
{
    if k == 0 {
        1
    } else {
        1024 * kib_pow((k - 1) as nat)
    }
}

/// How many times the value `m` is divided by 1024 before it drops under 1024,
/// stopping at terabytes.
pub open spec fn unit_index(m: nat) -> nat {
    if m >= kib_pow(4) {
        4
    } else if m >= kib_pow(3) {
        3
    } else if m >= kib_pow(2) {
        2
    } else if m >= kib_pow(1) {
        1
    } else {
        0
    }
}

pub open spec fn unit_name(u: nat) -> Seq<char> {
    if u == 0 {
        seq!['B']
    } else if u == 1 {
        seq!['K', 'B']
    } else if u == 2 {
        seq!['M', 'B']
    } else if u == 3 {
        seq!['G', 'B']
    } else {
        seq!['T', 'B']
    }
}

/// Two decimal digits of `c < 100`, with a leading zero.
pub open spec fn two_digits(c: nat) -> Seq<char> {
    seq![digit_char(c / 10), digit_char(c % 10)]
}

/// What `format_bytes(bytes)` prints: the count itself under 1 KB, else the value
/// in the largest unit (up to TB) with two decimals, rounded half to even as `{:.2}`
/// rounds the binary value.
pub open spec fn bytes_text(bytes: nat) -> Seq<char> {
    let m = f64_value(bytes);
    let u = unit_index(m);
    if u == 0 {
        decimal(bytes) + seq![' '] + unit_name(0)
    } else {
        let c = div_round_even(m * 100, kib_pow(u));
        decimal(c / 100) + seq!['.'] + two_digits(c % 100) + seq![' '] + unit_name(u)
    }
}

proof fn lemma_p2_pos(e: nat)
    ensures
        p2(e) >= 1,
    decreases e,
{
    if e > 0 {
        lemma_p2_pos((e - 1) as nat);
    }
}

proof fn lemma_p2_add(a: nat, b: nat)
    ensures
        p2(a + b) == p2(a) * p2(b),
    decreases a,
{
    if a > 0 {
        lemma_p2_add((a - 1) as nat, b);
        let x = p2((a - 1) as nat);
        let y = p2(b);
        assert(p2(a) == 2 * x);
        assert(((a - 1) as nat + b) as nat == (a + b - 1) as nat);
        assert(p2(a + b) == 2 * (x * y));
        assert((2 * x) * y == 2 * (x * y)) by (nonlinear_arith);
        assert(p2(a) * p2(b) == (2 * x) * y);
    } else {
        assert(p2(0) == 1);
        assert(a + b == b);
        assert(1 * p2(b) == p2(b));
    }
}

proof fn lemma_p2_mono(a: nat, b: nat)
    requires
        a <= b,
    ensures
        p2(a) <= p2(b),
{
    lemma_p2_add(a, (b - a) as nat);
    lemma_p2_pos((b - a) as nat);
    assert(p2(a) * p2((b - a) as nat) >= p2(a)) by (nonlinear_arith)
        requires p2((b - a) as nat) >= 1;
    assert((a + (b - a) as nat) as nat == b);
}

proof fn lemma_p2_consts()
    ensures
        p2(53) == 0x20_0000_0000_0000,
        p2(64) == 0x1_0000_0000_0000_0000,
{
    reveal_with_fuel(p2, 65);
}

/// When `b` has more than 53 binary digits, dropping `len - 53` of them leaves a
/// 53-bit quotient, and the scale stays within 64 bits.
proof fn lemma_f64_scale(b: nat, len: nat, e: nat)
    requires
        b > 0,
        len == bit_len(b),
        len > 53,
        e == len - 53,
        b < 0x1_0000_0000_0000_0000,
    ensures
        p2(e) > 0,
        b / p2(e) < p2(53),
        p2(53) * p2(e) <= p2(64),
        p2(53) == 0x20_0000_0000_0000,
        p2(64) == 0x1_0000_0000_0000_0000,
{
    lemma_p2_consts();
    lemma_p2_pos(e);
    lemma_bit_len_bounds(b);
    lemma_bit_len_le(b, 64);
    lemma_p2_add(53, e);
    assert((53 + e) as nat == len);
    lemma_p2_mono(len, 64);
    let p = p2(e);
    assert(b / p < p2(53)) by (nonlinear_arith)
        requires b < p2(53) * p, p > 0;
}

proof fn lemma_bit_len_bounds(n: nat)
    requires
        n > 0,
    ensures
        p2((bit_len(n) - 1) as nat) <= n < p2(bit_len(n)),
        bit_len(n) >= 1,
    decreases n,
{
    if n >= 2 {
        lemma_bit_len_bounds(n / 2);
    } else {
        assert(bit_len(0) == 0);
    }
}

proof fn lemma_bit_len_le(n: nat, k: nat)
    requires
        n < p2(k),
    ensures
        bit_len(n) <= k,
    decreases k,
{
    if n > 0 {
        if k == 0 {
            assert(false);
        } else {
            lemma_bit_len_le(n / 2, (k - 1) as nat);
        }
    }
}

/// Number of binary digits of `n`.
fn bit_length(n: u64) -> (r: u32)
    ensures
        r == bit_len(n as nat),
        r <= 64,
{
    let mut x = n;
    let mut cnt: u32 = 0;
    assert(p2(0) == 1);
    assert(x as nat * p2(0) == x as nat);
    while x > 0
        invariant
            bit_len(n as nat) == cnt + bit_len(x as nat),
            x as nat * p2(cnt as nat) <= n,
            cnt <= 64,
        decreases x,
    {
        proof {
            lemma_p2_pos(cnt as nat);
            if cnt == 64 {
                lemma_p2_add(32, 32);
                assert(p2(32) == 0x1_0000_0000) by { reveal_with_fuel(p2, 33); }
                assert(x as nat * p2(cnt as nat) >= p2(64)) by (nonlinear_arith)
                    requires x >= 1, p2(cnt as nat) == p2(64);
            }
            assert((x / 2) as nat * p2((cnt + 1) as nat) <= x as nat * p2(cnt as nat))
                by (nonlinear_arith)
                requires
                    p2((cnt + 1) as nat) == 2 * p2(cnt as nat),
            ;
        }
        x = x / 2;
        cnt = cnt + 1;
    }
    cnt
}

fn pow2_u128(e: u32) -> (r: u128)
    requires
        e <= 64,
    ensures
        r == p2(e as nat),
{
    let mut r: u128 = 1;
    let mut i: u32 = 0;
    while i < e
        invariant
            i <= e <= 64,
            r == p2(i as nat),
        decreases e - i,
    {
        proof {
            lemma_p2_mono((i + 1) as nat, 64);
            lemma_p2_consts();
            assert(p2((i + 1) as nat) == 2 * p2(i as nat));
        }
        r = r * 2;
        i = i + 1;
    }
    r
}

fn div_round_even_u128(n: u128, d: u128) -> (r: u128)
    requires
        d > 0,
        n / d < u128::MAX,
    ensures
        r == div_round_even(n as nat, d as nat),
{
    let q = n / d;
    let rem = n % d;
    let other = d - rem;
    if rem > other || (rem == other && q % 2 == 1) {
        q + 1
    } else {
        q
    }
}

/// `b as f64`, as an exact integer.
fn f64_value_of(b: u64) -> (m: u128)
    ensures
        m == f64_value(b as nat),
        m <= 0x1_0000_0000_0000_0000,
{
    let len = bit_length(b);
    if len <= 53 {
        b as u128
    } else {
        let e = len - 53;
        proof {
            lemma_f64_scale(b as nat, len as nat, e as nat);
        }
        let p = pow2_u128(e);
        let q = div_round_even_u128(b as u128, p);
        assert(q as nat * p as nat <= p2(53) * p as nat) by (nonlinear_arith)
            requires q <= p2(53), p > 0;
        q * p
    }
}

/// Formats a byte count as a human-readable string (B, KB, MB, GB, TB), base 1024.
/// Counts under 1024 print as integers; larger values print with two decimals.
pub fn format_bytes(bytes: u64) -> (s: String)
    ensures
        s@ == bytes_text(bytes as nat),
{
    let m = f64_value_of(bytes);
    assert(kib_pow(1) == 1024 && kib_pow(2) == 1048576 && kib_pow(3) == 1073741824 && kib_pow(4)
        == 1099511627776) by {
        reveal_with_fuel(kib_pow, 5);
    }
    let (u, d): (u8, u128) = if m >= 1099511627776 {
        (4, 1099511627776)
    } else if m >= 1073741824 {
        (3, 1073741824)
    } else if m >= 1048576 {
        (2, 1048576)
    } else if m >= 1024 {
        (1, 1024)
    } else {
        (0, 1)
    };
    assert(u == unit_index(m as nat));
    let mut s = String::new();
    if u == 0 {
        push_decimal(&mut s, bytes);
        push_char(&mut s, ' ');
        push_char(&mut s, 'B');
        assert(s@ =~= bytes_text(bytes as nat));
        return s;
    }
    assert(d == kib_pow(u as nat));
    let c = div_round_even_u128(m * 100, d);
    assert(c <= m * 100);
    let whole = (c / 100) as u64;
    let frac = (c % 100) as u8;
    push_decimal(&mut s, whole);
    push_char(&mut s, '.');
    push_char(&mut s, ((frac / 10) + 48) as char);
    push_char(&mut s, ((frac % 10) + 48) as char);
    push_char(&mut s, ' ');
    if u == 1 {
        push_char(&mut s, 'K');
    } else if u == 2 {
        push_char(&mut s, 'M');
    } else if u == 3 {
        push_char(&mut s, 'G');
    } else {
        push_char(&mut s, 'T');
    }
    push_char(&mut s, 'B');
    assert(s@ =~= bytes_text(bytes as nat));
    s
}

/// What `format_duration(seconds)` prints: the two most significant of days, hours,
/// minutes and seconds.
pub open spec fn duration_text(seconds: nat) -> Seq<char> {
    let days = seconds / 86400;
    let hours = (seconds % 86400) / 3600;
    let minutes = (seconds % 3600) / 60;
    let secs = seconds % 60;
    if days > 0 {
        decimal(days) + seq!['d', ' '] + decimal(hours) + seq!['h', ' '] + decimal(minutes) + seq![
            'm',
        ]
    } else if hours > 0 {
        decimal(hours) + seq!['h', ' '] + decimal(minutes) + seq!['m']
    } else if minutes > 0 {
        decimal(minutes) + seq!['m', ' '] + decimal(secs) + seq!['s']
    } else {
        decimal(secs) + seq!['s']
    }
}

/// A count in hundredths of a unit, printed with two decimals.
pub open spec fn hundredths_text(c: nat) -> Seq<char> {
    decimal(c / 100) + seq!['.'] + two_digits(c % 100)
}

/// Whether `text` shows `bytes` in the given unit with two decimals, rounded to the
/// nearest hundredth of the unit, followed by `name`.
pub open spec fn shows_in_unit(text: Seq<char>, bytes: nat, unit: nat, name: Seq<char>) -> bool {
    exists|c: nat|
        #![trigger hundredths_text(c)]
        text == hundredths_text(c) + name && c * unit <= 100 * bytes + unit / 2 && 100 * bytes <= c * unit + unit / 2
}

/// A byte count under 1 KB prints as itself; from 1 KB on (up to `2^53` bytes, where
/// every count is exact) it prints in the largest of KB, MB, GB, TB not above it,
/// rounded to the nearest hundredth of that unit.
pub proof fn law_bytes_text_reads_back(bytes: nat)
    requires
        bytes < 0x20_0000_0000_0000,
    ensures
        bytes < 1024 ==> bytes_text(bytes) == decimal(bytes) + seq![' ', 'B'],
        1024 <= bytes < 0x10_0000 ==> shows_in_unit(bytes_text(bytes), bytes, 1024, seq![' ', 'K', 'B']),
        0x10_0000 <= bytes < 0x4000_0000 ==> shows_in_unit(bytes_text(bytes), bytes, 0x10_0000, seq![' ', 'M', 'B']),
        0x4000_0000 <= bytes < 0x100_0000_0000 ==> shows_in_unit(
            bytes_text(bytes),
            bytes,
            0x4000_0000,
            seq![' ', 'G', 'B'],
        ),
        0x100_0000_0000 <= bytes ==> shows_in_unit(bytes_text(bytes), bytes, 0x100_0000_0000, seq![' ', 'T', 'B']),
{
    lemma_p2_consts();
    lemma_bit_len_le(bytes, 53);
    assert(f64_value(bytes) == bytes);
    reveal_with_fuel(kib_pow, 5);
    assert(kib_pow(1) == 1024);
    assert(kib_pow(2) == 0x10_0000);
    assert(kib_pow(3) == 0x4000_0000);
    assert(kib_pow(4) == 0x100_0000_0000);
    let u = unit_index(bytes);
    if u > 0 {
        let d = kib_pow(u);
        let n = bytes * 100;
        let q = n / d;
        let r = n % d;
        assert(n == q * d + r && r < d) by (nonlinear_arith)
            requires
                d > 0,
                q == n / d,
                r == n % d,
        ;
        let c = div_round_even(n, d);
        assert(c * d <= n + d / 2 && n <= c * d + d / 2) by (nonlinear_arith)
            requires
                n == q * d + r,
                r < d,
                d > 0,
                d % 2 == 0,
                c == q || c == q + 1,
                c == q ==> 2 * r <= d,
                c == q + 1 ==> 2 * r >= d,
        ;
        assert(bytes_text(bytes) =~= hundredths_text(c) + seq![' '] + unit_name(u));
        let name = seq![' '] + unit_name(u);
        assert(bytes_text(bytes) =~= hundredths_text(c) + name);
        assert(shows_in_unit(bytes_text(bytes), bytes, d, name));
        if u == 1 {
            assert(name =~= seq![' ', 'K', 'B']);
        } else if u == 2 {
            assert(name =~= seq![' ', 'M', 'B']);
        } else if u == 3 {
            assert(name =~= seq![' ', 'G', 'B']);
        } else {
            assert(name =~= seq![' ', 'T', 'B']);
        }
    }
}

/// A duration prints as its two most significant parts, and they read back: under a
/// minute the seconds; under an hour whole minutes and the seconds left; under a day
/// whole hours and the minutes left; else whole days, the hours and the minutes left.
pub proof fn law_duration_text_reads_back(seconds: nat)
    ensures
        seconds < 60 ==> duration_text(seconds) == decimal(seconds) + seq!['s'],
        60 <= seconds < 3600 ==> exists|m: nat, x: nat|
            #![trigger decimal(m), decimal(x)]
            m > 0 && x < 60 && 60 * m + x == seconds && duration_text(seconds) == decimal(m) + seq!['m', ' ']
                + decimal(x) + seq!['s'],
        3600 <= seconds < 86400 ==> exists|h: nat, m: nat|
            #![trigger decimal(h), decimal(m)]
            h > 0 && m < 60 && 3600 * h + 60 * m <= seconds < 3600 * h + 60 * m + 60 && duration_text(seconds)
                == decimal(h) + seq!['h', ' '] + decimal(m) + seq!['m'],
        86400 <= seconds ==> exists|d: nat, h: nat, m: nat|
            #![trigger decimal(d), decimal(h), decimal(m)]
            d > 0 && h < 24 && m < 60 && 86400 * d + 3600 * h + 60 * m <= seconds < 86400 * d + 3600 * h + 60 * m + 60
                && duration_text(seconds) == decimal(d) + seq!['d', ' '] + decimal(h) + seq!['h', ' '] + decimal(m)
                + seq!['m'],
{
    let d = seconds / 86400;
    let h = (seconds % 86400) / 3600;
    let m = (seconds % 3600) / 60;
    let x = seconds % 60;
    assert(86400 * d + 3600 * h + 60 * m + x == seconds && h < 24 && m < 60 && x < 60);
    if 60 <= seconds < 3600 {
        assert(duration_text(seconds) == decimal(m) + seq!['m', ' '] + decimal(x) + seq!['s']);
    } else if 3600 <= seconds < 86400 {
        assert(duration_text(seconds) == decimal(h) + seq!['h', ' '] + decimal(m) + seq!['m']);
    } else if 86400 <= seconds {
        assert(duration_text(seconds) == decimal(d) + seq!['d', ' '] + decimal(h) + seq!['h', ' '] + decimal(m)
            + seq!['m']);
    }
}

/// Formats a duration in seconds as a coarse human string (e.g. "2d 3h 4m").
pub fn format_duration(seconds: u64) -> (s: String)
    ensures
        s@ == duration_text(seconds as nat),
{
    let days = seconds / 86_400;
    let hours = (seconds % 86_400) / 3_600;
    let minutes = (seconds % 3_600) / 60;
    let secs = seconds % 60;
    let mut s = String::new();
    if days > 0 {
        push_decimal(&mut s, days);
        push_char(&mut s, 'd');
        push_char(&mut s, ' ');
        push_decimal(&mut s, hours);
        push_char(&mut s, 'h');
        push_char(&mut s, ' ');
        push_decimal(&mut s, minutes);
        push_char(&mut s, 'm');
    } else if hours > 0 {
        push_decimal(&mut s, hours);
        push_char(&mut s, 'h');
        push_char(&mut s, ' ');
        push_decimal(&mut s, minutes);
        push_char(&mut s, 'm');
    } else if minutes > 0 {
        push_decimal(&mut s, minutes);
        push_char(&mut s, 'm');
        push_char(&mut s, ' ');
        push_decimal(&mut s, secs);
        push_char(&mut s, 's');
    } else {
        push_decimal(&mut s, secs);
        push_char(&mut s, 's');
    }
    assert(s@ =~= duration_text(seconds as nat));
    s
}


/// `s` cut to at most `max` characters, the last of them an ellipsis when it was cut.
pub open spec fn truncated(s: Seq<char>, max: nat) -> Seq<char> {
    if s.len() <= max {
        s
    } else {
        s.take(max - 1).push('…')
    }
}

/// Cuts `s` to at most `max` characters (counted as chars), ending in `…` when cut.
pub fn truncate(s: &str, max: usize) -> (r: String)
    requires
        s@.len() <= max || max >= 1,
    ensures
        r@ == truncated(s@, max as nat),
{
    let v = chars_of(s);
    let mut out = String::new();
    if v.len() <= max {
        append_chars(&mut out, &v, 0, v.len());
        assert(v@.subrange(0, v@.len() as int) =~= v@);
    } else {
        append_chars(&mut out, &v, 0, max - 1);
        push_char(&mut out, '…');
        assert(out@ =~= truncated(s@, max as nat));
    }
    out
}

/// `n` spaces.
pub open spec fn spaces(n: nat) -> Seq<char> {
    Seq::new(n, |i: int| ' ')
}

/// `s` followed by spaces up to `width` characters (`{:<width}`).
pub open spec fn pad_right(s: Seq<char>, width: nat) -> Seq<char> {
    if s.len() < width {
        s + spaces((width - s.len()) as nat)
    } else {
        s
    }
}

/// Spaces up to `width` characters, then `s` (`{:>width}`).
pub open spec fn pad_left(s: Seq<char>, width: nat) -> Seq<char> {
    if s.len() < width {
        spaces((width - s.len()) as nat) + s
    } else {
        s
    }
}

/// Appends `n` spaces to `s`.
pub fn push_spaces(s: &mut String, n: usize)
    ensures
        final(s)@ == old(s)@ + spaces(n as nat),
{
    let mut i: usize = 0;
    while i < n
        invariant
            i <= n,
            s@ == old(s)@ + spaces(i as nat),
        decreases n - i,
    {
        push_char(s, ' ');
        i += 1;
        assert(s@ =~= old(s)@ + spaces(i as nat));
    }
}

/// Appends `t` padded on the right to `width` characters.
pub fn append_padded_right(s: &mut String, t: &str, width: usize)
    ensures
        final(s)@ == old(s)@ + pad_right(t@, width as nat),
{
    let v = chars_of(t);
    append_str(s, t);
    if v.len() < width {
        push_spaces(s, width - v.len());
    }
    assert(s@ =~= old(s)@ + pad_right(t@, width as nat));
}

/// Appends `t` padded on the left to `width` characters.
pub fn append_padded_left(s: &mut String, t: &str, width: usize)
    ensures
        final(s)@ == old(s)@ + pad_left(t@, width as nat),
{
    let v = chars_of(t);
    if v.len() < width {
        push_spaces(s, width - v.len());
    }
    append_str(s, t);
    assert(s@ =~= old(s)@ + pad_left(t@, width as nat));
}

/// `badge` padded to the width of the widest badge (`{:<11}`).
pub fn pad_badge(badge: &str) -> (r: String)
    ensures
        r@ == pad_right(badge@, 11),
{
    let mut s = String::new();
    append_padded_right(&mut s, badge, 11);
    assert(s@ =~= pad_right(badge@, 11));
    s
}

/// `"<n> <label>"`, with an `s` after the label unless `n` is one.
pub open spec fn plural_text(n: nat, label: Seq<char>) -> Seq<char> {
    if n == 1 {
        decimal(n) + seq![' '] + label
    } else {
        decimal(n) + seq![' '] + label + seq!['s']
    }
}

pub fn plural(n: usize, label: &str) -> (r: String)
    ensures
        r@ == plural_text(n as nat, label@),
{
    let mut s = String::new();
    push_decimal(&mut s, n as u64);
    push_char(&mut s, ' ');
    append_str(&mut s, label);
    if n != 1 {
        push_char(&mut s, 's');
    }
    assert(s@ =~= plural_text(n as nat, label@));
    s
}

} // verus!
