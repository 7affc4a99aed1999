//! Lenient parsing of the numbers that appear in usage summaries.
//!
//! Amounts are exact decimals: a cost is kept in cents and compact counts
//! (`4.0K`, `1.5M`) are rounded half up to the nearest integer.

use vstd::prelude::*;
use crate::text::{
    chars_of, remove_commas, to_ascii_upper, trim, without_commas, trim_ws, ascii_upper,
};

verus! {

pub open spec fn is_digit(c: char) -> bool {
    '0' <= c && c <= '9'
}

pub open spec fn all_digits(s: Seq<char>) -> bool {
    forall|i: int| 0 <= i < s.len() ==> is_digit(#[trigger] s[i])
}

pub open spec fn digit_val(c: char) -> int {
    (c as u32) as int - 48
}

/// The value of a run of decimal digits (0 for the empty run).
pub open spec fn digits_value(s: Seq<char>) -> int
    decreases s.len(),
{
    if s.len() == 0 {
        0
    } else {
        digits_value(s.drop_last()) * 10 + digit_val(s.last())
    }
}

pub open spec fn pow10(n: nat) -> int
    decreases n,
{
    if n == 0 {
        1
    } else {
        10 * pow10((n - 1) as nat)
    }
}

pub open spec fn opt_int(o: Option<i64>) -> Option<int> {
    match o {
        Some(v) => Some(v as int),
        None => None,
    }
}

/// What `str::parse::<i64>` accepts: an optional sign, then at least one
/// ASCII digit, with a value in range.
pub open spec fn i64_text_value(s: Seq<char>) -> Option<int> {
    let signed = s.len() > 0 && (s[0] == '+' || s[0] == '-');
    let body = if signed {
        s.drop_first()
    } else {
        s
    };
    let v = if signed && s[0] == '-' {
        -digits_value(body)
    } else {
        digits_value(body)
    };
    if body.len() > 0 && all_digits(body) && i64::MIN <= v && v <= i64::MAX {
        Some(v)
    } else {
        None
    }
}

/// `s` holds its only decimal point at `p`, with digits on both sides of it.
pub open spec fn dot_at(s: Seq<char>, p: int) -> bool {
    0 <= p < s.len() && s[p] == '.' && all_digits(s.take(p)) && all_digits(s.skip(p + 1))
}

pub open spec fn in_i64(v: int) -> Option<int> {
    if v <= i64::MAX {
        Some(v)
    } else {
        None
    }
}

/// The first `k` fractional digits as an integer count of 10^-k units.
pub open spec fn frac_units(f: Seq<char>, k: nat) -> int {
    let m = if f.len() < k {
        f.len()
    } else {
        k
    };
    digits_value(f.take(m as int)) * pow10((k - m) as nat)
}

/// One more unit when the first dropped fractional digit is 5 or above.
pub open spec fn round_unit(f: Seq<char>, k: nat) -> int {
    if f.len() > k && f[k as int] >= '5' {
        1
    } else {
        0
    }
}

/// A plain decimal (`12`, `1.5`, `.5`, `5.`) times 10^k, rounded half up.
pub open spec fn decimal_scaled(s: Seq<char>, k: nat) -> Option<int> {
    if all_digits(s) {
        if s.len() == 0 {
            None
        } else {
            in_i64(digits_value(s) * pow10(k))
        }
    } else if exists|p: int| dot_at(s, p) {
        let p = choose|p: int| dot_at(s, p);
        let f = s.skip(p + 1);
        if s.len() == 1 {
            None
        } else {
            in_i64(digits_value(s.take(p)) * pow10(k) + frac_units(f, k) + round_unit(f, k))
        }
    } else {
        None
    }
}

/// A count in compact form, already normalised: a decimal with a `K` or `M`
/// suffix, or else a plain integer.
pub open spec fn compact_value(s: Seq<char>) -> Option<int> {
    if s.len() > 0 && s.last() == 'K' {
        decimal_scaled(s.drop_last(), 3)
    } else if s.len() > 0 && s.last() == 'M' {
        decimal_scaled(s.drop_last(), 6)
    } else {
        i64_text_value(s)
    }
}

/// Commas dropped, white space trimmed, letters in upper case.
pub open spec fn compact_normal(s: Seq<char>) -> Seq<char> {
    trim_ws(without_commas(s)).map_values(|c: char| ascii_upper(c))
}

pub proof fn lemma_digits_value_nonneg(s: Seq<char>)
    requires
        all_digits(s),
    ensures
        digits_value(s) >= 0,
    decreases s.len(),
{
    if s.len() > 0 {
        lemma_digits_value_nonneg(s.drop_last());
    }
}

pub proof fn lemma_pow10_pos(n: nat)
    ensures
        pow10(n) >= 1,
    decreases n,
{
    if n > 0 {
        lemma_pow10_pos((n - 1) as nat);
    }
}

const DIGITS_CAP: u64 = 9223372036854775808;

fn digit_of(c: char) -> (r: u64)
    requires
        is_digit(c),
    ensures
        r as int == digit_val(c),
        r <= 9,
{
    ((c as u32) - 48) as u64
}

/// The value of the digits `s[lo..hi]`, or `None` when it passes 2^63.
fn digits_run(s: &Vec<char>, lo: usize, hi: usize) -> (r: Option<u64>)
    requires
        lo <= hi <= s.len(),
        all_digits(s@.subrange(lo as int, hi as int)),
    ensures
        match r {
            Some(v) => v as int == digits_value(s@.subrange(lo as int, hi as int)) && v
                <= DIGITS_CAP,
            None => digits_value(s@.subrange(lo as int, hi as int)) > DIGITS_CAP,
        },
{
    let mut acc: u64 = 0;
    let mut over = false;
    let mut i: usize = lo;
    assert(s@.subrange(lo as int, lo as int) =~= Seq::<char>::empty());
    while i < hi
        invariant
            lo <= i <= hi <= s.len(),
            all_digits(s@.subrange(lo as int, hi as int)),
            !over ==> acc as int == digits_value(s@.subrange(lo as int, i as int)) && acc
                <= DIGITS_CAP,
            over ==> digits_value(s@.subrange(lo as int, i as int)) > DIGITS_CAP,
        decreases hi - i,
    {
        let ghost prev = s@.subrange(lo as int, i as int);
        let ghost next = s@.subrange(lo as int, i + 1);
        assert(next.drop_last() =~= prev);
        assert(next.last() == s@[i as int]);
        assert(s@.subrange(lo as int, hi as int)[i - lo] == s@[i as int]);
        let d = digit_of(s[i]);
        if !over {
            let n: u128 = (acc as u128) * 10 + (d as u128);
            if n > DIGITS_CAP as u128 {
                over = true;
            } else {
                acc = n as u64;
            }
        } else {
            assert(digits_value(next) == digits_value(prev) * 10 + digit_val(s@[i as int]));
        }
        i = i + 1;
    }
    if over {
        None
    } else {
        Some(acc)
    }
}

fn pow10_of(n: usize) -> (r: u64)
    requires
        n <= 6,
    ensures
        r as int == pow10(n as nat),
        r <= 1000000,
{
    let mut r: u64 = 1;
    let mut i: usize = 0;
    while i < n
        invariant
            i <= n <= 6,
            r as int == pow10(i as nat),
            r <= pow10(i as nat),
            i == 0 ==> r == 1,
            i == 1 ==> r == 10,
            i == 2 ==> r == 100,
            i == 3 ==> r == 1000,
            i == 4 ==> r == 10000,
            i == 5 ==> r == 100000,
            i == 6 ==> r == 1000000,
        decreases n - i,
    {
        r = r * 10;
        i = i + 1;
    }
    r
}

/// Parses a signed decimal integer as `str::parse::<i64>` does.
pub fn parse_i64(s: &Vec<char>) -> (r: Option<i64>)
    ensures
        opt_int(r) == i64_text_value(s@),
{
    let signed = s.len() > 0 && (s[0] == '+' || s[0] == '-');
    let start: usize = if signed {
        1
    } else {
        0
    };
    let ghost body = s@.subrange(start as int, s@.len() as int);
    assert(signed ==> body =~= s@.drop_first());
    assert(!signed ==> body =~= s@);
    if start == s.len() {
        return None;
    }
    let mut i: usize = start;
    while i < s.len()
        invariant
            start <= i <= s.len(),
            body == s@.subrange(start as int, s@.len() as int),
            signed == (s.len() > 0 && (s@[0] == '+' || s@[0] == '-')),
            signed ==> body == s@.drop_first(),
            !signed ==> body == s@,
            forall|j: int| start <= j < i ==> is_digit(#[trigger] s@[j]),
        decreases s.len() - i,
    {
        if !('0' <= s[i] && s[i] <= '9') {
            assert(body[i - start] == s@[i as int]);
            assert(!is_digit(body[i - start]));
            assert(!all_digits(body));
            return None;
        }
        i = i + 1;
    }
    assert(all_digits(body)) by {
        assert forall|j: int| 0 <= j < body.len() implies is_digit(#[trigger] body[j]) by {
            assert(body[j] == s@[start + j]);
        }
    }
    proof {
        lemma_digits_value_nonneg(body);
    }
    match digits_run(s, start, s.len()) {
        None => None,
        Some(u) => {
            if signed && s[0] == '-' {
                Some((0i128 - (u as i128)) as i64)
            } else if u <= 9223372036854775807 {
                Some(u as i64)
            } else {
                None
            }
        },
    }
}

/// A plain decimal times 10^k, rounded half up; see `decimal_scaled`.
pub fn scaled_decimal(s: &Vec<char>, k: usize) -> (r: Option<i64>)
    requires
        k <= 6,
    ensures
        opt_int(r) == decimal_scaled(s@, k as nat),
{
    let mut p: usize = 0;
    while p < s.len() && '0' <= s[p] && s[p] <= '9'
        invariant
            p <= s.len(),
            forall|j: int| 0 <= j < p ==> is_digit(#[trigger] s@[j]),
        decreases s.len() - p,
    {
        p = p + 1;
    }
    let scale = pow10_of(k);
    proof {
        lemma_pow10_pos(k as nat);
    }
    if p == s.len() {
        assert(s@.subrange(0, s@.len() as int) =~= s@);
        if s.len() == 0 {
            return None;
        }
        proof {
            lemma_digits_value_nonneg(s@);
        }
        return match digits_run(s, 0, s.len()) {
            None => {
                assert(digits_value(s@) * pow10(k as nat) >= digits_value(s@)) by (nonlinear_arith)
                    requires
                        digits_value(s@) >= 0,
                        pow10(k as nat) >= 1,
                ;
                None
            },
            Some(v) => {
                assert((v as u128) * (scale as u128) <= 9223372036854775808u128 * 1000000u128)
                    by (nonlinear_arith)
                    requires
                        v <= 9223372036854775808u64,
                        scale <= 1000000,
                ;
                let t: u128 = (v as u128) * (scale as u128);
                if t <= 9223372036854775807 {
                    Some(t as i64)
                } else {
                    None
                }
            },
        };
    }
    assert(!all_digits(s@)) by {
        assert(!is_digit(s@[p as int]));
    }
    if s[p] != '.' {
        assert(forall|q: int| !dot_at(s@, q)) by {
            assert forall|q: int| !dot_at(s@, q) by {
                if dot_at(s@, q) {
                    if q < p {
                        assert(is_digit(s@[q]));
                    } else if q > p {
                        assert(s@.take(q)[p as int] == s@[p as int]);
                    }
                }
            }
        }
        return None;
    }
    let mut i: usize = p + 1;
    while i < s.len()
        invariant
            p < i <= s.len(),
            s@[p as int] == '.',
            forall|j: int| 0 <= j < p ==> is_digit(#[trigger] s@[j]),
            forall|j: int| p < j < i ==> is_digit(#[trigger] s@[j]),
        decreases s.len() - i,
    {
        if !('0' <= s[i] && s[i] <= '9') {
            assert(forall|q: int| !dot_at(s@, q)) by {
                assert forall|q: int| !dot_at(s@, q) by {
                    if dot_at(s@, q) {
                        if q < p {
                            assert(is_digit(s@[q]));
                        } else if q > p {
                            assert(s@.take(q)[p as int] == s@[p as int]);
                        } else {
                            assert(s@.skip(p + 1)[i - p - 1] == s@[i as int]);
                        }
                    }
                }
            }
            return None;
        }
        i = i + 1;
    }
    let ghost ip = s@.take(p as int);
    let ghost f = s@.skip(p + 1);
    assert(ip =~= s@.subrange(0, p as int));
    assert(all_digits(ip));
    assert(all_digits(f)) by {
        assert forall|j: int| 0 <= j < f.len() implies is_digit(#[trigger] f[j]) by {
            assert(f[j] == s@[p + 1 + j]);
        }
    }
    assert(dot_at(s@, p as int));
    assert(forall|q: int| dot_at(s@, q) ==> q == p) by {
        assert forall|q: int| dot_at(s@, q) implies q == p by {
            if q < p {
                assert(is_digit(s@[q]));
            } else if q > p {
                assert(s@.take(q)[p as int] == s@[p as int]);
            }
        }
    }
    if s.len() == 1 {
        return None;
    }
    proof {
        lemma_digits_value_nonneg(ip);
    }
    let flen: usize = s.len() - p - 1;
    let m: usize = if flen < k {
        flen
    } else {
        k
    };
    assert(all_digits(s@.subrange(p + 1, p + 1 + m))) by {
        assert forall|j: int| 0 <= j < m implies is_digit(
            #[trigger] s@.subrange(p + 1, p + 1 + m)[j],
        ) by {
            assert(s@.subrange(p + 1, p + 1 + m)[j] == f[j]);
        }
    }
    assert(f.take(m as int) =~= s@.subrange(p + 1, p + 1 + m));
    let fv = digits_run(s, p + 1, p + 1 + m);
    let fv: u64 = match fv {
        Some(v) => v,
        None => {
            assert(false) by {
                assert(m <= 6);
                lemma_small_digits(f.take(m as int));
            }
            0
        },
    };
    assert(fv <= 999999) by {
        lemma_small_digits(f.take(m as int));
    }
    let fscale = pow10_of(k - m);
    assert(fv * fscale <= 999999 * 1000000) by (nonlinear_arith)
        requires
            fv <= 999999,
            fscale <= 1000000,
    ;
    let units: u64 = fv * fscale;
    assert(units as int == frac_units(f, k as nat));
    let up: u64 = if flen > k && s[p + 1 + k] >= '5' {
        1
    } else {
        0
    };
    assert(flen > k ==> f[k as int] == s@[p + 1 + k]);
    assert(up as int == round_unit(f, k as nat));
    match digits_run(s, 0, p) {
        None => {
            assert(digits_value(ip) * pow10(k as nat) >= digits_value(ip)) by (nonlinear_arith)
                requires
                    digits_value(ip) >= 0,
                    pow10(k as nat) >= 1,
            ;
            assert(units as int >= 0);
            None
        },
        Some(v) => {
            assert((v as u128) * (scale as u128) <= 9223372036854775808u128 * 1000000u128)
                by (nonlinear_arith)
                requires
                    v <= 9223372036854775808u64,
                    scale <= 1000000,
            ;
            let t: u128 = (v as u128) * (scale as u128) + (units as u128) + (up as u128);
            if t <= 9223372036854775807 {
                Some(t as i64)
            } else {
                None
            }
        },
    }
}

/// A run of at most six digits is below a million.
proof fn lemma_small_digits(s: Seq<char>)
    requires
        all_digits(s),
        s.len() <= 6,
    ensures
        0 <= digits_value(s) < pow10(s.len()),
        digits_value(s) <= 999999,
    decreases s.len(),
{
    if s.len() > 0 {
        let t = s.drop_last();
        assert(all_digits(t)) by {
            assert forall|j: int| 0 <= j < t.len() implies is_digit(#[trigger] t[j]) by {
                assert(t[j] == s[j]);
            }
        }
        lemma_small_digits(t);
        assert(is_digit(s[s.len() - 1]));
        assert(pow10(s.len()) == 10 * pow10(t.len()));
    }
    lemma_pow10_le_million(s.len());
}

proof fn lemma_pow10_le_million(n: nat)
    requires
        n <= 6,
    ensures
        pow10(n) <= 1000000,
{
    reveal_with_fuel(pow10, 7);
}

/// Parses a dollar amount such as `1.23` into cents.
pub fn parse_cost_cents(input: &str) -> (r: Option<i64>)
    ensures
        opt_int(r) == decimal_scaled(input@, 2),
{
    let cs = chars_of(input);
    scaled_decimal(&cs, 2)
}

/// Parses a count written with comma grouping, such as `4,500`.
pub fn parse_int_with_commas(input: &str) -> (r: Option<i64>)
    ensures
        opt_int(r) == i64_text_value(without_commas(input@)),
{
    let cs = chars_of(input);
    let plain = remove_commas(&cs);
    parse_i64(&plain)
}

/// Parses a count in compact form: comma grouping, an optional `K` (thousand)
/// or `M` (million) suffix in either case, surrounding white space.
pub fn parse_compact_int(input: &str) -> (r: Option<i64>)
    ensures
        opt_int(r) == compact_value(compact_normal(input@)),
{
    let cs = chars_of(input);
    let plain = remove_commas(&cs);
    let trimmed = trim(&plain);
    let norm = to_ascii_upper(&trimmed);
    let n = norm.len();
    if n > 0 && (norm[n - 1] == 'K' || norm[n - 1] == 'M') {
        let mut body: Vec<char> = Vec::new();
        let mut i: usize = 0;
        while i < n - 1
            invariant
                n == norm.len(),
                n > 0,
                i <= n - 1,
                body@ =~= norm@.take(i as int),
            decreases n - 1 - i,
        {
            body.push(norm[i]);
            i = i + 1;
        }
        assert(body@ =~= norm@.drop_last());
        if norm[n - 1] == 'K' {
            scaled_decimal(&body, 3)
        } else {
            scaled_decimal(&body, 6)
        }
    } else {
        parse_i64(&norm)
    }
}

} // verus!
