//! Fixed-point decimal numbers.
//!
//! Prices and amounts arrive on the wire as decimal strings (or native JSON
//! numbers).  The book stores them as fixed-point integers with eight
//! decimal places, so that sorting and the spread subtraction are exact.
//! A string is numeric when it consists of decimal digits with at most one
//! decimal point, holds at least one digit, carries at most eight fractional
//! digits, and its scaled value fits an `i64`.

use vstd::prelude::*;

verus! {

/// Fixed-point units per whole unit: eight decimal places.
pub const SCALE: i64 = 100_000_000;

/// Greatest number of fractional digits a price or amount may carry.
pub const FRAC_DIGITS: usize = 8;

pub open spec fn is_digit(c: char) -> bool {
    48 <= c as u32 <= 57
}

pub open spec fn digit_val(c: char) -> int {
    c as u32 - 48
}

pub open spec fn all_digits(s: Seq<char>) -> bool {
    forall|i: int| 0 <= i < s.len() ==> is_digit(s[i])
}

/// Value of a digit string, most significant digit first.
pub open spec fn digits_val(s: Seq<char>) -> int
    decreases s.len(),
{
    if s.len() == 0 {
        0
    } else {
        10 * digits_val(s.drop_last()) + digit_val(s.last())
    }
}

pub open spec fn pow10(n: nat) -> int
    decreases n,
{
    if n == 0 {
        1
    } else {
        10 * pow10((n - 1) as nat)
    }
}

/// Position of the first decimal point, or the length when there is none.
pub open spec fn dot_index(s: Seq<char>) -> int
    decreases s.len(),
{
    if s.len() == 0 {
        0
    } else if s[0] == '.' {
        0
    } else {
        1 + dot_index(s.drop_first())
    }
}

/// The digits before the decimal point.
pub open spec fn int_part(s: Seq<char>) -> Seq<char> {
    s.take(dot_index(s))
}

/// The digits after the decimal point.
pub open spec fn frac_part(s: Seq<char>) -> Seq<char> {
    if dot_index(s) == s.len() {
        Seq::empty()
    } else {
        s.skip(dot_index(s) + 1)
    }
}

/// The accepted decimal grammar: digits around at most one decimal point,
/// at least one digit in all, at most `FRAC_DIGITS` fractional digits.
pub open spec fn valid_decimal(s: Seq<char>) -> bool {
    &&& all_digits(int_part(s))
    &&& all_digits(frac_part(s))
    &&& int_part(s).len() + frac_part(s).len() >= 1
    &&& frac_part(s).len() <= FRAC_DIGITS
}

/// The value of a valid decimal string in fixed-point units.
pub open spec fn decimal_value(s: Seq<char>) -> int {
    digits_val(int_part(s)) * SCALE + digits_val(frac_part(s)) * pow10(
        (FRAC_DIGITS - frac_part(s).len()) as nat,
    )
}

/// What `parse_decimal` returns: the fixed-point value of a valid decimal
/// string whose value fits an `i64`, and nothing otherwise.
pub open spec fn spec_parse_decimal(s: Seq<char>) -> Option<i64> {
    if valid_decimal(s) && decimal_value(s) <= i64::MAX {
        Some(decimal_value(s) as i64)
    } else {
        None
    }
}

proof fn lemma_dot_index_is(t: Seq<char>, j: int)
    requires
        0 <= j <= t.len(),
        forall|k: int| 0 <= k < j ==> t[k] != '.',
        j < t.len() ==> t[j] == '.',
    ensures
        dot_index(t) == j,
    decreases j,
{
    if t.len() == 0 || j == 0 {
    } else {
        let r = t.drop_first();
        assert forall|k: int| 0 <= k < j - 1 implies r[k] != '.' by {
            assert(r[k] == t[k + 1]);
        }
        lemma_dot_index_is(r, j - 1);
    }
}

proof fn lemma_digits_val_nonneg(s: Seq<char>)
    requires
        all_digits(s),
    ensures
        digits_val(s) >= 0,
    decreases s.len(),
{
    if s.len() > 0 {
        assert(all_digits(s.drop_last()));
        lemma_digits_val_nonneg(s.drop_last());
    }
}

proof fn lemma_digits_val_bound(s: Seq<char>)
    requires
        all_digits(s),
    ensures
        0 <= digits_val(s) < pow10(s.len() as nat),
    decreases s.len(),
{
    if s.len() > 0 {
        assert(all_digits(s.drop_last()));
        lemma_digits_val_bound(s.drop_last());
    }
}

proof fn lemma_pow10_pos(n: nat)
    ensures
        pow10(n) >= 1,
    decreases n,
{
    if n > 0 {
        lemma_pow10_pos((n - 1) as nat);
    }
}

proof fn lemma_pow10_mono(a: nat, b: nat)
    requires
        a <= b,
    ensures
        pow10(a) <= pow10(b),
    decreases b,
{
    if a < b {
        lemma_pow10_mono(a, (b - 1) as nat);
        lemma_pow10_pos((b - 1) as nat);
    }
}

proof fn lemma_pow10_add(a: nat, b: nat)
    ensures
        pow10(a + b) == pow10(a) * pow10(b),
    decreases a,
{
    if a == 0 {
    } else {
        lemma_pow10_add((a - 1) as nat, b);
        assert(pow10((a + b) as nat) == 10 * pow10((a - 1 + b) as nat));
        assert(10 * (pow10((a - 1) as nat) * pow10(b)) == (10 * pow10((a - 1) as nat)) * pow10(
            b,
        )) by (nonlinear_arith);
    }
}

proof fn lemma_frac_scaled_bound(facc: int, fl: nat)
    requires
        0 <= facc < pow10(fl),
        fl <= 8,
    ensures
        0 <= facc * pow10((8 - fl) as nat) < pow10(8),
{
    let pw = pow10((8 - fl) as nat);
    lemma_pow10_pos((8 - fl) as nat);
    lemma_pow10_add(fl, (8 - fl) as nat);
    assert(0 <= facc * pw && facc * pw <= (pow10(fl) - 1) * pw) by (nonlinear_arith)
        requires
            0 <= facc,
            facc <= pow10(fl) - 1,
            pw >= 1,
    ;
    assert((pow10(fl) - 1) * pw == pow10(fl) * pw - pw) by (nonlinear_arith);
}

/// A parsed decimal value is never negative: the grammar has no sign.
pub proof fn lemma_parse_decimal_nonneg(s: Seq<char>)
    ensures
        spec_parse_decimal(s) matches Some(v) ==> v >= 0,
{
    if valid_decimal(s) {
        lemma_digits_val_nonneg(int_part(s));
        lemma_digits_val_bound(frac_part(s));
        lemma_frac_scaled_bound(digits_val(frac_part(s)), frac_part(s).len());
        assert(digits_val(int_part(s)) * SCALE >= 0);
    }
}

/// `pow10` for the small exponents that fit the fractional scale.
fn pow10_small(e: usize) -> (r: i64)
    requires
        e <= 8,
    ensures
        r as int == pow10(e as nat),
        1 <= r <= 100_000_000,
{
    proof {
        reveal_with_fuel(pow10, 9);
    }
    if e == 0 {
        1
    } else if e == 1 {
        10
    } else if e == 2 {
        100
    } else if e == 3 {
        1_000
    } else if e == 4 {
        10_000
    } else if e == 5 {
        100_000
    } else if e == 6 {
        1_000_000
    } else if e == 7 {
        10_000_000
    } else {
        100_000_000
    }
}

/// Parse a decimal string into fixed-point units (eight decimal places).
/// Returns the exact scaled value of every valid decimal string whose value
/// fits an `i64`, and `None` for every other string.
pub fn parse_decimal(s: &str) -> (r: Option<i64>)
    ensures
        r == spec_parse_decimal(s@),
{
    let n = s.unicode_len();
    // Find the decimal point.
    let mut dot: usize = 0;
    while dot < n && s.get_char(dot) != '.'
        invariant
            dot <= n,
            n == s@.len(),
            forall|k: int| 0 <= k < dot ==> s@[k] != '.',
        decreases n - dot,
    {
        dot += 1;
    }
    proof {
        lemma_dot_index_is(s@, dot as int);
    }
    // Digits before the point.
    let mut acc: i64 = 0;
    let mut too_big: bool = false;
    let mut k: usize = 0;
    while k < dot
        invariant
            k <= dot <= n,
            n == s@.len(),
            dot_index(s@) == dot as int,
            all_digits(s@.take(k as int)),
            acc >= 0,
            !too_big ==> acc == digits_val(s@.take(k as int)),
            too_big ==> digits_val(s@.take(k as int)) > i64::MAX,
        decreases dot - k,
    {
        let c = s.get_char(k);
        let cv = c as u32;
        proof {
            assert(s@.take(k as int + 1).drop_last() =~= s@.take(k as int));
            assert(s@.take(k as int + 1).last() == s@[k as int]);
        }
        if cv < 48 || cv > 57 {
            proof {
                assert(int_part(s@)[k as int] == s@[k as int]);
                assert(!valid_decimal(s@));
            }
            return None;
        }
        let d = (cv - 48) as i64;
        proof {
            lemma_digits_val_nonneg(s@.take(k as int));
        }
        if too_big || acc > 922_337_203_685_477_580 || (acc == 922_337_203_685_477_580 && d > 7) {
            too_big = true;
        } else {
            acc = acc * 10 + d;
        }
        k += 1;
    }
    // Digits after the point.
    let fl: usize = if dot < n {
        n - dot - 1
    } else {
        0
    };
    if dot == 0 && fl == 0 {
        // Neither integer nor fractional digits.
        return None;
    }
    if fl > FRAC_DIGITS {
        return None;
    }
    let mut facc: i64 = 0;
    if dot < n {
        let mut k2: usize = dot + 1;
        while k2 < n
            invariant
                dot < n == s@.len(),
                dot + 1 <= k2 <= n,
                dot_index(s@) == dot as int,
                fl == n - dot - 1 <= FRAC_DIGITS,
                all_digits(s@.subrange(dot + 1, k2 as int)),
                facc == digits_val(s@.subrange(dot + 1, k2 as int)),
                0 <= facc < pow10((k2 - dot - 1) as nat),
            decreases n - k2,
        {
            let c = s.get_char(k2);
            let cv = c as u32;
            proof {
                assert(s@.subrange(dot + 1, k2 as int + 1).drop_last() =~= s@.subrange(
                    dot + 1,
                    k2 as int,
                ));
                assert(s@.subrange(dot + 1, k2 as int + 1).last() == s@[k2 as int]);
            }
            if cv < 48 || cv > 57 {
                proof {
                    assert(frac_part(s@)[k2 - dot - 1] == s@[k2 as int]);
                    assert(!valid_decimal(s@));
                }
                return None;
            }
            let d = (cv - 48) as i64;
            proof {
                lemma_pow10_mono((k2 - dot - 1 + 1) as nat, 8);
                lemma_pow10_mono((k2 - dot - 1) as nat, 8);
                reveal_with_fuel(pow10, 9);
            }
            facc = facc * 10 + d;
            k2 += 1;
        }
        proof {
            assert(s@.subrange(dot + 1, n as int) =~= frac_part(s@));
        }
    }
    proof {
        assert(s@.take(dot as int) =~= int_part(s@));
        if dot == n as usize {
            assert(frac_part(s@) =~= Seq::<char>::empty());
        }
        assert(facc == digits_val(frac_part(s@)));
        assert(all_digits(frac_part(s@)));
        assert(fl == frac_part(s@).len());
        lemma_frac_scaled_bound(facc as int, fl as nat);
    }
    let pw = pow10_small(FRAC_DIGITS - fl);
    proof {
        reveal_with_fuel(pow10, 9);
        assert(pow10(8) == 100_000_000);
        assert((8 - fl as int) as nat == (FRAC_DIGITS - fl) as nat);
        assert(0 <= (facc as int) * (pw as int) && (facc as int) * (pw as int) < 100_000_000);
    }
    let frac_scaled: i64 = facc * pw;
    if too_big {
        proof {
            if valid_decimal(s@) {
                lemma_digits_val_nonneg(int_part(s@));
                assert(digits_val(int_part(s@)) * SCALE >= digits_val(int_part(s@)));
                assert(decimal_value(s@) > i64::MAX);
            }
        }
        return None;
    }
    if acc > 92_233_720_368 {
        proof {
            assert(acc * SCALE > i64::MAX);
            assert(decimal_value(s@) > i64::MAX);
        }
        return None;
    }
    let whole: i64 = acc * SCALE;
    if frac_scaled > i64::MAX - whole {
        proof {
            assert(decimal_value(s@) > i64::MAX);
        }
        return None;
    }
    proof {
        assert(valid_decimal(s@));
        assert(decimal_value(s@) == whole + frac_scaled);
    }
    Some(whole + frac_scaled)
}

} // verus!
