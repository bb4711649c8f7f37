use vstd::prelude::*;

use crate::balance::BASE_UNITS_PER_DISPLAY_UNIT;
use crate::error::WalletError;

verus! {

/// The decimal digit that writes `d`, for `0 <= d < 10`.
pub open spec fn digit_char(d: int) -> char {
    seq!['0', '1', '2', '3', '4', '5', '6', '7', '8', '9'][d]
}

/// `n` in decimal, without leading zeros.
pub open spec fn decimal_text(n: nat) -> Seq<char>
    decreases n,
{
    if n < 10 {
        seq![digit_char(n as int)]
    } else {
        decimal_text(n / 10).push(digit_char((n % 10) as int))
    }
}

/// The last `width` decimal digits of `n`, with leading zeros.
pub open spec fn padded_text(n: nat, width: nat) -> Seq<char>
    decreases width,
{
    if width == 0 {
        Seq::empty()
    } else {
        padded_text(n / 10, (width - 1) as nat).push(digit_char((n % 10) as int))
    }
}

/// An amount of base units written in display units: the whole part, a
/// point, and exactly eight fractional digits.
pub open spec fn display_text(base_units: u64) -> Seq<char> {
    decimal_text((base_units / BASE_UNITS_PER_DISPLAY_UNIT) as nat) + seq!['.'] + padded_text(
        (base_units % BASE_UNITS_PER_DISPLAY_UNIT) as nat,
        8,
    )
}

fn digit_str(d: u64) -> (r: &'static str)
    requires
        d < 10,
    ensures
        r@ == seq![digit_char(d as int)],
{
    let digits = "0123456789";
    proof {
        reveal_strlit("0123456789");
    }
    assert(digits@ =~= seq!['0', '1', '2', '3', '4', '5', '6', '7', '8', '9']);
    let r = digits.substring_char(d as usize, d as usize + 1);
    assert(r@ =~= seq![digit_char(d as int)]);
    r
}

fn push_decimal(out: &mut String, n: u64)
    ensures
        final(out)@ == old(out)@ + decimal_text(n as nat),
    decreases n,
{
    if n >= 10 {
        push_decimal(out, n / 10);
    }
    out.append(digit_str(n % 10));
    assert(final(out)@ =~= old(out)@ + decimal_text(n as nat));
}

fn push_padded(out: &mut String, n: u64, width: u64)
    ensures
        final(out)@ == old(out)@ + padded_text(n as nat, width as nat),
    decreases width,
{
    if width > 0 {
        push_padded(out, n / 10, width - 1);
        out.append(digit_str(n % 10));
    }
    assert(final(out)@ =~= old(out)@ + padded_text(n as nat, width as nat));
}

/// Writes an amount of base units in display units, with eight fractional
/// digits: 150000000 is "1.50000000".
pub fn format_display_units(base_units: u64) -> (r: String)
    ensures
        r@ == display_text(base_units),
{
    let mut out = String::new();
    push_decimal(&mut out, base_units / BASE_UNITS_PER_DISPLAY_UNIT);
    proof {
        reveal_strlit(".");
    }
    out.append(".");
    push_padded(&mut out, base_units % BASE_UNITS_PER_DISPLAY_UNIT, 8);
    assert(out@ =~= display_text(base_units));
    out
}

/// Whether `c` is one of the digits 0 to 9.
pub open spec fn is_digit(c: char) -> bool {
    48 <= c as u32 <= 57
}

/// The value of a decimal digit.
pub open spec fn digit_value(c: char) -> int {
    c as u32 - 48
}

/// Every character of `s` is a decimal digit.
pub open spec fn all_digits(s: Seq<char>) -> bool {
    forall|j: int| 0 <= j < s.len() ==> is_digit(#[trigger] s[j])
}

/// The number that a run of decimal digits writes.
pub open spec fn decimal_value(s: Seq<char>) -> int
    decreases s.len(),
{
    if s.len() == 0 {
        0
    } else {
        decimal_value(s.drop_last()) * 10 + digit_value(s.last())
    }
}

/// The first `k` digits of a fraction, padded with zeros where it is
/// shorter, read as a whole number: the fraction times 10^k, truncated.
pub open spec fn fraction_value(f: Seq<char>, k: nat) -> int
    decreases k,
{
    if k == 0 {
        0
    } else {
        fraction_value(f, (k - 1) as nat) * 10 + if k - 1 < f.len() {
            digit_value(f[k - 1])
        } else {
            0
        }
    }
}

/// `s` starts with exactly `i` digits.
pub open spec fn starts_with_digits(s: Seq<char>, i: int) -> bool {
    0 <= i <= s.len() && all_digits(s.take(i)) && (i == s.len() || !is_digit(s[i]))
}

/// The number of digits that `s` starts with.
pub open spec fn leading_digits(s: Seq<char>) -> int {
    choose|i: int| starts_with_digits(s, i)
}

/// The base units that a display amount written in decimal stands for,
/// truncated toward zero: one or more digits, then optionally a point and
/// any number of digits. `None` for any other text.
pub open spec fn amount_of_text(s: Seq<char>) -> Option<int> {
    let i = leading_digits(s);
    if i == 0 {
        None
    } else if i == s.len() {
        Some(decimal_value(s) * BASE_UNITS_PER_DISPLAY_UNIT)
    } else if s[i] == '.' && all_digits(s.skip(i + 1)) {
        Some(decimal_value(s.take(i)) * BASE_UNITS_PER_DISPLAY_UNIT + fraction_value(s.skip(i + 1), 8))
    } else {
        None
    }
}

proof fn lemma_leading_digits(s: Seq<char>, i: int)
    requires
        0 <= i <= s.len(),
        all_digits(s.take(i)),
        i == s.len() || !is_digit(s[i]),
    ensures
        leading_digits(s) == i,
{
    assert(starts_with_digits(s, i));
    let k = leading_digits(s);
    assert(starts_with_digits(s, k));
    if k < i {
        assert(s.take(i)[k] == s[k]);
    } else if i < k {
        assert(s.take(k)[i] == s[i]);
    }
}

proof fn lemma_decimal_value_nonneg(s: Seq<char>)
    requires
        all_digits(s),
    ensures
        decimal_value(s) >= 0,
    decreases s.len(),
{
    if s.len() > 0 {
        lemma_decimal_value_nonneg(s.drop_last());
    }
}

proof fn lemma_decimal_value_prefix(s: Seq<char>, k: int)
    requires
        0 <= k <= s.len(),
        all_digits(s),
    ensures
        decimal_value(s.take(k)) <= decimal_value(s),
    decreases s.len(),
{
    if k < s.len() {
        assert(s.drop_last().take(k) =~= s.take(k));
        lemma_decimal_value_prefix(s.drop_last(), k);
        lemma_decimal_value_nonneg(s.drop_last());
    } else {
        assert(s.take(k) =~= s);
    }
}

/// Ten to the power `k`.
pub open spec fn pow10(k: nat) -> int
    decreases k,
{
    if k == 0 {
        1
    } else {
        10 * pow10((k - 1) as nat)
    }
}

proof fn lemma_pow10_mono(a: nat, b: nat)
    requires
        a <= b,
    ensures
        1 <= pow10(a) <= pow10(b),
    decreases b,
{
    if b > 0 {
        if a < b {
            lemma_pow10_mono(a, (b - 1) as nat);
        } else {
            lemma_pow10_mono((a - 1) as nat, (b - 1) as nat);
        }
    }
}

proof fn lemma_fraction_value_bounds(f: Seq<char>, k: nat)
    requires
        all_digits(f),
    ensures
        0 <= fraction_value(f, k) < pow10(k),
    decreases k,
{
    if k > 0 {
        lemma_fraction_value_bounds(f, (k - 1) as nat);
        if k - 1 < f.len() {
            assert(is_digit(f[k - 1]));
        }
    }
}

/// The largest whole number of display units that fits in `u64` base units.
const MAX_WHOLE_UNITS: u64 = 184467440737;

proof fn lemma_amount_over(s: Seq<char>, i: int)
    requires
        0 < i <= s.len(),
        leading_digits(s) == i,
        all_digits(s.take(i)),
        i == s.len() || (s[i] == '.' && all_digits(s.skip(i + 1))),
        decimal_value(s.take(i)) > MAX_WHOLE_UNITS,
    ensures
        amount_over(s),
{
    let w = decimal_value(s.take(i));
    assert(w * 100_000_000 >= (MAX_WHOLE_UNITS + 1) * 100_000_000) by (nonlinear_arith)
        requires
            w > MAX_WHOLE_UNITS,
    ;
    if i == s.len() {
        assert(s.take(i) =~= s);
    } else {
        lemma_fraction_value_bounds(s.skip(i + 1), 8);
    }
}

/// Whether `s` writes an amount whose base units do not fit in a `u64`.
pub open spec fn amount_over(s: Seq<char>) -> bool {
    amount_of_text(s) matches Some(a) && a > u64::MAX
}

fn is_digit_char(c: char) -> (r: bool)
    ensures
        r == is_digit(c),
{
    let n = c as u32;
    48 <= n && n <= 57
}

/// Reads a display amount written in decimal ("1.5", "0.00000001", "12")
/// as base units, truncating digits past the eighth after the point. Text of
/// any other shape is a bad encoding; an amount past `u64::MAX` base units
/// overflows.
pub fn parse_display_amount(text: &str) -> (r: Result<u64, WalletError>)
    ensures
        r matches Ok(v) ==> amount_of_text(text@) == Some(v as int),
        r matches Err(e) ==> (e == WalletError::InvalidEncoding) == amount_of_text(text@).is_none(),
        r matches Err(e) ==> (e == WalletError::InvalidEncoding || e == WalletError::BalanceOverflow),
        r matches Err(e) ==> (e == WalletError::BalanceOverflow ==> amount_over(text@)),
        amount_over(text@) ==> r.is_err(),
{
    let ghost s = text@;
    let n = text.unicode_len();
    let mut i: usize = 0;
    while i < n && is_digit_char(text.get_char(i))
        invariant
            n == s.len(),
            s == text@,
            0 <= i <= n,
            all_digits(s.take(i as int)),
        decreases n - i,
    {
        assert(s.take(i + 1) =~= s.take(i as int).push(s[i as int]));
        i = i + 1;
    }
    proof {
        lemma_leading_digits(s, i as int);
    }
    if i == 0 {
        assert(amount_of_text(s).is_none());
        return Err(WalletError::InvalidEncoding);
    }
    if i < n {
        if text.get_char(i) != '.' {
            assert(amount_of_text(s).is_none());
            return Err(WalletError::InvalidEncoding);
        }
        let mut j: usize = i + 1;
        while j < n
            invariant
                n == s.len(),
                s == text@,
                0 < i < n,
                leading_digits(s) == i,
                s[i as int] == '.',
                i < j <= n,
                forall|m: int| i < m < j ==> is_digit(#[trigger] s[m]),
            decreases n - j,
        {
            if !is_digit_char(text.get_char(j)) {
                assert(!is_digit(s.skip(i + 1)[j - i - 1]));
                assert(amount_of_text(s).is_none());
                return Err(WalletError::InvalidEncoding);
            }
            j = j + 1;
        }
        assert forall|m: int| 0 <= m < s.skip(i + 1).len() implies is_digit(#[trigger] s.skip(i + 1)[m]) by {
            assert(s.skip(i + 1)[m] == s[i + 1 + m]);
        }
    }
    let ghost whole = s.take(i as int);
    let ghost frac: Seq<char> = if i < n {
        s.skip(i + 1)
    } else {
        Seq::empty()
    };
    let mut acc: u64 = 0;
    let mut k: usize = 0;
    while k < i
        invariant
            n == s.len(),
            s == text@,
            0 < i <= n,
            whole == s.take(i as int),
            all_digits(whole),
            leading_digits(s) == i,
            i == s.len() || (s[i as int] == '.' && all_digits(s.skip(i + 1))),
            0 <= k <= i,
            acc == decimal_value(whole.take(k as int)),
            acc <= MAX_WHOLE_UNITS,
        decreases i - k,
    {
        assert(whole[k as int] == s[k as int]);
        assert(is_digit(whole[k as int]));
        let d = text.get_char(k) as u64 - 48;
        assert(whole.take(k + 1).drop_last() =~= whole.take(k as int));
        if acc > (MAX_WHOLE_UNITS - d) / 10 {
            proof {
                lemma_decimal_value_prefix(whole, k + 1);
                assert(whole.take(k + 1).take(k + 1) =~= whole.take(k + 1));
                assert(whole.take(i as int) =~= whole);
                lemma_amount_over(s, i as int);
            }
            assert(amount_of_text(s).is_some());
            return Err(WalletError::BalanceOverflow);
        }
        acc = acc * 10 + d;
        k = k + 1;
    }
    assert(whole.take(i as int) =~= whole);
    let mut f: u64 = 0;
    let mut m: usize = 0;
    while m < 8
        invariant
            n == s.len(),
            s == text@,
            0 < i <= n,
            i < n ==> frac == s.skip(i + 1),
            i == n ==> frac == Seq::<char>::empty(),
            all_digits(frac),
            0 <= m <= 8,
            f == fraction_value(frac, m as nat),
        decreases 8 - m,
    {
        proof {
            lemma_fraction_value_bounds(frac, m as nat);
            lemma_pow10_mono(m as nat, 7);
            reveal_with_fuel(pow10, 8);
            assert(pow10(7) == 10_000_000);
        }
        let d: u64 = if i < n && m < n - i - 1 {
            assert(frac[m as int] == s[i + 1 + m]);
            assert(is_digit(frac[m as int]));
            text.get_char(i + 1 + m) as u64 - 48
        } else {
            0
        };
        f = f * 10 + d;
        m = m + 1;
    }
    proof {
        lemma_fraction_value_bounds(frac, 8);
        reveal_with_fuel(pow10, 9);
        assert(pow10(8) == 100_000_000);
        lemma_decimal_value_nonneg(whole);
        if i == n {
            assert(whole =~= s);
            lemma_fraction_value_empty(8);
        }
        assert(acc * 100_000_000 <= MAX_WHOLE_UNITS * 100_000_000) by (nonlinear_arith)
            requires
                acc <= MAX_WHOLE_UNITS,
        ;
    }
    if acc * BASE_UNITS_PER_DISPLAY_UNIT > u64::MAX - f {
        assert(amount_of_text(s).is_some());
        return Err(WalletError::BalanceOverflow);
    }
    Ok(acc * BASE_UNITS_PER_DISPLAY_UNIT + f)
}

proof fn lemma_fraction_value_empty(k: nat)
    ensures
        fraction_value(Seq::<char>::empty(), k) == 0,
    decreases k,
{
    if k > 0 {
        lemma_fraction_value_empty((k - 1) as nat);
    }
}

proof fn lemma_digit_char(d: int)
    requires
        0 <= d < 10,
    ensures
        is_digit(digit_char(d)),
        digit_value(digit_char(d)) == d,
{
    let digits = seq!['0', '1', '2', '3', '4', '5', '6', '7', '8', '9'];
    assert(digits[d] == digit_char(d));
    assert(digits[0] == '0');
    assert(digits[1] == '1');
    assert(digits[2] == '2');
    assert(digits[3] == '3');
    assert(digits[4] == '4');
    assert(digits[5] == '5');
    assert(digits[6] == '6');
    assert(digits[7] == '7');
    assert(digits[8] == '8');
    assert(digits[9] == '9');
}

proof fn lemma_decimal_text(n: nat)
    ensures
        decimal_text(n).len() >= 1,
        all_digits(decimal_text(n)),
        decimal_value(decimal_text(n)) == n,
    decreases n,
{
    lemma_digit_char((n % 10) as int);
    if n < 10 {
        assert(n % 10 == n);
        assert(decimal_text(n).drop_last() =~= Seq::<char>::empty());
        assert(decimal_text(n)[0] == digit_char(n as int));
        assert(all_digits(decimal_text(n)));
        assert(decimal_value(Seq::<char>::empty()) == 0);
        assert(decimal_text(n).last() == digit_char(n as int));
    } else {
        lemma_decimal_text(n / 10);
        let t = decimal_text(n);
        assert(t.drop_last() =~= decimal_text(n / 10));
        assert(t.last() == digit_char((n % 10) as int));
        assert(decimal_value(t) == (n / 10) * 10 + n % 10);
        assert forall|j: int| 0 <= j < t.len() implies is_digit(#[trigger] t[j]) by {
            if j < t.len() - 1 {
                assert(t[j] == t.drop_last()[j]);
            }
        }
    }
}

proof fn lemma_padded_text(n: nat, width: nat)
    requires
        n < pow10(width),
    ensures
        padded_text(n, width).len() == width,
        all_digits(padded_text(n, width)),
        decimal_value(padded_text(n, width)) == n,
    decreases width,
{
    if width > 0 {
        lemma_digit_char((n % 10) as int);
        lemma_padded_text(n / 10, (width - 1) as nat);
        let t = padded_text(n, width);
        assert(t.drop_last() =~= padded_text(n / 10, (width - 1) as nat));
        assert(t.last() == digit_char((n % 10) as int));
        assert forall|j: int| 0 <= j < t.len() implies is_digit(#[trigger] t[j]) by {
            if j < t.len() - 1 {
                assert(t[j] == t.drop_last()[j]);
            }
        }
    } else {
        assert(n == 0);
    }
}

proof fn lemma_fraction_value_prefix(f: Seq<char>, k: nat)
    requires
        k <= f.len(),
    ensures
        fraction_value(f, k) == decimal_value(f.take(k as int)),
    decreases k,
{
    if k > 0 {
        lemma_fraction_value_prefix(f, (k - 1) as nat);
        assert(f.take(k as int).drop_last() =~= f.take(k - 1));
    }
}

/// Reading back what `format_display_units` writes gives the same amount:
/// `parse_display_amount` returns `Ok(base_units)` on `display_text(base_units)`.
pub proof fn lemma_display_round_trip(base_units: u64)
    ensures
        amount_of_text(display_text(base_units)) == Some(base_units as int),
{
    let whole = (base_units / BASE_UNITS_PER_DISPLAY_UNIT) as nat;
    let rest = (base_units % BASE_UNITS_PER_DISPLAY_UNIT) as nat;
    let w = decimal_text(whole);
    let p = padded_text(rest, 8);
    let s = display_text(base_units);
    reveal_with_fuel(pow10, 9);
    assert(pow10(8) == 100_000_000);
    lemma_decimal_text(whole);
    lemma_padded_text(rest, 8);
    assert(s.take(w.len() as int) =~= w);
    assert(s.skip(w.len() as int + 1) =~= p);
    assert(s[w.len() as int] == '.');
    lemma_leading_digits(s, w.len() as int);
    lemma_fraction_value_prefix(p, 8);
    assert(p.take(8) =~= p);
}

} // verus!
