//! Parsing and formatting of field text.
//!
//! Every editable field holds free-form text.  A count field parses to a
//! non-negative integer; a scalar field parses to a fixed-point decimal
//! held in millionths of a unit.  Refreshing a field after a load formats
//! the model value back to text: counts as plain decimal digits, scalars
//! with exactly two decimal places.

use vstd::prelude::*;

verus! {

/// Number of fixed-point fractional digits a scalar value carries.
pub const SCALAR_FRAC_DIGITS: u32 = 6;

/// One scalar unit expressed in fixed-point steps (10 ^ `SCALAR_FRAC_DIGITS`).
pub const SCALAR_ONE: u64 = 1_000_000;

pub open spec fn is_digit(c: char) -> bool {
    '0' <= c && c <= '9'
}

pub open spec fn digit_val(c: char) -> int {
    (c as u32) - ('0' as u32)
}

pub open spec fn all_digits(s: Seq<char>) -> bool {
    forall|i: int| 0 <= i < s.len() ==> is_digit(#[trigger] s[i])
}

/// Value of a string of decimal digits, most significant first.
pub open spec fn digits_val(s: Seq<char>) -> int
    decreases s.len(),
{
    if s.len() == 0 {
        0
    } else {
        digits_val(s.drop_last()) * 10 + digit_val(s.last())
    }
}

proof fn lemma_digits_val_nonneg(s: Seq<char>)
    requires
        all_digits(s),
    ensures
        digits_val(s) >= 0,
    decreases s.len(),
{
    if s.len() > 0 {
        assert(all_digits(s.drop_last()));
        lemma_digits_val_nonneg(s.drop_last());
    }
}

/// Appending further digits never decreases the value.
proof fn lemma_digits_val_prefix(s: Seq<char>, i: int)
    requires
        all_digits(s),
        0 <= i <= s.len(),
    ensures
        digits_val(s.take(i)) <= digits_val(s),
    decreases s.len() - i,
{
    if i < s.len() {
        lemma_digits_val_prefix(s, i + 1);
        assert(s.take(i + 1).drop_last() =~= s.take(i));
        assert(all_digits(s.take(i)));
        lemma_digits_val_nonneg(s.take(i));
        assert(digits_val(s.take(i + 1)) == digits_val(s.take(i)) * 10 + digit_val(s.take(i + 1).last()));
    } else {
        assert(s.take(i) =~= s);
    }
}

/// The digit body of a count: an optional leading `+` is stripped.
pub open spec fn count_body(s: Seq<char>) -> Seq<char> {
    if s.len() > 0 && s[0] == '+' {
        s.subrange(1, s.len() as int)
    } else {
        s
    }
}

/// What a count field parses to: at least one digit after the optional
/// sign, all characters digits, and the value must fit in a `u64`.
pub open spec fn count_parse(s: Seq<char>) -> Option<u64> {
    let b = count_body(s);
    if b.len() > 0 && all_digits(b) && digits_val(b) <= u64::MAX {
        Some(digits_val(b) as u64)
    } else {
        None
    }
}

/// Parse the digit run `s@.subrange(from, to)`, which must consist of
/// digits only (checked); an empty run parses to zero.  Reports `None` on a
/// non-digit or on overflow past `u64::MAX`.
fn parse_digit_run(s: &str, from: usize, to: usize) -> (r: Option<u64>)
    requires
        from <= to,
        to <= s@.len(),
    ensures
        ({
            let b = s@.subrange(from as int, to as int);
            match r {
                Some(v) => all_digits(b) && digits_val(b) == v,
                None => !(all_digits(b) && digits_val(b) <= u64::MAX),
            }
        }),
{
    let ghost b = s@.subrange(from as int, to as int);
    let mut acc: u64 = 0;
    let mut i: usize = from;
    while i < to
        invariant
            from <= i <= to,
            to <= s@.len(),
            b == s@.subrange(from as int, to as int),
            all_digits(b.take(i - from)),
            acc == digits_val(b.take(i - from)),
        decreases to - i,
    {
        let c = s.get_char(i);
        if c < '0' || c > '9' {
            proof {
                assert(b[i - from] == c);
                assert(!all_digits(b));
            }
            return None;
        }
        let d: u64 = (c as u32 - '0' as u32) as u64;
        if acc > (u64::MAX - d) / 10 {
            proof {
                assert(all_digits(b.take(i - from + 1))) by {
                    assert(forall|k: int| 0 <= k < i - from + 1 ==> is_digit(#[trigger] b.take(i - from + 1)[k]));
                }
                assert(b.take(i - from + 1).drop_last() =~= b.take(i - from));
                assert(digits_val(b.take(i - from + 1)) == acc * 10 + d);
                assert(acc * 10 + d > u64::MAX) by (nonlinear_arith)
                    requires
                        acc > (u64::MAX - d) / 10,
                        d <= 9,
                {}
                if all_digits(b) {
                    lemma_digits_val_prefix(b, i - from + 1);
                }
            }
            return None;
        }
        proof {
            assert(acc * 10 + d <= u64::MAX) by (nonlinear_arith)
                requires
                    acc <= (u64::MAX - d) / 10,
                    d <= 9,
            {}
            assert(all_digits(b.take(i - from + 1))) by {
                assert(forall|k: int| 0 <= k < i - from + 1 ==> is_digit(#[trigger] b.take(i - from + 1)[k]));
            }
            assert(b.take(i - from + 1).drop_last() =~= b.take(i - from));
            assert(b.take(i - from + 1).last() == c);
        }
        acc = acc * 10 + d;
        i = i + 1;
    }
    proof {
        assert(b.take(to - from) =~= b);
    }
    Some(acc)
}

/// Parse a count field.  Mirrors the engine's permissive policy only at the
/// caller: this function itself reports failure exactly when the text is
/// not a decimal count in range.
pub fn parse_count(s: &str) -> (r: Option<u64>)
    ensures
        r == count_parse(s@),
{
    let n = s.unicode_len();
    let from: usize = if n > 0 && s.get_char(0) == '+' {
        1
    } else {
        0
    };
    proof {
        assert(count_body(s@) =~= s@.subrange(from as int, n as int));
    }
    if from == n {
        return None;
    }
    parse_digit_run(s, from, n)
}

/// Check that `s@.subrange(from, to)` consists of digits only.
fn check_digits(s: &str, from: usize, to: usize) -> (r: bool)
    requires
        from <= to,
        to <= s@.len(),
    ensures
        r == all_digits(s@.subrange(from as int, to as int)),
{
    let ghost b = s@.subrange(from as int, to as int);
    let mut i: usize = from;
    while i < to
        invariant
            from <= i <= to,
            to <= s@.len(),
            b == s@.subrange(from as int, to as int),
            all_digits(b.take(i - from)),
        decreases to - i,
    {
        let c = s.get_char(i);
        if c < '0' || c > '9' {
            proof {
                assert(b[i - from] == c);
            }
            return false;
        }
        proof {
            assert(forall|k: int| 0 <= k < i - from + 1 ==> is_digit(#[trigger] b.take(i - from + 1)[k]));
        }
        i = i + 1;
    }
    proof {
        assert(b.take(to - from) =~= b);
    }
    true
}

/// Ten to a small power.
pub open spec fn pow10(e: int) -> int
    decreases e,
{
    if e <= 0 {
        1
    } else {
        10 * pow10(e - 1)
    }
}

fn pow10_exec(e: u32) -> (r: u64)
    requires
        e <= 6,
    ensures
        r == pow10(e as int),
{
    proof {
        lemma_pow10_six();
        assert(pow10(0) == 1);
        assert(pow10(1) == 10);
        assert(pow10(2) == 100);
        assert(pow10(3) == 1_000);
        assert(pow10(4) == 10_000);
        assert(pow10(5) == 100_000);
    }
    if e == 0 {
        1
    } else if e == 1 {
        10
    } else if e == 2 {
        100
    } else if e == 3 {
        1_000
    } else if e == 4 {
        10_000
    } else if e == 5 {
        100_000
    } else {
        1_000_000
    }
}

/// Index of the first `.` in `s`, or `-1` when there is none.
pub open spec fn first_dot(s: Seq<char>) -> int
    decreases s.len(),
{
    if s.len() == 0 {
        -1
    } else if s[0] == '.' {
        0
    } else {
        let r = first_dot(s.subrange(1, s.len() as int));
        if r < 0 {
            -1
        } else {
            r + 1
        }
    }
}

proof fn lemma_first_dot_range(s: Seq<char>)
    ensures
        first_dot(s) == -1 || (0 <= first_dot(s) < s.len() && s[first_dot(s)] == '.'),
    decreases s.len(),
{
    if s.len() > 0 && s[0] != '.' {
        lemma_first_dot_range(s.subrange(1, s.len() as int));
    }
}

proof fn lemma_first_dot_at(s: Seq<char>, k: int)
    requires
        0 <= k < s.len(),
        s[k] == '.',
        forall|j: int| 0 <= j < k ==> s[j] != '.',
    ensures
        first_dot(s) == k,
    decreases s.len(),
{
    if k > 0 {
        lemma_first_dot_at(s.subrange(1, s.len() as int), k - 1);
    }
}

proof fn lemma_first_dot_none(s: Seq<char>)
    requires
        forall|j: int| 0 <= j < s.len() ==> s[j] != '.',
    ensures
        first_dot(s) == -1,
    decreases s.len(),
{
    if s.len() > 0 {
        lemma_first_dot_none(s.subrange(1, s.len() as int));
    }
}

/// `true` when the scalar text carries a leading minus sign.
pub open spec fn scalar_negative(s: Seq<char>) -> bool {
    s.len() > 0 && s[0] == '-'
}

/// The scalar text with an optional leading sign stripped.
pub open spec fn scalar_body(s: Seq<char>) -> Seq<char> {
    if s.len() > 0 && (s[0] == '-' || s[0] == '+') {
        s.subrange(1, s.len() as int)
    } else {
        s
    }
}

/// Digits before the first dot of the body (the whole body when no dot).
pub open spec fn scalar_int_part(b: Seq<char>) -> Seq<char> {
    if first_dot(b) >= 0 {
        b.take(first_dot(b))
    } else {
        b
    }
}

/// Digits after the first dot of the body (empty when no dot).
pub open spec fn scalar_frac_part(b: Seq<char>) -> Seq<char> {
    if first_dot(b) >= 0 {
        b.skip(first_dot(b) + 1)
    } else {
        Seq::empty()
    }
}

/// Fractional digits scaled to millionths; digits beyond the sixth are
/// truncated (the value rounds toward zero).
pub open spec fn frac_micros(f: Seq<char>) -> int {
    if f.len() >= SCALAR_FRAC_DIGITS {
        digits_val(f.take(SCALAR_FRAC_DIGITS as int))
    } else {
        digits_val(f) * pow10(SCALAR_FRAC_DIGITS - f.len())
    }
}

/// Magnitude of the body in millionths.
pub open spec fn scalar_magnitude(b: Seq<char>) -> int {
    digits_val(scalar_int_part(b)) * SCALAR_ONE + frac_micros(scalar_frac_part(b))
}

/// The body must be digits, an optional single dot, and at least one digit
/// overall; any second dot falls into the fractional part and is rejected
/// there.
pub open spec fn scalar_wellformed(s: Seq<char>) -> bool {
    let b = scalar_body(s);
    &&& all_digits(scalar_int_part(b))
    &&& all_digits(scalar_frac_part(b))
    &&& scalar_int_part(b).len() + scalar_frac_part(b).len() > 0
}

/// What a scalar field parses to: a signed fixed-point value in millionths,
/// `None` when the text is malformed or out of range.
pub open spec fn scalar_parse(s: Seq<char>) -> Option<i64> {
    if scalar_wellformed(s) && scalar_magnitude(scalar_body(s)) <= i64::MAX {
        if scalar_negative(s) {
            Some((-scalar_magnitude(scalar_body(s))) as i64)
        } else {
            Some(scalar_magnitude(scalar_body(s)) as i64)
        }
    } else {
        None
    }
}

/// Find the position of the first `.` at or after `from`; `n` when none.
fn find_dot(s: &str, from: usize, n: usize) -> (r: usize)
    requires
        from <= n,
        n == s@.len(),
    ensures
        ({
            let b = s@.subrange(from as int, n as int);
            if first_dot(b) >= 0 {
                r == from + first_dot(b)
            } else {
                r == n
            }
        }),
{
    let ghost b = s@.subrange(from as int, n as int);
    let mut i: usize = from;
    while i < n
        invariant
            from <= i <= n,
            n == s@.len(),
            b == s@.subrange(from as int, n as int),
            forall|j: int| 0 <= j < i - from ==> b[j] != '.',
        decreases n - i,
    {
        if s.get_char(i) == '.' {
            proof {
                assert(b[i - from] == '.');
                lemma_first_dot_at(b, i - from);
            }
            return i;
        }
        i = i + 1;
    }
    proof {
        lemma_first_dot_none(b);
    }
    n
}

/// The fractional contribution is non-negative and below one unit.
proof fn lemma_frac_micros_bounds(f: Seq<char>)
    requires
        all_digits(f),
    ensures
        0 <= frac_micros(f) < SCALAR_ONE,
{
    if f.len() >= SCALAR_FRAC_DIGITS {
        assert(all_digits(f.take(SCALAR_FRAC_DIGITS as int))) by {
            assert(forall|k: int| 0 <= k < SCALAR_FRAC_DIGITS ==> is_digit(#[trigger] f.take(SCALAR_FRAC_DIGITS as int)[k]));
        }
        lemma_pow10_six();
        lemma_digits_val_bound(f.take(SCALAR_FRAC_DIGITS as int));
    } else {
        lemma_digits_val_bound(f);
        lemma_pow10_pos(SCALAR_FRAC_DIGITS - f.len());
        lemma_pow10_add(f.len() as int, SCALAR_FRAC_DIGITS - f.len());
        lemma_pow10_six();
        assert(0 <= digits_val(f) * pow10(SCALAR_FRAC_DIGITS - f.len()) < SCALAR_ONE) by (nonlinear_arith)
            requires
                0 <= digits_val(f) < pow10(f.len() as int),
                pow10(SCALAR_FRAC_DIGITS - f.len()) >= 1,
                pow10(f.len() as int) * pow10(SCALAR_FRAC_DIGITS - f.len()) == SCALAR_ONE,
        {}
    }
}

/// Parse a scalar field into fixed-point millionths.
#[verifier::rlimit(30)]
pub fn parse_scalar(s: &str) -> (r: Option<i64>)
    ensures
        r == scalar_parse(s@),
{
    let n = s.unicode_len();
    let negative = n > 0 && s.get_char(0) == '-';
    let from: usize = if n > 0 {
        let c0 = s.get_char(0);
        if c0 == '-' || c0 == '+' {
            1
        } else {
            0
        }
    } else {
        0
    };
    let ghost b = s@.subrange(from as int, n as int);
    proof {
        assert(scalar_body(s@) =~= b);
        assert(scalar_negative(s@) == negative);
    }
    let dot = find_dot(s, from, n);
    proof {
        lemma_first_dot_range(b);
    }
    let ghost ip = scalar_int_part(b);
    let ghost fp = scalar_frac_part(b);
    let (int_to, frac_from): (usize, usize) = if dot < n {
        (dot, dot + 1)
    } else {
        (n, n)
    };
    proof {
        assert(ip =~= s@.subrange(from as int, int_to as int));
        assert(fp =~= s@.subrange(frac_from as int, n as int));
    }
    if int_to == from && frac_from == n {
        // No digits at all.
        return None;
    }
    // Fractional part: all digits checked, the first six valued.
    if !check_digits(s, frac_from, n) {
        return None;
    }
    // Integer part.
    let iv = match parse_digit_run(s, from, int_to) {
        Some(v) => v,
        None => {
            proof {
                if all_digits(ip) {
                    // The run overflowed `u64`, so the magnitude is far out
                    // of range.
                    lemma_frac_micros_bounds(fp);
                    assert(digits_val(ip) * SCALAR_ONE > i64::MAX) by (nonlinear_arith)
                        requires
                            digits_val(ip) > u64::MAX,
                    {}
                }
            }
            return None;
        },
    };
    let frac_len = n - frac_from;
    let frac_used: usize = if frac_len > 6 {
        6
    } else {
        frac_len
    };
    proof {
        assert(s@.subrange(frac_from as int, frac_from + frac_used) =~= fp.take(frac_used as int));
        assert(all_digits(fp.take(frac_used as int))) by {
            assert(forall|k: int| 0 <= k < frac_used ==> is_digit(#[trigger] fp.take(frac_used as int)[k]));
        }
        lemma_digits_val_bound(fp.take(frac_used as int));
        lemma_pow10_mono(frac_used as int, 6);
        lemma_pow10_six();
    }
    let fv_raw = match parse_digit_run(s, frac_from, frac_from + frac_used) {
        Some(v) => v,
        None => {
            // Unreachable: at most six digits always fit.
            return None;
        },
    };
    let scale = pow10_exec((6 - frac_used) as u32);
    proof {
        lemma_pow10_add(frac_used as int, 6 - frac_used);
        assert(fv_raw * scale < SCALAR_ONE) by (nonlinear_arith)
            requires
                fv_raw < pow10(frac_used as int),
                scale == pow10(6 - frac_used),
                pow10(frac_used as int) * pow10(6 - frac_used) == SCALAR_ONE,
                scale >= 1,
                fv_raw >= 0,
        {}
    }
    let fv: u64 = fv_raw * scale;
    proof {
        if frac_len >= 6 {
            assert(fp.take(frac_used as int) =~= fp.take(SCALAR_FRAC_DIGITS as int));
        } else {
            assert(fp.take(frac_used as int) =~= fp);
        }
        assert(fv == frac_micros(fp));
    }
    let m: u128 = (iv as u128) * (SCALAR_ONE as u128) + (fv as u128);
    proof {
        assert(m == scalar_magnitude(b));
        lemma_digits_val_nonneg(ip);
    }
    if m > i64::MAX as u128 {
        return None;
    }
    if negative {
        Some(-((m as i64)))
    } else {
        Some(m as i64)
    }
}

proof fn lemma_pow10_six()
    ensures
        pow10(SCALAR_FRAC_DIGITS as int) == SCALAR_ONE,
{
    assert(pow10(0) == 1);
    assert(pow10(1) == 10);
    assert(pow10(2) == 100);
    assert(pow10(3) == 1_000);
    assert(pow10(4) == 10_000);
    assert(pow10(5) == 100_000);
    assert(pow10(6) == 1_000_000);
}

proof fn lemma_pow10_pos(e: int)
    ensures
        pow10(e) >= 1,
    decreases e,
{
    if e > 0 {
        lemma_pow10_pos(e - 1);
    }
}

proof fn lemma_pow10_mono(a: int, c: int)
    requires
        a <= c,
    ensures
        pow10(a) <= pow10(c),
    decreases c - a,
{
    if a < c {
        lemma_pow10_mono(a, c - 1);
        lemma_pow10_pos(c - 1);
    }
}

proof fn lemma_pow10_add(a: int, c: int)
    requires
        a >= 0,
        c >= 0,
    ensures
        pow10(a) * pow10(c) == pow10(a + c),
    decreases c,
{
    if c > 0 {
        lemma_pow10_add(a, c - 1);
        assert(pow10(a) * pow10(c) == (pow10(a) * pow10(c - 1)) * 10) by (nonlinear_arith)
            requires
                pow10(c) == 10 * pow10(c - 1),
        {}
    }
}

/// A run of `k` digits is below ten to the `k`.
proof fn lemma_digits_val_bound(s: Seq<char>)
    requires
        all_digits(s),
    ensures
        0 <= digits_val(s) < pow10(s.len() as int),
    decreases s.len(),
{
    if s.len() == 0 {
    } else {
        assert(all_digits(s.drop_last()));
        lemma_digits_val_bound(s.drop_last());
        assert(digits_val(s.drop_last()) * 10 + digit_val(s.last()) < pow10(s.len() as int)) by (nonlinear_arith)
            requires
                digits_val(s.drop_last()) < pow10(s.len() - 1),
                digits_val(s.drop_last()) >= 0,
                digit_val(s.last()) <= 9,
                pow10(s.len() as int) == 10 * pow10(s.len() - 1),
        {}
    }
}

/// The character for one decimal digit.
pub open spec fn digit_char(d: int) -> char {
    if d == 0 {
        '0'
    } else if d == 1 {
        '1'
    } else if d == 2 {
        '2'
    } else if d == 3 {
        '3'
    } else if d == 4 {
        '4'
    } else if d == 5 {
        '5'
    } else if d == 6 {
        '6'
    } else if d == 7 {
        '7'
    } else if d == 8 {
        '8'
    } else {
        '9'
    }
}

/// Decimal digits of a non-negative number, most significant first.
pub open spec fn dec_digits(n: int) -> Seq<char>
    decreases n,
{
    if n < 10 {
        seq![digit_char(n)]
    } else {
        dec_digits(n / 10) + seq![digit_char(n % 10)]
    }
}

fn push_digit(out: &mut String, d: u64)
    requires
        d < 10,
    ensures
        final(out)@ == old(out)@ + seq![digit_char(d as int)],
{
    if d == 0 {
        proof {
            reveal_strlit("0");
            assert("0"@ =~= seq![digit_char(0)]);
        }
        out.append("0");
    } else if d == 1 {
        proof {
            reveal_strlit("1");
            assert("1"@ =~= seq![digit_char(1)]);
        }
        out.append("1");
    } else if d == 2 {
        proof {
            reveal_strlit("2");
            assert("2"@ =~= seq![digit_char(2)]);
        }
        out.append("2");
    } else if d == 3 {
        proof {
            reveal_strlit("3");
            assert("3"@ =~= seq![digit_char(3)]);
        }
        out.append("3");
    } else if d == 4 {
        proof {
            reveal_strlit("4");
            assert("4"@ =~= seq![digit_char(4)]);
        }
        out.append("4");
    } else if d == 5 {
        proof {
            reveal_strlit("5");
            assert("5"@ =~= seq![digit_char(5)]);
        }
        out.append("5");
    } else if d == 6 {
        proof {
            reveal_strlit("6");
            assert("6"@ =~= seq![digit_char(6)]);
        }
        out.append("6");
    } else if d == 7 {
        proof {
            reveal_strlit("7");
            assert("7"@ =~= seq![digit_char(7)]);
        }
        out.append("7");
    } else if d == 8 {
        proof {
            reveal_strlit("8");
            assert("8"@ =~= seq![digit_char(8)]);
        }
        out.append("8");
    } else {
        proof {
            reveal_strlit("9");
            assert("9"@ =~= seq![digit_char(9)]);
        }
        out.append("9");
    }
}

fn push_decimal(n: u64, out: &mut String)
    ensures
        final(out)@ == old(out)@ + dec_digits(n as int),
    decreases n,
{
    if n < 10 {
        push_digit(out, n);
    } else {
        push_decimal(n / 10, out);
        push_digit(out, n % 10);
    }
}

/// Format a count as plain decimal digits, the text a count field shows
/// after a load.
pub fn format_count(n: u64) -> (r: String)
    ensures
        r@ == dec_digits(n as int),
{
    let mut out = String::new();
    push_decimal(n, &mut out);
    proof {
        assert(out@ =~= dec_digits(n as int));
    }
    out
}

pub open spec fn abs_val(v: int) -> int {
    if v < 0 {
        -v
    } else {
        v
    }
}

/// A scalar value rounded to hundredths, half away from zero.
pub open spec fn rounded_centis(v: int) -> int {
    (abs_val(v) + 5000) / 10000
}

/// The two-decimal text a scalar field shows after a load.
pub open spec fn scalar_text2(v: int) -> Seq<char> {
    let c = rounded_centis(v);
    let sign: Seq<char> = if v < 0 {
        seq!['-']
    } else {
        Seq::empty()
    };
    sign + dec_digits(c / 100) + seq!['.'] + seq![digit_char((c % 100) / 10), digit_char(c % 10)]
}

/// Format a scalar with exactly two decimal places.
pub fn format_scalar(v: i64) -> (r: String)
    ensures
        r@ == scalar_text2(v as int),
{
    let a: u64 = if v < 0 {
        (-(v as i128)) as u64
    } else {
        v as u64
    };
    let c: u64 = (a + 5000) / 10000;
    let mut out = String::new();
    if v < 0 {
        proof {
            reveal_strlit("-");
            assert("-"@ =~= seq!['-']);
        }
        out.append("-");
    }
    push_decimal(c / 100, &mut out);
    proof {
        reveal_strlit(".");
        assert("."@ =~= seq!['.']);
    }
    out.append(".");
    push_digit(&mut out, (c % 100) / 10);
    push_digit(&mut out, c % 10);
    proof {
        assert(c % 10 == (c % 100) % 10) by (nonlinear_arith);
        assert(out@ =~= scalar_text2(v as int));
    }
    out
}

} // verus!
