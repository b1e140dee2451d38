//! Decimal text: parsing and rendering of the integers and fractional
//! second counts that the service puts in headers, bodies and query strings.

use vstd::prelude::*;

use crate::text::chars_to_string;
use crate::time::{Timestamp, MAX_SECS};

verus! {

/// True of a decimal digit character.
pub open spec fn is_digit(c: char) -> bool {
    ('0' as u32) <= (c as u32) <= ('9' as u32)
}

/// Numeric value of a digit character.
pub open spec fn digit_val(c: char) -> int {
    (c as u32) - ('0' as u32)
}

/// True when every character of `s` is a decimal digit.
pub open spec fn all_digits(s: Seq<char>) -> bool {
    forall|i: int| 0 <= i < s.len() ==> is_digit(#[trigger] s[i])
}

/// Value of a digit string, most significant digit first.
pub open spec fn digits_val(s: Seq<char>) -> int
    decreases s.len(),
{
    if s.len() == 0 {
        0
    } else {
        digits_val(s.drop_last()) * 10 + digit_val(s.last())
    }
}

/// Ten to the `e`.
pub open spec fn pow10(e: nat) -> int
    decreases e,
{
    if e == 0 {
        1
    } else {
        10 * pow10((e - 1) as nat)
    }
}

pub proof fn lemma_digits_val_nonneg(s: Seq<char>)
    requires
        all_digits(s),
    ensures
        digits_val(s) >= 0,
    decreases s.len(),
{
    if s.len() > 0 {
        assert(all_digits(s.drop_last()));
        lemma_digits_val_nonneg(s.drop_last());
    }
}

/// Reading one more digit multiplies the prefix value by ten and adds it.
pub proof fn lemma_digits_val_take_step(s: Seq<char>, i: int)
    requires
        0 <= i < s.len(),
    ensures
        digits_val(s.take(i + 1)) == digits_val(s.take(i)) * 10 + digit_val(s[i]),
{
    assert(s.take(i + 1).drop_last() =~= s.take(i));
    assert(s.take(i + 1).last() == s[i]);
}

/// A digit string's value never shrinks as the string extends.
pub proof fn lemma_digits_val_grows(s: Seq<char>, i: int, j: int)
    requires
        all_digits(s),
        0 <= i <= j <= s.len(),
    ensures
        digits_val(s.take(i)) <= digits_val(s.take(j)),
    decreases j - i,
{
    if i < j {
        lemma_digits_val_grows(s, i, j - 1);
        lemma_digits_val_take_step(s, j - 1);
        assert(all_digits(s.take(j - 1)));
        lemma_digits_val_nonneg(s.take(j - 1));
    }
}

pub proof fn lemma_pow10_pos(e: nat)
    ensures
        pow10(e) >= 1,
    decreases e,
{
    if e > 0 {
        lemma_pow10_pos((e - 1) as nat);
    }
}

pub proof fn lemma_pow10_adds(a: nat, b: nat)
    ensures
        pow10(a + b) == pow10(a) * pow10(b),
    decreases a,
{
    if a == 0 {
        assert(pow10(0 + b) == 1 * pow10(b));
    } else {
        lemma_pow10_adds((a - 1) as nat, b);
        assert(pow10(a + b) == 10 * pow10((a + b - 1) as nat));
        assert((a + b - 1) as nat == (a - 1) as nat + b);
        assert(10 * (pow10((a - 1) as nat) * pow10(b)) == (10 * pow10((a - 1) as nat)) * pow10(
            b,
        )) by (nonlinear_arith);
    }
}

pub proof fn lemma_pow10_mono(i: nat, j: nat)
    requires
        i <= j,
    ensures
        pow10(i) <= pow10(j),
{
    lemma_pow10_adds(i, (j - i) as nat);
    lemma_pow10_pos(i);
    lemma_pow10_pos((j - i) as nat);
    assert(pow10(i) * 1 <= pow10(i) * pow10((j - i) as nat)) by (nonlinear_arith)
        requires
            pow10(i) >= 1,
            pow10((j - i) as nat) >= 1,
    ;
}

/// Concrete powers of ten that the codec's bounds reasoning uses.
pub proof fn lemma_pow10_vals()
    ensures
        pow10(6) == 1_000_000,
        pow10(7) == 10_000_000,
        pow10(8) == 100_000_000,
        pow10(9) == 1_000_000_000,
        pow10(10) == 10_000_000_000,
        pow10(20) == 100_000_000_000_000_000_000,
        pow10(25) == 10_000_000_000_000_000_000_000_000,
        pow10(26) == 100_000_000_000_000_000_000_000_000,
{
    assert(pow10(0) == 1);
    assert(pow10(1) == 10);
    assert(pow10(2) == 100);
    assert(pow10(3) == 1000);
    assert(pow10(4) == 10000);
    assert(pow10(5) == 100000);
    assert(pow10(6) == 1000000);
    assert(pow10(7) == 10000000);
    assert(pow10(8) == 100000000);
    assert(pow10(9) == 1000000000);
    assert(pow10(10) == 10000000000);
    assert(pow10(11) == 100000000000);
    assert(pow10(12) == 1000000000000);
    assert(pow10(13) == 10000000000000);
    assert(pow10(14) == 100000000000000);
    assert(pow10(15) == 1000000000000000);
    assert(pow10(16) == 10000000000000000);
    assert(pow10(17) == 100000000000000000);
    assert(pow10(18) == 1000000000000000000);
    assert(pow10(19) == 10000000000000000000);
    assert(pow10(20) == 100000000000000000000);
    assert(pow10(21) == 1000000000000000000000);
    assert(pow10(22) == 10000000000000000000000);
    assert(pow10(23) == 100000000000000000000000);
    assert(pow10(24) == 1000000000000000000000000);
    assert(pow10(25) == 10000000000000000000000000);
    assert(pow10(26) == 100000000000000000000000000);
}

/// A digit string's value is below ten to its length.
pub proof fn lemma_digits_val_bound(s: Seq<char>)
    requires
        all_digits(s),
    ensures
        0 <= digits_val(s) < pow10(s.len()),
    decreases s.len(),
{
    if s.len() == 0 {
    } else {
        assert(all_digits(s.drop_last()));
        lemma_digits_val_bound(s.drop_last());
        assert(is_digit(s.last()));
        assert(pow10(s.len()) == 10 * pow10((s.len() - 1) as nat));
    }
}

/// Index of the first occurrence of `a` or `b` in `s`, or the length of `s`.
pub open spec fn scan_to(s: Seq<char>, a: char, b: char) -> int
    decreases s.len(),
{
    if s.len() == 0 {
        0
    } else if s[0] == a || s[0] == b {
        0
    } else {
        1 + scan_to(s.skip(1), a, b)
    }
}

/// `scan_to` is pinned down by what stands before the found position.
pub proof fn lemma_scan_to_is(s: Seq<char>, a: char, b: char, i: int)
    requires
        0 <= i <= s.len(),
        forall|k: int| 0 <= k < i ==> s[k] != a && s[k] != b,
        i < s.len() ==> s[i] == a || s[i] == b,
    ensures
        scan_to(s, a, b) == i,
    decreases s.len(),
{
    if s.len() == 0 {
    } else if i == 0 {
    } else {
        assert(s[0] != a && s[0] != b);
        let t = s.skip(1);
        assert forall|k: int| 0 <= k < i - 1 implies t[k] != a && t[k] != b by {
            assert(t[k] == s[k + 1]);
        }
        if i - 1 < t.len() {
            assert(t[i - 1] == s[i as int]);
        }
        lemma_scan_to_is(t, a, b, i - 1);
    }
}

/// Position of the exponent marker in fractional-seconds text.
pub open spec fn exp_idx(s: Seq<char>) -> int {
    scan_to(s, 'e', 'E')
}

/// The mantissa: everything before the exponent marker.
pub open spec fn mant(s: Seq<char>) -> Seq<char> {
    s.take(exp_idx(s))
}

/// True when the text carries an exponent part.
pub open spec fn has_exp(s: Seq<char>) -> bool {
    exp_idx(s) < s.len()
}

/// The exponent text: everything after the exponent marker.
pub open spec fn exp_text(s: Seq<char>) -> Seq<char> {
    s.skip(exp_idx(s) + 1)
}

/// Position of the decimal point within the mantissa.
pub open spec fn dot_idx(s: Seq<char>) -> int {
    scan_to(mant(s), '.', '.')
}

/// True when the mantissa carries a fractional part.
pub open spec fn has_frac(s: Seq<char>) -> bool {
    dot_idx(s) < mant(s).len()
}

/// The integer digits of the mantissa.
pub open spec fn ipart(s: Seq<char>) -> Seq<char> {
    mant(s).take(dot_idx(s))
}

/// The fractional digits of the mantissa.
pub open spec fn fpart(s: Seq<char>) -> Seq<char> {
    if has_frac(s) {
        mant(s).skip(dot_idx(s) + 1)
    } else {
        Seq::empty()
    }
}

/// All mantissa digits, the decimal point dropped.
pub open spec fn mant_digits(s: Seq<char>) -> Seq<char> {
    ipart(s) + fpart(s)
}

/// The exponent's value; zero when the text carries none.
pub open spec fn float_text_exp(s: Seq<char>) -> int {
    if has_exp(s) {
        int_text_val(exp_text(s))
    } else {
        0
    }
}

/// Well-formed fractional-seconds text: digits, an optional point followed
/// by digits, and an optional exponent marker followed by signed digits.
pub open spec fn float_text_wf(s: Seq<char>) -> bool {
    &&& ipart(s).len() > 0
    &&& all_digits(ipart(s))
    &&& (has_frac(s) ==> fpart(s).len() > 0 && all_digits(fpart(s)))
    &&& (has_exp(s) ==> int_text_wf(exp_text(s)))
}

/// The instant the text denotes, in whole nanoseconds since the epoch,
/// the fraction of a nanosecond rounded to nearest (half up): the mantissa
/// digits, shifted by the exponent and into nanosecond scale.
pub open spec fn float_text_nanos(s: Seq<char>) -> int {
    let d = digits_val(mant_digits(s));
    let k = float_text_exp(s) - fpart(s).len() + 9;
    if k >= 0 {
        d * pow10(k as nat)
    } else {
        (d + 5 * pow10((-k - 1) as nat)) / pow10((-k) as nat)
    }
}

/// The largest whole-nanosecond count a `Timestamp` can carry.
pub open spec fn max_total_nanos() -> int {
    crate::time::MAX_SECS * (crate::time::NANOS_PER_SEC as int) + (crate::time::NANOS_PER_SEC - 1)
}

/// The inputs on which `parse_float_seconds` succeeds: well-formed text
/// whose mantissa has at most 25 digits, whose exponent has at most 8
/// digits, and whose value is at most the largest representable instant.
pub open spec fn float_text_parseable(s: Seq<char>) -> bool {
    &&& float_text_wf(s)
    &&& mant_digits(s).len() <= 25
    &&& (has_exp(s) ==> int_text_digits(exp_text(s)).len() <= 8)
    &&& float_text_nanos(s) <= max_total_nanos()
}

/// Exceeding the quotient `c / d` means exceeding `c` after scaling by `d`.
pub proof fn lemma_mul_div_gt(x: int, d: int, c: int)
    requires
        d >= 1,
        c >= 0,
        x > c / d,
    ensures
        x * d > c,
{
    vstd::arithmetic::div_mod::lemma_fundamental_div_mod(c, d);
    assert(x * d >= (c / d + 1) * d) by (nonlinear_arith)
        requires
            x >= c / d + 1,
            d >= 1,
    ;
    assert((c / d + 1) * d == (c / d) * d + d) by (nonlinear_arith);
    assert(d * (c / d) == (c / d) * d) by (nonlinear_arith);
}

/// Staying at or under the quotient `c / d` keeps the product within `c`.
pub proof fn lemma_mul_div_le(x: int, d: int, c: int)
    requires
        d >= 1,
        c >= 0,
        0 <= x <= c / d,
    ensures
        x * d <= c,
{
    vstd::arithmetic::div_mod::lemma_fundamental_div_mod(c, d);
    assert(x * d <= (c / d) * d) by (nonlinear_arith)
        requires
            0 <= x <= c / d,
            d >= 1,
    ;
    assert(d * (c / d) == (c / d) * d) by (nonlinear_arith);
}

/// The digit part of signed integer text: everything after a leading sign.
pub open spec fn int_text_digits(s: Seq<char>) -> Seq<char> {
    if s.len() > 0 && (s[0] == '-' || s[0] == '+') {
        s.skip(1)
    } else {
        s
    }
}

/// True of well-formed signed decimal integer text: an optional sign
/// followed by at least one digit.
pub open spec fn int_text_wf(s: Seq<char>) -> bool {
    int_text_digits(s).len() > 0 && all_digits(int_text_digits(s))
}

/// Value of well-formed signed decimal integer text.
pub open spec fn int_text_val(s: Seq<char>) -> int {
    if s.len() > 0 && s[0] == '-' {
        -digits_val(int_text_digits(s))
    } else {
        digits_val(int_text_digits(s))
    }
}

/// Parse signed decimal integer text, as a rate-limit header carries it.
/// Returns the value exactly when the text is well formed and the value
/// fits in an `i64`; anything else is `None`.
pub fn parse_i64(s: &str) -> (r: Option<i64>)
    ensures
        r is Some <==> int_text_wf(s@) && i64::MIN <= int_text_val(s@) <= i64::MAX,
        r matches Some(v) ==> v == int_text_val(s@),
{
    let n = s.unicode_len();
    if n == 0 {
        return None;
    }
    let first = s.get_char(0);
    let neg = first == '-';
    let start: usize = if first == '-' || first == '+' {
        1
    } else {
        0
    };
    let ghost ds = int_text_digits(s@);
    proof {
        assert(ds =~= s@.skip(start as int));
    }
    if n == start {
        return None;
    }
    // Magnitude cap: one past the largest magnitude an i64 can carry.
    let cap: u128 = 9_223_372_036_854_775_808;
    let mut acc: u128 = 0;
    let mut i: usize = start;
    while i < n
        invariant
            start <= i <= n,
            n == s@.len(),
            ds == s@.skip(start as int),
            ds == int_text_digits(s@),
            start == 0 || start == 1,
            start < n,
            all_digits(ds.take(i - start)),
            cap == 9_223_372_036_854_775_808u128,
            acc <= cap,
            acc == digits_val(ds.take(i - start)),
        decreases n - i,
    {
        let c = s.get_char(i);
        proof {
            assert(ds[i - start] == s@[i as int]);
        }
        if !(c as u32 >= '0' as u32 && c as u32 <= '9' as u32) {
            proof {
                assert(!is_digit(ds[i - start]));
            }
            return None;
        }
        let d: u32 = (c as u32) - ('0' as u32);
        proof {
            lemma_digits_val_take_step(ds, i - start);
            assert(is_digit(ds[i - start]));
            assert forall|k: int| 0 <= k < i + 1 - start implies is_digit(
                #[trigger] ds.take(i + 1 - start)[k],
            ) by {
                if k < i - start {
                    assert(is_digit(ds.take(i - start)[k]));
                }
            }
        }
        acc = acc * 10 + (d as u128);
        i = i + 1;
        if acc > cap {
            // The value already exceeds the i64 range; the rest of the text
            // can only confirm or refute well-formedness.
            let ghost istop: usize = i;
            let ghost accstop: u128 = acc;
            let mut j: usize = i;
            while j < n
                invariant
                    istop <= j <= n,
                    n == s@.len(),
                    ds == s@.skip(start as int),
                    ds == int_text_digits(s@),
                    start == 0 || start == 1,
                    start < istop <= n,
                    all_digits(ds.take(j - start)),
                    accstop > cap,
                    accstop == digits_val(ds.take(istop - start)),
                decreases n - j,
            {
                let c2 = s.get_char(j);
                proof {
                    assert(ds[j - start] == s@[j as int]);
                }
                if !(c2 as u32 >= '0' as u32 && c2 as u32 <= '9' as u32) {
                    proof {
                        assert(!is_digit(ds[j - start]));
                    }
                    return None;
                }
                proof {
                    assert(is_digit(ds[j - start]));
                    assert forall|k: int| 0 <= k < j + 1 - start implies is_digit(
                        #[trigger] ds.take(j + 1 - start)[k],
                    ) by {
                        if k < j - start {
                            assert(is_digit(ds.take(j - start)[k]));
                        }
                    }
                }
                j = j + 1;
            }
            proof {
                assert(ds.take(n - start) =~= ds);
                lemma_digits_val_grows(ds, istop - start, ds.len() as int);
                assert(digits_val(ds) > cap);
            }
            return None;
        }
    }
    proof {
        assert(ds.take(n - start) =~= ds);
    }
    if neg {
        if acc == cap {
            Some(i64::MIN)
        } else {
            Some(-((acc as i64)))
        }
    } else {
        if acc == cap {
            None
        } else {
            Some(acc as i64)
        }
    }
}

/// Ten to the `e`, as a machine word.
fn pow10_u128(e: usize) -> (r: u128)
    requires
        e <= 26,
    ensures
        r == pow10(e as nat),
{
    let mut r: u128 = 1;
    let mut i: usize = 0;
    while i < e
        invariant
            0 <= i <= e <= 26,
            r == pow10(i as nat),
        decreases e - i,
    {
        proof {
            lemma_pow10_mono((i + 1) as nat, 26);
            lemma_pow10_vals();
        }
        r = r * 10;
        i = i + 1;
    }
    r
}

/// Split a whole-nanosecond count into a timestamp.
fn timestamp_of_total(total: u128) -> (t: Timestamp)
    requires
        total <= max_total_nanos(),
    ensures
        t.wf(),
        t.total_nanos() == total,
{
    proof {
        vstd::arithmetic::div_mod::lemma_fundamental_div_mod(total as int, 1_000_000_000);
        vstd::arithmetic::div_mod::lemma_div_is_ordered(
            total as int,
            max_total_nanos(),
            1_000_000_000,
        );
        assert(max_total_nanos() / 1_000_000_000 == MAX_SECS);
    }
    let secs = (total / 1_000_000_000) as i64;
    let nanos = (total % 1_000_000_000) as u32;
    Timestamp::new(secs, nanos)
}

/// Parse fractional Unix seconds, as the service writes instants: decimal
/// digits with an optional fraction and an optional decimal exponent.
/// Returns the denoted instant, its sub-nanosecond fraction rounded to
/// nearest, exactly on the inputs `float_text_parseable` describes.
#[verifier::loop_isolation(false)]
#[verifier::rlimit(100)]
pub fn parse_float_seconds(v: &Vec<char>) -> (r: Option<Timestamp>)
    ensures
        r is Some <==> float_text_parseable(v@),
        r matches Some(t) ==> t.wf() && t.total_nanos() == float_text_nanos(v@),
{
    let n = v.len();
    // Locate the exponent marker.
    let mut ei: usize = 0;
    while ei < n && !(v[ei] == 'e' || v[ei] == 'E')
        invariant
            0 <= ei <= n,
            forall|k: int| 0 <= k < ei ==> v@[k] != 'e' && v@[k] != 'E',
        decreases n - ei,
    {
        ei = ei + 1;
    }
    proof {
        lemma_scan_to_is(v@, 'e', 'E', ei as int);
    }
    let ghost m = mant(v@);
    // Locate the decimal point within the mantissa.
    let mut di: usize = 0;
    while di < ei && v[di] != '.'
        invariant
            0 <= di <= ei,
            forall|k: int| 0 <= k < di ==> v@[k] != '.',
        decreases ei - di,
    {
        di = di + 1;
    }
    proof {
        assert forall|k: int| 0 <= k < di implies m[k] != '.' && m[k] != '.' by {
            assert(m[k] == v@[k]);
        }
        if di < ei {
            assert(m[di as int] == v@[di as int]);
        }
        lemma_scan_to_is(m, '.', '.', di as int);
    }
    if di == 0 {
        // No integer digits.
        return None;
    }
    let flen: usize = if di < ei {
        ei - di - 1
    } else {
        0
    };
    if di < ei && flen == 0 {
        // A decimal point with no digits after it.
        return None;
    }
    let mdl: usize = di + flen;
    proof {
        assert(ipart(v@).len() == di);
        assert(fpart(v@).len() == flen);
    }
    if mdl > 25 {
        // More mantissa digits than the codec accepts.
        return None;
    }
    let ghost md = mant_digits(v@);
    // Accumulate the integer digits.
    let mut acc: u128 = 0;
    let mut j: usize = 0;
    while j < di
        invariant
            0 <= j <= di,
            all_digits(md.take(j as int)),
            acc == digits_val(md.take(j as int)),
            acc < pow10(j as nat),
        decreases di - j,
    {
        let c = v[j];
        proof {
            assert(md[j as int] == ipart(v@)[j as int]);
            assert(md[j as int] == v@[j as int]);
        }
        if !(c as u32 >= '0' as u32 && c as u32 <= '9' as u32) {
            proof {
                assert(!is_digit(ipart(v@)[j as int]));
            }
            return None;
        }
        proof {
            lemma_digits_val_take_step(md, j as int);
            assert forall|k: int| 0 <= k < j + 1 implies is_digit(#[trigger] md.take(j + 1)[k]) by {
                if k < j {
                    assert(is_digit(md.take(j as int)[k]));
                } else {
                    assert(md.take(j + 1)[k] == md[j as int]);
                }
            }
            lemma_pow10_mono((j + 1) as nat, 26);
            lemma_pow10_vals();
        }
        acc = acc * 10 + ((c as u32 - '0' as u32) as u128);
        j = j + 1;
    }
    // Accumulate the fractional digits.
    if di < ei {
        let mut j2: usize = di + 1;
        while j2 < ei
            invariant
                di + 1 <= j2 <= ei,
                all_digits(md.take((j2 - 1) as int)),
                acc == digits_val(md.take((j2 - 1) as int)),
                acc < pow10((j2 - 1) as nat),
            decreases ei - j2,
        {
            let c = v[j2];
            proof {
                assert(md[(j2 - 1) as int] == fpart(v@)[(j2 - 1 - di) as int]);
                assert(fpart(v@)[(j2 - 1 - di) as int] == m[j2 as int]);
                assert(m[j2 as int] == v@[j2 as int]);
            }
            if !(c as u32 >= '0' as u32 && c as u32 <= '9' as u32) {
                proof {
                    assert(!is_digit(fpart(v@)[(j2 - 1 - di) as int]));
                }
                return None;
            }
            proof {
                lemma_digits_val_take_step(md, (j2 - 1) as int);
                assert forall|k: int| 0 <= k < j2 implies is_digit(#[trigger] md.take(j2 as int)[k]) by {
                    if k < j2 - 1 {
                        assert(is_digit(md.take((j2 - 1) as int)[k]));
                    } else {
                        assert(md.take(j2 as int)[k] == md[(j2 - 1) as int]);
                    }
                }
                lemma_pow10_mono(j2 as nat, 26);
                lemma_pow10_vals();
            }
            acc = acc * 10 + ((c as u32 - '0' as u32) as u128);
            j2 = j2 + 1;
        }
    }
    proof {
        assert(md.take(mdl as int) =~= md);
        assert forall|k: int| 0 <= k < ipart(v@).len() implies is_digit(#[trigger] ipart(v@)[k]) by {
            assert(ipart(v@)[k] == md[k]);
        }
        if di < ei {
            assert forall|x: int| 0 <= x < fpart(v@).len() implies is_digit(
                #[trigger] fpart(v@)[x],
            ) by {
                assert(fpart(v@)[x] == md[di + x]);
            }
        }
        lemma_pow10_mono(mdl as nat, 25);
    }
    // Parse the exponent.
    let mut eneg: bool = false;
    let mut eacc: u32 = 0;
    if ei < n {
        let mut p: usize = ei + 1;
        proof {
            assert(exp_text(v@).len() == n - p);
        }
        if p == n {
            // An exponent marker with nothing after it.
            return None;
        }
        let c0 = v[p];
        proof {
            assert(exp_text(v@)[0] == v@[p as int]);
        }
        if c0 == '-' {
            eneg = true;
            p = p + 1;
        } else if c0 == '+' {
            p = p + 1;
        }
        let ghost ed = int_text_digits(exp_text(v@));
        proof {
            assert(ed =~= v@.skip(p as int));
        }
        let edl = n - p;
        if edl == 0 {
            // A sign with no digits after it.
            return None;
        }
        if edl > 8 {
            // More exponent digits than the codec accepts.
            return None;
        }
        let mut q: usize = p;
        while q < n
            invariant
                p <= q <= n,
                all_digits(ed.take((q - p) as int)),
                eacc == digits_val(ed.take((q - p) as int)),
                eacc < pow10((q - p) as nat),
            decreases n - q,
        {
            let c = v[q];
            proof {
                assert(ed[(q - p) as int] == v@[q as int]);
            }
            if !(c as u32 >= '0' as u32 && c as u32 <= '9' as u32) {
                proof {
                    assert(!is_digit(ed[(q - p) as int]));
                }
                return None;
            }
            proof {
                lemma_digits_val_take_step(ed, (q - p) as int);
                assert forall|k: int| 0 <= k < q + 1 - p implies is_digit(
                    #[trigger] ed.take(q + 1 - p)[k],
                ) by {
                    if k < q - p {
                        assert(is_digit(ed.take((q - p) as int)[k]));
                    } else {
                        assert(ed.take(q + 1 - p)[k] == ed[(q - p) as int]);
                    }
                }
                lemma_pow10_mono((q + 1 - p) as nat, 8);
                lemma_pow10_vals();
            }
            eacc = eacc * 10 + (c as u32 - '0' as u32);
            q = q + 1;
        }
        proof {
            assert(ed.take((n - p) as int) =~= ed);
            lemma_pow10_mono((n - p) as nat, 8);
            lemma_pow10_vals();
        }
    }
    let e_val: i64 = if ei < n {
        if eneg {
            -(eacc as i64)
        } else {
            eacc as i64
        }
    } else {
        0
    };
    proof {
        assert(e_val as int == float_text_exp(v@));
        assert(float_text_wf(v@));
        lemma_digits_val_bound(md);
    }
    let k_i64: i64 = e_val - (flen as i64) + 9;
    let ghost kk = float_text_exp(v@) - fpart(v@).len() + 9;
    let maxt: u128 = 9_000_000_000_999_999_999;
    proof {
        assert(maxt as int == max_total_nanos());
    }
    if k_i64 >= 0 {
        let k = k_i64 as usize;
        if acc == 0 {
            proof {
                assert(0 * pow10(kk as nat) == 0) by (nonlinear_arith);
            }
            return Some(Timestamp::new(0, 0));
        }
        if k > 19 {
            proof {
                lemma_pow10_mono(20, kk as nat);
                lemma_pow10_vals();
                assert(digits_val(md) * pow10(kk as nat) >= pow10(kk as nat)) by (nonlinear_arith)
                    requires
                        digits_val(md) >= 1,
                        pow10(kk as nat) >= 0,
                ;
            }
            return None;
        }
        let powk = pow10_u128(k);
        proof {
            lemma_pow10_pos(k as nat);
        }
        if acc > maxt / powk {
            proof {
                lemma_mul_div_gt(acc as int, powk as int, maxt as int);
            }
            return None;
        }
        proof {
            lemma_mul_div_le(acc as int, powk as int, maxt as int);
        }
        let total = acc * powk;
        Some(timestamp_of_total(total))
    } else {
        let mneg: usize = (-k_i64) as usize;
        proof {
            assert(mneg == -kk);
            lemma_pow10_pos((mneg - 1) as nat);
            assert(pow10(mneg as nat) == 10 * pow10((mneg - 1) as nat));
        }
        if mneg > 25 {
            // The value rounds to zero: the mantissa is far below half of
            // the last kept digit.
            proof {
                lemma_pow10_mono(25, (mneg - 1) as nat);
                lemma_pow10_vals();
                assert(digits_val(md) + 5 * pow10((mneg - 1) as nat) < pow10(mneg as nat));
                vstd::arithmetic::div_mod::lemma_basic_div(
                    digits_val(md) + 5 * pow10((mneg - 1) as nat),
                    pow10(mneg as nat),
                );
            }
            return Some(Timestamp::new(0, 0));
        }
        proof {
            lemma_pow10_vals();
            lemma_pow10_mono((mneg - 1) as nat, 25);
            lemma_pow10_mono(mneg as nat, 25);
        }
        let powm = pow10_u128(mneg);
        let half = 5 * pow10_u128(mneg - 1);
        let total = (acc + half) / powm;
        if total > maxt {
            return None;
        }
        Some(timestamp_of_total(total))
    }
}

/// A digit in front raises the value by its weight at that position.
pub proof fn lemma_digits_val_prepend(c: char, s: Seq<char>)
    ensures
        digits_val(seq![c] + s) == digit_val(c) * pow10(s.len()) + digits_val(s),
    decreases s.len(),
{
    if s.len() == 0 {
        assert(seq![c] + s =~= seq![c]);
        assert((seq![c]).drop_last() =~= Seq::<char>::empty());
        assert(digits_val(Seq::<char>::empty()) == 0);
        assert((seq![c]).last() == c);
        assert(digits_val(seq![c]) == digit_val(c));
    } else {
        let t = seq![c] + s;
        assert(t.drop_last() =~= seq![c] + s.drop_last());
        assert(t.last() == s.last());
        lemma_digits_val_prepend(c, s.drop_last());
        assert((digit_val(c) * pow10((s.len() - 1) as nat)) * 10 == digit_val(c) * (10 * pow10(
            (s.len() - 1) as nat,
        ))) by (nonlinear_arith);
        assert(pow10(s.len()) == 10 * pow10((s.len() - 1) as nat));
    }
}

/// The decimal digits of a positive count, most significant first.
fn u128_digits(n: u128) -> (r: Vec<char>)
    requires
        n >= 1,
    ensures
        all_digits(r@),
        digits_val(r@) == n,
        r@.len() >= 1,
        pow10((r@.len() - 1) as nat) <= n,
        r@[0] != '0',
{
    let mut digs: Vec<char> = Vec::new();
    let mut m = n;
    while m > 0
        invariant
            all_digits(digs@),
            n as int == m as int * pow10(digs@.len()) + digits_val(digs@),
            m == 0 && digs@.len() > 0 ==> digits_val(digs@) >= pow10((digs@.len() - 1) as nat),
            m == 0 && digs@.len() > 0 ==> digit_val(digs@[0]) >= 1,
            digits_val(digs@) >= 0,
        decreases m,
    {
        let d = (m % 10) as u32;
        let c = ((48 + d) as u8) as char;
        let ghost olddigs = digs@;
        let ghost oldm = m;
        digs.insert(0, c);
        m = m / 10;
        proof {
            assert(digs@ =~= seq![c] + olddigs);
            lemma_digits_val_prepend(c, olddigs);
            assert(digit_val(c) == d);
            assert(is_digit(c));
            lemma_digits_val_nonneg(digs@);
            lemma_pow10_pos(olddigs.len());
            vstd::arithmetic::div_mod::lemma_fundamental_div_mod(oldm as int, 10);
            assert(m as int * pow10(digs@.len()) == (m as int * 10) * pow10(olddigs.len()))
                by (nonlinear_arith)
                requires
                    pow10(digs@.len()) == 10 * pow10(olddigs.len()),
            ;
            assert(oldm as int * pow10(olddigs.len()) == (m as int * 10) * pow10(olddigs.len()) + d
                * pow10(olddigs.len())) by (nonlinear_arith)
                requires
                    oldm as int == m as int * 10 + d,
            ;
            if m == 0 {
                lemma_digits_val_nonneg(olddigs);
                assert(d >= 1);
                assert(digits_val(digs@) >= pow10(olddigs.len())) by (nonlinear_arith)
                    requires
                        digits_val(digs@) == d * pow10(olddigs.len()) + digits_val(olddigs),
                        d >= 1,
                        digits_val(olddigs) >= 0,
                        pow10(olddigs.len()) >= 0,
                ;
            }
        }
    }
    digs
}

/// Render an instant as fractional Unix seconds in exponent notation: the
/// whole-nanosecond count followed by a scale of a thousand-millionth.
/// The text denotes the instant exactly: reading it back with
/// `parse_float_seconds` returns `t` itself.
pub fn render_float_seconds(t: &Timestamp) -> (r: String)
    requires
        t.wf(),
    ensures
        float_text_parseable(r@),
        float_text_nanos(r@) == t.total_nanos(),
        has_exp(r@) && !has_frac(r@) && float_text_exp(r@) == -9,
        all_digits(ipart(r@)) && digits_val(ipart(r@)) == t.total_nanos(),
{
    let total: u128 = (t.secs as u128) * 1_000_000_000 + (t.nanos as u128);
    let mut out: Vec<char>;
    if total == 0 {
        out = Vec::new();
        out.push('0');
        proof {
            assert(out@ =~= seq!['0']);
            assert((seq!['0']).drop_last() =~= Seq::<char>::empty());
            assert(digits_val(Seq::<char>::empty()) == 0);
            assert((seq!['0']).last() == '0');
            assert(digit_val('0') == 0);
            assert(digits_val(out@) == 0);
            assert(all_digits(out@));
        }
    } else {
        out = u128_digits(total);
        proof {
            lemma_pow10_vals();
            if out@.len() - 1 >= 19 {
                lemma_pow10_mono(19, (out@.len() - 1) as nat);
                assert(pow10(19) == 10 * pow10(18));
                assert(false);
            }
        }
    }
    let ghost dv = out@;
    out.push('e');
    out.push('-');
    out.push('9');
    let s = chars_to_string(&out);
    let ghost cs = s@;
    let ghost ld = dv.len() as int;
    proof {
        assert(cs =~= dv + seq!['e', '-', '9']);
        assert forall|k: int| 0 <= k < ld implies cs[k] != 'e' && cs[k] != 'E' by {
            assert(cs[k] == dv[k]);
            assert(is_digit(dv[k]));
        }
        assert(cs[ld] == 'e');
        lemma_scan_to_is(cs, 'e', 'E', ld);
        assert(mant(cs) =~= dv);
        assert forall|k: int| 0 <= k < ld implies mant(cs)[k] != '.' && mant(cs)[k] != '.' by {
            assert(is_digit(mant(cs)[k]));
        }
        lemma_scan_to_is(mant(cs), '.', '.', ld);
        assert(!has_frac(cs));
        assert(ipart(cs) =~= dv);
        assert(fpart(cs) =~= Seq::<char>::empty());
        assert(mant_digits(cs) =~= dv);
        assert(exp_text(cs) =~= seq!['-', '9']);
        assert(int_text_digits(exp_text(cs)) =~= seq!['9']);
        assert((seq!['9']).drop_last() =~= Seq::<char>::empty());
        assert(digits_val(Seq::<char>::empty()) == 0);
        assert((seq!['9']).last() == '9');
        assert(digit_val('9') == 9);
        assert(digits_val(seq!['9']) == 9);
        assert(is_digit('9'));
        assert(all_digits(int_text_digits(exp_text(cs))));
        assert(int_text_val(exp_text(cs)) == -9);
        assert(float_text_exp(cs) == -9);
        assert(float_text_nanos(cs) == digits_val(dv) * pow10(0));
        assert(digits_val(dv) * pow10(0) == digits_val(dv)) by (nonlinear_arith)
            requires
                pow10(0) == 1,
        ;
        assert(total as int == t.total_nanos());
        assert(t.total_nanos() <= max_total_nanos());
    }
    s
}

/// One instant has one nanosecond count: two well-formed timestamps that
/// denote the same whole-nanosecond count are the same timestamp. With the
/// contracts of `render_float_seconds` and `parse_float_seconds`, rendering
/// a timestamp and reading the text back reproduces it exactly.
pub proof fn lemma_timestamp_unique(a: Timestamp, b: Timestamp)
    requires
        a.wf(),
        b.wf(),
        a.total_nanos() == b.total_nanos(),
    ensures
        a == b,
{
    let np = crate::time::NANOS_PER_SEC as int;
    assert(a.secs == b.secs) by (nonlinear_arith)
        requires
            a.secs * np + a.nanos == b.secs * np + b.nanos,
            0 <= a.nanos < np,
            0 <= b.nanos < np,
            np == 1_000_000_000,
    ;
}

/// The digit strings that denote a `u32`: at most ten digits, value in
/// range.
pub open spec fn u32_text_ok(s: Seq<char>) -> bool {
    1 <= s.len() <= 10 && all_digits(s) && digits_val(s) <= u32::MAX
}

/// Parse an unsigned decimal digit string into a `u32`. Succeeds exactly
/// on non-empty strings of at most ten digits whose value fits.
#[verifier::loop_isolation(false)]
pub fn parse_u32_digits(v: &Vec<char>) -> (r: Option<u32>)
    ensures
        r is Some <==> u32_text_ok(v@),
        r matches Some(x) ==> x == digits_val(v@),
{
    let n = v.len();
    if n == 0 || n > 10 {
        return None;
    }
    let mut acc: u64 = 0;
    let mut i: usize = 0;
    while i < n
        invariant
            0 <= i <= n,
            all_digits(v@.take(i as int)),
            acc == digits_val(v@.take(i as int)),
            acc < pow10(i as nat),
        decreases n - i,
    {
        let c = v[i];
        if !(c as u32 >= '0' as u32 && c as u32 <= '9' as u32) {
            return None;
        }
        proof {
            lemma_digits_val_take_step(v@, i as int);
            assert forall|k: int| 0 <= k < i + 1 implies is_digit(#[trigger] v@.take(i + 1)[k]) by {
                if k < i {
                    assert(is_digit(v@.take(i as int)[k]));
                } else {
                    assert(v@.take(i + 1)[k] == v@[i as int]);
                }
            }
            lemma_pow10_mono((i + 1) as nat, 10);
            lemma_pow10_vals();
        }
        acc = acc * 10 + ((c as u32 - '0' as u32) as u64);
        i = i + 1;
    }
    proof {
        assert(v@.take(n as int) =~= v@);
    }
    if acc > 0xffff_ffff {
        None
    } else {
        Some(acc as u32)
    }
}

/// Render a count as decimal digits.
pub fn render_u64(n: u64) -> (r: String)
    ensures
        all_digits(r@),
        digits_val(r@) == n,
        r@.len() >= 1,
        r@.len() > 1 ==> r@[0] != '0',
{
    if n == 0 {
        let mut out: Vec<char> = Vec::new();
        out.push('0');
        proof {
            assert(out@ =~= seq!['0']);
            assert((seq!['0']).drop_last() =~= Seq::<char>::empty());
            assert(digits_val(Seq::<char>::empty()) == 0);
            assert((seq!['0']).last() == '0');
            assert(digits_val(out@) == 0);
            assert(all_digits(out@));
        }
        chars_to_string(&out)
    } else {
        let digs = u128_digits(n as u128);
        chars_to_string(&digs)
    }
}

/// Round trip: rendering a well-formed timestamp and reading the text
/// back reproduces it exactly. Here `s` is any text that denotes `t`'s
/// whole-nanosecond count, as `render_float_seconds` ensures of its result,
/// and `u` any timestamp read back from `s`, as `parse_float_seconds`
/// ensures of its result: the two instants are one.
pub proof fn lemma_float_seconds_round_trip(t: Timestamp, s: Seq<char>, u: Timestamp)
    requires
        t.wf(),
        float_text_nanos(s) == t.total_nanos(),
        u.wf(),
        u.total_nanos() == float_text_nanos(s),
    ensures
        u == t,
{
    lemma_timestamp_unique(u, t);
}

/// Parse fractional Unix seconds from a string.
pub fn parse_float_seconds_str(s: &str) -> (r: Option<Timestamp>)
    ensures
        r is Some <==> float_text_parseable(s@),
        r matches Some(t) ==> t.wf() && t.total_nanos() == float_text_nanos(s@),
{
    let v = crate::text::str_to_chars(s);
    parse_float_seconds(&v)
}

} // verus!
