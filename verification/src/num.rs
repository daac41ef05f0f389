//! Exact decimal scalars.
//!
//! Every coordinate, timestamp and rate in this library is a signed decimal
//! number held as an `i64` count of micro-units (millionths). A field such as
//! `-12.5` becomes `-12_500_000`. Parsing is defined character by character
//! over the byte text of a field, so a contract can say exactly which texts
//! are accepted and which value each one denotes.

use vstd::prelude::*;

verus! {

/// Scale factor between a whole unit and the stored micro-units.
pub const MICRO: i64 = 1_000_000;

/// Largest value allowed for the integer part of a parsed decimal.
pub const INT_PART_MAX: i64 = 999_999_999_999;

/// ASCII codes used by the decimal grammar.
pub const DOT: u8 = 46;

pub const MINUS: u8 = 45;

pub const PLUS: u8 = 43;

pub open spec fn is_digit(b: u8) -> bool {
    48 <= b && b <= 57
}

/// Numeric value of one ASCII digit.
pub open spec fn digit_val(b: u8) -> int {
    b - 48
}

pub open spec fn all_digits(s: Seq<u8>) -> bool {
    forall|i: int| 0 <= i < s.len() ==> is_digit(s[i])
}

/// Value of a digit string read in base ten.
pub open spec fn digits_val(s: Seq<u8>) -> int
    decreases s.len(),
{
    if s.len() == 0 {
        0
    } else {
        digits_val(s.drop_last()) * 10 + digit_val(s.last())
    }
}

pub open spec fn pow10(n: nat) -> int
    decreases n,
{
    if n == 0 {
        1
    } else {
        10 * pow10((n - 1) as nat)
    }
}

/// Micro-unit value of a fraction digit string: only the first six fraction
/// digits contribute, shorter strings are scaled up to six places.
pub open spec fn frac_micro(s: Seq<u8>) -> int {
    if s.len() >= 6 {
        digits_val(s.take(6))
    } else {
        digits_val(s) * pow10((6 - s.len()) as nat)
    }
}

/// Index of the first dot in a byte string, or its length when there is none.
pub open spec fn first_dot(s: Seq<u8>) -> int
    decreases s.len(),
{
    if s.len() == 0 {
        0
    } else if s[0] == DOT {
        0
    } else {
        1 + first_dot(s.drop_first())
    }
}

pub open spec fn int_part(s: Seq<u8>) -> Seq<u8> {
    s.take(first_dot(s))
}

pub open spec fn frac_part(s: Seq<u8>) -> Seq<u8> {
    if first_dot(s) < s.len() {
        s.skip(first_dot(s) + 1)
    } else {
        Seq::empty()
    }
}

/// An unsigned decimal body: digits, at most one dot, at least one digit.
pub open spec fn body_valid(s: Seq<u8>) -> bool {
    &&& all_digits(int_part(s))
    &&& all_digits(frac_part(s))
    &&& int_part(s).len() + frac_part(s).len() > 0
}

pub open spec fn has_sign(s: Seq<u8>) -> bool {
    s.len() > 0 && (s[0] == MINUS || s[0] == PLUS)
}

pub open spec fn dec_body(s: Seq<u8>) -> Seq<u8> {
    if has_sign(s) {
        s.drop_first()
    } else {
        s
    }
}

pub open spec fn dec_sign(s: Seq<u8>) -> int {
    if s.len() > 0 && s[0] == MINUS {
        -1
    } else {
        1
    }
}

/// Micro-unit magnitude of a valid unsigned body.
pub open spec fn body_micro(s: Seq<u8>) -> int {
    digits_val(int_part(s)) * MICRO + frac_micro(frac_part(s))
}

/// The value, in micro-units, that a byte text denotes, or `None` where the
/// text is not a decimal number this library accepts: an optional sign, then
/// digits with at most one dot and at least one digit, with an integer part
/// of at most `INT_PART_MAX`.
pub open spec fn scalar_of(s: Seq<u8>) -> Option<int> {
    if body_valid(dec_body(s)) && digits_val(int_part(dec_body(s))) <= INT_PART_MAX {
        Some(dec_sign(s) * body_micro(dec_body(s)))
    } else {
        None
    }
}

/// Range of every freshly parsed scalar.
pub open spec fn in_parse_range(v: int) -> bool {
    -1_000_000_000_000_000_000 < v < 1_000_000_000_000_000_000
}

/// Range of every coordinate after one translation step.
pub open spec fn in_coord_range(v: int) -> bool {
    -2_000_000_000_000_000_000 <= v <= 2_000_000_000_000_000_000
}

/// Division by one thousand rounded toward zero, as machine division does it.
pub open spec fn div1000_trunc(d: int) -> int {
    if d >= 0 {
        d / 1000
    } else {
        -((-d) / 1000)
    }
}

pub proof fn lemma_digits_val_bounds(s: Seq<u8>)
    requires
        all_digits(s),
    ensures
        0 <= digits_val(s) < pow10(s.len()),
    decreases s.len(),
{
    if s.len() == 0 {
    } else {
        assert(is_digit(s.last()));
        lemma_digits_val_bounds(s.drop_last());
        assert(pow10(s.len()) == 10 * pow10(s.drop_last().len()));
    }
}

pub proof fn lemma_pow10_6()
    ensures
        pow10(0) == 1,
        pow10(1) == 10,
        pow10(2) == 100,
        pow10(3) == 1_000,
        pow10(4) == 10_000,
        pow10(5) == 100_000,
        pow10(6) == 1_000_000,
{
    assert(pow10(0) == 1);
    assert(pow10(1) == 10);
    assert(pow10(2) == 100);
    assert(pow10(3) == 1_000);
    assert(pow10(4) == 10_000);
    assert(pow10(5) == 100_000);
    assert(pow10(6) == 1_000_000);
}

/// Concrete bounds for the small powers of ten the fraction scaling uses.
pub proof fn lemma_pow10_small(n: nat)
    requires
        n <= 6,
    ensures
        1 <= pow10(n),
        pow10(n) <= 1_000_000,
        n <= 5 ==> pow10(n) <= 100_000,
{
    lemma_pow10_6();
    if n == 0 {
    } else if n == 1 {
    } else if n == 2 {
    } else if n == 3 {
    } else if n == 4 {
    } else if n == 5 {
    } else {
    }
}

/// Appending digits never shrinks the value of a digit string's prefix.
pub proof fn lemma_digits_val_prefix_mono(s: Seq<u8>, j: int, k: int)
    requires
        all_digits(s),
        0 <= j <= k <= s.len(),
    ensures
        digits_val(s.take(j)) <= digits_val(s.take(k)),
    decreases k - j,
{
    if j < k {
        lemma_digits_val_prefix_mono(s, j, k - 1);
        assert(s.take(k).drop_last() =~= s.take(k - 1));
        assert(all_digits(s.take(k - 1)));
        lemma_digits_val_bounds(s.take(k - 1));
        assert(digits_val(s.take(k)) == digits_val(s.take(k - 1)) * 10 + digit_val(s[k - 1]));
    }
}

/// `first_dot` is the position of the first dot: everything before it is not
/// a dot, and it points at a dot unless there is none.
pub proof fn lemma_first_dot_at(s: Seq<u8>, k: int)
    requires
        0 <= k <= s.len(),
        forall|j: int| 0 <= j < k ==> s[j] != DOT,
        k < s.len() ==> s[k] == DOT,
    ensures
        first_dot(s) == k,
    decreases s.len(),
{
    if s.len() == 0 {
    } else if s[0] == DOT {
        assert(k == 0);
    } else {
        assert(k >= 1);
        lemma_first_dot_at(s.drop_first(), k - 1);
    }
}

/// Growing a digit string by one digit multiplies its value by ten and adds
/// the digit.
pub proof fn lemma_digits_val_step(s: Seq<u8>, k: int)
    requires
        0 <= k < s.len(),
    ensures
        digits_val(s.take(k + 1)) == digits_val(s.take(k)) * 10 + digit_val(s[k]),
{
    assert(s.take(k + 1).drop_last() =~= s.take(k));
    assert(s.take(k + 1).last() == s[k]);
}

/// A parsed scalar always lies strictly inside the parse range.
pub proof fn lemma_scalar_of_range(s: Seq<u8>)
    requires
        scalar_of(s) is Some,
    ensures
        in_parse_range(scalar_of(s)->Some_0),
{
    let b = dec_body(s);
    lemma_digits_val_bounds(int_part(b));
    lemma_frac_micro_bounds(frac_part(b));
}

/// The fraction contribution is at most six digits' worth of micro-units.
pub proof fn lemma_frac_micro_bounds(s: Seq<u8>)
    requires
        all_digits(s),
    ensures
        0 <= frac_micro(s) < 1_000_000,
{
    lemma_pow10_6();
    if s.len() >= 6 {
        assert(all_digits(s.take(6)));
        lemma_digits_val_bounds(s.take(6));
    } else {
        lemma_digits_val_bounds(s);
        lemma_pow10_split(s.len() as nat);
        let dv = digits_val(s);
        let p1 = pow10(s.len() as nat);
        let p2 = pow10((6 - s.len()) as nat);
        assert(0 <= dv * p2 < 1_000_000) by (nonlinear_arith)
            requires
                0 <= dv,
                dv < p1,
                p1 * p2 == 1_000_000,
                p2 >= 1,
        ;
    }
}

/// `pow10` splits over a short string's length: value times scale stays
/// under one million.
proof fn lemma_pow10_split(n: nat)
    requires
        n < 6,
    ensures
        pow10(n) * pow10((6 - n) as nat) == 1_000_000,
        pow10(n) >= 1,
        pow10((6 - n) as nat) >= 1,
{
    lemma_pow10_6();
    if n == 0 {
    } else if n == 1 {
    } else if n == 2 {
    } else if n == 3 {
    } else if n == 4 {
    } else {
    }
}

/// Parse the byte text of one decimal field into micro-units.
#[verifier::rlimit(50)]
pub fn parse_scalar(s: &Vec<u8>) -> (r: Option<i64>)
    ensures
        match r {
            Some(v) => scalar_of(s@) == Some(v as int),
            None => scalar_of(s@) is None,
        },
{
    let n: usize = s.len();
    let mut i: usize = 0;
    let mut neg: bool = false;
    if n > 0 && (s[0] == MINUS || s[0] == PLUS) {
        neg = s[0] == MINUS;
        i = 1;
    }
    let start: usize = i;
    let ghost body: Seq<u8> = dec_body(s@);
    proof {
        assert(body =~= s@.skip(start as int));
    }
    let mut iv: i64 = 0;
    while i < n && s[i] != DOT
        invariant
            start <= i <= n,
            n == s@.len(),
            body == s@.skip(start as int),
            body == dec_body(s@),
            forall|j: int| 0 <= j < i - start ==> body[j] != DOT,
            all_digits(body.take(i - start)),
            0 <= iv <= INT_PART_MAX,
            iv == digits_val(body.take(i - start)),
        decreases n - i,
    {
        let c: u8 = s[i];
        if !(48 <= c && c <= 57) {
            proof {
                assert(body[i - start] == s@[i as int]);
                lemma_first_dot_char(body);
                assert(first_dot(body) > i - start);
                assert(int_part(body).len() == first_dot(body));
                assert(int_part(body)[i - start] == body[i - start]);
                assert(!is_digit(int_part(body)[i - start]));
                assert(!all_digits(int_part(body)));
            }
            return None;
        }
        let d: u8 = c - 48;
        proof {
            lemma_digits_val_step(body, i - start);
            assert(body.take(i - start + 1).drop_last() =~= body.take(i - start));
        }
        if iv > (INT_PART_MAX - d as i64) / 10 {
            proof {
                lemma_reject_large_int(body, i + 1 - start);
            }
            return None;
        }
        iv = iv * 10 + d as i64;
        i = i + 1;
    }
    let int_len: usize = i - start;
    proof {
        if i == n {
            lemma_first_dot_at(body, n - start);
        } else {
            lemma_first_dot_at(body, i - start);
        }
    }
    let mut fv: i64 = 0;
    let mut cnt: usize = 0;
    let mut frac_len: usize = 0;
    if i < n {
        i = i + 1;
        let fstart: usize = i;
        let ghost frac: Seq<u8> = frac_part(body);
        proof {
            assert(frac =~= s@.skip(fstart as int));
        }
        while i < n
            invariant
                fstart <= i <= n,
                n == s@.len(),
                frac == s@.skip(fstart as int),
                frac == frac_part(body),
                body == dec_body(s@),
                frac.len() == n - fstart,
                all_digits(frac.take(i - fstart)),
                cnt == if i - fstart <= 6 { i - fstart } else { 6int },
                0 <= fv < 1_000_000,
                fv == digits_val(frac.take(cnt as int)),
            decreases n - i,
        {
            let c: u8 = s[i];
            if !(48 <= c && c <= 57) {
                proof {
                    assert(frac[i - fstart] == c);
                    assert(!all_digits(frac));
                }
                return None;
            }
            if cnt < 6 {
                proof {
                    lemma_digits_val_step(frac, cnt as int);
                    lemma_digits_val_bounds(frac.take(cnt as int));
                    lemma_pow10_small(cnt as nat);
                    assert(frac.take(cnt + 1).drop_last() =~= frac.take(cnt as int));
                }
                fv = fv * 10 + (c - 48) as i64;
                cnt = cnt + 1;
            }
            proof {
                assert(frac.take(i + 1 - fstart).drop_last() =~= frac.take(i - fstart));
            }
            i = i + 1;
        }
        frac_len = n - fstart;
        proof {
            assert(frac.take(frac_len as int) =~= frac);
            if frac_len >= 6 {
                assert(frac.take(cnt as int) == frac.take(6));
            }
        }
    }
    if int_len == 0 && frac_len == 0 {
        proof {
            assert(int_part(body).len() == 0);
            assert(frac_part(body).len() == 0);
        }
        return None;
    }
    let scale: i64 = if cnt == 0 {
        1_000_000
    } else if cnt == 1 {
        100_000
    } else if cnt == 2 {
        10_000
    } else if cnt == 3 {
        1_000
    } else if cnt == 4 {
        100
    } else if cnt == 5 {
        10
    } else {
        1
    };
    proof {
        reveal_with_fuel(pow10, 7);
        lemma_digits_val_bounds(frac_part(body).take(cnt as int));
    }
    let fm: i64 = fv * scale;
    proof {
        lemma_frac_micro_bounds(frac_part(body));
        assert(fm == frac_micro(frac_part(body))) by {
            let frac = frac_part(body);
            if frac.len() >= 6 {
                assert(cnt == 6);
            } else {
                assert(cnt == frac.len());
                assert(scale == pow10((6 - frac.len()) as nat));
            }
        }
    }
    let mag: i64 = iv * MICRO + fm;
    proof {
        assert(int_part(body) =~= body.take(int_len as int));
        assert(mag == body_micro(body));
    }
    let v: i64 = if neg {
        -mag
    } else {
        mag
    };
    Some(v)
}

/// Once the accumulated integer part is too large, the whole text is
/// rejected: later digits only grow it.
proof fn lemma_reject_large_int(s: Seq<u8>, j: int)
    requires
        0 <= j <= s.len(),
        forall|t: int| 0 <= t < j ==> s[t] != DOT,
        digits_val(s.take(j)) > INT_PART_MAX,
    ensures
        !(body_valid(s) && digits_val(int_part(s)) <= INT_PART_MAX),
{
    if body_valid(s) {
        let d = first_dot(s);
        lemma_first_dot_char(s);
        assert(d >= j);
        if digits_val(int_part(s)) <= INT_PART_MAX {
            lemma_digits_val_prefix_mono(s.take(d), j, d);
            assert(s.take(d).take(j) =~= s.take(j));
            assert(s.take(d).take(d) =~= s.take(d));
        }
    }
}

/// The byte at `first_dot`, when inside the string, is a dot.
pub proof fn lemma_first_dot_char(s: Seq<u8>)
    ensures
        0 <= first_dot(s) <= s.len(),
        first_dot(s) < s.len() ==> s[first_dot(s)] == DOT,
        forall|j: int| 0 <= j < first_dot(s) ==> s[j] != DOT,
    decreases s.len(),
{
    if s.len() > 0 && s[0] != DOT {
        lemma_first_dot_char(s.drop_first());
        assert forall|j: int| 0 <= j < first_dot(s) implies s[j] != DOT by {
            if j > 0 {
                assert(s.drop_first()[j - 1] == s[j]);
            }
        }
    }
}

/// Truncating division by one thousand, matching `div1000_trunc`.
pub fn div_ms(d: i64) -> (r: i64)
    requires
        -5_000_000_000_000_000_000 <= d <= 5_000_000_000_000_000_000,
    ensures
        r == div1000_trunc(d as int),
{
    if d >= 0 {
        d / 1000
    } else {
        -((-d) / 1000)
    }
}

} // verus!
