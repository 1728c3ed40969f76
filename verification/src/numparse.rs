//! Decimal integer parsing with the semantics of `str::parse` for `i32` and
//! `usize`: an optional sign, then one or more ASCII digits.

use vstd::prelude::*;

verus! {

/// Why a decimal integer could not be parsed.
#[derive(Debug, Clone, Copy, PartialEq, Eq, Structural)]
pub enum IntErrorKind {
    /// The text is empty.
    Empty,
    /// A character that is not a digit, or a sign with no digits after it.
    InvalidDigit,
    /// The value is larger than the target type's maximum.
    PosOverflow,
    /// The value is smaller than the target type's minimum.
    NegOverflow,
}

pub open spec fn is_digit(c: char) -> bool {
    '0' <= c && c <= '9'
}

pub open spec fn digit_value(c: char) -> nat {
    (c as int - '0' as int) as nat
}

/// Number of leading decimal digits of `d`.
pub open spec fn digit_run(d: Seq<char>) -> nat
    decreases d.len(),
{
    if d.len() == 0 {
        0
    } else if is_digit(d[0]) {
        1 + digit_run(d.drop_first())
    } else {
        0
    }
}

/// The value of a sequence of decimal digits, most significant first.
pub open spec fn decimal_value(d: Seq<char>) -> nat
    decreases d.len(),
{
    if d.len() == 0 {
        0
    } else {
        10 * decimal_value(d.drop_last()) + digit_value(d.last())
    }
}

/// What parsing `s` as a decimal integer in `[min, max]` gives; a leading
/// `-` is a sign only when `signed`. Digits are read left to right: the
/// result is an overflow if the leading digits already leave the range,
/// otherwise an invalid digit if anything but digits follows.
pub open spec fn spec_parse_int(s: Seq<char>, signed: bool, min: int, max: int) -> Result<
    int,
    IntErrorKind,
> {
    if s.len() == 0 {
        Err(IntErrorKind::Empty)
    } else if (s[0] == '+' || s[0] == '-') && s.len() == 1 {
        Err(IntErrorKind::InvalidDigit)
    } else {
        let negative = signed && s[0] == '-';
        let d = if s[0] == '+' || negative {
            s.drop_first()
        } else {
            s
        };
        let mag = decimal_value(d.take(digit_run(d) as int)) as int;
        if !negative && mag > max {
            Err(IntErrorKind::PosOverflow)
        } else if negative && -mag < min {
            Err(IntErrorKind::NegOverflow)
        } else if digit_run(d) < d.len() {
            Err(IntErrorKind::InvalidDigit)
        } else if negative {
            Ok(-mag)
        } else {
            Ok(mag)
        }
    }
}

pub open spec fn spec_parse_i32(s: Seq<char>) -> Result<int, IntErrorKind> {
    spec_parse_int(s, true, i32::MIN as int, i32::MAX as int)
}

pub open spec fn spec_parse_usize(s: Seq<char>) -> Result<int, IntErrorKind> {
    spec_parse_int(s, false, 0, usize::MAX as int)
}

proof fn lemma_digit_run_exact(d: Seq<char>, k: int)
    requires
        0 <= k <= d.len(),
        forall|j: int| 0 <= j < k ==> is_digit(#[trigger] d[j]),
        k == d.len() || !is_digit(d[k]),
    ensures
        digit_run(d) == k,
    decreases k,
{
    if k > 0 {
        lemma_digit_run_exact(d.drop_first(), k - 1);
    }
}

proof fn lemma_digit_run_at_least(d: Seq<char>, k: int)
    requires
        0 <= k <= d.len(),
        forall|j: int| 0 <= j < k ==> is_digit(#[trigger] d[j]),
    ensures
        k <= digit_run(d) <= d.len(),
    decreases d.len(),
{
    if d.len() > 0 && is_digit(d[0]) {
        let k1 = if k > 0 { k - 1 } else { 0 };
        lemma_digit_run_at_least(d.drop_first(), k1);
    }
}

proof fn lemma_decimal_value_mono(d: Seq<char>, j: int, k: int)
    requires
        0 <= j <= k <= d.len(),
    ensures
        decimal_value(d.take(j)) <= decimal_value(d.take(k)),
    decreases k - j,
{
    if j < k {
        lemma_decimal_value_mono(d, j, k - 1);
        assert(d.take(k).drop_last() =~= d.take(k - 1));
    }
}

proof fn lemma_digit_run_full(d: Seq<char>)
    requires
        digit_run(d) == d.len(),
    ensures
        forall|i: int| 0 <= i < d.len() ==> is_digit(#[trigger] d[i]),
    decreases d.len(),
{
    if d.len() > 0 {
        lemma_digit_run_full(d.drop_first());
        assert forall|i: int| 0 <= i < d.len() implies is_digit(#[trigger] d[i]) by {
            if i > 0 {
                assert(d[i] == d.drop_first()[i - 1]);
            }
        }
    }
}

/// `t` without its leading sign, if it has one.
pub open spec fn unsigned_part(t: Seq<char>, signed: bool) -> Seq<char> {
    if t.len() > 0 && (t[0] == '+' || (signed && t[0] == '-')) {
        t.drop_first()
    } else {
        t
    }
}

/// `t` is an optional sign followed by at least one decimal digit and
/// nothing else.
pub open spec fn is_decimal_text(t: Seq<char>, signed: bool) -> bool {
    &&& unsigned_part(t, signed).len() > 0
    &&& forall|i: int|
        0 <= i < unsigned_part(t, signed).len() ==> is_digit(#[trigger] unsigned_part(t, signed)[i])
}

/// A parse succeeds only on a non-empty run of decimal digits after an
/// optional sign, and its value lies in the target range.
pub proof fn lemma_parse_accepts_decimal(s: Seq<char>, signed: bool, min: int, max: int)
    requires
        min <= 0 <= max,
    ensures
        spec_parse_int(s, signed, min, max) matches Ok(v) ==> min <= v <= max && is_decimal_text(
            s,
            signed,
        ),
        spec_parse_int(s, signed, min, max) == Err::<int, IntErrorKind>(IntErrorKind::Empty)
            <==> s.len() == 0,
{
    if s.len() > 0 && !((s[0] == '+' || s[0] == '-') && s.len() == 1) {
        let negative = signed && s[0] == '-';
        let d = if s[0] == '+' || negative {
            s.drop_first()
        } else {
            s
        };
        lemma_digit_run_at_least(d, 0);
        if digit_run(d) == d.len() {
            lemma_digit_run_full(d);
        }
    }
}

/// Parses `s[start..]` as a decimal integer in `[min, max]`.
#[verifier::loop_isolation(false)]
fn parse_decimal_from(s: &Vec<char>, start: usize, signed: bool, min: i128, max: i128) -> (r:
    Result<i128, IntErrorKind>)
    requires
        start <= s.len(),
        -0x1_0000_0000_0000_0000 <= min <= 0 <= max <= 0x1_0000_0000_0000_0000,
    ensures
        match r {
            Ok(v) => spec_parse_int(s@.skip(start as int), signed, min as int, max as int) == Ok::<
                int,
                IntErrorKind,
            >(v as int),
            Err(e) => spec_parse_int(s@.skip(start as int), signed, min as int, max as int) == Err::<
                int,
                IntErrorKind,
            >(e),
        },
{
    let ghost t = s@.skip(start as int);
    let n = s.len();
    if start == n {
        return Err(IntErrorKind::Empty);
    }
    let first = s[start];
    if (first == '+' || first == '-') && start + 1 == n {
        return Err(IntErrorKind::InvalidDigit);
    }
    let negative = signed && first == '-';
    let off: usize = if first == '+' || negative {
        start + 1
    } else {
        start
    };
    let bound: u128 = if negative {
        (0 - min) as u128
    } else {
        max as u128
    };
    let ghost d = s@.skip(off as int);
    assert(d =~= (if first == '+' || negative {
        t.drop_first()
    } else {
        t
    }));
    let mut mag: u128 = 0;
    let mut i: usize = off;
    while i < n
        invariant
            off <= i <= n,
            n == s.len(),
            d == s@.skip(off as int),
            bound <= 0x1_0000_0000_0000_0000,
            forall|j: int| 0 <= j < i - off ==> is_digit(#[trigger] d[j]),
            mag == decimal_value(d.take(i - off)),
            mag <= bound,
        decreases n - i,
    {
        let c = s[i];
        if !('0' <= c && c <= '9') {
            proof {
                lemma_digit_run_exact(d, i - off);
            }
            return Err(IntErrorKind::InvalidDigit);
        }
        let dv = (c as u32 - '0' as u32) as u128;
        let next = mag * 10 + dv;
        proof {
            assert(d.take(i - off + 1).drop_last() =~= d.take(i - off));
            assert(d[i - off] == c);
        }
        if next > bound {
            proof {
                lemma_digit_run_at_least(d, i - off + 1);
                lemma_decimal_value_mono(d, i - off + 1, digit_run(d) as int);
            }
            if negative {
                return Err(IntErrorKind::NegOverflow);
            } else {
                return Err(IntErrorKind::PosOverflow);
            }
        }
        mag = next;
        i = i + 1;
    }
    proof {
        lemma_digit_run_exact(d, d.len() as int);
        assert(d.take(d.len() as int) =~= d);
    }
    if negative {
        Ok(0 - (mag as i128))
    } else {
        Ok(mag as i128)
    }
}

/// Parses `s[start..]` as an `i32`, as `str::parse::<i32>` does.
pub fn parse_i32_from(s: &Vec<char>, start: usize) -> (r: Result<i32, IntErrorKind>)
    requires
        start <= s.len(),
    ensures
        match r {
            Ok(v) => spec_parse_i32(s@.skip(start as int)) == Ok::<int, IntErrorKind>(v as int),
            Err(e) => spec_parse_i32(s@.skip(start as int)) == Err::<int, IntErrorKind>(e),
        },
        r matches Ok(v) ==> is_decimal_text(s@.skip(start as int), true),
        r == Err::<i32, IntErrorKind>(IntErrorKind::Empty) <==> start == s@.len(),
{
    proof {
        lemma_parse_accepts_decimal(s@.skip(start as int), true, i32::MIN as int, i32::MAX as int);
    }
    match parse_decimal_from(s, start, true, i32::MIN as i128, i32::MAX as i128) {
        Ok(v) => Ok(v as i32),
        Err(e) => Err(e),
    }
}

/// Parses `s[start..]` as a `usize`, as `str::parse::<usize>` does.
pub fn parse_usize_from(s: &Vec<char>, start: usize) -> (r: Result<usize, IntErrorKind>)
    requires
        start <= s.len(),
    ensures
        match r {
            Ok(v) => spec_parse_usize(s@.skip(start as int)) == Ok::<int, IntErrorKind>(v as int),
            Err(e) => spec_parse_usize(s@.skip(start as int)) == Err::<int, IntErrorKind>(e),
        },
        r matches Ok(v) ==> is_decimal_text(s@.skip(start as int), false),
        r == Err::<usize, IntErrorKind>(IntErrorKind::Empty) <==> start == s@.len(),
{
    proof {
        lemma_parse_accepts_decimal(s@.skip(start as int), false, 0, usize::MAX as int);
    }
    match parse_decimal_from(s, start, false, 0, usize::MAX as i128) {
        Ok(v) => Ok(v as usize),
        Err(e) => Err(e),
    }
}

} // verus!
