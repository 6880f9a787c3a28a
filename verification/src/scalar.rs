//! Parse-or-fail conversion from decimal text to integer values: the meaning
//! of digit runs and optionally signed integer literals, and the
//! [`FromStrUnwrap`] trait whose `parse` turns such a literal into a value.

use vstd::prelude::*;
use vstd::string::StrSliceExecFns;

verus! {

/// `c` is an ASCII decimal digit.
pub open spec fn is_digit(c: char) -> bool {
    '0' <= c && c <= '9'
}

/// The numeric value of the digit `c`.
pub open spec fn digit_val(c: char) -> int {
    c as int - '0' as int
}

/// Every character of `s` is a decimal digit.
pub open spec fn all_digits(s: Seq<char>) -> bool {
    forall|i: int| 0 <= i < s.len() ==> is_digit(#[trigger] s[i])
}

/// The value of a run of decimal digits, most significant digit first.
pub open spec fn digits_val(s: Seq<char>) -> int
    decreases s.len(),
{
    if s.len() == 0 {
        0
    } else {
        digits_val(s.drop_last()) * 10 + digit_val(s.last())
    }
}

/// `c` is a sign character.
pub open spec fn is_sign(c: char) -> bool {
    c == '+' || c == '-'
}

/// The multiplier a leading sign character contributes.
pub open spec fn sign_mul(c: char) -> int {
    if c == '-' {
        -1
    } else {
        1
    }
}

/// `s` is an integer literal: an optional single leading sign followed by one
/// or more decimal digits, and nothing else.
pub open spec fn is_int_literal(s: Seq<char>) -> bool {
    if s.len() > 0 && is_sign(s[0]) {
        s.len() >= 2 && all_digits(s.skip(1))
    } else {
        s.len() >= 1 && all_digits(s)
    }
}

/// The mathematical value of the integer literal `s`.
pub open spec fn int_val(s: Seq<char>) -> int {
    if s.len() > 0 && is_sign(s[0]) {
        sign_mul(s[0]) * digits_val(s.skip(1))
    } else {
        digits_val(s)
    }
}

/// The value of a digit run is never negative.
pub proof fn lemma_digits_val_nonneg(s: Seq<char>)
    requires
        all_digits(s),
    ensures
        digits_val(s) >= 0,
    decreases s.len(),
{
    if s.len() > 0 {
        lemma_digits_val_nonneg(s.drop_last());
    }
}

/// Extending a digit run by one digit multiplies its value by ten and adds
/// the new digit.
pub proof fn lemma_digits_val_push(s: Seq<char>, c: char)
    ensures
        digits_val(s.push(c)) == digits_val(s) * 10 + digit_val(c),
{
    assert(s.push(c).drop_last() =~= s);
    assert(s.push(c).last() == c);
}

/// The value of a prefix of a digit run never exceeds the value of the whole
/// run.
pub proof fn lemma_digits_val_prefix(s: Seq<char>, k: int)
    requires
        all_digits(s),
        0 <= k <= s.len(),
    ensures
        digits_val(s.subrange(0, k)) <= digits_val(s),
    decreases s.len() - k,
{
    if k == s.len() {
        assert(s.subrange(0, k) =~= s);
    } else {
        let shorter = s.subrange(0, k);
        let longer = s.subrange(0, k + 1);
        assert(longer =~= shorter.push(s[k]));
        lemma_digits_val_push(shorter, s[k]);
        lemma_digits_val_nonneg(shorter);
        lemma_digits_val_prefix(s, k + 1);
    }
}

/// A type whose values can be read, without a fallback, from decimal text.
///
/// `parse` demands that the text is a well formed integer literal whose value
/// the type can hold: the toolkit is meant for trusted, pre-validated input,
/// where anything else is a caller bug.
pub trait FromStrUnwrap: Sized {
    /// The least mathematical value the type can hold.
    spec fn min_val() -> int;

    /// The greatest mathematical value the type can hold.
    spec fn max_val() -> int;

    /// The mathematical value this value stands for.
    spec fn val(self) -> int;

    /// Reads an optionally signed run of decimal digits as a value.
    fn parse(s: &str) -> (r: Self)
        requires
            is_int_literal(s@),
            Self::min_val() <= int_val(s@) <= Self::max_val(),
        ensures
            r.val() == int_val(s@),
    ;
}

/// Reads an integer literal into a wide intermediate, shared by every
/// [`FromStrUnwrap`] implementation.
fn parse_wide(s: &str) -> (r: i128)
    requires
        is_int_literal(s@),
        i128::MIN <= int_val(s@) <= i128::MAX,
    ensures
        r as int == int_val(s@),
{
    let n = s.unicode_len();
    let first = s.get_char(0);
    let neg = first == '-';
    let start: usize = if first == '-' || first == '+' {
        1
    } else {
        0
    };
    let ghost digits = s@.subrange(start as int, n as int);
    proof {
        if start == 1 {
            assert(digits =~= s@.skip(1));
        } else {
            assert(digits =~= s@);
        }
        assert(digits_val(digits) == if neg {
            -int_val(s@)
        } else {
            int_val(s@)
        });
    }
    let mut acc: i128 = 0;
    let mut j: usize = start;
    while j < n
        invariant
            n == s@.len(),
            start <= j <= n,
            digits == s@.subrange(start as int, n as int),
            all_digits(digits),
            digits_val(digits) == if neg {
                -int_val(s@)
            } else {
                int_val(s@)
            },
            i128::MIN <= int_val(s@) <= i128::MAX,
            acc as int == if neg {
                -digits_val(s@.subrange(start as int, j as int))
            } else {
                digits_val(s@.subrange(start as int, j as int))
            },
        decreases n - j,
    {
        let c = s.get_char(j);
        proof {
            assert(c == digits[j - start]);
            assert(is_digit(c));
        }
        let d = (c as u32) - ('0' as u32);
        proof {
            let seen = s@.subrange(start as int, j as int);
            let seen_next = s@.subrange(start as int, j + 1);
            assert(seen_next =~= seen.push(c));
            lemma_digits_val_push(seen, c);
            assert(seen =~= digits.subrange(0, j - start));
            assert(seen_next =~= digits.subrange(0, j + 1 - start));
            lemma_digits_val_prefix(digits, j + 1 - start);
            lemma_digits_val_nonneg(seen);
            assert(d as int == digit_val(c));
        }
        if neg {
            acc = acc * 10 - (d as i128);
        } else {
            acc = acc * 10 + (d as i128);
        }
        j += 1;
    }
    proof {
        assert(s@.subrange(start as int, n as int) == digits);
    }
    acc
}

impl FromStrUnwrap for i32 {
    open spec fn min_val() -> int {
        i32::MIN as int
    }

    open spec fn max_val() -> int {
        i32::MAX as int
    }

    open spec fn val(self) -> int {
        self as int
    }

    fn parse(s: &str) -> (r: Self) {
        parse_wide(s) as i32
    }
}

impl FromStrUnwrap for i64 {
    open spec fn min_val() -> int {
        i64::MIN as int
    }

    open spec fn max_val() -> int {
        i64::MAX as int
    }

    open spec fn val(self) -> int {
        self as int
    }

    fn parse(s: &str) -> (r: Self) {
        parse_wide(s) as i64
    }
}

impl FromStrUnwrap for u32 {
    open spec fn min_val() -> int {
        0
    }

    open spec fn max_val() -> int {
        u32::MAX as int
    }

    open spec fn val(self) -> int {
        self as int
    }

    fn parse(s: &str) -> (r: Self) {
        parse_wide(s) as u32
    }
}

impl FromStrUnwrap for u64 {
    open spec fn min_val() -> int {
        0
    }

    open spec fn max_val() -> int {
        u64::MAX as int
    }

    open spec fn val(self) -> int {
        self as int
    }

    fn parse(s: &str) -> (r: Self) {
        parse_wide(s) as u64
    }
}

impl FromStrUnwrap for usize {
    open spec fn min_val() -> int {
        0
    }

    open spec fn max_val() -> int {
        usize::MAX as int
    }

    open spec fn val(self) -> int {
        self as int
    }

    fn parse(s: &str) -> (r: Self) {
        parse_wide(s) as usize
    }
}

impl FromStrUnwrap for i8 {
    open spec fn min_val() -> int {
        i8::MIN as int
    }

    open spec fn max_val() -> int {
        i8::MAX as int
    }

    open spec fn val(self) -> int {
        self as int
    }

    fn parse(s: &str) -> (r: Self) {
        parse_wide(s) as i8
    }
}

impl FromStrUnwrap for i16 {
    open spec fn min_val() -> int {
        i16::MIN as int
    }

    open spec fn max_val() -> int {
        i16::MAX as int
    }

    open spec fn val(self) -> int {
        self as int
    }

    fn parse(s: &str) -> (r: Self) {
        parse_wide(s) as i16
    }
}

impl FromStrUnwrap for u8 {
    open spec fn min_val() -> int {
        0
    }

    open spec fn max_val() -> int {
        u8::MAX as int
    }

    open spec fn val(self) -> int {
        self as int
    }

    fn parse(s: &str) -> (r: Self) {
        parse_wide(s) as u8
    }
}

impl FromStrUnwrap for u16 {
    open spec fn min_val() -> int {
        0
    }

    open spec fn max_val() -> int {
        u16::MAX as int
    }

    open spec fn val(self) -> int {
        self as int
    }

    fn parse(s: &str) -> (r: Self) {
        parse_wide(s) as u16
    }
}

impl FromStrUnwrap for isize {
    open spec fn min_val() -> int {
        isize::MIN as int
    }

    open spec fn max_val() -> int {
        isize::MAX as int
    }

    open spec fn val(self) -> int {
        self as int
    }

    fn parse(s: &str) -> (r: Self) {
        parse_wide(s) as isize
    }
}

} // verus!
