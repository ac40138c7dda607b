//! Numbers as they are written in the fields of a file.

use vstd::prelude::*;

verus! {

/// Whether a byte is a decimal digit.
pub open spec fn is_digit(b: u8) -> bool {
    48 <= b <= 57
}

/// Whether a text is made of decimal digits alone.
pub open spec fn all_digits(s: Seq<u8>) -> bool {
    forall|i: int| 0 <= i < s.len() ==> is_digit(#[trigger] s[i])
}

/// The number that a text of decimal digits writes.
pub open spec fn digits_value(s: Seq<u8>) -> nat
    decreases s.len(),
{
    if s.len() == 0 {
        0
    } else {
        digits_value(s.drop_last()) * 10 + (s.last() - 48) as nat
    }
}

/// The number that a field writes, if it writes one that fits in 64
/// bits: decimal digits, at least one, after at most one plus sign.
pub open spec fn unsigned_of(field: Seq<u8>) -> Option<u64> {
    let digits = if field.len() > 0 && field[0] == 43 {
        field.skip(1)
    } else {
        field
    };
    if digits.len() > 0 && all_digits(digits) && digits_value(digits) <= u64::MAX {
        Some(digits_value(digits) as u64)
    } else {
        None
    }
}

/// The number written by the first digits of a text is no larger than the
/// number written by all of them.
proof fn lemma_digits_value_grows(s: Seq<u8>, n: int)
    requires
        0 <= n <= s.len(),
        all_digits(s),
    ensures
        digits_value(s.take(n)) <= digits_value(s),
    decreases s.len() - n,
{
    if n < s.len() {
        lemma_digits_value_grows(s, n + 1);
        assert(s.take(n + 1).drop_last() =~= s.take(n));
    } else {
        assert(s.take(n) =~= s);
    }
}

/// Reads an unsigned number from a field.
pub fn parse_unsigned(field: &[u8]) -> (r: Option<u64>)
    ensures
        r == unsigned_of(field@),
{
    let start: usize = if field.len() > 0 && field[0] == 43 {
        1
    } else {
        0
    };
    let ghost digits = field@.skip(start as int);
    proof {
        if start == 0 {
            assert(digits =~= field@);
        }
    }
    if start == field.len() {
        return None;
    }
    let mut value: u64 = 0;
    let mut i: usize = start;
    while i < field.len()
        invariant
            start <= i <= field.len(),
            digits == field@.skip(start as int),
            unsigned_of(field@) == (if all_digits(digits) && digits_value(digits) <= u64::MAX {
                Some(digits_value(digits) as u64)
            } else {
                None
            }),
            all_digits(digits.take(i - start)),
            value == digits_value(digits.take(i - start)),
        decreases field.len() - i,
    {
        let b = field[i];
        let ghost grown = digits.take(i - start + 1);
        proof {
            assert(grown.drop_last() =~= digits.take(i - start));
            assert(digits[i - start] == b);
        }
        if b < 48 || b > 57 {
            return None;
        }
        proof {
            if all_digits(digits) {
                lemma_digits_value_grows(digits, i - start + 1);
            }
        }
        let scaled = match value.checked_mul(10) {
            Some(scaled) => scaled,
            None => {
                return None;
            },
        };
        value = match scaled.checked_add((b - 48) as u64) {
            Some(sum) => sum,
            None => {
                return None;
            },
        };
        i += 1;
    }
    proof {
        assert(digits.take(i - start) =~= digits);
    }
    Some(value)
}

/// Whether a byte is a plus or a minus sign.
pub open spec fn is_sign(b: u8) -> bool {
    b == 43 || b == 45
}

/// A text without the sign at its start, if it has one.
pub open spec fn without_sign(s: Seq<u8>) -> Seq<u8> {
    if s.len() > 0 && is_sign(s[0]) {
        s.skip(1)
    } else {
        s
    }
}

/// A capital letter as the small letter, any other byte as it is.
pub open spec fn lowered(b: u8) -> u8 {
    if 65 <= b <= 90 {
        (b + 32) as u8
    } else {
        b
    }
}

/// Whether `s` is `word`, which is in small letters, in small or capital
/// letters.
pub open spec fn reads_as(s: Seq<u8>, word: Seq<u8>) -> bool {
    &&& s.len() == word.len()
    &&& forall|i: int| 0 <= i < s.len() ==> lowered(#[trigger] s[i]) == word[i]
}

/// How many decimal digits a text starts with.
pub open spec fn leading_digits(s: Seq<u8>) -> nat
    decreases s.len(),
{
    if s.len() > 0 && is_digit(s[0]) {
        1 + leading_digits(s.skip(1))
    } else {
        0
    }
}

/// Whether a text is an exponent: the letter e, then at most one sign,
/// then decimal digits, at least one.
pub open spec fn is_exponent(s: Seq<u8>) -> bool {
    &&& s.len() > 0
    &&& lowered(s[0]) == 101
    &&& without_sign(s.skip(1)).len() > 0
    &&& all_digits(without_sign(s.skip(1)))
}

/// Whether a text is a number without sign: decimal digits with at most
/// one point among them, before it or after it at least one digit, and
/// then, if anything, an exponent.
pub open spec fn is_unsigned_number(s: Seq<u8>) -> bool {
    let whole = leading_digits(s);
    let rest = s.skip(whole as int);
    if rest.len() > 0 && rest[0] == 46 {
        let fraction = leading_digits(rest.skip(1));
        let tail = rest.skip(1 + fraction as int);
        whole + fraction > 0 && (tail.len() == 0 || is_exponent(tail))
    } else {
        whole > 0 && (rest.len() == 0 || is_exponent(rest))
    }
}

/// Whether a text writes a number in the way that `str::parse` reads a
/// double: after at most one sign either a number with or without point
/// and exponent, or one of the words `inf`, `infinity` and `nan` in small
/// or capital letters.
pub open spec fn is_number_text(s: Seq<u8>) -> bool {
    let t = without_sign(s);
    ||| reads_as(t, seq![105u8, 110u8, 102u8])
    ||| reads_as(t, seq![105u8, 110u8, 102u8, 105u8, 110u8, 105u8, 116u8, 121u8])
    ||| reads_as(t, seq![110u8, 97u8, 110u8])
    ||| is_unsigned_number(t)
}

fn lower(b: u8) -> (r: u8)
    ensures
        r == lowered(b),
{
    if 65 <= b && b <= 90 {
        b + 32
    } else {
        b
    }
}

/// Tells whether what follows index `from` of `s` is `word`, in small or
/// capital letters.
fn reads_from(s: &[u8], from: usize, word: &[u8]) -> (r: bool)
    requires
        from <= s@.len(),
    ensures
        r == reads_as(s@.skip(from as int), word@),
{
    let total = s.len();
    if total - from != word.len() {
        return false;
    }
    let mut i: usize = 0;
    while i < word.len()
        invariant
            i <= word.len(),
            from <= s@.len(),
            total == s@.len(),
            s@.len() - from == word@.len(),
            forall|k: int| 0 <= k < i ==> lowered(#[trigger] s@.skip(from as int)[k]) == word@[k],
        decreases word.len() - i,
    {
        if lower(s[from + i]) != word[i] {
            assert(lowered(s@.skip(from as int)[i as int]) != word@[i as int]);
            return false;
        }
        i += 1;
    }
    true
}

/// The index behind the decimal digits that follow index `from` of `s`.
fn pass_digits(s: &[u8], from: usize) -> (to: usize)
    requires
        from <= s@.len(),
    ensures
        from <= to <= s@.len(),
        to - from == leading_digits(s@.skip(from as int)),
        forall|k: int| from <= k < to ==> is_digit(#[trigger] s@[k]),
{
    let mut to: usize = from;
    while to < s.len() && 48 <= s[to] && s[to] <= 57
        invariant
            from <= to <= s@.len(),
            leading_digits(s@.skip(from as int)) == (to - from) + leading_digits(
                s@.skip(to as int),
            ),
            forall|k: int| from <= k < to ==> is_digit(#[trigger] s@[k]),
        decreases s.len() - to,
    {
        proof {
            assert(s@.skip(to as int).skip(1) =~= s@.skip(to + 1));
        }
        to += 1;
    }
    to
}

/// Tells whether what follows index `from` of `s` is an exponent.
fn exponent_from(s: &[u8], from: usize) -> (r: bool)
    requires
        from <= s@.len(),
    ensures
        r == is_exponent(s@.skip(from as int)),
{
    if from == s.len() {
        return false;
    }
    let ghost tail = s@.skip(from as int);
    proof {
        assert(tail.skip(1) =~= s@.skip(from + 1));
    }
    if lower(s[from]) != 101 {
        return false;
    }
    let start: usize = if from + 1 < s.len() && (s[from + 1] == 43 || s[from + 1] == 45) {
        from + 2
    } else {
        from + 1
    };
    let ghost digits = s@.skip(start as int);
    proof {
        if start == from + 2 {
            assert(tail.skip(1).skip(1) =~= digits);
        }
    }
    let to = pass_digits(s, start);
    proof {
        if to == s@.len() {
            assert forall|k: int| 0 <= k < digits.len() implies is_digit(#[trigger] digits[k]) by {
            }
        } else {
            lemma_leading_digits_stop(digits, to - start);
        }
    }
    start < s.len() && to == s.len()
}

/// A text does not start with more digits than it has, and the byte
/// behind them is no digit.
proof fn lemma_leading_digits_stop(s: Seq<u8>, n: int)
    requires
        n == leading_digits(s),
    ensures
        0 <= n <= s.len(),
        n < s.len() ==> !is_digit(s[n]),
        forall|k: int| 0 <= k < n ==> is_digit(#[trigger] s[k]),
    decreases s.len(),
{
    if s.len() > 0 && is_digit(s[0]) {
        lemma_leading_digits_stop(s.skip(1), n - 1);
        assert forall|k: int| 0 <= k < n implies is_digit(#[trigger] s[k]) by {
            if k > 0 {
                assert(s.skip(1)[k - 1] == s[k]);
            }
        }
    }
}

/// Tells whether a field writes a number in the way that `str::parse`
/// reads a double.
pub fn number_text(field: &[u8]) -> (r: bool)
    ensures
        r == is_number_text(field@),
{
    let start: usize = if field.len() > 0 && (field[0] == 43 || field[0] == 45) {
        1
    } else {
        0
    };
    let ghost t = field@.skip(start as int);
    proof {
        if start == 0 {
            assert(t =~= field@);
        }
    }
    let inf: [u8; 3] = [105, 110, 102];
    let infinity: [u8; 8] = [105, 110, 102, 105, 110, 105, 116, 121];
    let nan: [u8; 3] = [110, 97, 110];
    if reads_from(field, start, inf.as_slice()) || reads_from(field, start, infinity.as_slice())
        || reads_from(field, start, nan.as_slice()) {
        return true;
    }
    let whole_end = pass_digits(field, start);
    let ghost rest = t.skip(whole_end - start);
    proof {
        assert(rest =~= field@.skip(whole_end as int));
    }
    if whole_end < field.len() && field[whole_end] == 46 {
        let fraction_end = pass_digits(field, whole_end + 1);
        proof {
            assert(rest.skip(1) =~= field@.skip(whole_end + 1));
            assert(rest.skip(1 + (fraction_end - whole_end - 1)) =~= field@.skip(
                fraction_end as int,
            ));
        }
        (whole_end - start) + (fraction_end - whole_end - 1) > 0 && (fraction_end == field.len()
            || exponent_from(field, fraction_end))
    } else {
        whole_end > start && (whole_end == field.len() || exponent_from(field, whole_end))
    }
}

} // verus!
