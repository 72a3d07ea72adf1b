//! Recognition of numeric literals.
//!
//! Integers follow the grammar of `i64`'s `FromStr`: an optional sign and
//! one or more decimal digits, with a value inside the range of the type.
//! Floating-point literals follow the grammar of the standard floating-point
//! `FromStr`: an optional sign, then `inf`, `infinity` or `nan` in any case,
//! or decimal digits with an optional point and an optional exponent.

use vstd::prelude::*;

verus! {

/// An ASCII decimal digit.
pub open spec fn is_digit(c: char) -> bool {
    '0' <= c && c <= '9'
}

/// The value of a decimal digit.
pub open spec fn digit_value(c: char) -> int {
    c as int - '0' as int
}

/// Every character is a decimal digit.
pub open spec fn all_digits(s: Seq<char>) -> bool {
    forall|i: int| 0 <= i < s.len() ==> is_digit(#[trigger] s[i])
}

/// The number that the digits denote in base ten.
pub open spec fn digits_value(s: Seq<char>) -> int
    decreases s.len(),
{
    if s.len() == 0 {
        0
    } else {
        digits_value(s.drop_last()) * 10 + digit_value(s.last())
    }
}

/// The literal starts with a sign.
pub open spec fn has_sign(s: Seq<char>) -> bool {
    s.len() > 0 && (s[0] == '-' || s[0] == '+')
}

/// The literal without its sign, if it has one.
pub open spec fn unsigned_part(s: Seq<char>) -> Seq<char> {
    if has_sign(s) {
        s.skip(1)
    } else {
        s
    }
}

/// The integer that the literal denotes, whatever its size.
pub open spec fn integer_value(s: Seq<char>) -> Option<int> {
    let digits = unsigned_part(s);
    if digits.len() == 0 || !all_digits(digits) {
        None
    } else if s[0] == '-' {
        Some(-digits_value(digits))
    } else {
        Some(digits_value(digits))
    }
}

/// The integer that the literal denotes, where it fits into 64 bits.
pub open spec fn parsed_i64(s: Seq<char>) -> Option<i64> {
    match integer_value(s) {
        Some(v) => if i64::MIN <= v <= i64::MAX {
            Some(v as i64)
        } else {
            None
        },
        None => None,
    }
}

/// Where the run of digits that starts at `i` ends.
pub open spec fn digits_end(s: Seq<char>, i: int) -> int
    decreases s.len() - i,
{
    if 0 <= i < s.len() && is_digit(s[i]) {
        digits_end(s, i + 1)
    } else {
        i
    }
}

/// `s` spells `word`, given in lower and in upper case, in any mix of cases.
pub open spec fn spells(s: Seq<char>, lower: Seq<char>, upper: Seq<char>) -> bool {
    &&& s.len() == lower.len()
    &&& forall|i: int| 0 <= i < s.len() ==> (#[trigger] s[i] == lower[i] || s[i] == upper[i])
}

/// Where the exponent digits start, for an exponent mark at `e`.
pub open spec fn exponent_start(s: Seq<char>, e: int) -> int {
    if e + 1 < s.len() && (s[e + 1] == '+' || s[e + 1] == '-') {
        e + 2
    } else {
        e + 1
    }
}

/// Digits with an optional point among or beside them, at least one digit in
/// all, and an optional exponent: `e` or `E`, an optional sign, digits.
pub open spec fn is_decimal_number(s: Seq<char>) -> bool {
    let int_end = digits_end(s, 0);
    let has_point = int_end < s.len() && s[int_end] == '.';
    let mantissa_end = if has_point {
        digits_end(s, int_end + 1)
    } else {
        int_end
    };
    let digit_count = if has_point {
        mantissa_end - 1
    } else {
        mantissa_end
    };
    &&& digit_count > 0
    &&& (mantissa_end == s.len() || {
        &&& (s[mantissa_end] == 'e' || s[mantissa_end] == 'E')
        &&& digits_end(s, exponent_start(s, mantissa_end)) == s.len()
        &&& exponent_start(s, mantissa_end) < s.len()
    })
}

/// The literal is accepted as a floating-point number.
pub open spec fn is_float_text(s: Seq<char>) -> bool {
    let body = unsigned_part(s);
    ||| spells(body, seq!['i', 'n', 'f'], seq!['I', 'N', 'F'])
    ||| spells(
        body,
        seq!['i', 'n', 'f', 'i', 'n', 'i', 't', 'y'],
        seq!['I', 'N', 'F', 'I', 'N', 'I', 'T', 'Y'],
    )
    ||| spells(body, seq!['n', 'a', 'n'], seq!['N', 'A', 'N'])
    ||| is_decimal_number(body)
}

proof fn lemma_digits_value_bounds(s: Seq<char>)
    requires
        all_digits(s),
    ensures
        digits_value(s) >= 0,
    decreases s.len(),
{
    if s.len() > 0 {
        assert(is_digit(s[s.len() - 1]));
        assert(all_digits(s.drop_last())) by {
            assert forall|i: int| 0 <= i < s.drop_last().len() implies is_digit(
                #[trigger] s.drop_last()[i],
            ) by {
                assert(is_digit(s[i]));
            }
        }
        lemma_digits_value_bounds(s.drop_last());
    }
}

/// A number is at least as large as the number its leading digits denote.
proof fn lemma_digits_value_grows(s: Seq<char>, k: int)
    requires
        all_digits(s),
        0 <= k <= s.len(),
    ensures
        digits_value(s.take(k)) <= digits_value(s),
        digits_value(s.take(k)) >= 0,
    decreases s.len() - k,
{
    assert(all_digits(s.take(k))) by {
        assert forall|i: int| 0 <= i < s.take(k).len() implies is_digit(
            #[trigger] s.take(k)[i],
        ) by {
            assert(is_digit(s[i]));
        }
    }
    lemma_digits_value_bounds(s.take(k));
    if k == s.len() {
        assert(s.take(k) =~= s);
    } else {
        lemma_digits_value_grows(s, k + 1);
        assert(s.take(k + 1).drop_last() =~= s.take(k));
        assert(is_digit(s[k]));
        assert(s.take(k + 1).last() == s[k]);
    }
}

fn char_is_digit(c: char) -> (r: bool)
    ensures
        r == is_digit(c),
{
    '0' <= c && c <= '9'
}

/// Parses a 64-bit signed integer.
pub fn parse_i64(s: &Vec<char>) -> (r: Option<i64>)
    ensures
        r == parsed_i64(s@),
{
    let n = s.len();
    let negative = n > 0 && s[0] == '-';
    let start: usize = if n > 0 && (s[0] == '-' || s[0] == '+') {
        1
    } else {
        0
    };
    if start == n {
        return None;
    }
    let ghost digits = unsigned_part(s@);
    let limit: u128 = if negative {
        0x8000_0000_0000_0000
    } else {
        0x7fff_ffff_ffff_ffff
    };
    let mut acc: u128 = 0;
    let mut i: usize = start;
    proof {
        assert(digits =~= s@.skip(start as int));
        assert(digits.take(0) =~= Seq::empty());
    }
    while i < n
        invariant
            start <= i <= n,
            n == s@.len(),
            digits == s@.skip(start as int),
            all_digits(digits.take(i - start)),
            acc == digits_value(digits.take(i - start)),
            acc <= limit,
            digits == unsigned_part(s@),
            digits.len() > 0,
            negative == (s@[0] == '-'),
            limit == (if negative {
                0x8000_0000_0000_0000u128
            } else {
                0x7fff_ffff_ffff_ffffu128
            }),
        decreases n - i,
    {
        let c = s[i];
        let ghost k = i - start;
        proof {
            assert(digits[k] == c);
            assert(digits.take(k + 1).drop_last() =~= digits.take(k));
            assert(digits.take(k + 1).last() == c);
        }
        if !char_is_digit(c) {
            proof {
                assert(!is_digit(digits[k]));
            }
            return None;
        }
        let d: u128 = (c as u32 - '0' as u32) as u128;
        acc = acc * 10 + d;
        proof {
            assert forall|j: int| 0 <= j < k + 1 implies is_digit(
                #[trigger] digits.take(k + 1)[j],
            ) by {
                if j < k {
                    assert(is_digit(digits.take(k)[j]));
                }
            }
        }
        if acc > limit {
            proof {
                if all_digits(digits) {
                    lemma_digits_value_grows(digits, k + 1);
                }
            }
            return None;
        }
        i += 1;
    }
    proof {
        assert(digits.take(n - start) =~= digits);
    }
    if negative {
        if acc == 0x8000_0000_0000_0000 {
            Some(i64::MIN)
        } else {
            Some(-(acc as i64))
        }
    } else {
        Some(acc as i64)
    }
}

/// Where the run of digits that starts at `i` ends.
fn scan_digits(s: &Vec<char>, i: usize) -> (end: usize)
    requires
        i <= s.len(),
    ensures
        end == digits_end(s@, i as int),
        i <= end <= s.len(),
{
    let mut j: usize = i;
    while j < s.len() && char_is_digit(s[j])
        invariant
            i <= j <= s.len(),
            digits_end(s@, i as int) == digits_end(s@, j as int),
        decreases s.len() - j,
    {
        j += 1;
    }
    j
}

fn spells_word(s: &Vec<char>, from: usize, lower: &Vec<char>, upper: &Vec<char>) -> (r: bool)
    requires
        from <= s.len(),
        lower.len() == upper.len(),
    ensures
        r == spells(s@.skip(from as int), lower@, upper@),
{
    if s.len() - from != lower.len() {
        return false;
    }
    let ghost body = s@.skip(from as int);
    let mut i: usize = 0;
    while i < lower.len()
        invariant
            i <= lower.len(),
            from + lower.len() == s.len(),
            lower.len() == upper.len(),
            body == s@.skip(from as int),
            forall|j: int| 0 <= j < i ==> (#[trigger] body[j] == lower@[j] || body[j] == upper@[j]),
        decreases lower.len() - i,
    {
        let c = s[from + i];
        proof {
            assert(body[i as int] == c);
        }
        if c != lower[i] && c != upper[i] {
            return false;
        }
        i += 1;
    }
    true
}

fn decimal_number_from(s: &Vec<char>, from: usize) -> (r: bool)
    requires
        from <= s.len(),
    ensures
        r == is_decimal_number(s@.skip(from as int)),
{
    let mut body: Vec<char> = Vec::new();
    let mut i: usize = from;
    while i < s.len()
        invariant
            from <= i <= s.len(),
            body@ == s@.subrange(from as int, i as int),
        decreases s.len() - i,
    {
        body.push(s[i]);
        proof {
            assert(s@.subrange(from as int, i + 1) =~= s@.subrange(from as int, i as int).push(
                s@[i as int],
            ));
        }
        i += 1;
    }
    proof {
        assert(body@ =~= s@.skip(from as int));
    }
    let n = body.len();
    let int_end = scan_digits(&body, 0);
    let has_point = int_end < n && body[int_end] == '.';
    let mantissa_end = if has_point {
        scan_digits(&body, int_end + 1)
    } else {
        int_end
    };
    let digit_count = if has_point {
        mantissa_end - 1
    } else {
        mantissa_end
    };
    if digit_count == 0 {
        return false;
    }
    if mantissa_end == n {
        return true;
    }
    if body[mantissa_end] != 'e' && body[mantissa_end] != 'E' {
        return false;
    }
    let exp_start = if mantissa_end + 1 < n && (body[mantissa_end + 1] == '+' || body[mantissa_end
        + 1] == '-') {
        mantissa_end + 2
    } else {
        mantissa_end + 1
    };
    if exp_start >= n {
        return false;
    }
    scan_digits(&body, exp_start) == n
}

/// Whether the literal is accepted as a floating-point number.
pub fn is_float(s: &Vec<char>) -> (r: bool)
    ensures
        r == is_float_text(s@),
{
    let from: usize = if s.len() > 0 && (s[0] == '-' || s[0] == '+') {
        1
    } else {
        0
    };
    proof {
        assert(unsigned_part(s@) =~= s@.skip(from as int));
    }
    let mut inf_lower: Vec<char> = Vec::new();
    inf_lower.push('i');
    inf_lower.push('n');
    inf_lower.push('f');
    let mut inf_upper: Vec<char> = Vec::new();
    inf_upper.push('I');
    inf_upper.push('N');
    inf_upper.push('F');
    let mut nan_lower: Vec<char> = Vec::new();
    nan_lower.push('n');
    nan_lower.push('a');
    nan_lower.push('n');
    let mut nan_upper: Vec<char> = Vec::new();
    nan_upper.push('N');
    nan_upper.push('A');
    nan_upper.push('N');
    let mut infinity_lower: Vec<char> = Vec::new();
    infinity_lower.push('i');
    infinity_lower.push('n');
    infinity_lower.push('f');
    infinity_lower.push('i');
    infinity_lower.push('n');
    infinity_lower.push('i');
    infinity_lower.push('t');
    infinity_lower.push('y');
    let mut infinity_upper: Vec<char> = Vec::new();
    infinity_upper.push('I');
    infinity_upper.push('N');
    infinity_upper.push('F');
    infinity_upper.push('I');
    infinity_upper.push('N');
    infinity_upper.push('I');
    infinity_upper.push('T');
    infinity_upper.push('Y');
    proof {
        assert(inf_lower@ =~= seq!['i', 'n', 'f']);
        assert(inf_upper@ =~= seq!['I', 'N', 'F']);
        assert(nan_lower@ =~= seq!['n', 'a', 'n']);
        assert(nan_upper@ =~= seq!['N', 'A', 'N']);
        assert(infinity_lower@ =~= seq!['i', 'n', 'f', 'i', 'n', 'i', 't', 'y']);
        assert(infinity_upper@ =~= seq!['I', 'N', 'F', 'I', 'N', 'I', 'T', 'Y']);
    }
    spells_word(s, from, &inf_lower, &inf_upper) || spells_word(
        s,
        from,
        &infinity_lower,
        &infinity_upper,
    ) || spells_word(s, from, &nan_lower, &nan_upper) || decimal_number_from(s, from)
}

} // verus!
