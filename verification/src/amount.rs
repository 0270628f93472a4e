//! The grammar of amount text.
//!
//! An amount is accepted exactly when it is a decimal floating-point
//! literal: an optional sign, then one of the special words `inf`,
//! `infinity` or `nan` (in any letter case) or a number `count '.'? count?
//! exp?` or `'.' count exp?`, where a count is one or more decimal digits
//! and an exponent is `e` or `E`, an optional sign and a count.

use vstd::prelude::*;

verus! {

/// A decimal digit.
pub open spec fn is_digit(c: char) -> bool {
    '0' as u32 <= c as u32 && c as u32 <= '9' as u32
}

/// One or more decimal digits and nothing else.
pub open spec fn digits(s: Seq<char>) -> bool {
    s.len() > 0 && forall|i: int| 0 <= i < s.len() ==> is_digit(#[trigger] s[i])
}

/// The code of `c` with an upper-case ASCII letter folded to lower case.
pub open spec fn lower(c: char) -> u32 {
    let u = c as u32;
    if 'A' as u32 <= u && u <= 'Z' as u32 {
        (u + 32) as u32
    } else {
        u
    }
}

/// The word `inf` in any letter case.
pub open spec fn is_inf(s: Seq<char>) -> bool {
    s.len() == 3 && lower(s[0]) == 'i' as u32 && lower(s[1]) == 'n' as u32 && lower(s[2]) == 'f'
        as u32
}

/// The word `infinity` in any letter case.
pub open spec fn is_infinity(s: Seq<char>) -> bool {
    s.len() == 8 && is_inf(s.take(3)) && lower(s[3]) == 'i' as u32 && lower(s[4]) == 'n' as u32
        && lower(s[5]) == 'i' as u32 && lower(s[6]) == 't' as u32 && lower(s[7]) == 'y' as u32
}

/// The word `nan` in any letter case.
pub open spec fn is_nan(s: Seq<char>) -> bool {
    s.len() == 3 && lower(s[0]) == 'n' as u32 && lower(s[1]) == 'a' as u32 && lower(s[2]) == 'n'
        as u32
}

/// `s` without one leading sign character, if it has one.
pub open spec fn opt_sign(s: Seq<char>) -> Seq<char> {
    if s.len() > 0 && (s[0] == '+' || s[0] == '-') {
        s.skip(1)
    } else {
        s
    }
}

/// An exponent mark.
pub open spec fn is_exp_mark(c: char) -> bool {
    c == 'e' || c == 'E'
}

/// The index of the first exponent mark at or after `i`, or -1.
pub open spec fn first_exp_idx(s: Seq<char>, i: int) -> int
    decreases s.len() - i,
{
    if i < 0 || i >= s.len() {
        -1
    } else if is_exp_mark(s[i]) {
        i
    } else {
        first_exp_idx(s, i + 1)
    }
}

/// The index of the first dot at or after `i`, or -1.
pub open spec fn first_dot_idx(s: Seq<char>, i: int) -> int
    decreases s.len() - i,
{
    if i < 0 || i >= s.len() {
        -1
    } else if s[i] == '.' {
        i
    } else {
        first_dot_idx(s, i + 1)
    }
}

/// What may follow the exponent mark: an optional sign, then digits.
pub open spec fn is_exp_part(s: Seq<char>) -> bool {
    digits(opt_sign(s))
}

/// The part before any exponent: digits, optionally with one dot, which may
/// end the text or start it only when digits follow.
pub open spec fn is_mantissa(s: Seq<char>) -> bool {
    let d = first_dot_idx(s, 0);
    if d == -1 {
        digits(s)
    } else if d == 0 {
        digits(s.skip(1))
    } else {
        digits(s.take(d)) && (s.len() == d + 1 || digits(s.skip(d + 1)))
    }
}

/// A number: a mantissa, optionally followed by an exponent mark and an
/// exponent part.
pub open spec fn is_number(s: Seq<char>) -> bool {
    let k = first_exp_idx(s, 0);
    if k == -1 {
        is_mantissa(s)
    } else {
        is_mantissa(s.take(k)) && is_exp_part(s.skip(k + 1))
    }
}

/// A full amount: an optional sign, then a special word or a number.
pub open spec fn is_float_text(s: Seq<char>) -> bool {
    let t = opt_sign(s);
    is_inf(t) || is_infinity(t) || is_nan(t) || is_number(t)
}

/// Scanning over characters that are no exponent mark does not move the
/// first exponent mark.
proof fn lemma_first_exp_from(s: Seq<char>, j: int, i: int)
    requires
        0 <= j <= i <= s.len(),
        forall|k: int| j <= k < i ==> !is_exp_mark(#[trigger] s[k]),
    ensures
        first_exp_idx(s, j) == first_exp_idx(s, i),
    decreases i - j,
{
    if j < i {
        lemma_first_exp_from(s, j + 1, i);
    }
}

/// Scanning over characters that are no dot does not move the first dot.
proof fn lemma_first_dot_from(s: Seq<char>, j: int, i: int)
    requires
        0 <= j <= i <= s.len(),
        forall|k: int| j <= k < i ==> s[k] != '.',
    ensures
        first_dot_idx(s, j) == first_dot_idx(s, i),
    decreases i - j,
{
    if j < i {
        lemma_first_dot_from(s, j + 1, i);
    }
}

/// Whether `c` is a decimal digit.
fn is_digit_char(c: char) -> (r: bool)
    ensures
        r == is_digit(c),
{
    let u = c as u32;
    48 <= u && u <= 57
}

/// The code of `c`, folded to lower case when it is an ASCII letter.
fn lower_char(c: char) -> (r: u32)
    ensures
        r == lower(c),
{
    let u = c as u32;
    if 65 <= u && u <= 90 {
        u + 32
    } else {
        u
    }
}

/// Whether `s` is one or more decimal digits and nothing else.
#[verifier::loop_isolation(false)]
fn check_digits(s: &str) -> (r: bool)
    ensures
        r == digits(s@),
{
    let n = s.unicode_len();
    if n == 0 {
        return false;
    }
    let mut i: usize = 0;
    while i < n
        invariant
            i <= n,
            forall|k: int| 0 <= k < i ==> is_digit(#[trigger] s@[k]),
        decreases n - i,
    {
        if !is_digit_char(s.get_char(i)) {
            return false;
        }
        i = i + 1;
    }
    true
}

/// The position of the first exponent mark in `s`, if there is one.
#[verifier::loop_isolation(false)]
fn find_exp(s: &str) -> (r: Option<usize>)
    ensures
        match r {
            Some(k) => k < s@.len() && first_exp_idx(s@, 0) == k as int,
            None => first_exp_idx(s@, 0) == -1,
        },
{
    let n = s.unicode_len();
    let mut i: usize = 0;
    while i < n
        invariant
            i <= n,
            forall|k: int| 0 <= k < i ==> !is_exp_mark(#[trigger] s@[k]),
        decreases n - i,
    {
        let c = s.get_char(i);
        if c == 'e' || c == 'E' {
            proof {
                lemma_first_exp_from(s@, 0, i as int);
            }
            return Some(i);
        }
        i = i + 1;
    }
    proof {
        lemma_first_exp_from(s@, 0, n as int);
    }
    None
}

/// The position of the first dot in `s`, if there is one.
#[verifier::loop_isolation(false)]
fn find_dot(s: &str) -> (r: Option<usize>)
    ensures
        match r {
            Some(k) => k < s@.len() && first_dot_idx(s@, 0) == k as int,
            None => first_dot_idx(s@, 0) == -1,
        },
{
    let n = s.unicode_len();
    let mut i: usize = 0;
    while i < n
        invariant
            i <= n,
            forall|k: int| 0 <= k < i ==> s@[k] != '.',
        decreases n - i,
    {
        let c = s.get_char(i);
        if c == '.' {
            proof {
                lemma_first_dot_from(s@, 0, i as int);
            }
            return Some(i);
        }
        i = i + 1;
    }
    proof {
        lemma_first_dot_from(s@, 0, n as int);
    }
    None
}

/// Whether `s` is an exponent part: an optional sign, then digits.
fn check_exp_part(s: &str) -> (r: bool)
    ensures
        r == is_exp_part(s@),
{
    let n = s.unicode_len();
    if n > 0 {
        let c = s.get_char(0);
        if c == '+' || c == '-' {
            let rest = s.substring_char(1, n);
            proof {
                assert(rest@ =~= opt_sign(s@));
            }
            return check_digits(rest);
        }
    }
    check_digits(s)
}

/// Whether `s` is a mantissa.
fn check_mantissa(s: &str) -> (r: bool)
    ensures
        r == is_mantissa(s@),
{
    let n = s.unicode_len();
    match find_dot(s) {
        None => check_digits(s),
        Some(d) => {
            if d == 0 {
                let rest = s.substring_char(1, n);
                proof {
                    assert(rest@ =~= s@.skip(1));
                }
                check_digits(rest)
            } else {
                let head = s.substring_char(0, d);
                proof {
                    assert(head@ =~= s@.take(d as int));
                }
                if !check_digits(head) {
                    return false;
                }
                if d + 1 == n {
                    return true;
                }
                let tail = s.substring_char(d + 1, n);
                proof {
                    assert(tail@ =~= s@.skip(d + 1));
                }
                check_digits(tail)
            }
        },
    }
}

/// Whether `s` is a number: a mantissa with an optional exponent.
fn check_number(s: &str) -> (r: bool)
    ensures
        r == is_number(s@),
{
    let n = s.unicode_len();
    match find_exp(s) {
        None => check_mantissa(s),
        Some(k) => {
            let head = s.substring_char(0, k);
            proof {
                assert(head@ =~= s@.take(k as int));
            }
            if !check_mantissa(head) {
                return false;
            }
            let tail = s.substring_char(k + 1, n);
            proof {
                assert(tail@ =~= s@.skip(k + 1));
            }
            check_exp_part(tail)
        },
    }
}

/// Whether `s` is one of the special words, in any letter case.
fn check_special(s: &str) -> (r: bool)
    ensures
        r == (is_inf(s@) || is_infinity(s@) || is_nan(s@)),
{
    let n = s.unicode_len();
    if n == 3 {
        let l0 = lower_char(s.get_char(0));
        let l1 = lower_char(s.get_char(1));
        let l2 = lower_char(s.get_char(2));
        (l0 == 105 && l1 == 110 && l2 == 102) || (l0 == 110 && l1 == 97 && l2 == 110)
    } else if n == 8 {
        proof {
            assert(s@.take(3)[0] == s@[0]);
            assert(s@.take(3)[1] == s@[1]);
            assert(s@.take(3)[2] == s@[2]);
        }
        lower_char(s.get_char(0)) == 105 && lower_char(s.get_char(1)) == 110 && lower_char(
            s.get_char(2),
        ) == 102 && lower_char(s.get_char(3)) == 105 && lower_char(s.get_char(4)) == 110
            && lower_char(s.get_char(5)) == 105 && lower_char(s.get_char(6)) == 116 && lower_char(
            s.get_char(7),
        ) == 121
    } else {
        false
    }
}

/// Whether `s` is a well-formed amount: the text forms a decimal
/// floating-point literal.
pub fn is_valid_amount(s: &str) -> (r: bool)
    ensures
        r == is_float_text(s@),
{
    let n = s.unicode_len();
    let has_sign = if n > 0 {
        let c = s.get_char(0);
        c == '+' || c == '-'
    } else {
        false
    };
    let t = if has_sign {
        s.substring_char(1, n)
    } else {
        s.substring_char(0, n)
    };
    proof {
        assert(t@ =~= opt_sign(s@));
    }
    if check_special(t) {
        true
    } else {
        check_number(t)
    }
}

} // verus!
