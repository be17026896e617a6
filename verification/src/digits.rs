//! Decimal rendering and parsing of the numeric path components.
//!
//! Every numeric field of a canonical path (year, month, day, hour, minute,
//! second) is written without zero padding and read back as a plain decimal
//! integer; these are the exact specifications of that rendering.

use vstd::prelude::*;

verus! {

/// A character is a decimal digit.
pub open spec fn is_digit(c: char) -> bool {
    48 <= c as int <= 57
}

/// Every character of the sequence is a decimal digit.
pub open spec fn all_digits(s: Seq<char>) -> bool {
    forall|i: int| 0 <= i < s.len() ==> is_digit(#[trigger] s[i])
}

/// The digit character for a value between 0 and 9.
pub open spec fn digit_char(d: int) -> char
    recommends
        0 <= d <= 9,
{
    if d == 0 {
        '0'
    } else if d == 1 {
        '1'
    } else if d == 2 {
        '2'
    } else if d == 3 {
        '3'
    } else if d == 4 {
        '4'
    } else if d == 5 {
        '5'
    } else if d == 6 {
        '6'
    } else if d == 7 {
        '7'
    } else if d == 8 {
        '8'
    } else {
        '9'
    }
}

/// The numeric value of a digit character.
pub open spec fn digit_val(c: char) -> int
    recommends
        is_digit(c),
{
    c as int - 48
}

/// The decimal rendering of a non-negative integer, without padding.
pub open spec fn dec_spec(n: int) -> Seq<char>
    recommends
        n >= 0,
    decreases n,
{
    if n < 10 {
        seq![digit_char(n)]
    } else {
        dec_spec(n / 10).push(digit_char(n % 10))
    }
}

/// The value of a digit string, read most significant digit first.
pub open spec fn digits_val(s: Seq<char>) -> int
    decreases s.len(),
{
    if s.len() == 0 {
        0
    } else {
        digits_val(s.drop_last()) * 10 + digit_val(s.last())
    }
}

/// The decimal rendering consists of digits only and is never empty.
pub proof fn lemma_dec_digits(n: int)
    requires
        n >= 0,
    ensures
        all_digits(dec_spec(n)),
        dec_spec(n).len() >= 1,
    decreases n,
{
    if n < 10 {
        assert(is_digit(dec_spec(n)[0]));
    } else {
        lemma_dec_digits(n / 10);
        assert forall|i: int| 0 <= i < dec_spec(n).len() implies is_digit(#[trigger] dec_spec(n)[i]) by {
            if i < dec_spec(n / 10).len() {
                assert(dec_spec(n)[i] == dec_spec(n / 10)[i]);
            } else {
                assert(dec_spec(n)[i] == digit_char(n % 10));
            }
        }
    }
}

/// Reading a decimal rendering back gives the original value.
pub proof fn lemma_dec_val(n: int)
    requires
        n >= 0,
    ensures
        digits_val(dec_spec(n)) == n,
    decreases n,
{
    if n < 10 {
        assert(dec_spec(n) =~= seq![digit_char(n)]);
        assert(dec_spec(n).drop_last() =~= Seq::<char>::empty());
        assert(digits_val(Seq::<char>::empty()) == 0);
        assert(dec_spec(n).last() == digit_char(n));
        assert(digit_val(digit_char(n)) == n);
        assert(digits_val(dec_spec(n)) == 0 * 10 + digit_val(digit_char(n)));
    } else {
        lemma_dec_val(n / 10);
        assert(dec_spec(n) == dec_spec(n / 10).push(digit_char(n % 10)));
        assert(dec_spec(n).drop_last() =~= dec_spec(n / 10));
        assert(dec_spec(n).last() == digit_char(n % 10));
        assert(digit_val(digit_char(n % 10)) == n % 10);
        assert(digits_val(dec_spec(n)) == (n / 10) * 10 + n % 10);
        assert((n / 10) * 10 + n % 10 == n) by (nonlinear_arith);
    }
}

/// A digit string's value never shrinks when it is extended on the right.
pub proof fn lemma_digits_val_prefix(s: Seq<char>, i: int)
    requires
        0 <= i <= s.len(),
        all_digits(s),
    ensures
        digits_val(s.take(i)) <= digits_val(s),
        digits_val(s) >= 0,
    decreases s.len(),
{
    if s.len() == 0 {
    } else {
        lemma_digits_val_prefix(s.drop_last(), if i <= s.len() - 1 { i } else { s.len() - 1 });
        if i < s.len() {
            assert(s.take(i) =~= s.drop_last().take(i));
        } else {
            assert(s.take(i) =~= s);
        }
        assert(digit_val(s.last()) >= 0);
    }
}

/// The result a successful `u32` parse must have: every character is a
/// digit, there is at least one, and the value fits.
pub open spec fn parse_u32_spec(s: Seq<char>) -> Option<u32> {
    if s.len() >= 1 && all_digits(s) && digits_val(s) <= u32::MAX {
        Some(digits_val(s) as u32)
    } else {
        None
    }
}

/// The result a successful `i32` parse must have: an optional leading
/// minus sign followed by at least one digit, with the value in range.
pub open spec fn parse_i32_spec(s: Seq<char>) -> Option<i32> {
    if s.len() >= 1 && s[0] == '-' {
        let t = s.skip(1);
        if t.len() >= 1 && all_digits(t) && digits_val(t) <= 0x8000_0000 {
            Some((-digits_val(t)) as i32)
        } else {
            None
        }
    } else if s.len() >= 1 && all_digits(s) && digits_val(s) <= i32::MAX {
        Some(digits_val(s) as i32)
    } else {
        None
    }
}

/// The single-character string for one digit value.
fn digit_to_str(d: u32) -> (r: &'static str)
    requires
        d <= 9,
    ensures
        r@ =~= seq![digit_char(d as int)],
{
    proof {
        reveal_strlit("0");
        reveal_strlit("1");
        reveal_strlit("2");
        reveal_strlit("3");
        reveal_strlit("4");
        reveal_strlit("5");
        reveal_strlit("6");
        reveal_strlit("7");
        reveal_strlit("8");
        reveal_strlit("9");
    }
    if d == 0 {
        "0"
    } else if d == 1 {
        "1"
    } else if d == 2 {
        "2"
    } else if d == 3 {
        "3"
    } else if d == 4 {
        "4"
    } else if d == 5 {
        "5"
    } else if d == 6 {
        "6"
    } else if d == 7 {
        "7"
    } else if d == 8 {
        "8"
    } else {
        "9"
    }
}

/// Render an unsigned value as an unpadded decimal string.
pub fn u64_to_string(n: u64) -> (r: String)
    ensures
        r@ == dec_spec(n as int),
    decreases n,
{
    if n < 10 {
        let r = digit_to_str(n as u32).to_owned();
        assert(r@ =~= dec_spec(n as int));
        r
    } else {
        let mut r = u64_to_string(n / 10);
        r.append(digit_to_str((n % 10) as u32));
        assert(r@ =~= dec_spec(n as int));
        r
    }
}

/// Render a `u32` as an unpadded decimal string.
pub fn u32_to_string(n: u32) -> (r: String)
    ensures
        r@ == dec_spec(n as int),
{
    u64_to_string(n as u64)
}

/// Render a non-negative `i32` as an unpadded decimal string.
pub fn i32_to_string(n: i32) -> (r: String)
    requires
        n >= 0,
    ensures
        r@ == dec_spec(n as int),
{
    u64_to_string(n as u64)
}

/// Parse an unsigned decimal string; `None` when a character is not a
/// digit, the string is empty, or the value does not fit in a `u32`.
pub fn parse_u32(s: &str) -> (r: Option<u32>)
    ensures
        r == parse_u32_spec(s@),
{
    let len = s.unicode_len();
    let mut i: usize = 0;
    let mut acc: u32 = 0;
    while i < len
        invariant
            0 <= i <= len,
            len == s@.len(),
            all_digits(s@.take(i as int)),
            acc == digits_val(s@.take(i as int)),
        decreases len - i,
    {
        let c = s.get_char(i);
        let cv = c as u32;
        if cv < 48 || cv > 57 {
            proof {
                assert(!is_digit(s@[i as int]));
            }
            return None;
        }
        let d: u32 = cv - 48;
        proof {
            assert(s@.take(i + 1).drop_last() =~= s@.take(i as int));
            assert(s@.take(i + 1).last() == s@[i as int]);
        }
        if acc > (u32::MAX - d) / 10 {
            proof {
                assert(acc * 10 + d > u32::MAX) by (nonlinear_arith)
                    requires
                        acc > (u32::MAX - d) / 10,
                        d <= 9,
                        acc <= u32::MAX,
                ;
                assert(digits_val(s@.take(i + 1)) == acc * 10 + d);
                if all_digits(s@) {
                    lemma_digits_val_prefix(s@, i + 1);
                }
            }
            return None;
        }
        proof {
            assert(acc * 10 + d <= u32::MAX) by (nonlinear_arith)
                requires
                    acc <= (u32::MAX - d) / 10,
                    d <= 9,
            ;
        }
        acc = acc * 10 + d;
        i = i + 1;
    }
    proof {
        assert(s@.take(len as int) =~= s@);
    }
    if len == 0 {
        None
    } else {
        Some(acc)
    }
}

/// Parse a signed decimal string with an optional leading minus sign.
pub fn parse_i32(s: &str) -> (r: Option<i32>)
    ensures
        r == parse_i32_spec(s@),
{
    let len = s.unicode_len();
    if len >= 1 && s.get_char(0) == '-' {
        let rest = s.substring_char(1, len);
        proof {
            assert(rest@ =~= s@.skip(1));
        }
        match parse_u32(rest) {
            None => None,
            Some(v) => {
                proof {
                    lemma_digits_val_prefix(s@.skip(1), 0);
                }
                if v > 0x8000_0000u32 {
                    None
                } else if v == 0x8000_0000u32 {
                    Some(i32::MIN)
                } else {
                    Some(-(v as i32))
                }
            },
        }
    } else {
        match parse_u32(s) {
            None => None,
            Some(v) => {
                proof {
                    lemma_digits_val_prefix(s@, 0);
                }
                if v > i32::MAX as u32 {
                    None
                } else {
                    Some(v as i32)
                }
            },
        }
    }
}

} // verus!
