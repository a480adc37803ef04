//! Decimal numerals: parsing and formatting of the integer fields that
//! appear in lockfiles and in string-encoded JSON numbers.

use vstd::prelude::*;

verus! {

/// The ten decimal digit characters.
pub open spec fn is_digit_char(c: char) -> bool {
    '0' <= c && c <= '9'
}

/// Numeric value of a digit character.
pub open spec fn digit_val(c: char) -> nat {
    (c as int - '0' as int) as nat
}

pub open spec fn all_digits(s: Seq<char>) -> bool {
    forall|i: int| 0 <= i < s.len() ==> is_digit_char(#[trigger] s[i])
}

/// Value of a digit string, most significant digit first.
pub open spec fn dec_val(s: Seq<char>) -> nat
    decreases s.len(),
{
    if s.len() == 0 {
        0
    } else {
        dec_val(s.drop_last()) * 10 + digit_val(s.last())
    }
}

/// The digits of an unsigned numeral, with one optional leading `+` removed.
pub open spec fn numeral_body(s: Seq<char>) -> Seq<char> {
    if s.len() > 0 && s[0] == '+' {
        s.drop_first()
    } else {
        s
    }
}

/// An unsigned decimal numeral: an optional `+`, then one or more digits.
pub open spec fn is_dec_numeral(s: Seq<char>) -> bool {
    numeral_body(s).len() > 0 && all_digits(numeral_body(s))
}

/// What parsing an unsigned numeral with an upper bound yields.
pub open spec fn spec_parse_unsigned(s: Seq<char>, max: nat) -> Option<nat> {
    if is_dec_numeral(s) && dec_val(numeral_body(s)) <= max {
        Some(dec_val(numeral_body(s)))
    } else {
        None
    }
}

pub open spec fn spec_parse_u32(s: Seq<char>) -> Option<u32> {
    match spec_parse_unsigned(s, u32::MAX as nat) {
        Some(v) => Some(v as u32),
        None => None,
    }
}

pub open spec fn spec_parse_u16(s: Seq<char>) -> Option<u16> {
    match spec_parse_unsigned(s, u16::MAX as nat) {
        Some(v) => Some(v as u16),
        None => None,
    }
}

/// Sign and digits of a signed numeral: a leading `-` negates, a leading
/// `+` is dropped.
pub open spec fn signed_is_negative(s: Seq<char>) -> bool {
    s.len() > 0 && s[0] == '-'
}

pub open spec fn signed_body(s: Seq<char>) -> Seq<char> {
    if s.len() > 0 && (s[0] == '-' || s[0] == '+') {
        s.drop_first()
    } else {
        s
    }
}

pub open spec fn spec_parse_i64(s: Seq<char>) -> Option<i64> {
    let b = signed_body(s);
    if b.len() > 0 && all_digits(b) {
        if signed_is_negative(s) {
            if dec_val(b) <= 0x8000_0000_0000_0000 {
                Some((0 - dec_val(b)) as i64)
            } else {
                None
            }
        } else {
            if dec_val(b) <= i64::MAX as nat {
                Some(dec_val(b) as i64)
            } else {
                None
            }
        }
    } else {
        None
    }
}

/// Appending one digit multiplies the value by ten and adds the digit.
proof fn lemma_dec_val_snoc(s: Seq<char>, c: char)
    ensures
        dec_val(s.push(c)) == dec_val(s) * 10 + digit_val(c),
{
    assert(s.push(c).drop_last() =~= s);
    assert(s.push(c).last() == c);
}

/// Scan the digits of `s` from `start` on, returning the value if every
/// remaining character is a digit and the value stays within `cap`.
fn scan_digits(s: &str, start: usize, cap: u64) -> (r: Option<u64>)
    requires
        start as int <= s@.len(),
    ensures
        ({
            let body = s@.skip(start as int);
            match r {
                Some(v) => body.len() > 0 && all_digits(body) && v == dec_val(body) && v <= cap,
                None => !(body.len() > 0 && all_digits(body) && dec_val(body) <= cap),
            }
        }),
{
    let n = s.unicode_len();
    if start >= n {
        assert(s@.skip(start as int) =~= Seq::<char>::empty());
        return None;
    }
    let mut i: usize = start;
    let mut acc: u64 = 0;
    let mut overflow: bool = false;
    while i < n
        invariant
            start <= i <= n,
            n == s@.len(),
            all_digits(s@.subrange(start as int, i as int)),
            !overflow ==> acc == dec_val(s@.subrange(start as int, i as int)) && acc <= cap,
            overflow ==> dec_val(s@.subrange(start as int, i as int)) > cap,
        decreases n - i,
    {
        let c = s.get_char(i);
        let cu = c as u32;
        if cu < 48 || cu > 57 {
            assert(!is_digit_char(s@[i as int]));
            assert(!all_digits(s@.skip(start as int))) by {
                assert(s@.skip(start as int)[i - start as int] == s@[i as int]);
            }
            return None;
        }
        let d: u64 = (cu - 48) as u64;
        proof {
            assert(is_digit_char(s@[i as int]));
            assert(digit_val(s@[i as int]) == d);
            lemma_dec_val_snoc(s@.subrange(start as int, i as int), s@[i as int]);
            assert(s@.subrange(start as int, i as int).push(s@[i as int]) =~= s@.subrange(
                start as int,
                i as int + 1,
            ));
        }
        if !overflow {
            if acc > (u64::MAX - d) / 10 {
                proof {
                    let prev = dec_val(s@.subrange(start as int, i as int));
                    assert(prev * 10 + d > u64::MAX) by (nonlinear_arith)
                        requires
                            prev == acc,
                            d <= 9,
                            acc > (u64::MAX - d) / 10,
                    ;
                }
                overflow = true;
            } else {
                let next: u64 = acc * 10 + d;
                if next > cap {
                    overflow = true;
                } else {
                    acc = next;
                }
            }
        } else {
            proof {
                let prev = dec_val(s@.subrange(start as int, i as int));
                assert(prev * 10 + d >= prev) by (nonlinear_arith);
            }
        }
        i += 1;
    }
    assert(s@.subrange(start as int, i as int) =~= s@.skip(start as int));
    if overflow {
        None
    } else {
        Some(acc)
    }
}

/// Parse an unsigned decimal numeral (optional `+`, then digits) as a `u32`.
pub fn parse_u32_str(s: &str) -> (r: Option<u32>)
    ensures
        r == spec_parse_u32(s@),
{
    let n = s.unicode_len();
    if n == 0 {
        return None;
    }
    let start: usize = if s.get_char(0) == '+' {
        1
    } else {
        0
    };
    proof {
        assert(s@.skip(start as int) =~= numeral_body(s@));
    }
    match scan_digits(s, start, u32::MAX as u64) {
        Some(v) => Some(v as u32),
        None => None,
    }
}

/// Parse an unsigned decimal numeral as a `u16`.
pub fn parse_u16_str(s: &str) -> (r: Option<u16>)
    ensures
        r == spec_parse_u16(s@),
{
    let n = s.unicode_len();
    if n == 0 {
        return None;
    }
    let start: usize = if s.get_char(0) == '+' {
        1
    } else {
        0
    };
    proof {
        assert(s@.skip(start as int) =~= numeral_body(s@));
    }
    match scan_digits(s, start, u16::MAX as u64) {
        Some(v) => Some(v as u16),
        None => None,
    }
}

/// Parse a signed decimal numeral (optional `-` or `+`, then digits) as an
/// `i64`.
pub fn parse_i64_str(s: &str) -> (r: Option<i64>)
    ensures
        r == spec_parse_i64(s@),
{
    let n = s.unicode_len();
    if n == 0 {
        return None;
    }
    let first = s.get_char(0);
    let negative: bool = first == '-';
    let start: usize = if first == '-' || first == '+' {
        1
    } else {
        0
    };
    proof {
        assert(s@.skip(start as int) =~= signed_body(s@));
    }
    if negative {
        match scan_digits(s, start, 0x8000_0000_0000_0000u64) {
            Some(v) => {
                if v == 0x8000_0000_0000_0000u64 {
                    Some(i64::MIN)
                } else {
                    Some(-(v as i64))
                }
            },
            None => None,
        }
    } else {
        match scan_digits(s, start, i64::MAX as u64) {
            Some(v) => Some(v as i64),
            None => None,
        }
    }
}

/// The digit character for a value below ten.
pub open spec fn digit_char(d: nat) -> char {
    if d == 0 {
        '0'
    } else if d == 1 {
        '1'
    } else if d == 2 {
        '2'
    } else if d == 3 {
        '3'
    } else if d == 4 {
        '4'
    } else if d == 5 {
        '5'
    } else if d == 6 {
        '6'
    } else if d == 7 {
        '7'
    } else if d == 8 {
        '8'
    } else {
        '9'
    }
}

/// Canonical decimal digits of `n`: no sign, no leading zero except for `0`.
pub open spec fn dec_digits(n: nat) -> Seq<char>
    decreases n,
{
    if n < 10 {
        seq![digit_char(n)]
    } else {
        dec_digits(n / 10).push(digit_char(n % 10))
    }
}

fn digit_to_str(d: u32) -> (r: &'static str)
    requires
        d < 10,
    ensures
        r@ =~= seq![digit_char(d as nat)],
{
    proof {
        reveal_strlit("0");
        reveal_strlit("1");
        reveal_strlit("2");
        reveal_strlit("3");
        reveal_strlit("4");
        reveal_strlit("5");
        reveal_strlit("6");
        reveal_strlit("7");
        reveal_strlit("8");
        reveal_strlit("9");
    }
    match d {
        0 => "0",
        1 => "1",
        2 => "2",
        3 => "3",
        4 => "4",
        5 => "5",
        6 => "6",
        7 => "7",
        8 => "8",
        _ => "9",
    }
}

/// Format `n` as its canonical decimal numeral.
pub fn u32_to_string(n: u32) -> (s: String)
    ensures
        s@ == dec_digits(n as nat),
    decreases n,
{
    if n < 10 {
        digit_to_str(n).to_owned()
    } else {
        let mut s = u32_to_string(n / 10);
        s.append(digit_to_str(n % 10));
        assert(s@ =~= dec_digits(n as nat));
        s
    }
}

/// The canonical numeral is made of digits only, and is never empty.
pub proof fn lemma_dec_digits_wf(n: nat)
    ensures
        dec_digits(n).len() >= 1,
        all_digits(dec_digits(n)),
    decreases n,
{
    if n >= 10 {
        lemma_dec_digits_wf(n / 10);
    }
}

/// Reading the canonical numeral back yields the number it was made from.
pub proof fn lemma_dec_digits_val(n: nat)
    ensures
        dec_val(dec_digits(n)) == n,
    decreases n,
{
    if n < 10 {
        assert(dec_digits(n) =~= Seq::<char>::empty().push(digit_char(n)));
        lemma_dec_val_snoc(Seq::<char>::empty(), digit_char(n));
    } else {
        lemma_dec_digits_val(n / 10);
        lemma_dec_val_snoc(dec_digits(n / 10), digit_char(n % 10));
        assert(n / 10 * 10 + n % 10 == n) by (nonlinear_arith);
    }
}

/// The canonical numeral of an in-range number parses back as that number.
pub proof fn lemma_parse_u32_of_digits(n: u32)
    ensures
        spec_parse_u32(dec_digits(n as nat)) == Some(n),
{
    lemma_dec_digits_wf(n as nat);
    lemma_dec_digits_val(n as nat);
    assert(numeral_body(dec_digits(n as nat)) =~= dec_digits(n as nat));
}

pub proof fn lemma_parse_u16_of_digits(n: u16)
    ensures
        spec_parse_u16(dec_digits(n as nat)) == Some(n),
{
    lemma_dec_digits_wf(n as nat);
    lemma_dec_digits_val(n as nat);
    assert(numeral_body(dec_digits(n as nat)) =~= dec_digits(n as nat));
}

} // verus!
