//! Integer literals in operands: the readings that `str::parse` and
//! `from_str_radix` give, and the register, immediate and offset operands
//! built on them.
use vstd::prelude::*;
use vstd::slice::slice_subrange;

use crate::text::{
    byte_slice, find_first, has_hex_prefix, lemma_find_first_bound, position, slice_bytes,
    strip_hex_prefixes, strip_leading, trim_hex_prefixes, trim_start_matching, CharSet,
};

verus! {

/// Value of `c` as a digit of base 36, or 36 where it is not one.
pub open spec fn digit_of(c: char) -> nat {
    let u = c as u32;
    if 0x30 <= u <= 0x39 {
        (u - 0x30) as nat
    } else if 0x61 <= u <= 0x7a {
        (u - 0x61 + 10) as nat
    } else if 0x41 <= u <= 0x5a {
        (u - 0x41 + 10) as nat
    } else {
        36
    }
}

/// Whether every character of `s` is a digit of base `radix`.
pub open spec fn all_digits(s: Seq<char>, radix: nat) -> bool {
    forall|i: int| 0 <= i < s.len() ==> #[trigger] digit_of(s[i]) < radix
}

/// The number that the digits `s` write in base `radix`.
pub open spec fn digits_value(s: Seq<char>, radix: nat) -> nat
    decreases s.len(),
{
    if s.len() == 0 {
        0
    } else {
        digits_value(s.drop_last(), radix) * radix + digit_of(s.last())
    }
}

/// What `from_str_radix(s, radix)` gives for an integer type whose values are
/// `min..=max` (signed: whether the type takes a leading '-'): an optional
/// sign, then at least one digit, and a value in range.
pub open spec fn parse_integer(s: Seq<char>, radix: nat, signed: bool, min: int, max: int) -> Option<
    int,
> {
    if s.len() == 0 {
        None
    } else if (s[0] == '+' || s[0] == '-') && s.len() == 1 {
        None
    } else {
        let negative = signed && s[0] == '-';
        let body = if s[0] == '+' || negative {
            s.drop_first()
        } else {
            s
        };
        if !all_digits(body, radix) {
            None
        } else {
            let v: int = if negative {
                -digits_value(body, radix)
            } else {
                digits_value(body, radix) as int
            };
            if min <= v <= max {
                Some(v)
            } else {
                None
            }
        }
    }
}

/// Register operand: '$' signs dropped, then a decimal `usize`; 0 where that
/// reading fails.
pub open spec fn register_number(field: Seq<char>) -> usize {
    match parse_integer(strip_leading(field, CharSet::Just('$')), 10, false, 0, usize::MAX as int) {
        Some(v) => v as usize,
        None => 0,
    }
}

/// Unsigned immediate: hexadecimal after "0x", else decimal, as a `u32`; 0
/// where that reading fails.
pub open spec fn immediate_value(field: Seq<char>) -> u32 {
    let read = if field.len() >= 2 && field[0] == '0' && field[1] == 'x' {
        parse_integer(strip_hex_prefixes(field), 16, false, 0, u32::MAX as int)
    } else {
        parse_integer(field, 10, false, 0, u32::MAX as int)
    };
    match read {
        Some(v) => v as u32,
        None => 0,
    }
}

/// Signed immediate: a decimal `i32`; 0 where that reading fails.
pub open spec fn signed_immediate_value(field: Seq<char>) -> i32 {
    match parse_integer(field, 10, true, i32::MIN as int, i32::MAX as int) {
        Some(v) => v as i32,
        None => 0,
    }
}

/// Offset before the parentheses of a memory operand: hexadecimal after "0x",
/// else decimal, as an `i32`; 0 where that reading fails.
pub open spec fn offset_value(raw: Seq<char>) -> i32 {
    let read = if raw.len() >= 2 && raw[0] == '0' && raw[1] == 'x' {
        parse_integer(strip_hex_prefixes(raw), 16, true, i32::MIN as int, i32::MAX as int)
    } else {
        parse_integer(raw, 10, true, i32::MIN as int, i32::MAX as int)
    };
    match read {
        Some(v) => v as i32,
        None => 0,
    }
}

/// Character positions of the first '(' and the first ')' of a memory operand.
pub open spec fn paren_positions(field: Seq<char>) -> Option<(int, int)> {
    match (find_first(field, CharSet::Just('(')), find_first(field, CharSet::Just(')'))) {
        (Some(a), Some(b)) => Some((a, b)),
        _ => None,
    }
}

/// Whether the memory operand can be cut at its parentheses: the positions are
/// character counts used as byte offsets, which fails where they do not fall
/// on character boundaries or the ')' comes first.
pub open spec fn offset_cuttable(field: Seq<char>) -> bool {
    match paren_positions(field) {
        Some((a, b)) => byte_slice(field, a + 1, b) is Some && byte_slice(field, 0, a) is Some,
        None => true,
    }
}

/// The memory operand `offset(base)`: `None` without both parentheses, else
/// the offset and the base register.
pub open spec fn offset_operand(field: Seq<char>) -> Option<(i32, usize)> {
    match paren_positions(field) {
        Some((a, b)) => Some(
            (
                offset_value(byte_slice(field, 0, a).unwrap()),
                register_number(byte_slice(field, a + 1, b).unwrap()),
            ),
        ),
        None => None,
    }
}

/// Digit value of `c` in base 36, or 36.
fn digit(c: char) -> (r: u64)
    ensures
        r == digit_of(c),
{
    let u = c as u32;
    if 0x30 <= u && u <= 0x39 {
        (u - 0x30) as u64
    } else if 0x61 <= u && u <= 0x7a {
        (u - 0x61 + 10) as u64
    } else if 0x41 <= u && u <= 0x5a {
        (u - 0x41 + 10) as u64
    } else {
        36
    }
}

proof fn lemma_digits_take_step(s: Seq<char>, radix: nat, i: int)
    requires
        0 <= i < s.len(),
    ensures
        digits_value(s.take(i + 1), radix) == digits_value(s.take(i), radix) * radix + digit_of(
            s[i],
        ),
{
    assert(s.take(i + 1).drop_last() =~= s.take(i));
}

proof fn lemma_digits_monotone(s: Seq<char>, radix: nat, i: int)
    requires
        radix >= 1,
        0 <= i <= s.len(),
    ensures
        digits_value(s.take(i), radix) <= digits_value(s, radix),
    decreases s.len() - i,
{
    if i < s.len() {
        lemma_digits_take_step(s, radix, i);
        let p = digits_value(s.take(i), radix);
        assert(p * radix >= p) by (nonlinear_arith)
            requires
                radix >= 1,
        ;
        lemma_digits_monotone(s, radix, i + 1);
    } else {
        assert(s.take(i) =~= s);
    }
}

/// The number written by the digits `s` in base `radix`, where all are digits
/// and it is at most `limit`.
fn digits_up_to(s: &[char], radix: u64, limit: u64) -> (r: Option<u64>)
    requires
        1 <= radix <= 36,
    ensures
        r matches Some(v) ==> all_digits(s@, radix as nat) && v == digits_value(s@, radix as nat),
        r is None ==> !all_digits(s@, radix as nat) || digits_value(s@, radix as nat) > limit,
        r matches Some(v) ==> v <= limit,
{
    let n = s.len();
    let mut acc: u64 = 0;
    let mut i: usize = 0;
    proof {
        assert(s@.take(0) =~= Seq::<char>::empty());
    }
    while i < n
        invariant
            n == s@.len(),
            1 <= radix <= 36,
            i <= n,
            acc <= limit,
            acc == digits_value(s@.take(i as int), radix as nat),
            forall|j: int| 0 <= j < i ==> #[trigger] digit_of(s@[j]) < radix,
        decreases n - i,
    {
        let d = digit(s[i]);
        if d >= radix {
            return None;
        }
        proof {
            lemma_digits_take_step(s@, radix as nat, i as int);
        }
        match acc.checked_mul(radix) {
            None => {
                proof {
                    if all_digits(s@, radix as nat) {
                        lemma_digits_monotone(s@, radix as nat, i + 1);
                    }
                }
                return None;
            },
            Some(m) => {
                match m.checked_add(d) {
                    None => {
                        proof {
                            if all_digits(s@, radix as nat) {
                                lemma_digits_monotone(s@, radix as nat, i + 1);
                            }
                        }
                        return None;
                    },
                    Some(t) => {
                        if t > limit {
                            proof {
                                if all_digits(s@, radix as nat) {
                                    lemma_digits_monotone(s@, radix as nat, i + 1);
                                }
                            }
                            return None;
                        }
                        acc = t;
                    },
                }
            },
        }
        i = i + 1;
    }
    proof {
        assert(s@.take(n as int) =~= s@);
    }
    Some(acc)
}

/// `from_str_radix` for an unsigned type whose largest value is `max`.
pub fn parse_unsigned(s: &[char], radix: u64, max: u64) -> (r: Option<u64>)
    requires
        radix == 10 || radix == 16,
    ensures
        r matches Some(v) ==> parse_integer(s@, radix as nat, false, 0, max as int) == Some(
            v as int,
        ),
        r is None ==> parse_integer(s@, radix as nat, false, 0, max as int) is None,
{
    let n = s.len();
    if n == 0 {
        return None;
    }
    if (s[0] == '+' || s[0] == '-') && n == 1 {
        return None;
    }
    if s[0] == '+' {
        let body = slice_subrange(s, 1, n);
        proof {
            assert(body@ =~= s@.drop_first());
        }
        digits_up_to(body, radix, max)
    } else {
        digits_up_to(s, radix, max)
    }
}

/// `i32::from_str_radix`.
pub fn parse_signed(s: &[char], radix: u64) -> (r: Option<i32>)
    requires
        radix == 10 || radix == 16,
    ensures
        r matches Some(v) ==> parse_integer(
            s@,
            radix as nat,
            true,
            i32::MIN as int,
            i32::MAX as int,
        ) == Some(v as int),
        r is None ==> parse_integer(s@, radix as nat, true, i32::MIN as int, i32::MAX as int) is None,
{
    let n = s.len();
    if n == 0 {
        return None;
    }
    if (s[0] == '+' || s[0] == '-') && n == 1 {
        return None;
    }
    if s[0] == '+' || s[0] == '-' {
        let negative = s[0] == '-';
        let body = slice_subrange(s, 1, n);
        proof {
            assert(body@ =~= s@.drop_first());
        }
        if negative {
            match digits_up_to(body, radix, 0x8000_0000) {
                Some(v) => Some((0 - (v as i64)) as i32),
                None => None,
            }
        } else {
            match digits_up_to(body, radix, 0x7fff_ffff) {
                Some(v) => Some(v as i32),
                None => None,
            }
        }
    } else {
        match digits_up_to(s, radix, 0x7fff_ffff) {
            Some(v) => Some(v as i32),
            None => None,
        }
    }
}

/// Register number of an operand such as "$8": the '$' signs dropped, the rest
/// read as a decimal `usize`, and 0 where that fails.
pub fn parse_reg(field: &[char]) -> (r: usize)
    ensures
        r == register_number(field@),
{
    let digits = trim_start_matching(field, CharSet::Just('$'));
    match parse_unsigned(digits.as_slice(), 10, usize::MAX as u64) {
        Some(v) => v as usize,
        None => 0,
    }
}

/// Unsigned immediate: hexadecimal after "0x", else decimal; 0 where the
/// reading fails.
pub fn parse_imm(field: &[char]) -> (r: u32)
    ensures
        r == immediate_value(field@),
{
    let read = if has_hex_prefix(field) {
        let digits = trim_hex_prefixes(field);
        parse_unsigned(digits.as_slice(), 16, 0xffff_ffff)
    } else {
        parse_unsigned(field, 10, 0xffff_ffff)
    };
    match read {
        Some(v) => v as u32,
        None => 0,
    }
}

/// Signed decimal immediate; 0 where the reading fails.
pub fn parse_imm_signed(field: &[char]) -> (r: i32)
    ensures
        r == signed_immediate_value(field@),
{
    match parse_signed(field, 10) {
        Some(v) => v,
        None => 0,
    }
}

/// Offset in front of the parentheses of a memory operand.
fn parse_offset_value(raw: &[char]) -> (r: i32)
    ensures
        r == offset_value(raw@),
{
    let read = if has_hex_prefix(raw) {
        let digits = trim_hex_prefixes(raw);
        parse_signed(digits.as_slice(), 16)
    } else {
        parse_signed(raw, 10)
    };
    match read {
        Some(v) => v,
        None => 0,
    }
}

/// Whether the memory operand can be cut at its parentheses.
pub fn offset_is_cuttable(field: &[char]) -> (r: bool)
    ensures
        r == offset_cuttable(field@),
{
    let n = field.len();
    let open = position(field, CharSet::Just('('));
    let close = position(field, CharSet::Just(')'));
    match (open, close) {
        (Some(a), Some(b)) => {
            proof {
                lemma_find_first_bound(field@, CharSet::Just('('));
                assert(open.unwrap() < n);
            }
            let reg = slice_bytes(field, a + 1, b);
            let raw = slice_bytes(field, 0, a);
            reg.is_some() && raw.is_some()
        },
        _ => true,
    }
}

/// The memory operand `offset(base)`: `None` without both parentheses, else
/// the offset and the base register number.
pub fn parse_offset(field: &[char]) -> (r: Option<(i32, usize)>)
    requires
        offset_cuttable(field@),
    ensures
        r == offset_operand(field@),
{
    let n = field.len();
    let open = position(field, CharSet::Just('('));
    let close = position(field, CharSet::Just(')'));
    match (open, close) {
        (Some(len), Some(end_len)) => {
            proof {
                lemma_find_first_bound(field@, CharSet::Just('('));
                assert(open.unwrap() < n);
            }
            let reg = slice_bytes(field, len + 1, end_len);
            let raw = slice_bytes(field, 0, len);
            match (reg, raw) {
                (Some(reg), Some(raw)) => {
                    let offset = parse_offset_value(raw.as_slice());
                    let base = parse_reg(reg.as_slice());
                    Some((offset, base))
                },
                _ => None,
            }
        },
        _ => None,
    }
}

} // verus!
