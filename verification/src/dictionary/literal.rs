//! Default values: from the text of an expression to the bytes of a value.

use crate::datatypes::DataType;
use crate::dcf::{low_bytes, to_low_bytes};
use crate::text::{
    chars_of, digits_value, is_space, is_text, parse_number, stands_at, string_of, text_at,
};
use vstd::prelude::*;
use vstd::slice::slice_subrange;

verus! {

/// A text without white space and underscores.
pub open spec fn stripped(s: Seq<char>) -> Seq<char>
    decreases s.len(),
{
    if s.len() == 0 {
        Seq::empty()
    } else if is_space(s.last()) || s.last() == '_' {
        stripped(s.drop_last())
    } else {
        stripped(s.drop_last()).push(s.last())
    }
}

/// Remove white space and underscores.
pub fn strip(s: &[char]) -> (r: Vec<char>)
    ensures
        r@ == stripped(s@),
{
    let mut r: Vec<char> = Vec::new();
    let mut i: usize = 0;
    assert(s@.take(0) =~= Seq::<char>::empty());
    while i < s.len()
        invariant
            i <= s@.len(),
            r@ == stripped(s@.take(i as int)),
        decreases s@.len() - i,
    {
        assert(s@.take(i + 1).drop_last() =~= s@.take(i as int));
        if !(crate::text::check_space(s[i]) || s[i] == '_') {
            r.push(s[i]);
        }
        i += 1;
    }
    assert(s@.take(i as int) =~= s@);
    r
}

/// A text is the name of an integer type.
pub open spec fn is_int_suffix(s: Seq<char>) -> bool {
    ||| s == "u8"@
    ||| s == "u16"@
    ||| s == "u32"@
    ||| s == "u64"@
    ||| s == "u128"@
    ||| s == "usize"@
    ||| s == "i8"@
    ||| s == "i16"@
    ||| s == "i32"@
    ||| s == "i64"@
    ||| s == "i128"@
    ||| s == "isize"@
}

fn check_int_suffix(s: &[char]) -> (r: bool)
    ensures
        r == is_int_suffix(s@),
{
    is_text(s, "u8") || is_text(s, "u16") || is_text(s, "u32") || is_text(s, "u64") || is_text(
        s,
        "u128",
    ) || is_text(s, "usize") || is_text(s, "i8") || is_text(s, "i16") || is_text(s, "i32")
        || is_text(s, "i64") || is_text(s, "i128") || is_text(s, "isize")
}

/// Where the suffix of a literal begins: at the first letter u or i.
pub open spec fn suffix_at(s: Seq<char>, from: int) -> int
    decreases s.len() - from,
{
    if from < 0 || from >= s.len() {
        s.len() as int
    } else if s[from] == 'u' || s[from] == 'i' {
        from
    } else {
        suffix_at(s, from + 1)
    }
}

/// The base of a literal, by its prefix.
pub open spec fn literal_base(s: Seq<char>) -> int {
    if s.len() >= 2 && s[0] == '0' && s[1] == 'x' {
        16
    } else if s.len() >= 2 && s[0] == '0' && s[1] == 'o' {
        8
    } else if s.len() >= 2 && s[0] == '0' && s[1] == 'b' {
        2
    } else {
        10
    }
}

/// The value of an unsigned integer literal, such as `0x1F` or `5u8`.
pub open spec fn unsigned_literal(s: Seq<char>) -> Option<int> {
    let n = suffix_at(s, 0);
    let number = s.take(n);
    let base = literal_base(number);
    let digits = if base == 10 {
        number
    } else {
        number.skip(2)
    };
    match digits_value(digits, base) {
        Some(v) if digits.len() > 0 && v <= u64::MAX && (n == s.len() || is_int_suffix(
            s.skip(n),
        )) => Some(v),
        _ => None,
    }
}

/// Evaluate an unsigned integer literal.
pub fn eval_unsigned(s: &[char]) -> (r: Option<u64>)
    ensures
        match r {
            Some(v) => unsigned_literal(s@) == Some(v as int),
            None => unsigned_literal(s@) is None,
        },
{
    let len: usize = s.len();
    let mut n: usize = 0;
    while n < len && s[n] != 'u' && s[n] != 'i'
        invariant
            n <= len == s@.len(),
            suffix_at(s@, 0) == suffix_at(s@, n as int),
        decreases len - n,
    {
        n += 1;
    }
    let number = slice_subrange(s, 0, n);
    let suffix = slice_subrange(s, n, len);
    assert(number@ =~= s@.take(n as int));
    assert(suffix@ =~= s@.skip(n as int));
    let size: usize = number.len();
    let base: u64 = if size >= 2 && number[0] == '0' && number[1] == 'x' {
        16
    } else if size >= 2 && number[0] == '0' && number[1] == 'o' {
        8
    } else if size >= 2 && number[0] == '0' && number[1] == 'b' {
        2
    } else {
        10
    };
    let start: usize = if base == 10 {
        0
    } else {
        2
    };
    let digits = slice_subrange(number, start, size);
    let ghost d = if base == 10 {
        number@
    } else {
        number@.skip(2)
    };
    assert(digits@ =~= d);
    if digits.len() > 0 && digits[0] == '+' {
        proof {
            lemma_plus_is_no_digit(digits@, base as int);
        }
        return None;
    }
    match parse_number(digits, base, u64::MAX) {
        Some(v) => if n == len || check_int_suffix(suffix) {
            Some(v)
        } else {
            None
        },
        None => None,
    }
}

pub proof fn lemma_plus_is_no_digit(s: Seq<char>, radix: int)
    requires
        s.len() > 0,
        s[0] == '+',
        radix <= 16,
    ensures
        digits_value(s, radix) is None,
    decreases s.len(),
{
    if s.len() == 1 {
        assert(s.last() == '+');
    } else {
        lemma_plus_is_no_digit(s.drop_last(), radix);
    }
}

/// The value of an integer literal with an optional minus sign.
pub open spec fn int_literal(s: Seq<char>) -> Option<int> {
    if s.len() > 0 && s[0] == '-' {
        match unsigned_literal(s.skip(1)) {
            Some(v) => Some(-v),
            None => None,
        }
    } else {
        unsigned_literal(s)
    }
}

/// The integers of a type.
pub open spec fn int_range(t: DataType) -> (int, int) {
    match t {
        DataType::U8 => (0, 0xFF),
        DataType::U16 => (0, 0xFFFF),
        DataType::U24 => (0, 0xFF_FFFF),
        DataType::U32 => (0, 0xFFFF_FFFF),
        DataType::U64 => (0, 0xFFFF_FFFF_FFFF_FFFF),
        DataType::I8 => (-0x80, 0x7F),
        DataType::I16 => (-0x8000, 0x7FFF),
        DataType::I24 => (-0x80_0000, 0x7F_FFFF),
        DataType::I32 => (-0x8000_0000, 0x7FFF_FFFF),
        DataType::I64 => (-0x8000_0000_0000_0000, 0x7FFF_FFFF_FFFF_FFFF),
        _ => (0, -1),
    }
}

/// The bytes of a number, in two's complement if it is negative.
pub open spec fn number_bytes(v: int, width: nat) -> Seq<u8> {
    low_bytes(
        if v < 0 {
            v + 0x1_0000_0000_0000_0000
        } else {
            v
        },
        width,
    )
}

/// A text between `f32::from_bits(` and a closing parenthesis, or the same with
/// `f64`, stripped of its underscore.
pub open spec fn bits_text(s: Seq<char>, double: bool) -> Option<Seq<char>> {
    let head = if double {
        "f64::frombits("@
    } else {
        "f32::frombits("@
    };
    if stands_at(s, head, 0) && s.len() > head.len() && s.last() == ')' {
        Some(s.subrange(head.len() as int, s.len() - 1))
    } else {
        None
    }
}

/// A text without the name of a real type at its end.
pub open spec fn without_real_suffix(s: Seq<char>) -> Seq<char> {
    if s.len() >= 3 && (s.skip(s.len() - 3) == "f32"@ || s.skip(s.len() - 3) == "f64"@) {
        s.take(s.len() - 3)
    } else {
        s
    }
}

fn drop_real_suffix(s: &[char]) -> (r: &[char])
    ensures
        r@ == without_real_suffix(s@),
{
    let len: usize = s.len();
    if len >= 3 {
        let tail = slice_subrange(s, len - 3, len);
        assert(tail@ =~= s@.skip(len - 3));
        if is_text(tail, "f32") || is_text(tail, "f64") {
            let front = slice_subrange(s, 0, len - 3);
            assert(front@ =~= s@.take(len - 3));
            return front;
        }
    }
    s
}

/// The decimal notation of a real literal: its sign, digits, point and exponent,
/// without white space, underscores and a suffix.
pub fn decimal_notation(text: &str) -> (r: String)
    ensures
        r@ == without_real_suffix(stripped(text@)),
{
    let chars = chars_of(text);
    let s = strip(chars.as_slice());
    string_of(drop_real_suffix(s.as_slice()))
}

/// A real literal that is zero: zeros and a point, with an optional suffix.
pub open spec fn is_zero_real(s: Seq<char>) -> bool {
    let digits = without_real_suffix(s);
    digits.len() > 0 && forall|i: int|
        0 <= i < digits.len() ==> digits[i] == '0' || digits[i] == '.'
}

/// The bytes of a fixed-size value that a literal stands for. Reals in decimal
/// notation have to be resolved already, unless they are zero.
pub open spec fn literal_bytes(t: DataType, text: Seq<char>, real_bits: Option<u64>) -> Option<
    Seq<u8>,
> {
    let s = stripped(text);
    match t {
        DataType::Boolean => if s == "true"@ {
            Some(seq![1u8])
        } else if s == "false"@ {
            Some(seq![0u8])
        } else {
            match int_literal(s) {
                Some(v) => Some(
                    seq![
                        if v == 0 {
                            0u8
                        } else {
                            1u8
                        },
                    ],
                ),
                None => None,
            }
        },
        DataType::Real32 => real_bytes(s, real_bits, false),
        DataType::Real64 => real_bytes(s, real_bits, true),
        _ => match (int_literal(s), t.spec_size()) {
            (Some(v), Some(n)) if int_range(t).0 <= v <= int_range(t).1 => Some(
                number_bytes(v, n as nat),
            ),
            _ => None,
        },
    }
}

/// The bytes of a real.
pub open spec fn real_bytes(s: Seq<char>, real_bits: Option<u64>, double: bool) -> Option<Seq<u8>> {
    let width: nat = if double {
        8
    } else {
        4
    };
    match real_bits {
        Some(b) => Some(low_bytes(b as int, width)),
        None => match bits_text(s, double) {
            Some(inner) => match unsigned_literal(inner) {
                Some(v) if double || v <= 0xFFFF_FFFF => Some(low_bytes(v, width)),
                _ => None,
            },
            None => if is_zero_real(s) {
                Some(low_bytes(0, width))
            } else {
                None
            },
        },
    }
}

fn check_zero_real(s: &[char]) -> (r: bool)
    ensures
        r == is_zero_real(s@),
{
    let digits = drop_real_suffix(s);
    if digits.len() == 0 {
        return false;
    }
    let mut i: usize = 0;
    while i < digits.len()
        invariant
            i <= digits@.len(),
            digits@ == without_real_suffix(s@),
            forall|j: int| 0 <= j < i ==> digits@[j] == '0' || digits@[j] == '.',
        decreases digits@.len() - i,
    {
        if digits[i] != '0' && digits[i] != '.' {
            return false;
        }
        i += 1;
    }
    true
}

fn eval_real(s: &[char], real_bits: Option<u64>, double: bool) -> (r: Option<Vec<u8>>)
    ensures
        match r {
            Some(v) => real_bytes(s@, real_bits, double) == Some(v@),
            None => real_bytes(s@, real_bits, double) is None,
        },
{
    let width: usize = if double {
        8
    } else {
        4
    };
    if let Some(b) = real_bits {
        return Some(to_low_bytes(b, width));
    }
    let head = if double {
        chars_of("f64::frombits(")
    } else {
        chars_of("f32::frombits(")
    };
    let len: usize = s.len();
    if text_at(s, head.as_slice(), 0) && len > head.len() && s[len - 1] == ')' {
        let inner = slice_subrange(s, head.len(), len - 1);
        return match eval_unsigned(inner) {
            Some(v) => if double || v <= 0xFFFF_FFFF {
                Some(to_low_bytes(v, width))
            } else {
                None
            },
            None => None,
        };
    }
    if check_zero_real(s) {
        Some(to_low_bytes(0, width))
    } else {
        None
    }
}

/// Evaluate an integer literal with an optional minus sign.
pub fn eval_int(s: &[char]) -> (r: Option<i128>)
    ensures
        match r {
            Some(v) => int_literal(s@) == Some(v as int) && -0xFFFF_FFFF_FFFF_FFFF <= v
                <= 0xFFFF_FFFF_FFFF_FFFF,
            None => int_literal(s@) is None,
        },
{
    let len: usize = s.len();
    if len > 0 && s[0] == '-' {
        let rest = slice_subrange(s, 1, len);
        assert(rest@ =~= s@.skip(1));
        match eval_unsigned(rest) {
            Some(v) => Some(-(v as i128)),
            None => None,
        }
    } else {
        match eval_unsigned(s) {
            Some(v) => Some(v as i128),
            None => None,
        }
    }
}

fn range_of(t: DataType) -> (r: (i128, i128))
    ensures
        r.0 == int_range(t).0,
        r.1 == int_range(t).1,
{
    match t {
        DataType::U8 => (0, 0xFF),
        DataType::U16 => (0, 0xFFFF),
        DataType::U24 => (0, 0xFF_FFFF),
        DataType::U32 => (0, 0xFFFF_FFFF),
        DataType::U64 => (0, 0xFFFF_FFFF_FFFF_FFFF),
        DataType::I8 => (-0x80, 0x7F),
        DataType::I16 => (-0x8000, 0x7FFF),
        DataType::I24 => (-0x80_0000, 0x7F_FFFF),
        DataType::I32 => (-0x8000_0000, 0x7FFF_FFFF),
        DataType::I64 => (-0x8000_0000_0000_0000, 0x7FFF_FFFF_FFFF_FFFF),
        _ => (0, -1),
    }
}

/// Evaluate the default of a fixed-size value.
pub fn eval_literal(t: DataType, text: &str, real_bits: Option<u64>) -> (r: Option<Vec<u8>>)
    ensures
        match r {
            Some(v) => literal_bytes(t, text@, real_bits) == Some(v@),
            None => literal_bytes(t, text@, real_bits) is None,
        },
{
    let chars = chars_of(text);
    let stripped_text = strip(chars.as_slice());
    let s = stripped_text.as_slice();
    match t {
        DataType::Boolean => {
            let v: u8 = if is_text(s, "true") {
                1
            } else if is_text(s, "false") {
                0
            } else {
                match eval_int(s) {
                    Some(v) => if v == 0 {
                        0
                    } else {
                        1
                    },
                    None => {
                        return None;
                    },
                }
            };
            let bytes: Vec<u8> = vec![v];
            assert(bytes@ =~= seq![v]);
            Some(bytes)
        },
        DataType::Real32 => eval_real(s, real_bits, false),
        DataType::Real64 => eval_real(s, real_bits, true),
        _ => {
            let n: usize = match t.size() {
                Some(n) => n,
                None => {
                    return None;
                },
            };
            match eval_int(s) {
                Some(v) => {
                    let range = range_of(t);
                    if v < range.0 || v > range.1 {
                        return None;
                    }
                    let u: u64 = if v < 0 {
                        (v + 0x1_0000_0000_0000_0000) as u64
                    } else {
                        v as u64
                    };
                    Some(to_low_bytes(u, n))
                },
                None => None,
            }
        },
    }
}

} // verus!
