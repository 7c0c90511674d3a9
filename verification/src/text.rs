//! Text as sequences of characters: trimming, comparing, searching, and numbers.

use vstd::prelude::*;
use vstd::slice::slice_subrange;

verus! {

/// Calls `String::push`, which appends the character to the string.
pub assume_specification[ String::push ](s: &mut String, c: char)
    ensures
        final(s)@ == old(s)@.push(c),
;

/// The characters of a string.
pub fn chars_of(s: &str) -> (r: Vec<char>)
    ensures
        r@ == s@,
{
    let mut r: Vec<char> = Vec::new();
    for c in it: s.chars()
        invariant
            it.seq() == s@,
            r@ == s@.take(it.index() as int),
    {
        r.push(c);
        assert(r@ =~= s@.take(it.index() + 1));
    }
    assert(r@ =~= s@);
    r
}

/// The string with the given characters.
pub fn string_of(chars: &[char]) -> (r: String)
    ensures
        r@ == chars@,
{
    let mut r = String::new();
    let mut i: usize = 0;
    assert(r@ =~= chars@.take(0));
    while i < chars.len()
        invariant
            i <= chars@.len(),
            r@ == chars@.take(i as int),
        decreases chars@.len() - i,
    {
        r.push(chars[i]);
        i += 1;
        assert(r@ =~= chars@.take(i as int));
    }
    assert(chars@.take(i as int) =~= chars@);
    r
}

// ---- Whitespace ----

/// The characters that Unicode counts as white space.
pub open spec fn is_space(c: char) -> bool {
    let v = c as u32;
    ||| 0x09 <= v <= 0x0D
    ||| v == 0x20
    ||| v == 0x85
    ||| v == 0xA0
    ||| v == 0x1680
    ||| 0x2000 <= v <= 0x200A
    ||| v == 0x2028
    ||| v == 0x2029
    ||| v == 0x202F
    ||| v == 0x205F
    ||| v == 0x3000
}

/// Whether Unicode counts a character as white space.
pub fn check_space(c: char) -> (r: bool)
    ensures
        r == is_space(c),
{
    let v: u32 = c as u32;
    (0x09 <= v && v <= 0x0D) || v == 0x20 || v == 0x85 || v == 0xA0 || v == 0x1680 || (0x2000 <= v
        && v <= 0x200A) || v == 0x2028 || v == 0x2029 || v == 0x202F || v == 0x205F || v == 0x3000
}

/// A text without the white space that it begins with.
pub open spec fn trimmed_start(s: Seq<char>) -> Seq<char>
    decreases s.len(),
{
    if s.len() > 0 && is_space(s[0]) {
        trimmed_start(s.skip(1))
    } else {
        s
    }
}

/// A text without the white space that it ends with.
pub open spec fn trimmed_end(s: Seq<char>) -> Seq<char>
    decreases s.len(),
{
    if s.len() > 0 && is_space(s.last()) {
        trimmed_end(s.drop_last())
    } else {
        s
    }
}

/// A text without the white space around it.
pub open spec fn trimmed(s: Seq<char>) -> Seq<char> {
    trimmed_end(trimmed_start(s))
}

/// Remove the white space around a text.
pub fn trim(s: &[char]) -> (r: &[char])
    ensures
        r@ == trimmed(s@),
        r@.len() <= s@.len(),
{
    let mut a: usize = 0;
    assert(s@.skip(0) =~= s@);
    while a < s.len() && check_space(s[a])
        invariant
            a <= s@.len(),
            trimmed_start(s@) == trimmed_start(s@.skip(a as int)),
        decreases s@.len() - a,
    {
        assert(s@.skip(a as int).skip(1) =~= s@.skip(a + 1));
        a += 1;
    }
    let ghost front = s@.skip(a as int);
    let mut b: usize = s.len();
    assert(s@.subrange(a as int, b as int) =~= front);
    while a < b && check_space(s[b - 1])
        invariant
            a <= b <= s@.len(),
            trimmed_end(front) == trimmed_end(s@.subrange(a as int, b as int)),
        decreases b,
    {
        assert(s@.subrange(a as int, b as int).drop_last() =~= s@.subrange(a as int, b - 1));
        b -= 1;
    }
    slice_subrange(s, a, b)
}

// ---- Comparison ----

/// Compare two texts.
pub fn same_text(a: &[char], b: &[char]) -> (r: bool)
    ensures
        r == (a@ == b@),
{
    if a.len() != b.len() {
        return false;
    }
    let mut i: usize = 0;
    while i < a.len()
        invariant
            i <= a@.len(),
            a@.len() == b@.len(),
            forall|j: int| 0 <= j < i ==> a@[j] == b@[j],
        decreases a@.len() - i,
    {
        if a[i] != b[i] {
            return false;
        }
        i += 1;
    }
    assert(a@ =~= b@);
    true
}

/// Compare a text with a string.
pub fn is_text(a: &[char], b: &str) -> (r: bool)
    ensures
        r == (a@ == b@),
{
    let chars = chars_of(b);
    same_text(a, chars.as_slice())
}

/// A character with its case folded, if it is one of the letters A to Z.
pub open spec fn folded(c: char) -> int {
    if 0x41 <= c as u32 <= 0x5A {
        c as u32 + 0x20
    } else {
        c as u32 as int
    }
}

fn fold(c: char) -> (r: u32)
    ensures
        r == folded(c),
{
    let v: u32 = c as u32;
    if 0x41 <= v && v <= 0x5A {
        v + 0x20
    } else {
        v
    }
}

/// Two texts are the same but for the case of the letters A to Z.
pub open spec fn same_but_case(a: Seq<char>, b: Seq<char>) -> bool {
    a.len() == b.len() && forall|i: int| 0 <= i < a.len() ==> folded(#[trigger] a[i]) == folded(b[i])
}

/// Compare two texts without regard to the case of the letters A to Z.
pub fn same_ignoring_case(a: &[char], b: &[char]) -> (r: bool)
    ensures
        r == same_but_case(a@, b@),
{
    if a.len() != b.len() {
        return false;
    }
    let mut i: usize = 0;
    while i < a.len()
        invariant
            i <= a@.len(),
            a@.len() == b@.len(),
            forall|j: int| 0 <= j < i ==> folded(#[trigger] a@[j]) == folded(b@[j]),
        decreases a@.len() - i,
    {
        if fold(a[i]) != fold(b[i]) {
            assert(folded(a@[i as int]) != folded(b@[i as int]));
            return false;
        }
        i += 1;
    }
    true
}

// ---- Search ----

/// A pattern stands at a position of a text.
pub open spec fn stands_at(s: Seq<char>, pattern: Seq<char>, i: int) -> bool {
    0 <= i && i + pattern.len() <= s.len() && s.subrange(i, i + pattern.len()) == pattern
}

/// The first position from `from` on at which a pattern stands.
pub open spec fn find(s: Seq<char>, pattern: Seq<char>, from: int) -> Option<int>
    decreases s.len() + 1 - from,
{
    if from < 0 || from > s.len() {
        None
    } else if stands_at(s, pattern, from) {
        Some(from)
    } else {
        find(s, pattern, from + 1)
    }
}

/// A text contains a pattern.
pub open spec fn contains(s: Seq<char>, pattern: Seq<char>) -> bool {
    find(s, pattern, 0) is Some
}

/// The parts of a text before and after the first occurrence of a pattern.
pub open spec fn split_at_first(s: Seq<char>, pattern: Seq<char>) -> Option<
    (Seq<char>, Seq<char>),
> {
    match find(s, pattern, 0) {
        Some(i) => Some((s.take(i), s.skip(i + pattern.len()))),
        None => None,
    }
}

/// Whether a pattern stands at a position.
pub fn text_at(s: &[char], pattern: &[char], i: usize) -> (r: bool)
    ensures
        r == stands_at(s@, pattern@, i as int),
{
    if i > s.len() || pattern.len() > s.len() - i {
        return false;
    }
    let part = slice_subrange(s, i, i + pattern.len());
    same_text(part, pattern)
}

pub proof fn lemma_find_bounds(s: Seq<char>, pattern: Seq<char>, from: int)
    requires
        0 <= from,
    ensures
        find(s, pattern, from) matches Some(i) ==> from <= i && stands_at(s, pattern, i),
    decreases s.len() + 1 - from,
{
    if from <= s.len() && !stands_at(s, pattern, from) {
        lemma_find_bounds(s, pattern, from + 1);
    }
}

/// The first position at which a pattern stands.
pub fn find_text(s: &[char], pattern: &[char]) -> (r: Option<usize>)
    ensures
        match r {
            Some(i) => find(s@, pattern@, 0) == Some(i as int) && i + pattern@.len() <= s@.len(),
            None => find(s@, pattern@, 0) is None,
        },
{
    let mut i: usize = 0;
    while i < s.len()
        invariant
            i <= s@.len(),
            find(s@, pattern@, 0) == find(s@, pattern@, i as int),
        decreases s@.len() - i,
    {
        if text_at(s, pattern, i) {
            return Some(i);
        }
        i += 1;
    }
    if text_at(s, pattern, i) {
        Some(i)
    } else {
        assert(find(s@, pattern@, i + 1) is None);
        None
    }
}

/// Whether a text contains a string.
pub fn contains_text(s: &[char], pattern: &str) -> (r: bool)
    ensures
        r == contains(s@, pattern@),
{
    let p = chars_of(pattern);
    find_text(s, p.as_slice()).is_some()
}

// ---- Numbers ----

/// The value of a digit in a base of up to 16, if it is one.
pub open spec fn digit_value(c: char, radix: int) -> Option<int> {
    let v = c as u32 as int;
    let d = if 0x30 <= v <= 0x39 {
        v - 0x30
    } else if 0x61 <= v <= 0x66 {
        v - 0x61 + 10
    } else if 0x41 <= v <= 0x46 {
        v - 0x41 + 10
    } else {
        16
    };
    if d < radix {
        Some(d)
    } else {
        None
    }
}

/// The number that digits stand for, if all of them are digits.
pub open spec fn digits_value(s: Seq<char>, radix: int) -> Option<int>
    decreases s.len(),
{
    if s.len() == 0 {
        Some(0)
    } else {
        match (digits_value(s.drop_last(), radix), digit_value(s.last(), radix)) {
            (Some(front), Some(d)) => Some(front * radix + d),
            _ => None,
        }
    }
}

/// The digits of a number: what follows an optional plus sign.
pub open spec fn unsigned_digits(s: Seq<char>) -> Seq<char> {
    if s.len() > 0 && s[0] == '+' {
        s.skip(1)
    } else {
        s
    }
}

/// The number that a text stands for: an optional plus sign and at least one
/// digit, a number of at most `max`.
pub open spec fn number(s: Seq<char>, radix: int, max: int) -> Option<int> {
    let digits = unsigned_digits(s);
    match digits_value(digits, radix) {
        Some(v) if digits.len() > 0 && v <= max => Some(v),
        _ => None,
    }
}

pub fn parse_digit(c: char, radix: u64) -> (r: Option<u64>)
    requires
        radix <= 16,
    ensures
        match r {
            Some(d) => digit_value(c, radix as int) == Some(d as int) && d < radix,
            None => digit_value(c, radix as int) is None,
        },
{
    let v: u32 = c as u32;
    let d: u64 = if 0x30 <= v && v <= 0x39 {
        (v - 0x30) as u64
    } else if 0x61 <= v && v <= 0x66 {
        (v - 0x61 + 10) as u64
    } else if 0x41 <= v && v <= 0x46 {
        (v - 0x41 + 10) as u64
    } else {
        16
    };
    if d < radix {
        Some(d)
    } else {
        None
    }
}

/// Digits that are none, or stand for too large a number, cannot be made good
/// by further digits.
proof fn lemma_digits_prefix(s: Seq<char>, n: int, radix: int)
    requires
        0 <= n <= s.len(),
        1 <= radix,
    ensures
        digits_value(s.take(n), radix) is None ==> digits_value(s, radix) is None,
        digits_value(s.take(n), radix) is Some && digits_value(s, radix) is Some ==> 0
            <= digits_value(s.take(n), radix)->0 <= digits_value(s, radix)->0,
    decreases s.len() - n, n,
{
    if n < s.len() {
        assert(s.take(n + 1).drop_last() =~= s.take(n));
        lemma_digits_prefix(s, n + 1, radix);
        lemma_digits_not_negative(s.take(n), radix);
        if digits_value(s.take(n), radix) is Some && digits_value(s.take(n + 1), radix) is Some {
            let a = digits_value(s.take(n), radix)->0;
            assert(a <= a * radix) by (nonlinear_arith)
                requires
                    0 <= a,
                    1 <= radix,
            ;
        }
    } else {
        assert(s.take(n) =~= s);
        lemma_digits_not_negative(s, radix);
    }
}

proof fn lemma_digits_not_negative(s: Seq<char>, radix: int)
    requires
        1 <= radix,
    ensures
        digits_value(s, radix) matches Some(v) ==> 0 <= v,
    decreases s.len(),
{
    if s.len() > 0 {
        lemma_digits_not_negative(s.drop_last(), radix);
        if digits_value(s.drop_last(), radix) is Some {
            let a = digits_value(s.drop_last(), radix)->0;
            assert(0 <= a * radix) by (nonlinear_arith)
                requires
                    0 <= a,
                    1 <= radix,
            ;
        }
    }
}

/// Parse a number of at most `max`: an optional plus sign and at least one
/// digit.
pub fn parse_number(s: &[char], radix: u64, max: u64) -> (r: Option<u64>)
    requires
        2 <= radix <= 16,
    ensures
        match r {
            Some(v) => number(s@, radix as int, max as int) == Some(v as int) && v <= max,
            None => number(s@, radix as int, max as int) is None,
        },
{
    let start: usize = if s.len() > 0 && s[0] == '+' {
        1
    } else {
        0
    };
    let digits = slice_subrange(s, start, s.len());
    let ghost d = unsigned_digits(s@);
    assert(digits@ =~= d);
    if digits.len() == 0 {
        return None;
    }
    let mut value: u64 = 0;
    let mut i: usize = 0;
    assert(d.take(0) =~= Seq::<char>::empty());
    while i < digits.len()
        invariant
            i <= digits@.len(),
            digits@ == d,
            d == unsigned_digits(s@),
            2 <= radix <= 16,
            value <= max,
            digits_value(d.take(i as int), radix as int) == Some(value as int),
        decreases digits@.len() - i,
    {
        assert(d.take(i + 1).drop_last() =~= d.take(i as int));
        match parse_digit(digits[i], radix) {
            Some(digit) => {
                proof {
                    assert(0 <= value as int * radix as int <= 0xFFFF_FFFF_FFFF_FFFF * 16)
                        by (nonlinear_arith)
                        requires
                            value <= 0xFFFF_FFFF_FFFF_FFFF,
                            radix <= 16,
                    ;
                }
                let next: u128 = value as u128 * radix as u128 + digit as u128;
                if next > max as u128 {
                    proof {
                        lemma_digits_prefix(d, i + 1, radix as int);
                    }
                    return None;
                }
                value = next as u64;
            },
            None => {
                proof {
                    lemma_digits_prefix(d, i + 1, radix as int);
                }
                return None;
            },
        }
        i += 1;
    }
    assert(d.take(i as int) =~= d);
    Some(value)
}

/// A text begins with the mark of hexadecimal numbers, `0x` or `0X`.
pub open spec fn has_hex_mark(s: Seq<char>) -> bool {
    s.len() >= 2 && s[0] == '0' && (s[1] == 'x' || s[1] == 'X')
}

/// The number that a text stands for: hexadecimal after `0x`, else decimal.
pub open spec fn int_value(s: Seq<char>) -> Option<int> {
    let t = trimmed(s);
    if has_hex_mark(t) {
        number(t.skip(2), 16, u64::MAX as int)
    } else {
        number(t, 10, u64::MAX as int)
    }
}

/// What follows the mark of hexadecimal numbers, if it is there.
pub fn strip_hex_mark(s: &[char]) -> (r: Option<&[char]>)
    ensures
        match r {
            Some(rest) => has_hex_mark(s@) && rest@ == s@.skip(2),
            None => !has_hex_mark(s@),
        },
{
    if s.len() >= 2 && s[0] == '0' && (s[1] == 'x' || s[1] == 'X') {
        let rest = slice_subrange(s, 2, s.len());
        assert(rest@ =~= s@.skip(2));
        Some(rest)
    } else {
        None
    }
}

/// Parse a number: hexadecimal after `0x`, else decimal.
pub fn parse_int(s: &[char]) -> (r: Option<u64>)
    ensures
        match r {
            Some(v) => int_value(s@) == Some(v as int),
            None => int_value(s@) is None,
        },
{
    let t = trim(s);
    match strip_hex_mark(t) {
        Some(hex) => parse_number(hex, 16, u64::MAX),
        None => parse_number(t, 10, u64::MAX),
    }
}

// ---- Quotes ----

/// A text without the quotes that it begins with.
pub open spec fn unquoted_start(s: Seq<char>) -> Seq<char>
    decreases s.len(),
{
    if s.len() > 0 && s[0] == '"' {
        unquoted_start(s.skip(1))
    } else {
        s
    }
}

/// A text without the quotes that it ends with.
pub open spec fn unquoted_end(s: Seq<char>) -> Seq<char>
    decreases s.len(),
{
    if s.len() > 0 && s.last() == '"' {
        unquoted_end(s.drop_last())
    } else {
        s
    }
}

/// A text without the quotes around it.
pub open spec fn unquoted(s: Seq<char>) -> Seq<char> {
    unquoted_end(unquoted_start(s))
}

/// Remove the quotes around a text.
pub fn unquote(s: &[char]) -> (r: &[char])
    ensures
        r@ == unquoted(s@),
{
    let mut a: usize = 0;
    assert(s@.skip(0) =~= s@);
    while a < s.len() && s[a] == '"'
        invariant
            a <= s@.len(),
            unquoted_start(s@) == unquoted_start(s@.skip(a as int)),
        decreases s@.len() - a,
    {
        assert(s@.skip(a as int).skip(1) =~= s@.skip(a + 1));
        a += 1;
    }
    let ghost front = s@.skip(a as int);
    let mut b: usize = s.len();
    assert(s@.subrange(a as int, b as int) =~= front);
    while a < b && s[b - 1] == '"'
        invariant
            a <= b <= s@.len(),
            unquoted_end(front) == unquoted_end(s@.subrange(a as int, b as int)),
        decreases b,
    {
        assert(s@.subrange(a as int, b as int).drop_last() =~= s@.subrange(a as int, b - 1));
        b -= 1;
    }
    slice_subrange(s, a, b)
}

// ---- Writing numbers ----

/// The digit of a value below 16, with upper-case letters.
pub open spec fn digit_char(d: int) -> char {
    if d < 10 {
        (0x30 + d) as char
    } else {
        (0x41 + d - 10) as char
    }
}

/// A number in a base, without leading zeros.
pub open spec fn digits(n: nat, radix: nat) -> Seq<char>
    decreases n,
{
    if radix < 2 {
        Seq::empty()
    } else if n < radix {
        seq![digit_char(n as int)]
    } else {
        proof {
            assert(0 <= n / radix < n) by (nonlinear_arith)
                requires
                    2 <= radix <= n,
            ;
        }
        digits(n / radix, radix).push(digit_char((n % radix) as int))
    }
}

/// A number in decimal.
pub open spec fn decimal(n: nat) -> Seq<char> {
    digits(n, 10)
}

/// A number in hexadecimal.
pub open spec fn hex(n: nat) -> Seq<char> {
    digits(n, 16)
}

/// A text filled up with zeros at its front to a width.
pub open spec fn zero_filled(s: Seq<char>, width: nat) -> Seq<char> {
    if s.len() >= width {
        s
    } else {
        Seq::new((width - s.len()) as nat, |i: int| '0') + s
    }
}

fn to_digit(d: u128) -> (r: char)
    requires
        d < 16,
    ensures
        r == digit_char(d as int),
{
    if d < 10 {
        (0x30 + d as u8) as char
    } else {
        (0x41 + (d as u8 - 10)) as char
    }
}

/// Append characters.
pub fn append_chars(out: &mut Vec<char>, s: &[char])
    ensures
        final(out)@ == old(out)@ + s@,
{
    let mut i: usize = 0;
    assert(out@ =~= old(out)@ + s@.take(0));
    while i < s.len()
        invariant
            i <= s@.len(),
            out@ == old(out)@ + s@.take(i as int),
        decreases s@.len() - i,
    {
        out.push(s[i]);
        i += 1;
        assert(out@ =~= old(out)@ + s@.take(i as int));
    }
    assert(s@.take(i as int) =~= s@);
}

/// Append a string.
pub fn append_str(out: &mut Vec<char>, s: &str)
    ensures
        final(out)@ == old(out)@ + s@,
{
    let chars = chars_of(s);
    append_chars(out, chars.as_slice());
}

fn append_digits(out: &mut Vec<char>, n: u128, radix: u128)
    requires
        2 <= radix <= 16,
    ensures
        final(out)@ == old(out)@ + digits(n as nat, radix as nat),
    decreases n,
{
    if n < radix {
        out.push(to_digit(n));
        assert(out@ =~= old(out)@ + seq![digit_char(n as int)]);
    } else {
        assert(n / radix < n) by (nonlinear_arith)
            requires
                2 <= radix <= n,
        ;
        append_digits(out, n / radix, radix);
        let ghost mid = out@;
        assert(n % radix < 16) by (nonlinear_arith)
            requires
                2 <= radix <= 16,
        ;
        out.push(to_digit(n % radix));
        assert(out@ =~= old(out)@ + digits((n / radix) as nat, radix as nat).push(
            digit_char((n % radix) as int),
        ));
    }
}

/// Append a number in decimal.
pub fn append_decimal(out: &mut Vec<char>, n: u64)
    ensures
        final(out)@ == old(out)@ + decimal(n as nat),
{
    append_digits(out, n as u128, 10);
}

/// Append a number of up to 128 bits in decimal.
pub fn append_wide_decimal(out: &mut Vec<char>, n: u128)
    ensures
        final(out)@ == old(out)@ + decimal(n as nat),
{
    append_digits(out, n, 10);
}

/// Append a number in hexadecimal.
pub fn append_hex(out: &mut Vec<char>, n: u64)
    ensures
        final(out)@ == old(out)@ + hex(n as nat),
{
    append_digits(out, n as u128, 16);
}

/// Append a number in hexadecimal, with at least so many digits.
pub fn append_hex_filled(out: &mut Vec<char>, n: u64, width: usize)
    ensures
        final(out)@ == old(out)@ + zero_filled(hex(n as nat), width as nat),
{
    let mut text: Vec<char> = Vec::new();
    append_digits(&mut text, n as u128, 16);
    assert(text@ =~= hex(n as nat));
    let ghost before = out@;
    if text.len() < width {
        let missing: usize = width - text.len();
        let mut i: usize = 0;
        assert(out@ =~= before + Seq::new(0, |k: int| '0'));
        while i < missing
            invariant
                i <= missing,
                out@ == before + Seq::new(i as nat, |k: int| '0'),
            decreases missing - i,
        {
            out.push('0');
            i += 1;
            assert(out@ =~= before + Seq::new(i as nat, |k: int| '0'));
        }
    }
    append_chars(out, text.as_slice());
    assert(out@ =~= before + zero_filled(hex(n as nat), width as nat));
}

/// Reading back a number that was written gives the number.
pub proof fn lemma_digits_roundtrip(n: nat, radix: nat)
    requires
        2 <= radix <= 16,
    ensures
        digits_value(digits(n, radix), radix as int) == Some(n as int),
        digits(n, radix).len() > 0,
        digits(n, radix)[0] != '+',
    decreases n,
{
    if n < radix {
        let s = seq![digit_char(n as int)];
        assert(s.drop_last() =~= Seq::<char>::empty());
        assert(digits_value(s.drop_last(), radix as int) == Some(0int));
        assert(digit_value(s.last(), radix as int) == Some(n as int));
        assert(0 * radix as int == 0) by (nonlinear_arith);
    } else {
        assert(0 <= n / radix < n) by (nonlinear_arith)
            requires
                2 <= radix <= n,
        ;
        lemma_digits_roundtrip(n / radix, radix);
        let front = digits(n / radix, radix);
        let s = front.push(digit_char((n % radix) as int));
        assert(s.drop_last() =~= front);
        assert(n == (n / radix) * radix + n % radix && n % radix < radix) by (nonlinear_arith)
            requires
                2 <= radix,
        ;
    }
}

/// A number of up to 64 bits that was written in decimal, or in hexadecimal
/// after `0x`, is parsed as that number.
pub proof fn lemma_number_roundtrip(n: nat)
    requires
        n <= u64::MAX,
    ensures
        number(decimal(n), 10, u64::MAX as int) == Some(n as int),
        number(hex(n), 16, u64::MAX as int) == Some(n as int),
{
    lemma_digits_roundtrip(n, 10);
    lemma_digits_roundtrip(n, 16);
}

/// The bytes of a text in UTF-8.
pub fn utf8_of(s: &[char]) -> (r: Vec<u8>)
    ensures
        r@ == vstd::utf8::encode_utf8(s@),
{
    let text = string_of(s);
    crate::bytes::to_vec(text.as_str().as_bytes())
}

} // verus!
