//! Names of generated items.

use crate::ini::{lower, to_lower};
use crate::text::{chars_of, string_of};
use vstd::prelude::*;

verus! {

/// What `char::is_uppercase` returns for a character.
pub uninterp spec fn uppercase(c: char) -> bool;

/// Calls `char::is_uppercase`, which tells whether Unicode counts a character
/// as upper case: of the ASCII characters, the letters A to Z.
#[verifier::external_body]
fn is_uppercase(c: char) -> (r: bool)
    ensures
        r == uppercase(c),
        (c as u32) < 0x80 ==> r == (0x41 <= c as u32 <= 0x5A),
{
    c.is_uppercase()
}

/// What `char::is_alphanumeric` returns for a character.
pub uninterp spec fn alphanumeric(c: char) -> bool;

/// Calls `char::is_alphanumeric`, which tells whether Unicode counts a
/// character as a letter or a digit: of the ASCII characters, the letters A to
/// Z in either case and the digits 0 to 9.
#[verifier::external_body]
fn is_alphanumeric(c: char) -> (r: bool)
    ensures
        r == alphanumeric(c),
        (c as u32) < 0x80 ==> r == (0x41 <= c as u32 <= 0x5A || 0x61 <= c as u32 <= 0x7A || 0x30
            <= c as u32 <= 0x39),
{
    c.is_alphanumeric()
}

/// A letter from a to z in upper case, any other character as it is.
pub open spec fn upper(c: char) -> char {
    if 0x61 <= c as u32 <= 0x7A {
        (c as u32 - 0x20) as char
    } else {
        c
    }
}

fn to_upper(c: char) -> (r: char)
    ensures
        r == upper(c),
{
    let v: u32 = c as u32;
    if 0x61 <= v && v <= 0x7A {
        (v as u8 - 0x20) as char
    } else {
        c
    }
}

/// A name in camel case: without underscores, each part with a capital letter.
/// `start` = a part begins here.
pub open spec fn camel_case(name: Seq<char>, start: bool) -> Seq<char>
    decreases name.len(),
{
    if name.len() == 0 {
        Seq::empty()
    } else if name[0] == '_' {
        camel_case(name.skip(1), true)
    } else {
        seq![
            if start {
                upper(name[0])
            } else {
                name[0]
            },
        ] + camel_case(name.skip(1), false)
    }
}

/// `echo_in` to `EchoIn` (for the names of changes).
pub fn to_camel_case(name: &str) -> (r: String)
    ensures
        r@ == camel_case(name@, true),
{
    let s = chars_of(name);
    let mut out: Vec<char> = Vec::new();
    let mut start = true;
    let mut i: usize = 0;
    assert(s@.skip(0) =~= s@);
    assert(out@ + camel_case(s@.skip(0), start) =~= camel_case(s@, true));
    while i < s.len()
        invariant
            i <= s@.len(),
            out@ + camel_case(s@.skip(i as int), start) == camel_case(s@, true),
        decreases s@.len() - i,
    {
        let ghost before = out@;
        let ghost rest = s@.skip(i as int);
        let c = s[i];
        assert(rest[0] == c);
        assert(rest.skip(1) =~= s@.skip(i + 1));
        if c == '_' {
            start = true;
        } else {
            let d = if start {
                to_upper(c)
            } else {
                c
            };
            out.push(d);
            assert(before + (seq![d] + camel_case(rest.skip(1), false)) =~= out@ + camel_case(
                rest.skip(1),
                false,
            ));
            start = false;
        }
        i += 1;
    }
    assert(out@ + camel_case(s@.skip(i as int), start) =~= out@);
    string_of(out.as_slice())
}

/// The first `n` characters of a name in upper case, with an underscore before
/// each capital letter but the first character.
pub open spec fn screaming_snake(name: Seq<char>, n: int) -> Seq<char>
    decreases n,
{
    if n <= 0 || n > name.len() {
        Seq::empty()
    } else {
        let c = name[n - 1];
        let front = screaming_snake(name, n - 1);
        if uppercase(c) && n > 1 {
            front.push('_').push(upper(c))
        } else {
            front.push(upper(c))
        }
    }
}

/// `echo_in` to `ECHO_IN` (for the names of constants).
pub fn to_screaming_snake(name: &str) -> (r: String)
    ensures
        r@ == screaming_snake(name@, name@.len() as int),
{
    let s = chars_of(name);
    let mut out: Vec<char> = Vec::new();
    let mut i: usize = 0;
    while i < s.len()
        invariant
            i <= s@.len(),
            s@ == name@,
            out@ == screaming_snake(name@, i as int),
        decreases s@.len() - i,
    {
        let c = s[i];
        if is_uppercase(c) && i > 0 {
            out.push('_');
        }
        out.push(to_upper(c));
        i += 1;
    }
    string_of(out.as_slice())
}

/// A character as it can stand in an identifier: a letter or digit in lower
/// case, else an underscore.
pub open spec fn ident_char(c: char) -> char {
    if alphanumeric(c) {
        lower(c)
    } else {
        '_'
    }
}

/// A name turned into an identifier.
pub open spec fn sanitized(name: Seq<char>) -> Seq<char> {
    let s = name.map_values(|c: char| ident_char(c));
    if s.len() == 0 {
        "_unnamed"@
    } else if 0x30 <= s[0] as u32 <= 0x39 {
        seq!['_'] + s
    } else {
        s
    }
}

/// Turn a name into an identifier.
pub fn sanitize_name(name: &[char]) -> (r: Vec<char>)
    ensures
        r@ == sanitized(name@),
{
    if name.len() == 0 {
        return chars_of("_unnamed");
    }
    let ghost goal = name@.map_values(|c: char| ident_char(c));
    let mut s: Vec<char> = Vec::new();
    let mut i: usize = 0;
    while i < name.len()
        invariant
            i <= name@.len(),
            goal == name@.map_values(|c: char| ident_char(c)),
            s@ == goal.take(i as int),
        decreases name@.len() - i,
    {
        let c = if is_alphanumeric(name[i]) {
            to_lower(name[i])
        } else {
            '_'
        };
        s.push(c);
        i += 1;
        assert(s@ =~= goal.take(i as int));
    }
    assert(goal.take(i as int) =~= goal);
    let first: u32 = s[0] as u32;
    if 0x30 <= first && first <= 0x39 {
        let mut r: Vec<char> = vec!['_'];
        crate::text::append_chars(&mut r, s.as_slice());
        assert(r@ =~= seq!['_'] + s@);
        r
    } else {
        s
    }
}

} // verus!
