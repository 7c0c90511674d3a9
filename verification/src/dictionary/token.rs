//! Tokens of the definition language.

use crate::dictionary::literal::{strip, stripped};
use crate::text::{append_chars, chars_of, digit_value, digits_value, is_text, parse_number};
use vstd::prelude::*;
use vstd::slice::slice_subrange;

verus! {

// ---- Tokens of the outside lexer ----

/// The delimiters of a group.
#[derive(Clone, Copy, Debug, PartialEq, Eq, Structural)]
pub enum Delim {
    Paren,
    Bracket,
    Brace,
    /// No delimiters that are seen.
    Hidden,
}

/// A token, or a group with the text in it.
pub enum Tree {
    Group(Delim, String),
    Ident(String),
    /// A punctuation character, and whether another one follows at once.
    Punct(char, bool),
    Literal(String),
}

#[verifier::ext_equal]
pub enum TreeView {
    Group(Delim, Seq<char>),
    Ident(Seq<char>),
    Punct(char, bool),
    Literal(Seq<char>),
}

impl View for Tree {
    type V = TreeView;

    open spec fn view(&self) -> TreeView {
        match self {
            Tree::Group(d, s) => TreeView::Group(*d, s@),
            Tree::Ident(s) => TreeView::Ident(s@),
            Tree::Punct(c, j) => TreeView::Punct(*c, *j),
            Tree::Literal(s) => TreeView::Literal(s@),
        }
    }
}

/// What token trees say, one by one.
pub open spec fn tree_views(trees: Seq<Tree>) -> Seq<TreeView> {
    trees.map_values(|t: Tree| t@)
}

/// The tokens and groups of the `proc_macro2::TokenStream` that a text parses
/// to, if it does.
pub uninterp spec fn lexed(text: Seq<char>) -> Option<Seq<TreeView>>;

/// What the tokens and groups of a text are.
pub open spec fn trees_view(r: Option<Vec<Tree>>) -> Option<Seq<TreeView>> {
    match r {
        Some(v) => Some(tree_views(v@)),
        None => None,
    }
}

/// Parses a text to a `proc_macro2::TokenStream`, and hands out its token
/// trees. The result depends on the text alone: without its `proc-macro` feature
/// the crate does not ask the compiler, but splits and prints text by itself.
#[verifier::external_body]
fn lex(text: &str) -> (r: Option<Vec<Tree>>)
    ensures
        trees_view(r) == lexed(text@),
{
    let stream = text.parse::<proc_macro2::TokenStream>().ok()?;
    let trees = stream.into_iter().map(|t| match t {
        proc_macro2::TokenTree::Ident(i) => Tree::Ident(i.to_string()),
        proc_macro2::TokenTree::Literal(l) => Tree::Literal(l.to_string()),
        proc_macro2::TokenTree::Punct(p) =>
            Tree::Punct(p.as_char(), matches!(p.spacing(), proc_macro2::Spacing::Joint)),
        proc_macro2::TokenTree::Group(g) => Tree::Group(match g.delimiter() {
            proc_macro2::Delimiter::Parenthesis => Delim::Paren,
            proc_macro2::Delimiter::Bracket => Delim::Bracket,
            proc_macro2::Delimiter::Brace => Delim::Brace,
            proc_macro2::Delimiter::None => Delim::Hidden,
        }, g.stream().to_string()),
    });
    Some(trees.collect())
}

// ---- Tokens ----

/// A token. Groups are delimited by a token before and one after them.
#[derive(Debug)]
pub enum Token {
    Ident(String),
    /// A punctuation character, and whether another one follows at once.
    Punct(char, bool),
    Literal(String),
    Open(Delim),
    Close(Delim),
}

#[verifier::ext_equal]
pub enum Tok {
    Ident(Seq<char>),
    Punct(char, bool),
    Literal(Seq<char>),
    Open(Delim),
    Close(Delim),
}

impl View for Token {
    type V = Tok;

    open spec fn view(&self) -> Tok {
        match self {
            Token::Ident(s) => Tok::Ident(s@),
            Token::Punct(c, j) => Tok::Punct(*c, *j),
            Token::Literal(s) => Tok::Literal(s@),
            Token::Open(d) => Tok::Open(*d),
            Token::Close(d) => Tok::Close(*d),
        }
    }
}

/// What tokens say, one by one.
pub open spec fn toks(tokens: Seq<Token>) -> Seq<Tok> {
    tokens.map_values(|t: Token| t@)
}

/// The tokens of the first `n` token trees, if groups are nested at most so
/// deep.
pub open spec fn flat_tokens(trees: Seq<TreeView>, depth: int, n: int) -> Option<Seq<Tok>>
    decreases depth, n,
{
    if n <= 0 || n > trees.len() {
        Some(Seq::empty())
    } else {
        match flat_tokens(trees, depth, n - 1) {
            None => None,
            Some(front) => match trees[n - 1] {
                TreeView::Ident(s) => Some(front.push(Tok::Ident(s))),
                TreeView::Punct(c, j) => Some(front.push(Tok::Punct(c, j))),
                TreeView::Literal(s) => Some(front.push(Tok::Literal(s))),
                TreeView::Group(d, text) => if depth <= 0 {
                    None
                } else {
                    match lexed(text) {
                        None => None,
                        Some(inner) => match flat_tokens(inner, depth - 1, inner.len() as int) {
                            None => None,
                            Some(t) => Some(front.push(Tok::Open(d)) + t.push(Tok::Close(d))),
                        },
                    }
                },
            },
        }
    }
}

proof fn lemma_flat_prefix(trees: Seq<TreeView>, depth: int, n: int, m: int)
    requires
        0 <= n <= m <= trees.len(),
        flat_tokens(trees, depth, n) is None,
    ensures
        flat_tokens(trees, depth, m) is None,
    decreases m - n,
{
    if n < m {
        lemma_flat_prefix(trees, depth, n, m - 1);
    }
}

fn flatten_trees(trees: &Vec<Tree>, depth: usize, out: &mut Vec<Token>) -> (ok: bool)
    ensures
        match flat_tokens(tree_views(trees@), depth as int, trees@.len() as int) {
            Some(t) => ok && toks(final(out)@) == toks(old(out)@) + t,
            None => !ok,
        },
    decreases depth,
{
    let ghost views = tree_views(trees@);
    let ghost start = toks(out@);
    let mut i: usize = 0;
    assert(toks(out@) =~= start + Seq::<Tok>::empty());
    while i < trees.len()
        invariant
            i <= trees@.len(),
            views == tree_views(trees@),
            start == toks(old(out)@),
            flat_tokens(views, depth as int, i as int) matches Some(t) && toks(out@) == start + t,
        decreases trees@.len() - i,
    {
        let ghost before = toks(out@);
        let ghost front = flat_tokens(views, depth as int, i as int)->0;
        assert(views[i as int] == trees@[i as int]@);
        match &trees[i] {
            Tree::Ident(s) => {
                let t = Token::Ident(s.clone());
                out.push(t);
                assert(toks(out@) =~= before.push(t@));
                assert(before.push(t@) =~= start + front.push(t@));
            },
            Tree::Punct(c, j) => {
                let t = Token::Punct(*c, *j);
                out.push(t);
                assert(toks(out@) =~= before.push(t@));
                assert(before.push(t@) =~= start + front.push(t@));
            },
            Tree::Literal(s) => {
                let t = Token::Literal(s.clone());
                out.push(t);
                assert(toks(out@) =~= before.push(t@));
                assert(before.push(t@) =~= start + front.push(t@));
            },
            Tree::Group(d, text) => {
                let ghost open = Tok::Open(*d);
                let ghost close = Tok::Close(*d);
                let inner = if depth == 0 {
                    None
                } else {
                    lex(text.as_str())
                };
                match inner {
                    None => {
                        proof {
                            lemma_flat_prefix(views, depth as int, i + 1, views.len() as int);
                        }
                        return false;
                    },
                    Some(inner) => {
                        out.push(Token::Open(*d));
                        assert(toks(out@) =~= before.push(open));
                        if !flatten_trees(&inner, depth - 1, out) {
                            proof {
                                lemma_flat_prefix(views, depth as int, i + 1, views.len() as int);
                            }
                            return false;
                        }
                        let ghost t = flat_tokens(
                            tree_views(inner@),
                            depth - 1,
                            inner@.len() as int,
                        )->0;
                        let ghost mid = toks(out@);
                        out.push(Token::Close(*d));
                        assert(toks(out@) =~= mid.push(close));
                        assert(mid.push(close) =~= start + (front.push(open) + t.push(close)));
                    },
                }
            },
        }
        i += 1;
    }
    true
}

/// The tokens of a text, if it can be split into tokens. Groups in it are nested
/// no deeper than it has characters.
pub open spec fn tokens_of(text: Seq<char>) -> Option<Seq<Tok>> {
    match lexed(text) {
        Some(trees) => flat_tokens(trees, text.len() as int, trees.len() as int),
        None => None,
    }
}

/// Split a text into tokens.
pub fn tokenize(text: &str) -> (r: Option<Vec<Token>>)
    ensures
        match r {
            Some(t) => tokens_of(text@) == Some(toks(t@)),
            None => tokens_of(text@) is None,
        },
{
    match lex(text) {
        Some(trees) => {
            let mut out: Vec<Token> = Vec::new();
            assert(toks(out@) =~= Seq::<Tok>::empty());
            let depth: usize = chars_of(text).len();
            if flatten_trees(&trees, depth, &mut out) {
                assert(toks(out@) =~= tokens_of(text@)->0);
                Some(out)
            } else {
                None
            }
        },
        None => None,
    }
}

// ---- Numbers ----

/// Where the digits of a number end.
pub open spec fn digits_end(s: Seq<char>, base: int, from: int) -> int
    decreases s.len() - from,
{
    if from < 0 || from >= s.len() || digit_value(s[from], base) is None {
        from
    } else {
        digits_end(s, base, from + 1)
    }
}

/// The value and the suffix of the `syn::LitInt` that a text parses to, if it
/// does and the value has up to 64 bits.
pub uninterp spec fn int_lit(text: Seq<char>) -> Option<(u64, Seq<char>)>;

/// What the value and the suffix of a literal are.
pub open spec fn int_view(r: Option<(u64, String)>) -> Option<(u64, Seq<char>)> {
    match r {
        Some((v, suffix)) => Some((v, suffix@)),
        None => None,
    }
}

/// The number of up to 64 bits that a text is in decimal, or in hexadecimal
/// after `0x`.
pub open spec fn plain_number(text: Seq<char>) -> Option<u64> {
    let value = if text.len() > 2 && text[0] == '0' && text[1] == 'x' {
        digits_value(text.skip(2), 16)
    } else if text.len() > 0 {
        digits_value(text, 10)
    } else {
        None
    };
    match value {
        Some(n) if n <= u64::MAX => Some(n as u64),
        _ => None,
    }
}

/// Parses a text to a `syn::LitInt`, and hands out what
/// `LitInt::base10_parse::<u64>` makes of it and `LitInt::suffix`. The result
/// depends on the text alone; digits stand for their number, without a suffix.
#[verifier::external_body]
fn parse_int(text: &str) -> (r: Option<(u64, String)>)
    ensures
        int_view(r) == int_lit(text@),
        plain_number(text@) matches Some(n) ==> int_view(r) == Some((n, Seq::<char>::empty())),
{
    let literal = syn::parse_str::<syn::LitInt>(text).ok()?;
    let value = literal.base10_parse::<u64>().ok()?;
    Some((value, literal.suffix().to_string()))
}

/// Evaluate an integer literal.
pub fn eval_int_lit(text: &str) -> (r: Option<(u64, String)>)
    ensures
        int_view(r) == int_lit(text@),
        plain_number(text@) matches Some(n) ==> int_view(r) == Some((n, Seq::<char>::empty())),
{
    parse_int(text)
}

fn find_digits_end(s: &[char], base: u64, start: usize) -> (r: usize)
    requires
        2 <= base <= 16,
        start <= s@.len(),
    ensures
        r == digits_end(s@, base as int, start as int),
        start <= r <= s@.len(),
{
    let mut i: usize = start;
    while i < s.len() && crate::text::parse_digit(s[i], base).is_some()
        invariant
            start <= i <= s@.len(),
            2 <= base <= 16,
            digits_end(s@, base as int, start as int) == digits_end(s@, base as int, i as int),
        decreases s@.len() - i,
    {
        i += 1;
    }
    i
}

/// Copy some characters.
fn copy(s: &[char]) -> (r: Vec<char>)
    ensures
        r@ == s@,
{
    let mut out: Vec<char> = Vec::new();
    append_chars(&mut out, s);
    assert(out@ =~= s@);
    out
}

/// Ten to a power.
pub open spec fn pow10(n: nat) -> int
    decreases n,
{
    if n == 0 {
        1
    } else {
        10 * pow10((n - 1) as nat)
    }
}

proof fn lemma_pow10(n: nat)
    ensures
        1 <= pow10(n),
    decreases n,
{
    if n > 0 {
        lemma_pow10((n - 1) as nat);
    }
}

/// The microseconds of a time unit.
pub open spec fn unit_us(suffix: Seq<char>) -> Option<int> {
    if suffix == "us"@ {
        Some(1)
    } else if suffix == "ms"@ {
        Some(1_000)
    } else if suffix == "s"@ {
        Some(1_000_000)
    } else {
        None
    }
}

/// The digits and the suffix of a literal with a fraction of up to nine digits,
/// and the length of the fraction.
pub open spec fn fraction_lit(text: Seq<char>) -> Option<(int, nat, Seq<char>)> {
    let s = stripped(text);
    let point = digits_end(s, 10, 0);
    let end = digits_end(s, 10, point + 1);
    if 0 < point < s.len() && s[point] == '.' && point + 1 < end <= point + 10 {
        match digits_value(s.take(point) + s.subrange(point + 1, end), 10) {
            Some(v) if v <= u64::MAX => Some((v, (end - point - 1) as nat, s.skip(end))),
            _ => None,
        }
    } else {
        None
    }
}

fn eval_fraction(text: &str) -> (r: Option<(u64, u8, Vec<char>)>)
    ensures
        match r {
            Some((v, k, suffix)) => fraction_lit(text@) == Some((v as int, k as nat, suffix@)) && k
                <= 9,
            None => fraction_lit(text@) is None,
        },
{
    let chars = chars_of(text);
    let t = strip(chars.as_slice());
    let s = t.as_slice();
    let len: usize = s.len();
    let point: usize = find_digits_end(s, 10, 0);
    if point == 0 || point >= len || s[point] != '.' {
        return None;
    }
    let end: usize = find_digits_end(s, 10, point + 1);
    if end <= point + 1 || end - point > 10 {
        return None;
    }
    let mut digits = copy(slice_subrange(s, 0, point));
    append_chars(&mut digits, slice_subrange(s, point + 1, end));
    assert(digits@ =~= s@.take(point as int) + s@.subrange(point + 1, end as int));
    if digits[0] == '+' {
        proof {
            crate::dictionary::literal::lemma_plus_is_no_digit(digits@, 10);
        }
        return None;
    }
    match parse_number(digits.as_slice(), 10, u64::MAX) {
        Some(v) => {
            let suffix = slice_subrange(s, end, len);
            assert(suffix@ =~= s@.skip(end as int));
            Some((v, (end - point - 1) as u8, copy(suffix)))
        },
        None => None,
    }
}

/// A time in multiples of a resolution, from a number and its unit: a plain
/// number of them, or a number of `us`, `ms` or `s`, rounded down.
pub open spec fn time_of(v: int, suffix: Seq<char>, resolution_us: int) -> Option<int> {
    if suffix.len() == 0 {
        Some(v)
    } else {
        match unit_us(suffix) {
            Some(us) => Some(v * us / resolution_us),
            None => None,
        }
    }
}

/// A time in multiples of a resolution: a number, possibly with a fraction if
/// it has a unit.
pub open spec fn time_lit(text: Seq<char>, resolution_us: int) -> Option<int> {
    match int_lit(text) {
        Some((v, suffix)) => time_of(v as int, suffix, resolution_us),
        None => match fraction_lit(text) {
            Some((v, k, suffix)) => match unit_us(suffix) {
                Some(us) => Some(v * us / (pow10(k) * resolution_us)),
                None => None,
            },
            None => None,
        },
    }
}

fn find_unit(suffix: &[char]) -> (r: Option<u128>)
    ensures
        match r {
            Some(us) => unit_us(suffix@) == Some(us as int) && 1 <= us <= 1_000_000,
            None => unit_us(suffix@) is None,
        },
{
    if is_text(suffix, "us") {
        Some(1)
    } else if is_text(suffix, "ms") {
        Some(1_000)
    } else if is_text(suffix, "s") {
        Some(1_000_000)
    } else {
        None
    }
}

/// Evaluate a number and its unit.
pub fn eval_unit(v: u64, suffix: &str, resolution_us: u128) -> (r: Option<u128>)
    requires
        1 <= resolution_us <= 1_000,
    ensures
        match r {
            Some(n) => time_of(v as int, suffix@, resolution_us as int) == Some(n as int),
            None => time_of(v as int, suffix@, resolution_us as int) is None,
        },
{
    let suffix = chars_of(suffix);
    if suffix.len() == 0 {
        return Some(v as u128);
    }
    match find_unit(suffix.as_slice()) {
        Some(us) => {
            assert(v as u128 * us <= 0xFFFF_FFFF_FFFF_FFFF * 1_000_000) by (nonlinear_arith)
                requires
                    v <= 0xFFFF_FFFF_FFFF_FFFF,
                    us <= 1_000_000,
            ;
            Some(v as u128 * us / resolution_us)
        },
        None => None,
    }
}

/// Evaluate a time.
pub fn eval_time(text: &str, resolution_us: u128) -> (r: Option<u128>)
    requires
        1 <= resolution_us <= 1_000,
    ensures
        match r {
            Some(v) => time_lit(text@, resolution_us as int) == Some(v as int),
            None => time_lit(text@, resolution_us as int) is None,
        },
{
    if let Some((v, suffix)) = eval_int_lit(text) {
        return eval_unit(v, suffix.as_str(), resolution_us);
    }
    match eval_fraction(text) {
        Some((v, k, suffix)) => match find_unit(suffix.as_slice()) {
            Some(us) => {
                let mut scale: u128 = 1;
                let mut i: u8 = 0;
                proof {
                    reveal_with_fuel(pow10, 10);
                }
                while i < k
                    invariant
                        i <= k <= 9,
                        scale == pow10(i as nat),
                        1 <= scale,
                        scale * pow10((9 - i) as nat) <= 1_000_000_000,
                    decreases k - i,
                {
                    proof {
                        let rest = pow10((9 - i - 1) as nat);
                        lemma_pow10((9 - i - 1) as nat);
                        assert(pow10((9 - i) as nat) == 10 * rest);
                        assert(scale * (10 * rest) == (10 * scale) * rest) by (nonlinear_arith);
                        assert(10 * scale <= (10 * scale) * rest) by (nonlinear_arith)
                            requires
                                1 <= rest,
                                1 <= scale,
                        ;
                    }
                    scale = 10 * scale;
                    i += 1;
                }
                proof {
                    lemma_pow10((9 - i) as nat);
                    let rest = pow10((9 - i) as nat);
                    assert(scale <= scale * rest) by (nonlinear_arith)
                        requires
                            1 <= rest,
                            1 <= scale,
                    ;
                }
                assert(v as u128 * us <= 0xFFFF_FFFF_FFFF_FFFF * 1_000_000) by (nonlinear_arith)
                    requires
                        v <= 0xFFFF_FFFF_FFFF_FFFF,
                        us <= 1_000_000,
                ;
                assert(1 <= scale * resolution_us <= 1_000_000_000 * 1_000) by (nonlinear_arith)
                    requires
                        1 <= scale <= 1_000_000_000,
                        1 <= resolution_us <= 1_000,
                ;
                Some(v as u128 * us / (scale * resolution_us))
            },
            None => None,
        },
        None => None,
    }
}

} // verus!
