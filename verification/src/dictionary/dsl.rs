//! The definition language.
//!
//! ```text
//! pub struct MyOd {
//!     [0x1000] device_type: u32 = 0x191, ro;
//!     [0x6000] inputs: record {
//!         [1] button: u8 = 0, ro, pdo;
//!     };
//!     [0x2030] thresholds: array<u16, 4>, rw;
//!     tpdo[1](transmission_type = event_driven, inhibit_time = 50ms) { button };
//!     sdo_server[2](cob_rx = node_id + 0x640, cob_tx = node_id + 0x5C0);
//! }
//! ```

use crate::dictionary::codegen::string_literal;
use crate::dictionary::definition::{
    entry_views, field_views, pdo_views, sub_views, text_view, AccessKind, ArrayDef, ArrayView,
    CobIdSpec, DefinitionView, EntryKind, FieldView, KindView, MappingKind, OdDefinition, OdEntry,
    OdEntryView, PdoDef, PdoDefView, PdoDirection, PdoField, SdoServerDef, SubEntry, SubView,
    VarDef, VarView, Visibility, VisibilityView,
};
use crate::dictionary::eds_parser::{print_expr, printed, EdsDefinition, EdsDefinitionView};
use crate::dictionary::token::{
    eval_int_lit, eval_time, int_lit, time_lit, tokenize, tokens_of, toks, Delim, Tok, Token,
};
use crate::text::{append_str, chars_of, is_text, string_of};
use vstd::prelude::*;

verus! {

/// What is wrong with the text of a definition.
#[derive(Clone, Copy, Debug, PartialEq, Eq, Structural)]
pub enum DslFault {
    /// The text cannot be split into tokens.
    NotTokens,
    ExpectedIdent,
    ExpectedNumber,
    ExpectedString,
    ExpectedExpression,
    ExpectedPunct(char),
    ExpectedOpen(Delim),
    ExpectedClose(Delim),
    /// A certain word was expected.
    ExpectedWord,
    /// A number is out of its range.
    NumberRange,
    UnknownAttribute,
    UnknownParameter,
    UnknownAccess,
    UnknownTransmissionType,
    UnknownMappingKind,
    /// A time is none, or out of its range.
    BadTime,
    /// A PDO beyond the predefined ones has no COB-ID.
    CobIdRequired,
    TooManyMappings,
    /// There is something behind the definition.
    Unexpected,
}

/// Why the text of a definition was refused, and at which token.
#[derive(Clone, Copy, Debug, PartialEq, Eq, Structural)]
pub struct DslError {
    pub fault: DslFault,
    pub at: usize,
}

pub struct Flaw {
    pub fault: DslFault,
    pub at: int,
}

impl View for DslError {
    type V = Flaw;

    open spec fn view(&self) -> Flaw {
        Flaw { fault: self.fault, at: self.at as int }
    }
}

/// A fault at a token.
pub open spec fn flaw<T>(fault: DslFault, at: int) -> Result<T, Flaw> {
    Err(Flaw { fault, at })
}

fn fail<T>(fault: DslFault, at: usize) -> (r: Result<T, DslError>)
    ensures
        r matches Err(e) && e@ == (Flaw { fault, at: at as int }),
{
    Err(DslError { fault, at })
}

// ---- Single tokens ----

/// There is a punctuation character at a position.
pub open spec fn is_punct(t: Seq<Tok>, pos: int, c: char) -> bool {
    0 <= pos < t.len() && (t[pos] matches Tok::Punct(d, _) && d == c)
}

/// The identifier at a position, if there is one.
pub open spec fn ident_at(t: Seq<Tok>, pos: int) -> Option<Seq<char>> {
    if 0 <= pos < t.len() {
        match t[pos] {
            Tok::Ident(s) => Some(s),
            _ => None,
        }
    } else {
        None
    }
}

/// A word that Rust keeps for itself, which names nothing.
#[verifier::opaque]
pub open spec fn is_keyword(s: Seq<char>) -> bool {
    s == "_"@ || s == "abstract"@ || s == "as"@ || s == "async"@
        || s == "await"@ || s == "become"@ || s == "box"@ || s == "break"@
        || s == "const"@ || s == "continue"@ || s == "crate"@ || s == "do"@
        || s == "dyn"@ || s == "else"@ || s == "enum"@ || s == "extern"@
        || s == "false"@ || s == "final"@ || s == "fn"@ || s == "for"@
        || s == "if"@ || s == "impl"@ || s == "in"@ || s == "let"@
        || s == "loop"@ || s == "macro"@ || s == "match"@ || s == "mod"@
        || s == "move"@ || s == "mut"@ || s == "override"@ || s == "priv"@
        || s == "pub"@ || s == "ref"@ || s == "return"@ || s == "Self"@
        || s == "self"@ || s == "static"@ || s == "struct"@ || s == "super"@
        || s == "trait"@ || s == "true"@ || s == "try"@ || s == "type"@
        || s == "typeof"@ || s == "unsafe"@ || s == "unsized"@ || s == "use"@
        || s == "virtual"@ || s == "where"@ || s == "while"@ || s == "yield"@
}

/// The name at a position, if there is one: an identifier that is no keyword.
pub open spec fn name_at(t: Seq<Tok>, pos: int) -> Option<Seq<char>> {
    match ident_at(t, pos) {
        Some(s) if !is_keyword(s) => Some(s),
        _ => None,
    }
}

/// A word stands at a position.
pub open spec fn is_word(t: Seq<Tok>, pos: int, word: Seq<char>) -> bool {
    ident_at(t, pos) == Some(word)
}

/// A group opens at a position.
pub open spec fn is_open(t: Seq<Tok>, pos: int, d: Delim) -> bool {
    0 <= pos < t.len() && t[pos] == Tok::Open(d)
}

/// A group closes at a position.
pub open spec fn is_close(t: Seq<Tok>, pos: int, d: Delim) -> bool {
    0 <= pos < t.len() && t[pos] == Tok::Close(d)
}

/// The literal at a position, if there is one.
pub open spec fn literal_at(t: Seq<Tok>, pos: int) -> Option<Seq<char>> {
    if 0 <= pos < t.len() {
        match t[pos] {
            Tok::Literal(s) => Some(s),
            _ => None,
        }
    } else {
        None
    }
}

pub open spec fn want_punct(t: Seq<Tok>, pos: int, c: char) -> Result<int, Flaw> {
    if is_punct(t, pos, c) {
        Ok(pos + 1)
    } else {
        flaw(DslFault::ExpectedPunct(c), pos)
    }
}

pub open spec fn want_open(t: Seq<Tok>, pos: int, d: Delim) -> Result<int, Flaw> {
    if is_open(t, pos, d) {
        Ok(pos + 1)
    } else {
        flaw(DslFault::ExpectedOpen(d), pos)
    }
}

pub open spec fn want_close(t: Seq<Tok>, pos: int, d: Delim) -> Result<int, Flaw> {
    if is_close(t, pos, d) {
        Ok(pos + 1)
    } else {
        flaw(DslFault::ExpectedClose(d), pos)
    }
}

pub open spec fn want_word(t: Seq<Tok>, pos: int, word: Seq<char>) -> Result<int, Flaw> {
    if is_word(t, pos, word) {
        Ok(pos + 1)
    } else {
        flaw(DslFault::ExpectedWord, pos)
    }
}

pub open spec fn want_ident(t: Seq<Tok>, pos: int) -> Result<(Seq<char>, int), Flaw> {
    match name_at(t, pos) {
        Some(s) => Ok((s, pos + 1)),
        None => flaw(DslFault::ExpectedIdent, pos),
    }
}

/// A number within bounds. A suffix is of no account.
pub open spec fn want_int(t: Seq<Tok>, pos: int, low: int, high: int) -> Result<(int, int), Flaw> {
    match literal_at(t, pos) {
        Some(s) => match int_lit(s) {
            Some((v, _)) => if low <= v <= high {
                Ok((v as int, pos + 1))
            } else {
                flaw(DslFault::NumberRange, pos)
            },
            None => flaw(DslFault::ExpectedNumber, pos),
        },
        None => flaw(DslFault::ExpectedNumber, pos),
    }
}

/// A number within bounds in brackets.
pub open spec fn want_index(t: Seq<Tok>, pos: int, low: int, high: int) -> Result<(int, int), Flaw> {
    match want_open(t, pos, Delim::Bracket) {
        Err(e) => Err(e),
        Ok(p) => match want_int(t, p, low, high) {
            Err(e) => Err(e),
            Ok((v, p)) => match want_close(t, p, Delim::Bracket) {
                Err(e) => Err(e),
                Ok(p) => Ok((v, p)),
            },
        },
    }
}

pub open spec fn want_string(t: Seq<Tok>, pos: int) -> Result<(Seq<char>, int), Flaw> {
    match literal_at(t, pos) {
        Some(s) => match string_literal(s) {
            Some(v) => Ok((v, pos + 1)),
            None => flaw(DslFault::ExpectedString, pos),
        },
        None => flaw(DslFault::ExpectedString, pos),
    }
}

/// What a step says that moves on.
pub open spec fn step_view(r: Result<usize, DslError>) -> Result<int, Flaw> {
    match r {
        Ok(p) => Ok(p as int),
        Err(e) => Err(e@),
    }
}

fn at_punct(t: &Vec<Token>, pos: usize, c: char) -> (r: bool)
    ensures
        r == is_punct(toks(t@), pos as int, c),
        r ==> pos < t@.len() && pos < usize::MAX,
{
    if pos >= t.len() {
        return false;
    }
    assert(toks(t@)[pos as int] == t@[pos as int]@);
    match &t[pos] {
        Token::Punct(d, _) => *d == c,
        _ => false,
    }
}

fn at_open(t: &Vec<Token>, pos: usize, d: Delim) -> (r: bool)
    ensures
        r == is_open(toks(t@), pos as int, d),
        r ==> pos < t@.len() && pos < usize::MAX,
{
    if pos >= t.len() {
        return false;
    }
    assert(toks(t@)[pos as int] == t@[pos as int]@);
    match &t[pos] {
        Token::Open(e) => *e == d,
        _ => false,
    }
}

fn at_close(t: &Vec<Token>, pos: usize, d: Delim) -> (r: bool)
    ensures
        r == is_close(toks(t@), pos as int, d),
        r ==> pos < t@.len() && pos < usize::MAX,
{
    if pos >= t.len() {
        return false;
    }
    assert(toks(t@)[pos as int] == t@[pos as int]@);
    match &t[pos] {
        Token::Close(e) => *e == d,
        _ => false,
    }
}

fn get_ident(t: &Vec<Token>, pos: usize) -> (r: Option<&String>)
    ensures
        match r {
            Some(s) => ident_at(toks(t@), pos as int) == Some(s@),
            None => ident_at(toks(t@), pos as int) is None,
        },
        r is Some ==> pos < t@.len() && pos < usize::MAX,
{
    if pos >= t.len() {
        return None;
    }
    assert(toks(t@)[pos as int] == t@[pos as int]@);
    match &t[pos] {
        Token::Ident(s) => Some(s),
        _ => None,
    }
}

fn keyword(s: &[char]) -> (r: bool)
    ensures
        r == is_keyword(s@),
{
    proof {
        reveal(is_keyword);
    }
    is_text(s, "_") || is_text(s, "abstract") || is_text(s, "as")
        || is_text(s, "async") || is_text(s, "await") || is_text(s, "become")
        || is_text(s, "box") || is_text(s, "break") || is_text(s, "const")
        || is_text(s, "continue") || is_text(s, "crate") || is_text(s, "do")
        || is_text(s, "dyn") || is_text(s, "else") || is_text(s, "enum")
        || is_text(s, "extern") || is_text(s, "false") || is_text(s, "final")
        || is_text(s, "fn") || is_text(s, "for") || is_text(s, "if")
        || is_text(s, "impl") || is_text(s, "in") || is_text(s, "let")
        || is_text(s, "loop") || is_text(s, "macro") || is_text(s, "match")
        || is_text(s, "mod") || is_text(s, "move") || is_text(s, "mut")
        || is_text(s, "override") || is_text(s, "priv") || is_text(s, "pub")
        || is_text(s, "ref") || is_text(s, "return") || is_text(s, "Self")
        || is_text(s, "self") || is_text(s, "static") || is_text(s, "struct")
        || is_text(s, "super") || is_text(s, "trait") || is_text(s, "true")
        || is_text(s, "try") || is_text(s, "type") || is_text(s, "typeof")
        || is_text(s, "unsafe") || is_text(s, "unsized") || is_text(s, "use")
        || is_text(s, "virtual") || is_text(s, "where") || is_text(s, "while")
        || is_text(s, "yield")
}

fn get_name(t: &Vec<Token>, pos: usize) -> (r: Option<&String>)
    ensures
        match r {
            Some(s) => name_at(toks(t@), pos as int) == Some(s@),
            None => name_at(toks(t@), pos as int) is None,
        },
        r is Some ==> pos < t@.len() && pos < usize::MAX,
{
    match get_ident(t, pos) {
        Some(s) => {
            let c = chars_of(s.as_str());
            if keyword(c.as_slice()) {
                None
            } else {
                Some(s)
            }
        },
        None => None,
    }
}

fn get_literal(t: &Vec<Token>, pos: usize) -> (r: Option<&String>)
    ensures
        match r {
            Some(s) => literal_at(toks(t@), pos as int) == Some(s@),
            None => literal_at(toks(t@), pos as int) is None,
        },
        r is Some ==> pos < t@.len() && pos < usize::MAX,
{
    if pos >= t.len() {
        return None;
    }
    assert(toks(t@)[pos as int] == t@[pos as int]@);
    match &t[pos] {
        Token::Literal(s) => Some(s),
        _ => None,
    }
}

fn at_word(t: &Vec<Token>, pos: usize, word: &str) -> (r: bool)
    ensures
        r == is_word(toks(t@), pos as int, word@),
        r ==> pos < t@.len() && pos < usize::MAX,
{
    match get_ident(t, pos) {
        Some(s) => {
            let c = chars_of(s.as_str());
            is_text(c.as_slice(), word)
        },
        None => false,
    }
}

fn take_punct(t: &Vec<Token>, pos: usize, c: char) -> (r: Result<usize, DslError>)
    ensures
        step_view(r) == want_punct(toks(t@), pos as int, c),
        r matches Ok(p) ==> pos < p <= t@.len(),
{
    if at_punct(t, pos, c) {
        Ok(pos + 1)
    } else {
        fail(DslFault::ExpectedPunct(c), pos)
    }
}

fn take_open(t: &Vec<Token>, pos: usize, d: Delim) -> (r: Result<usize, DslError>)
    ensures
        step_view(r) == want_open(toks(t@), pos as int, d),
        r matches Ok(p) ==> pos < p <= t@.len(),
{
    if at_open(t, pos, d) {
        Ok(pos + 1)
    } else {
        fail(DslFault::ExpectedOpen(d), pos)
    }
}

fn take_close(t: &Vec<Token>, pos: usize, d: Delim) -> (r: Result<usize, DslError>)
    ensures
        step_view(r) == want_close(toks(t@), pos as int, d),
        r matches Ok(p) ==> pos < p <= t@.len(),
{
    if at_close(t, pos, d) {
        Ok(pos + 1)
    } else {
        fail(DslFault::ExpectedClose(d), pos)
    }
}

fn take_word(t: &Vec<Token>, pos: usize, word: &str) -> (r: Result<usize, DslError>)
    ensures
        step_view(r) == want_word(toks(t@), pos as int, word@),
        r matches Ok(p) ==> pos < p <= t@.len(),
{
    if at_word(t, pos, word) {
        Ok(pos + 1)
    } else {
        fail(DslFault::ExpectedWord, pos)
    }
}

/// What a parsed text says.
pub open spec fn text_step(r: Result<(String, usize), DslError>) -> Result<(Seq<char>, int), Flaw> {
    match r {
        Ok((s, p)) => Ok((s@, p as int)),
        Err(e) => Err(e@),
    }
}

/// What a parsed number says.
pub open spec fn int_step(r: Result<(u64, usize), DslError>) -> Result<(int, int), Flaw> {
    match r {
        Ok((v, p)) => Ok((v as int, p as int)),
        Err(e) => Err(e@),
    }
}

fn take_ident(t: &Vec<Token>, pos: usize) -> (r: Result<(String, usize), DslError>)
    ensures
        text_step(r) == want_ident(toks(t@), pos as int),
        r matches Ok((_, p)) ==> pos < p <= t@.len(),
{
    match get_name(t, pos) {
        Some(s) => Ok((s.clone(), pos + 1)),
        None => fail(DslFault::ExpectedIdent, pos),
    }
}

fn take_int(t: &Vec<Token>, pos: usize, low: u64, high: u64) -> (r: Result<(u64, usize), DslError>)
    ensures
        int_step(r) == want_int(toks(t@), pos as int, low as int, high as int),
        r matches Ok((v, p)) ==> pos < p <= t@.len() && low <= v <= high,
{
    match get_literal(t, pos) {
        Some(s) => match eval_int_lit(s.as_str()) {
            Some((v, _)) => if low <= v && v <= high {
                Ok((v, pos + 1))
            } else {
                fail(DslFault::NumberRange, pos)
            },
            None => fail(DslFault::ExpectedNumber, pos),
        },
        None => fail(DslFault::ExpectedNumber, pos),
    }
}

fn take_index(t: &Vec<Token>, pos: usize, low: u64, high: u64) -> (r: Result<(u64, usize), DslError>)
    ensures
        int_step(r) == want_index(toks(t@), pos as int, low as int, high as int),
        r matches Ok((v, p)) ==> pos < p <= t@.len() && low <= v <= high,
{
    let p: usize = match take_open(t, pos, Delim::Bracket) {
        Ok(p) => p,
        Err(e) => {
            return Err(e);
        },
    };
    let (v, p) = match take_int(t, p, low, high) {
        Ok(x) => x,
        Err(e) => {
            return Err(e);
        },
    };
    match take_close(t, p, Delim::Bracket) {
        Ok(p) => Ok((v, p)),
        Err(e) => Err(e),
    }
}

fn take_string(t: &Vec<Token>, pos: usize) -> (r: Result<(String, usize), DslError>)
    ensures
        text_step(r) == want_string(toks(t@), pos as int),
        r matches Ok((_, p)) ==> pos < p <= t@.len(),
{
    match get_literal(t, pos) {
        Some(s) => match crate::dictionary::codegen::read_string(s.as_str()) {
            Some(v) => Ok((string_of(v.as_slice()), pos + 1)),
            None => fail(DslFault::ExpectedString, pos),
        },
        None => fail(DslFault::ExpectedString, pos),
    }
}

// ---- Variables ----

/// Where an expression can end: before a comma or a semicolon, or before the end
/// of the group that it stands in.
pub open spec fn expr_end(t: Seq<Tok>, pos: int, depth: int) -> int
    decreases t.len() - pos,
{
    if pos < 0 || pos >= t.len() {
        pos
    } else {
        match t[pos] {
            Tok::Open(_) => expr_end(t, pos + 1, depth + 1),
            Tok::Close(_) => if depth <= 0 {
                pos
            } else {
                expr_end(t, pos + 1, depth - 1)
            },
            Tok::Punct(c, _) if (c == ',' || c == ';') && depth <= 0 => pos,
            _ => expr_end(t, pos + 1, depth),
        }
    }
}

/// The text of a token, with a space behind it where none may be missing.
pub open spec fn tok_text(t: Tok) -> Seq<char> {
    match t {
        Tok::Ident(s) => s + " "@,
        Tok::Literal(s) => s + " "@,
        Tok::Punct(c, joint) => if joint {
            seq![c]
        } else {
            seq![c] + " "@
        },
        Tok::Open(Delim::Paren) => "("@,
        Tok::Open(Delim::Bracket) => "["@,
        Tok::Open(Delim::Brace) => "{"@,
        Tok::Close(Delim::Paren) => ")"@,
        Tok::Close(Delim::Bracket) => "]"@,
        Tok::Close(Delim::Brace) => "}"@,
        _ => ""@,
    }
}

/// The text of the tokens from one position up to another.
pub open spec fn text_of(t: Seq<Tok>, from: int, to: int) -> Seq<char>
    decreases to - from,
{
    if from >= to || to > t.len() {
        Seq::empty()
    } else {
        text_of(t, from, to - 1) + tok_text(t[to - 1])
    }
}

/// An expression from one position up to another, or up to a later comma if
/// that is none yet: commas also stand between the arguments of a type.
pub open spec fn expr_from(t: Seq<Tok>, pos: int, end: int) -> Result<(Seq<char>, int), Flaw>
    decreases t.len() - end,
{
    match printed(text_of(t, pos, end)) {
        Some(s) => Ok((s, end)),
        None => {
            let next = expr_end(t, end + 1, 0);
            if is_punct(t, end, ',') && end < next <= t.len() {
                expr_from(t, pos, next)
            } else {
                flaw(DslFault::ExpectedExpression, pos)
            }
        },
    }
}

/// An expression.
pub open spec fn want_expr(t: Seq<Tok>, pos: int) -> Result<(Seq<char>, int), Flaw> {
    expr_from(t, pos, expr_end(t, pos, 0))
}

fn write_token(t: &Token, out: &mut Vec<char>)
    ensures
        final(out)@ == old(out)@ + tok_text(t@),
{
    let ghost before = out@;
    match t {
        Token::Ident(s) => {
            append_str(out, s.as_str());
            append_str(out, " ");
        },
        Token::Literal(s) => {
            append_str(out, s.as_str());
            append_str(out, " ");
        },
        Token::Punct(c, joint) => {
            out.push(*c);
            if !*joint {
                append_str(out, " ");
            }
        },
        Token::Open(Delim::Paren) => {
            append_str(out, "(");
        },
        Token::Open(Delim::Bracket) => {
            append_str(out, "[");
        },
        Token::Open(Delim::Brace) => {
            append_str(out, "{");
        },
        Token::Close(Delim::Paren) => {
            append_str(out, ")");
        },
        Token::Close(Delim::Bracket) => {
            append_str(out, "]");
        },
        Token::Close(Delim::Brace) => {
            append_str(out, "}");
        },
        _ => {
            append_str(out, "");
        },
    }
    assert(out@ =~= before + tok_text(t@));
}

/// Write the tokens from one position up to another, behind those from `start`.
fn write_tokens(t: &Vec<Token>, start: usize, from: usize, to: usize, out: &mut Vec<char>)
    requires
        start <= from <= to <= t@.len(),
        old(out)@ == text_of(toks(t@), start as int, from as int),
    ensures
        final(out)@ == text_of(toks(t@), start as int, to as int),
{
    let mut i: usize = from;
    while i < to
        invariant
            start <= i <= to <= t@.len(),
            out@ == text_of(toks(t@), start as int, i as int),
        decreases to - i,
    {
        assert(toks(t@)[i as int] == t@[i as int]@);
        write_token(&t[i], out);
        i += 1;
    }
}

fn find_expr_end(t: &Vec<Token>, pos: usize) -> (r: usize)
    requires
        pos <= t@.len(),
    ensures
        r == expr_end(toks(t@), pos as int, 0),
        pos <= r <= t@.len(),
{
    let ghost all = toks(t@);
    let mut end: usize = pos;
    let mut depth: usize = 0;
    while end < t.len()
        invariant
            pos <= end <= t@.len(),
            all == toks(t@),
            depth <= end - pos,
            expr_end(all, pos as int, 0) == expr_end(all, end as int, depth as int),
        decreases t@.len() - end,
    {
        assert(all[end as int] == t@[end as int]@);
        match &t[end] {
            Token::Open(_) => {
                depth += 1;
            },
            Token::Close(_) => {
                if depth == 0 {
                    return end;
                }
                depth -= 1;
            },
            Token::Punct(c, _) => {
                if (*c == ',' || *c == ';') && depth == 0 {
                    return end;
                }
            },
            _ => {},
        }
        end += 1;
    }
    end
}

fn take_expr(t: &Vec<Token>, pos: usize) -> (r: Result<(String, usize), DslError>)
    requires
        pos <= t@.len(),
    ensures
        text_step(r) == want_expr(toks(t@), pos as int),
        r matches Ok((_, p)) ==> pos <= p <= t@.len(),
{
    let ghost all = toks(t@);
    let mut end: usize = find_expr_end(t, pos);
    let mut out: Vec<char> = Vec::new();
    write_tokens(t, pos, pos, end, &mut out);
    loop
        invariant
            pos <= end <= t@.len(),
            all == toks(t@),
            out@ == text_of(all, pos as int, end as int),
            want_expr(all, pos as int) == expr_from(all, pos as int, end as int),
        decreases t@.len() - end,
    {
        match print_expr(out.as_slice()) {
            Some(s) => {
                return Ok((s, end));
            },
            None => {
                if !at_punct(t, end, ',') {
                    return fail(DslFault::ExpectedExpression, pos);
                }
                let next: usize = find_expr_end(t, end + 1);
                write_tokens(t, pos, end, next, &mut out);
                end = next;
            },
        }
    }
}

/// An access word.
pub open spec fn want_access(t: Seq<Tok>, pos: int) -> Result<(AccessKind, int), Flaw> {
    match ident_at(t, pos) {
        None => flaw(DslFault::ExpectedIdent, pos),
        Some(s) => if s == "ro"@ {
            Ok((AccessKind::Ro, pos + 1))
        } else if s == "rw"@ {
            Ok((AccessKind::Rw, pos + 1))
        } else if s == "wo"@ {
            Ok((AccessKind::Wo, pos + 1))
        } else if s == "const"@ {
            Ok((AccessKind::Const, pos + 1))
        } else {
            flaw(DslFault::UnknownAccess, pos)
        },
    }
}

fn take_access(t: &Vec<Token>, pos: usize) -> (r: Result<(AccessKind, usize), DslError>)
    ensures
        match r {
            Ok((a, p)) => want_access(toks(t@), pos as int) == Ok::<(AccessKind, int), Flaw>(
                (a, p as int),
            ) && pos < p <= t@.len(),
            Err(e) => want_access(toks(t@), pos as int) == Err::<(AccessKind, int), Flaw>(e@),
        },
{
    match get_ident(t, pos) {
        None => fail(DslFault::ExpectedIdent, pos),
        Some(s) => {
            let c = chars_of(s.as_str());
            if is_text(c.as_slice(), "ro") {
                Ok((AccessKind::Ro, pos + 1))
            } else if is_text(c.as_slice(), "rw") {
                Ok((AccessKind::Rw, pos + 1))
            } else if is_text(c.as_slice(), "wo") {
                Ok((AccessKind::Wo, pos + 1))
            } else if is_text(c.as_slice(), "const") {
                Ok((AccessKind::Const, pos + 1))
            } else {
                fail(DslFault::UnknownAccess, pos)
            }
        },
    }
}

/// An access word, and optionally the word `pdo` behind a comma.
pub open spec fn want_flags(t: Seq<Tok>, pos: int) -> Result<((AccessKind, bool), int), Flaw> {
    match want_access(t, pos) {
        Err(e) => Err(e),
        Ok((access, p)) => if is_punct(t, p, ',') {
            match want_word(t, p + 1, "pdo"@) {
                Err(e) => Err(e),
                Ok(p) => Ok(((access, true), p)),
            }
        } else {
            Ok(((access, false), p))
        },
    }
}

fn take_flags(t: &Vec<Token>, pos: usize) -> (r: Result<((AccessKind, bool), usize), DslError>)
    ensures
        match r {
            Ok((f, p)) => want_flags(toks(t@), pos as int) == Ok::<
                ((AccessKind, bool), int),
                Flaw,
            >((f, p as int)) && pos < p <= t@.len(),
            Err(e) => want_flags(toks(t@), pos as int) == Err::<((AccessKind, bool), int), Flaw>(
                e@,
            ),
        },
{
    match take_access(t, pos) {
        Err(e) => Err(e),
        Ok((access, p)) => if at_punct(t, p, ',') {
            match take_word(t, p + 1, "pdo") {
                Err(e) => Err(e),
                Ok(p) => Ok(((access, true), p)),
            }
        } else {
            Ok(((access, false), p))
        },
    }
}

/// An optional capacity in angle brackets.
pub open spec fn want_capacity(t: Seq<Tok>, pos: int) -> Result<(Option<usize>, int), Flaw> {
    if is_punct(t, pos, '<') {
        match want_int(t, pos + 1, 0, usize::MAX as int) {
            Err(e) => Err(e),
            Ok((v, p)) => match want_punct(t, p, '>') {
                Err(e) => Err(e),
                Ok(p) => Ok((Some(v as usize), p)),
            },
        }
    } else {
        Ok((None, pos))
    }
}

fn take_capacity(t: &Vec<Token>, pos: usize) -> (r: Result<(Option<usize>, usize), DslError>)
    requires
        pos <= t@.len(),
    ensures
        match r {
            Ok((c, p)) => want_capacity(toks(t@), pos as int) == Ok::<(Option<usize>, int), Flaw>(
                (c, p as int),
            ) && pos <= p <= t@.len(),
            Err(e) => want_capacity(toks(t@), pos as int) == Err::<(Option<usize>, int), Flaw>(e@),
        },
{
    if at_punct(t, pos, '<') {
        match take_int(t, pos + 1, 0, usize::MAX as u64) {
            Err(e) => Err(e),
            Ok((v, p)) => match take_punct(t, p, '>') {
                Err(e) => Err(e),
                Ok(p) => Ok((Some(v as usize), p)),
            },
        }
    } else {
        Ok((None, pos))
    }
}

/// An optional default behind an equals sign, and a comma.
pub open spec fn want_default(t: Seq<Tok>, pos: int) -> Result<(Option<Seq<char>>, int), Flaw> {
    if is_punct(t, pos, '=') {
        match want_expr(t, pos + 1) {
            Err(e) => Err(e),
            Ok((s, p)) => match want_punct(t, p, ',') {
                Err(e) => Err(e),
                Ok(p) => Ok((Some(s), p)),
            },
        }
    } else {
        match want_punct(t, pos, ',') {
            Err(e) => Err(e),
            Ok(p) => Ok((None, p)),
        }
    }
}

fn take_default(t: &Vec<Token>, pos: usize) -> (r: Result<(Option<String>, usize), DslError>)
    requires
        pos <= t@.len(),
    ensures
        match r {
            Ok((d, p)) => want_default(toks(t@), pos as int) == Ok::<
                (Option<Seq<char>>, int),
                Flaw,
            >((text_view(d), p as int)) && pos < p <= t@.len(),
            Err(e) => want_default(toks(t@), pos as int) == Err::<(Option<Seq<char>>, int), Flaw>(
                e@,
            ),
        },
{
    if at_punct(t, pos, '=') {
        match take_expr(t, pos + 1) {
            Err(e) => Err(e),
            Ok((s, p)) => match take_punct(t, p, ',') {
                Err(e) => Err(e),
                Ok(p) => Ok((Some(s), p)),
            },
        }
    } else {
        match take_punct(t, pos, ',') {
            Err(e) => Err(e),
            Ok(p) => Ok((None, p)),
        }
    }
}

/// A variable: `type<capacity> = default, access, pdo`.
pub open spec fn want_var(t: Seq<Tok>, pos: int) -> Result<(VarView, int), Flaw> {
    match want_ident(t, pos) {
        Err(e) => Err(e),
        Ok((ty, p)) => match want_capacity(t, p) {
            Err(e) => Err(e),
            Ok((capacity, p)) => match want_default(t, p) {
                Err(e) => Err(e),
                Ok((default_value, p)) => match want_flags(t, p) {
                    Err(e) => Err(e),
                    Ok(((access, pdo_mappable), p)) => Ok(
                        (
                            VarView {
                                ty,
                                capacity,
                                default_value,
                                real_bits: None,
                                access,
                                pdo_mappable,
                            },
                            p,
                        ),
                    ),
                },
            },
        },
    }
}

fn parse_var_def(t: &Vec<Token>, pos: usize) -> (r: Result<(VarDef, usize), DslError>)
    ensures
        match r {
            Ok((v, p)) => want_var(toks(t@), pos as int) == Ok::<(VarView, int), Flaw>(
                (v@, p as int),
            ) && pos < p <= t@.len(),
            Err(e) => want_var(toks(t@), pos as int) == Err::<(VarView, int), Flaw>(e@),
        },
{
    let (ty, p) = match take_ident(t, pos) {
        Ok(x) => x,
        Err(e) => {
            return Err(e);
        },
    };
    let (capacity, p) = match take_capacity(t, p) {
        Ok(x) => x,
        Err(e) => {
            return Err(e);
        },
    };
    let (default_value, p) = match take_default(t, p) {
        Ok(x) => x,
        Err(e) => {
            return Err(e);
        },
    };
    match take_flags(t, p) {
        Err(e) => Err(e),
        Ok(((access, pdo_mappable), p)) => Ok(
            (VarDef { ty, capacity, default_value, real_bits: None, access, pdo_mappable }, p),
        ),
    }
}

// ---- Entries ----

/// A record member: `[subindex] name: variable;`.
pub open spec fn want_sub(t: Seq<Tok>, pos: int) -> Result<(SubView, int), Flaw> {
    match want_index(t, pos, 0, 0xFF) {
        Err(e) => Err(e),
        Ok((subindex, p)) => match want_ident(t, p) {
            Err(e) => Err(e),
            Ok((name, p)) => match want_punct(t, p, ':') {
                Err(e) => Err(e),
                Ok(p) => match want_var(t, p) {
                    Err(e) => Err(e),
                    Ok((var, p)) => match want_punct(t, p, ';') {
                        Err(e) => Err(e),
                        Ok(p) => Ok((SubView { subindex: subindex as u8, name, var }, p)),
                    },
                },
            },
        },
    }
}

fn parse_sub_entry(t: &Vec<Token>, pos: usize) -> (r: Result<(SubEntry, usize), DslError>)
    ensures
        match r {
            Ok((s, p)) => want_sub(toks(t@), pos as int) == Ok::<(SubView, int), Flaw>(
                (s@, p as int),
            ) && pos < p <= t@.len(),
            Err(e) => want_sub(toks(t@), pos as int) == Err::<(SubView, int), Flaw>(e@),
        },
{
    let (subindex, p) = match take_index(t, pos, 0, 0xFF) {
        Ok(x) => x,
        Err(e) => {
            return Err(e);
        },
    };
    let (name, p) = match take_ident(t, p) {
        Ok(x) => x,
        Err(e) => {
            return Err(e);
        },
    };
    let p: usize = match take_punct(t, p, ':') {
        Ok(p) => p,
        Err(e) => {
            return Err(e);
        },
    };
    let (var, p) = match parse_var_def(t, p) {
        Ok(x) => x,
        Err(e) => {
            return Err(e);
        },
    };
    match take_punct(t, p, ';') {
        Ok(p) => Ok((SubEntry { subindex: subindex as u8, name, var }, p)),
        Err(e) => Err(e),
    }
}

/// Record members up to the end of the record.
pub open spec fn want_subs(t: Seq<Tok>, pos: int) -> Result<(Seq<SubView>, int), Flaw>
    decreases t.len() - pos,
{
    if is_close(t, pos, Delim::Brace) {
        Ok((Seq::empty(), pos + 1))
    } else {
        match want_sub(t, pos) {
            Err(e) => Err(e),
            Ok((s, p)) => if pos < p <= t.len() {
                match want_subs(t, p) {
                    Err(e) => Err(e),
                    Ok((rest, p)) => Ok((seq![s] + rest, p)),
                }
            } else {
                flaw(DslFault::Unexpected, pos)
            },
        }
    }
}

fn parse_subs(t: &Vec<Token>, pos: usize) -> (r: Result<(Vec<SubEntry>, usize), DslError>)
    ensures
        match r {
            Ok((s, p)) => want_subs(toks(t@), pos as int) == Ok::<(Seq<SubView>, int), Flaw>(
                (sub_views(s@), p as int),
            ) && pos < p <= t@.len(),
            Err(e) => want_subs(toks(t@), pos as int) == Err::<(Seq<SubView>, int), Flaw>(e@),
        },
{
    let ghost all = toks(t@);
    let ghost goal = want_subs(all, pos as int);
    let mut out: Vec<SubEntry> = Vec::new();
    let mut p: usize = pos;
    while !at_close(t, p, Delim::Brace)
        invariant
            pos <= p,
            p == pos || p <= t@.len(),
            all == toks(t@),
            goal == want_subs(all, pos as int),
            goal == (match want_subs(all, p as int) {
                Err(e) => Err(e),
                Ok((rest, q)) => Ok((sub_views(out@) + rest, q)),
            }),
        decreases t@.len() - p,
    {
        let ghost before = sub_views(out@);
        match parse_sub_entry(t, p) {
            Err(e) => {
                return Err(e);
            },
            Ok((s, q)) => {
                out.push(s);
                proof {
                    assert(sub_views(out@) =~= before.push(s@));
                    match want_subs(all, q as int) {
                        Ok((rest, _)) => {
                            assert(before + (seq![s@] + rest) =~= sub_views(out@) + rest);
                        },
                        Err(_) => {},
                    }
                }
                p = q;
            },
        }
    }
    assert(sub_views(out@) + Seq::<SubView>::empty() =~= sub_views(out@));
    Ok((out, p + 1))
}

/// An array: `<type, count>, access, pdo`.
pub open spec fn want_array(t: Seq<Tok>, pos: int) -> Result<(ArrayView, int), Flaw> {
    match want_punct(t, pos, '<') {
        Err(e) => Err(e),
        Ok(p) => match want_ident(t, p) {
            Err(e) => Err(e),
            Ok((element_type, p)) => match want_punct(t, p, ',') {
                Err(e) => Err(e),
                Ok(p) => match want_int(t, p, 0, usize::MAX as int) {
                    Err(e) => Err(e),
                    Ok((count, p)) => match want_punct(t, p, '>') {
                        Err(e) => Err(e),
                        Ok(p) => match want_punct(t, p, ',') {
                            Err(e) => Err(e),
                            Ok(p) => match want_flags(t, p) {
                                Err(e) => Err(e),
                                Ok(((access, pdo_mappable), p)) => Ok(
                                    (
                                        ArrayView {
                                            element_type,
                                            count: count as usize,
                                            access,
                                            pdo_mappable,
                                        },
                                        p,
                                    ),
                                ),
                            },
                        },
                    },
                },
            },
        },
    }
}

fn parse_array(t: &Vec<Token>, pos: usize) -> (r: Result<(ArrayDef, usize), DslError>)
    ensures
        match r {
            Ok((a, p)) => want_array(toks(t@), pos as int) == Ok::<(ArrayView, int), Flaw>(
                (a@, p as int),
            ) && pos < p <= t@.len(),
            Err(e) => want_array(toks(t@), pos as int) == Err::<(ArrayView, int), Flaw>(e@),
        },
{
    let p: usize = match take_punct(t, pos, '<') {
        Ok(p) => p,
        Err(e) => {
            return Err(e);
        },
    };
    let (element_type, p) = match take_ident(t, p) {
        Ok(x) => x,
        Err(e) => {
            return Err(e);
        },
    };
    let p: usize = match take_punct(t, p, ',') {
        Ok(p) => p,
        Err(e) => {
            return Err(e);
        },
    };
    let (count, p) = match take_int(t, p, 0, usize::MAX as u64) {
        Ok(x) => x,
        Err(e) => {
            return Err(e);
        },
    };
    let p: usize = match take_punct(t, p, '>') {
        Ok(p) => p,
        Err(e) => {
            return Err(e);
        },
    };
    let p: usize = match take_punct(t, p, ',') {
        Ok(p) => p,
        Err(e) => {
            return Err(e);
        },
    };
    match take_flags(t, p) {
        Err(e) => Err(e),
        Ok(((access, pdo_mappable), p)) => Ok(
            (ArrayDef { element_type, count: count as usize, access, pdo_mappable }, p),
        ),
    }
}

/// What an entry is: a record, an array, or a variable.
pub open spec fn want_kind(t: Seq<Tok>, pos: int) -> Result<(KindView, int), Flaw> {
    if is_word(t, pos, "record"@) {
        match want_open(t, pos + 1, Delim::Brace) {
            Err(e) => Err(e),
            Ok(p) => match want_subs(t, p) {
                Err(e) => Err(e),
                Ok((subs, p)) => Ok((KindView::Record(subs), p)),
            },
        }
    } else if is_word(t, pos, "array"@) {
        match want_array(t, pos + 1) {
            Err(e) => Err(e),
            Ok((a, p)) => Ok((KindView::Array(a), p)),
        }
    } else {
        match want_var(t, pos) {
            Err(e) => Err(e),
            Ok((v, p)) => Ok((KindView::Var(v), p)),
        }
    }
}

fn parse_kind(t: &Vec<Token>, pos: usize) -> (r: Result<(EntryKind, usize), DslError>)
    ensures
        match r {
            Ok((k, p)) => want_kind(toks(t@), pos as int) == Ok::<(KindView, int), Flaw>(
                (k@, p as int),
            ) && pos < p <= t@.len(),
            Err(e) => want_kind(toks(t@), pos as int) == Err::<(KindView, int), Flaw>(e@),
        },
{
    if at_word(t, pos, "record") {
        let p: usize = match take_open(t, pos + 1, Delim::Brace) {
            Ok(p) => p,
            Err(e) => {
                return Err(e);
            },
        };
        match parse_subs(t, p) {
            Err(e) => Err(e),
            Ok((subs, p)) => Ok((EntryKind::Record(subs), p)),
        }
    } else if at_word(t, pos, "array") {
        match parse_array(t, pos + 1) {
            Err(e) => Err(e),
            Ok((a, p)) => Ok((EntryKind::Array(a), p)),
        }
    } else {
        match parse_var_def(t, pos) {
            Err(e) => Err(e),
            Ok((v, p)) => Ok((EntryKind::Var(v), p)),
        }
    }
}

/// An entry: `[index] name: kind;`.
pub open spec fn want_entry(t: Seq<Tok>, pos: int) -> Result<(OdEntryView, int), Flaw> {
    match want_index(t, pos, 0, 0xFFFF) {
        Err(e) => Err(e),
        Ok((index, p)) => match want_ident(t, p) {
            Err(e) => Err(e),
            Ok((name, p)) => match want_punct(t, p, ':') {
                Err(e) => Err(e),
                Ok(p) => match want_kind(t, p) {
                    Err(e) => Err(e),
                    Ok((kind, p)) => match want_punct(t, p, ';') {
                        Err(e) => Err(e),
                        Ok(p) => Ok((OdEntryView { index: index as u16, name, kind }, p)),
                    },
                },
            },
        },
    }
}

fn parse_entry(t: &Vec<Token>, pos: usize) -> (r: Result<(OdEntry, usize), DslError>)
    ensures
        match r {
            Ok((x, p)) => want_entry(toks(t@), pos as int) == Ok::<(OdEntryView, int), Flaw>(
                (x@, p as int),
            ) && pos < p <= t@.len(),
            Err(e) => want_entry(toks(t@), pos as int) == Err::<(OdEntryView, int), Flaw>(e@),
        },
{
    let (index, p) = match take_index(t, pos, 0, 0xFFFF) {
        Ok(x) => x,
        Err(e) => {
            return Err(e);
        },
    };
    let (name, p) = match take_ident(t, p) {
        Ok(x) => x,
        Err(e) => {
            return Err(e);
        },
    };
    let p: usize = match take_punct(t, p, ':') {
        Ok(p) => p,
        Err(e) => {
            return Err(e);
        },
    };
    let (kind, p) = match parse_kind(t, p) {
        Ok(x) => x,
        Err(e) => {
            return Err(e);
        },
    };
    match take_punct(t, p, ';') {
        Ok(p) => Ok((OdEntry { index: index as u16, name, kind }, p)),
        Err(e) => Err(e),
    }
}

// ---- PDOs ----

/// A COB-ID: a number, or `node_id +` a number.
pub open spec fn want_cob(t: Seq<Tok>, pos: int) -> Result<(CobIdSpec, int), Flaw> {
    if is_word(t, pos, "node_id"@) {
        match want_punct(t, pos + 1, '+') {
            Err(e) => Err(e),
            Ok(p) => match want_int(t, p, 0, 0xFFFF_FFFF) {
                Err(e) => Err(e),
                Ok((v, p)) => Ok((CobIdSpec::NodeRelative(v as u32), p)),
            },
        }
    } else {
        match want_int(t, pos, 0, 0xFFFF_FFFF) {
            Err(e) => Err(e),
            Ok((v, p)) => Ok((CobIdSpec::Absolute(v as u32), p)),
        }
    }
}

fn take_cob(t: &Vec<Token>, pos: usize) -> (r: Result<(CobIdSpec, usize), DslError>)
    ensures
        match r {
            Ok((c, p)) => want_cob(toks(t@), pos as int) == Ok::<(CobIdSpec, int), Flaw>(
                (c, p as int),
            ) && pos < p <= t@.len(),
            Err(e) => want_cob(toks(t@), pos as int) == Err::<(CobIdSpec, int), Flaw>(e@),
        },
{
    if at_word(t, pos, "node_id") {
        let p: usize = match take_punct(t, pos + 1, '+') {
            Ok(p) => p,
            Err(e) => {
                return Err(e);
            },
        };
        match take_int(t, p, 0, 0xFFFF_FFFF) {
            Err(e) => Err(e),
            Ok((v, p)) => Ok((CobIdSpec::NodeRelative(v as u32), p)),
        }
    } else {
        match take_int(t, pos, 0, 0xFFFF_FFFF) {
            Err(e) => Err(e),
            Ok((v, p)) => Ok((CobIdSpec::Absolute(v as u32), p)),
        }
    }
}

/// A transmission type: a number, or the name of one.
pub open spec fn want_transmission(t: Seq<Tok>, pos: int) -> Result<(u8, int), Flaw> {
    match ident_at(t, pos) {
        Some(s) => if s == "event_driven"@ {
            Ok((255u8, pos + 1))
        } else if s == "event_driven_manufacturer"@ {
            Ok((254u8, pos + 1))
        } else if s == "rtr_event"@ {
            Ok((253u8, pos + 1))
        } else if s == "rtr_sync"@ {
            Ok((252u8, pos + 1))
        } else if s == "sync_acyclic"@ {
            Ok((0u8, pos + 1))
        } else if s == "sync_cyclic"@ {
            match want_open(t, pos + 1, Delim::Paren) {
                Err(e) => Err(e),
                Ok(p) => match want_int(t, p, 1, 240) {
                    Err(e) => Err(e),
                    Ok((v, p)) => match want_close(t, p, Delim::Paren) {
                        Err(e) => Err(e),
                        Ok(p) => Ok((v as u8, p)),
                    },
                },
            }
        } else {
            flaw(DslFault::UnknownTransmissionType, pos)
        },
        None => match want_int(t, pos, 0, 0xFF) {
            Err(e) => Err(e),
            Ok((v, p)) => Ok((v as u8, p)),
        },
    }
}

fn take_transmission(t: &Vec<Token>, pos: usize) -> (r: Result<(u8, usize), DslError>)
    ensures
        match r {
            Ok((v, p)) => want_transmission(toks(t@), pos as int) == Ok::<(u8, int), Flaw>(
                (v, p as int),
            ) && pos < p <= t@.len(),
            Err(e) => want_transmission(toks(t@), pos as int) == Err::<(u8, int), Flaw>(e@),
        },
{
    match get_ident(t, pos) {
        Some(word) => {
            let c = chars_of(word.as_str());
            let s = c.as_slice();
            if is_text(s, "event_driven") {
                Ok((255, pos + 1))
            } else if is_text(s, "event_driven_manufacturer") {
                Ok((254, pos + 1))
            } else if is_text(s, "rtr_event") {
                Ok((253, pos + 1))
            } else if is_text(s, "rtr_sync") {
                Ok((252, pos + 1))
            } else if is_text(s, "sync_acyclic") {
                Ok((0, pos + 1))
            } else if is_text(s, "sync_cyclic") {
                let p: usize = match take_open(t, pos + 1, Delim::Paren) {
                    Ok(p) => p,
                    Err(e) => {
                        return Err(e);
                    },
                };
                let (v, p) = match take_int(t, p, 1, 240) {
                    Ok(x) => x,
                    Err(e) => {
                        return Err(e);
                    },
                };
                match take_close(t, p, Delim::Paren) {
                    Ok(p) => Ok((v as u8, p)),
                    Err(e) => Err(e),
                }
            } else {
                fail(DslFault::UnknownTransmissionType, pos)
            }
        },
        None => match take_int(t, pos, 0, 0xFF) {
            Err(e) => Err(e),
            Ok((v, p)) => Ok((v as u8, p)),
        },
    }
}

/// A time in multiples of a resolution.
pub open spec fn want_time(t: Seq<Tok>, pos: int, resolution_us: int) -> Result<(u16, int), Flaw> {
    match literal_at(t, pos) {
        Some(s) => match time_lit(s, resolution_us) {
            Some(v) => if v <= 0xFFFF {
                Ok((v as u16, pos + 1))
            } else {
                flaw(DslFault::BadTime, pos)
            },
            None => flaw(DslFault::BadTime, pos),
        },
        None => flaw(DslFault::BadTime, pos),
    }
}

fn take_time(t: &Vec<Token>, pos: usize, resolution_us: u128) -> (r: Result<(u16, usize), DslError>)
    requires
        1 <= resolution_us <= 1_000,
    ensures
        match r {
            Ok((v, p)) => want_time(toks(t@), pos as int, resolution_us as int) == Ok::<
                (u16, int),
                Flaw,
            >((v, p as int)) && pos < p <= t@.len(),
            Err(e) => want_time(toks(t@), pos as int, resolution_us as int) == Err::<
                (u16, int),
                Flaw,
            >(e@),
        },
{
    match get_literal(t, pos) {
        Some(s) => match eval_time(s.as_str(), resolution_us) {
            Some(v) => if v <= 0xFFFF {
                Ok((v as u16, pos + 1))
            } else {
                fail(DslFault::BadTime, pos)
            },
            None => fail(DslFault::BadTime, pos),
        },
        None => fail(DslFault::BadTime, pos),
    }
}

/// The word for a kind of mapping.
pub open spec fn want_mapping(t: Seq<Tok>, pos: int) -> Result<(MappingKind, int), Flaw> {
    if is_word(t, pos, "mutable"@) {
        Ok((MappingKind::Mutable, pos + 1))
    } else if is_word(t, pos, "immutable"@) {
        Ok((MappingKind::Immutable, pos + 1))
    } else {
        flaw(DslFault::UnknownMappingKind, pos)
    }
}

/// The parameters of a PDO.
#[derive(Clone, Copy)]
pub struct PdoParams {
    pub cob_id: Option<CobIdSpec>,
    pub transmission_type: u8,
    pub inhibit_time: u16,
    pub event_timer: u16,
    pub mapping: MappingKind,
}

/// A parameter of a PDO: `key = value`. The inhibit time is in units of 100us,
/// the event timer and the reception deadline, which are the same, are in ms.
pub open spec fn want_param(t: Seq<Tok>, pos: int, m: PdoParams) -> Result<(PdoParams, int), Flaw> {
    match want_ident(t, pos) {
        Err(e) => Err(e),
        Ok((key, p)) => match want_punct(t, p, '=') {
            Err(e) => Err(e),
            Ok(p) => if key == "cob_id"@ {
                match want_cob(t, p) {
                    Err(e) => Err(e),
                    Ok((v, p)) => Ok((PdoParams { cob_id: Some(v), ..m }, p)),
                }
            } else if key == "transmission_type"@ {
                match want_transmission(t, p) {
                    Err(e) => Err(e),
                    Ok((v, p)) => Ok((PdoParams { transmission_type: v, ..m }, p)),
                }
            } else if key == "inhibit_time"@ {
                match want_time(t, p, 100) {
                    Err(e) => Err(e),
                    Ok((v, p)) => Ok((PdoParams { inhibit_time: v, ..m }, p)),
                }
            } else if key == "event_timer"@ || key == "deadline"@ {
                match want_time(t, p, 1_000) {
                    Err(e) => Err(e),
                    Ok((v, p)) => Ok((PdoParams { event_timer: v, ..m }, p)),
                }
            } else if key == "mapping"@ {
                match want_mapping(t, p) {
                    Err(e) => Err(e),
                    Ok((v, p)) => Ok((PdoParams { mapping: v, ..m }, p)),
                }
            } else {
                flaw(DslFault::UnknownParameter, pos)
            },
        },
    }
}

fn take_param(t: &Vec<Token>, pos: usize, m: PdoParams) -> (r: Result<
    (PdoParams, usize),
    DslError,
>)
    ensures
        match r {
            Ok((v, p)) => want_param(toks(t@), pos as int, m) == Ok::<(PdoParams, int), Flaw>(
                (v, p as int),
            ) && pos < p <= t@.len(),
            Err(e) => want_param(toks(t@), pos as int, m) == Err::<(PdoParams, int), Flaw>(e@),
        },
{
    let (key, p) = match take_ident(t, pos) {
        Ok(x) => x,
        Err(e) => {
            return Err(e);
        },
    };
    let p: usize = match take_punct(t, p, '=') {
        Ok(p) => p,
        Err(e) => {
            return Err(e);
        },
    };
    let c = chars_of(key.as_str());
    let s = c.as_slice();
    if is_text(s, "cob_id") {
        match take_cob(t, p) {
            Err(e) => Err(e),
            Ok((v, p)) => Ok((PdoParams { cob_id: Some(v), ..m }, p)),
        }
    } else if is_text(s, "transmission_type") {
        match take_transmission(t, p) {
            Err(e) => Err(e),
            Ok((v, p)) => Ok((PdoParams { transmission_type: v, ..m }, p)),
        }
    } else if is_text(s, "inhibit_time") {
        match take_time(t, p, 100) {
            Err(e) => Err(e),
            Ok((v, p)) => Ok((PdoParams { inhibit_time: v, ..m }, p)),
        }
    } else if is_text(s, "event_timer") || is_text(s, "deadline") {
        match take_time(t, p, 1_000) {
            Err(e) => Err(e),
            Ok((v, p)) => Ok((PdoParams { event_timer: v, ..m }, p)),
        }
    } else if is_text(s, "mapping") {
        if at_word(t, p, "mutable") {
            Ok((PdoParams { mapping: MappingKind::Mutable, ..m }, p + 1))
        } else if at_word(t, p, "immutable") {
            Ok((PdoParams { mapping: MappingKind::Immutable, ..m }, p + 1))
        } else {
            fail(DslFault::UnknownMappingKind, p)
        }
    } else {
        fail(DslFault::UnknownParameter, pos)
    }
}

/// Parameters, each with an optional comma behind it, up to the end of the
/// group.
pub open spec fn want_params(t: Seq<Tok>, pos: int, m: PdoParams) -> Result<(PdoParams, int), Flaw>
    decreases t.len() - pos,
{
    if is_close(t, pos, Delim::Paren) {
        Ok((m, pos + 1))
    } else {
        match want_param(t, pos, m) {
            Err(e) => Err(e),
            Ok((m, p)) => {
                let next = if is_punct(t, p, ',') {
                    p + 1
                } else {
                    p
                };
                if pos < next <= t.len() {
                    want_params(t, next, m)
                } else {
                    flaw(DslFault::Unexpected, pos)
                }
            },
        }
    }
}

fn take_params(t: &Vec<Token>, pos: usize, m: PdoParams) -> (r: Result<
    (PdoParams, usize),
    DslError,
>)
    ensures
        match r {
            Ok((v, p)) => want_params(toks(t@), pos as int, m) == Ok::<(PdoParams, int), Flaw>(
                (v, p as int),
            ) && pos < p <= t@.len(),
            Err(e) => want_params(toks(t@), pos as int, m) == Err::<(PdoParams, int), Flaw>(e@),
        },
{
    let ghost all = toks(t@);
    let ghost goal = want_params(all, pos as int, m);
    let mut params = m;
    let mut p: usize = pos;
    while !at_close(t, p, Delim::Paren)
        invariant
            pos <= p,
            p == pos || p <= t@.len(),
            all == toks(t@),
            goal == want_params(all, pos as int, m),
            goal == want_params(all, p as int, params),
        decreases t@.len() - p,
    {
        match take_param(t, p, params) {
            Err(e) => {
                return Err(e);
            },
            Ok((v, q)) => {
                params = v;
                p = if at_punct(t, q, ',') {
                    q + 1
                } else {
                    q
                };
            },
        }
    }
    Ok((params, p + 1))
}

/// Mapped fields, each with an optional comma behind it, up to the end of the
/// group.
pub open spec fn want_fields(t: Seq<Tok>, pos: int) -> Result<(Seq<FieldView>, int), Flaw>
    decreases t.len() - pos,
{
    if is_close(t, pos, Delim::Brace) {
        Ok((Seq::empty(), pos + 1))
    } else {
        match want_ident(t, pos) {
            Err(e) => Err(e),
            Ok((name, p)) => {
                let next = if is_punct(t, p, ',') {
                    p + 1
                } else {
                    p
                };
                if pos < next <= t.len() {
                    match want_fields(t, next) {
                        Err(e) => Err(e),
                        Ok((rest, p)) => Ok((seq![FieldView::Named(name)] + rest, p)),
                    }
                } else {
                    flaw(DslFault::Unexpected, pos)
                }
            },
        }
    }
}

fn take_fields(t: &Vec<Token>, pos: usize) -> (r: Result<(Vec<PdoField>, usize), DslError>)
    ensures
        match r {
            Ok((f, p)) => want_fields(toks(t@), pos as int) == Ok::<(Seq<FieldView>, int), Flaw>(
                (field_views(f@), p as int),
            ) && pos < p <= t@.len(),
            Err(e) => want_fields(toks(t@), pos as int) == Err::<(Seq<FieldView>, int), Flaw>(e@),
        },
{
    let ghost all = toks(t@);
    let ghost goal = want_fields(all, pos as int);
    let mut out: Vec<PdoField> = Vec::new();
    let mut p: usize = pos;
    proof {
        match goal {
            Ok((rest, _)) => {
                assert(field_views(out@) + rest =~= rest);
            },
            Err(_) => {},
        }
    }
    while !at_close(t, p, Delim::Brace)
        invariant
            pos <= p,
            p == pos || p <= t@.len(),
            all == toks(t@),
            goal == want_fields(all, pos as int),
            goal == (match want_fields(all, p as int) {
                Err(e) => Err(e),
                Ok((rest, q)) => Ok((field_views(out@) + rest, q)),
            }),
        decreases t@.len() - p,
    {
        let ghost before = field_views(out@);
        match take_ident(t, p) {
            Err(e) => {
                return Err(e);
            },
            Ok((name, q)) => {
                let f = PdoField::Named(name);
                out.push(f);
                let next: usize = if at_punct(t, q, ',') {
                    q + 1
                } else {
                    q
                };
                proof {
                    assert(field_views(out@) =~= before.push(f@));
                    match want_fields(all, next as int) {
                        Ok((rest, _)) => {
                            assert(before + (seq![f@] + rest) =~= field_views(out@) + rest);
                        },
                        Err(_) => {},
                    }
                }
                p = next;
            },
        }
    }
    assert(field_views(out@) + Seq::<FieldView>::empty() =~= field_views(out@));
    Ok((out, p + 1))
}

/// The direction of a PDO.
pub open spec fn want_direction(t: Seq<Tok>, pos: int) -> Result<(PdoDirection, int), Flaw> {
    if is_word(t, pos, "tpdo"@) {
        Ok((PdoDirection::Tpdo, pos + 1))
    } else if is_word(t, pos, "rpdo"@) {
        Ok((PdoDirection::Rpdo, pos + 1))
    } else {
        flaw(DslFault::ExpectedWord, pos)
    }
}

/// The parameters of a PDO that are not given.
pub open spec fn default_params() -> PdoParams {
    PdoParams {
        cob_id: None,
        transmission_type: 255,
        inhibit_time: 0,
        event_timer: 0,
        mapping: MappingKind::Immutable,
    }
}

/// Optional parameters in parentheses.
pub open spec fn want_opt_params(t: Seq<Tok>, pos: int) -> Result<(PdoParams, int), Flaw> {
    if is_open(t, pos, Delim::Paren) {
        want_params(t, pos + 1, default_params())
    } else {
        Ok((default_params(), pos))
    }
}

/// A PDO: `tpdo[number](parameters) { fields };`. Numbers beyond the predefined
/// ones need a COB-ID.
pub open spec fn want_pdo(t: Seq<Tok>, pos: int) -> Result<(PdoDefView, int), Flaw> {
    match want_direction(t, pos) {
        Err(e) => Err(e),
        Ok((direction, p)) => match want_index(t, p, 1, 512) {
            Err(e) => Err(e),
            Ok((number, p)) => match want_opt_params(t, p) {
                Err(e) => Err(e),
                Ok((m, p)) => match want_open(t, p, Delim::Brace) {
                    Err(e) => Err(e),
                    Ok(p) => match want_fields(t, p) {
                        Err(e) => Err(e),
                        Ok((mappings, p)) => match want_punct(t, p, ';') {
                            Err(e) => Err(e),
                            Ok(p) => if mappings.len() > 64 {
                                flaw(DslFault::TooManyMappings, pos)
                            } else if number > 4 && m.cob_id is None {
                                flaw(DslFault::CobIdRequired, pos)
                            } else {
                                Ok(
                                    (
                                        PdoDefView {
                                            direction,
                                            number: number as u16,
                                            cob_id: m.cob_id,
                                            transmission_type: m.transmission_type,
                                            inhibit_time: m.inhibit_time,
                                            event_timer: m.event_timer,
                                            mapping: m.mapping,
                                            mappings,
                                        },
                                        p,
                                    ),
                                )
                            },
                        },
                    },
                },
            },
        },
    }
}

fn parse_pdo_def(t: &Vec<Token>, pos: usize) -> (r: Result<(PdoDef, usize), DslError>)
    ensures
        match r {
            Ok((d, p)) => want_pdo(toks(t@), pos as int) == Ok::<(PdoDefView, int), Flaw>(
                (d@, p as int),
            ) && pos < p <= t@.len(),
            Err(e) => want_pdo(toks(t@), pos as int) == Err::<(PdoDefView, int), Flaw>(e@),
        },
{
    let direction = if at_word(t, pos, "tpdo") {
        PdoDirection::Tpdo
    } else if at_word(t, pos, "rpdo") {
        PdoDirection::Rpdo
    } else {
        return fail(DslFault::ExpectedWord, pos);
    };
    let (number, p) = match take_index(t, pos + 1, 1, 512) {
        Ok(x) => x,
        Err(e) => {
            return Err(e);
        },
    };
    let defaults = PdoParams {
        cob_id: None,
        transmission_type: 255,
        inhibit_time: 0,
        event_timer: 0,
        mapping: MappingKind::Immutable,
    };
    let (m, p) = if at_open(t, p, Delim::Paren) {
        match take_params(t, p + 1, defaults) {
            Ok(x) => x,
            Err(e) => {
                return Err(e);
            },
        }
    } else {
        (defaults, p)
    };
    let p: usize = match take_open(t, p, Delim::Brace) {
        Ok(p) => p,
        Err(e) => {
            return Err(e);
        },
    };
    let (mappings, p) = match take_fields(t, p) {
        Ok(x) => x,
        Err(e) => {
            return Err(e);
        },
    };
    let p: usize = match take_punct(t, p, ';') {
        Ok(p) => p,
        Err(e) => {
            return Err(e);
        },
    };
    if mappings.len() > 64 {
        return fail(DslFault::TooManyMappings, pos);
    }
    if number > 4 && m.cob_id.is_none() {
        return fail(DslFault::CobIdRequired, pos);
    }
    Ok(
        (
            PdoDef {
                direction,
                number: number as u16,
                cob_id: m.cob_id,
                transmission_type: m.transmission_type,
                inhibit_time: m.inhibit_time,
                event_timer: m.event_timer,
                mapping: m.mapping,
                mappings,
            },
            p,
        ),
    )
}

// ---- SDO servers ----

/// A named COB-ID: `key = cob_id`.
pub open spec fn want_named_cob(t: Seq<Tok>, pos: int, key: Seq<char>) -> Result<
    (CobIdSpec, int),
    Flaw,
> {
    match want_word(t, pos, key) {
        Err(e) => Err(e),
        Ok(p) => match want_punct(t, p, '=') {
            Err(e) => Err(e),
            Ok(p) => want_cob(t, p),
        },
    }
}

fn take_named_cob(t: &Vec<Token>, pos: usize, key: &str) -> (r: Result<
    (CobIdSpec, usize),
    DslError,
>)
    ensures
        match r {
            Ok((c, p)) => want_named_cob(toks(t@), pos as int, key@) == Ok::<
                (CobIdSpec, int),
                Flaw,
            >((c, p as int)) && pos < p <= t@.len(),
            Err(e) => want_named_cob(toks(t@), pos as int, key@) == Err::<(CobIdSpec, int), Flaw>(
                e@,
            ),
        },
{
    let p: usize = match take_word(t, pos, key) {
        Ok(p) => p,
        Err(e) => {
            return Err(e);
        },
    };
    let p: usize = match take_punct(t, p, '=') {
        Ok(p) => p,
        Err(e) => {
            return Err(e);
        },
    };
    take_cob(t, p)
}

/// An SDO server: `sdo_server[number](cob_rx = .., cob_tx = ..);`.
pub open spec fn want_server(t: Seq<Tok>, pos: int) -> Result<(SdoServerDef, int), Flaw> {
    match want_word(t, pos, "sdo_server"@) {
        Err(e) => Err(e),
        Ok(p) => match want_index(t, p, 2, 128) {
            Err(e) => Err(e),
            Ok((number, p)) => match want_open(t, p, Delim::Paren) {
                Err(e) => Err(e),
                Ok(p) => match want_named_cob(t, p, "cob_rx"@) {
                    Err(e) => Err(e),
                    Ok((cob_rx, p)) => match want_punct(t, p, ',') {
                        Err(e) => Err(e),
                        Ok(p) => match want_named_cob(t, p, "cob_tx"@) {
                            Err(e) => Err(e),
                            Ok((cob_tx, p)) => match want_close(
                                t,
                                if is_punct(t, p, ',') {
                                    p + 1
                                } else {
                                    p
                                },
                                Delim::Paren,
                            ) {
                                Err(e) => Err(e),
                                Ok(p) => match want_punct(t, p, ';') {
                                    Err(e) => Err(e),
                                    Ok(p) => Ok(
                                        (
                                            SdoServerDef { number: number as u16, cob_rx, cob_tx },
                                            p,
                                        ),
                                    ),
                                },
                            },
                        },
                    },
                },
            },
        },
    }
}

fn parse_server(t: &Vec<Token>, pos: usize) -> (r: Result<(SdoServerDef, usize), DslError>)
    ensures
        match r {
            Ok((d, p)) => want_server(toks(t@), pos as int) == Ok::<(SdoServerDef, int), Flaw>(
                (d, p as int),
            ) && pos < p <= t@.len(),
            Err(e) => want_server(toks(t@), pos as int) == Err::<(SdoServerDef, int), Flaw>(e@),
        },
{
    let p: usize = match take_word(t, pos, "sdo_server") {
        Ok(p) => p,
        Err(e) => {
            return Err(e);
        },
    };
    let (number, p) = match take_index(t, p, 2, 128) {
        Ok(x) => x,
        Err(e) => {
            return Err(e);
        },
    };
    let p: usize = match take_open(t, p, Delim::Paren) {
        Ok(p) => p,
        Err(e) => {
            return Err(e);
        },
    };
    let (cob_rx, p) = match take_named_cob(t, p, "cob_rx") {
        Ok(x) => x,
        Err(e) => {
            return Err(e);
        },
    };
    let p: usize = match take_punct(t, p, ',') {
        Ok(p) => p,
        Err(e) => {
            return Err(e);
        },
    };
    let (cob_tx, p) = match take_named_cob(t, p, "cob_tx") {
        Ok(x) => x,
        Err(e) => {
            return Err(e);
        },
    };
    let p: usize = if at_punct(t, p, ',') {
        p + 1
    } else {
        p
    };
    let p: usize = match take_close(t, p, Delim::Paren) {
        Ok(p) => p,
        Err(e) => {
            return Err(e);
        },
    };
    match take_punct(t, p, ';') {
        Ok(p) => Ok((SdoServerDef { number: number as u16, cob_rx, cob_tx }, p)),
        Err(e) => Err(e),
    }
}

// ---- Definitions ----

/// What stands before a definition.
#[verifier::ext_equal]
pub struct AttrsView {
    pub export_eds_path: Option<Seq<char>>,
    pub use_alloc: bool,
    pub validate_write_fn: Option<Seq<char>>,
}

struct Attrs {
    export_eds_path: Option<String>,
    use_alloc: bool,
    validate_write_fn: Option<String>,
}

impl View for Attrs {
    type V = AttrsView;

    closed spec fn view(&self) -> AttrsView {
        AttrsView {
            export_eds_path: text_view(self.export_eds_path),
            use_alloc: self.use_alloc,
            validate_write_fn: text_view(self.validate_write_fn),
        }
    }
}

/// The contents of an attribute: `export_eds(path = "..")`, `use_alloc` or
/// `validate_write(function)`.
pub open spec fn want_attr(t: Seq<Tok>, pos: int, a: AttrsView) -> Result<(AttrsView, int), Flaw> {
    match want_ident(t, pos) {
        Err(e) => Err(e),
        Ok((name, p)) => if name == "export_eds"@ {
            match want_open(t, p, Delim::Paren) {
                Err(e) => Err(e),
                Ok(p) => match want_word(t, p, "path"@) {
                    Err(e) => Err(e),
                    Ok(p) => match want_punct(t, p, '=') {
                        Err(e) => Err(e),
                        Ok(p) => match want_string(t, p) {
                            Err(e) => Err(e),
                            Ok((path, p)) => match want_close(t, p, Delim::Paren) {
                                Err(e) => Err(e),
                                Ok(p) => Ok((AttrsView { export_eds_path: Some(path), ..a }, p)),
                            },
                        },
                    },
                },
            }
        } else if name == "use_alloc"@ {
            Ok((AttrsView { use_alloc: true, ..a }, p))
        } else if name == "validate_write"@ {
            match want_open(t, p, Delim::Paren) {
                Err(e) => Err(e),
                Ok(p) => match want_ident(t, p) {
                    Err(e) => Err(e),
                    Ok((f, p)) => match want_close(t, p, Delim::Paren) {
                        Err(e) => Err(e),
                        Ok(p) => Ok((AttrsView { validate_write_fn: Some(f), ..a }, p)),
                    },
                },
            }
        } else {
            flaw(DslFault::UnknownAttribute, pos)
        },
    }
}

fn parse_attr(t: &Vec<Token>, pos: usize, a: Attrs) -> (r: Result<(Attrs, usize), DslError>)
    ensures
        match r {
            Ok((b, p)) => want_attr(toks(t@), pos as int, a@) == Ok::<(AttrsView, int), Flaw>(
                (b@, p as int),
            ) && pos < p <= t@.len(),
            Err(e) => want_attr(toks(t@), pos as int, a@) == Err::<(AttrsView, int), Flaw>(e@),
        },
{
    let (name, p) = match take_ident(t, pos) {
        Ok(x) => x,
        Err(e) => {
            return Err(e);
        },
    };
    let c = chars_of(name.as_str());
    let s = c.as_slice();
    if is_text(s, "export_eds") {
        let p: usize = match take_open(t, p, Delim::Paren) {
            Ok(p) => p,
            Err(e) => {
                return Err(e);
            },
        };
        let p: usize = match take_word(t, p, "path") {
            Ok(p) => p,
            Err(e) => {
                return Err(e);
            },
        };
        let p: usize = match take_punct(t, p, '=') {
            Ok(p) => p,
            Err(e) => {
                return Err(e);
            },
        };
        let (path, p) = match take_string(t, p) {
            Ok(x) => x,
            Err(e) => {
                return Err(e);
            },
        };
        match take_close(t, p, Delim::Paren) {
            Ok(p) => Ok((Attrs { export_eds_path: Some(path), ..a }, p)),
            Err(e) => Err(e),
        }
    } else if is_text(s, "use_alloc") {
        Ok((Attrs { use_alloc: true, ..a }, p))
    } else if is_text(s, "validate_write") {
        let p: usize = match take_open(t, p, Delim::Paren) {
            Ok(p) => p,
            Err(e) => {
                return Err(e);
            },
        };
        let (f, p) = match take_ident(t, p) {
            Ok(x) => x,
            Err(e) => {
                return Err(e);
            },
        };
        match take_close(t, p, Delim::Paren) {
            Ok(p) => Ok((Attrs { validate_write_fn: Some(f), ..a }, p)),
            Err(e) => Err(e),
        }
    } else {
        fail(DslFault::UnknownAttribute, pos)
    }
}

/// Attributes: `#[..]`, any number of them.
pub open spec fn want_attrs(t: Seq<Tok>, pos: int, a: AttrsView) -> Result<(AttrsView, int), Flaw>
    decreases t.len() - pos,
{
    if !is_punct(t, pos, '#') {
        Ok((a, pos))
    } else {
        match want_open(t, pos + 1, Delim::Bracket) {
            Err(e) => Err(e),
            Ok(p) => match want_attr(t, p, a) {
                Err(e) => Err(e),
                Ok((a, p)) => match want_close(t, p, Delim::Bracket) {
                    Err(e) => Err(e),
                    Ok(p) => if pos < p <= t.len() {
                        want_attrs(t, p, a)
                    } else {
                        flaw(DslFault::Unexpected, pos)
                    },
                },
            },
        }
    }
}

fn parse_attrs(t: &Vec<Token>) -> (r: Result<(Attrs, usize), DslError>)
    ensures
        ({
            let none = AttrsView {
                export_eds_path: None,
                use_alloc: false,
                validate_write_fn: None,
            };
            match r {
                Ok((a, p)) => want_attrs(toks(t@), 0, none) == Ok::<(AttrsView, int), Flaw>(
                    (a@, p as int),
                ) && p <= t@.len(),
                Err(e) => want_attrs(toks(t@), 0, none) == Err::<(AttrsView, int), Flaw>(e@),
            }
        }),
{
    let ghost all = toks(t@);
    let mut a = Attrs { export_eds_path: None, use_alloc: false, validate_write_fn: None };
    let ghost goal = want_attrs(all, 0, a@);
    let mut p: usize = 0;
    while at_punct(t, p, '#')
        invariant
            p <= t@.len(),
            all == toks(t@),
            goal == want_attrs(
                all,
                0,
                AttrsView { export_eds_path: None, use_alloc: false, validate_write_fn: None },
            ),
            goal == want_attrs(all, p as int, a@),
        decreases t@.len() - p,
    {
        let q: usize = match take_open(t, p + 1, Delim::Bracket) {
            Ok(q) => q,
            Err(e) => {
                return Err(e);
            },
        };
        let (b, q) = match parse_attr(t, q, a) {
            Ok(x) => x,
            Err(e) => {
                return Err(e);
            },
        };
        a = b;
        match take_close(t, q, Delim::Bracket) {
            Ok(q) => {
                p = q;
            },
            Err(e) => {
                return Err(e);
            },
        }
    }
    Ok((a, p))
}

/// The two colons of a path.
pub open spec fn is_colons(t: Seq<Tok>, pos: int) -> bool {
    0 <= pos < t.len() && t[pos] == Tok::Punct(':', true) && is_punct(t, pos + 1, ':')
}

/// One of the words that stand for a module in a path.
pub open spec fn is_module_word(t: Seq<Tok>, pos: int) -> bool {
    is_word(t, pos, "crate"@) || is_word(t, pos, "self"@) || is_word(t, pos, "super"@)
}

/// The segments of a path, with `::` between them.
pub open spec fn want_segments(t: Seq<Tok>, pos: int) -> Result<int, Flaw>
    decreases t.len() - pos,
{
    if name_at(t, pos) is Some || is_module_word(t, pos) || is_word(t, pos, "Self"@) {
        if is_colons(t, pos + 1) {
            want_segments(t, pos + 3)
        } else {
            Ok(pos + 1)
        }
    } else {
        flaw(DslFault::ExpectedIdent, pos)
    }
}

/// The visibility: none, `pub`, or `pub` within a module.
pub open spec fn want_visibility(t: Seq<Tok>, pos: int) -> Result<(VisibilityView, int), Flaw> {
    if !is_word(t, pos, "pub"@) {
        Ok((VisibilityView::Inherited, pos))
    } else if !is_open(t, pos + 1, Delim::Paren) {
        Ok((VisibilityView::Public, pos + 1))
    } else if is_module_word(t, pos + 2) && is_close(t, pos + 3, Delim::Paren) {
        Ok((VisibilityView::Restricted(text_of(t, pos + 2, pos + 3)), pos + 4))
    } else if is_word(t, pos + 2, "in"@) {
        let start = if is_colons(t, pos + 3) {
            pos + 5
        } else {
            pos + 3
        };
        match want_segments(t, start) {
            Err(e) => Err(e),
            Ok(end) => match want_close(t, end, Delim::Paren) {
                Err(e) => Err(e),
                Ok(p) => Ok((VisibilityView::Restricted(text_of(t, pos + 2, end)), p)),
            },
        }
    } else {
        Ok((VisibilityView::Public, pos + 1))
    }
}

/// The visibility, the word `struct`, and a name.
pub open spec fn want_name(t: Seq<Tok>, pos: int) -> Result<
    ((VisibilityView, Seq<char>), int),
    Flaw,
> {
    match want_visibility(t, pos) {
        Err(e) => Err(e),
        Ok((vis, p)) => match want_word(t, p, "struct"@) {
            Err(e) => Err(e),
            Ok(p) => match want_ident(t, p) {
                Err(e) => Err(e),
                Ok((name, p)) => Ok(((vis, name), p)),
            },
        },
    }
}

fn at_colons(t: &Vec<Token>, pos: usize) -> (r: bool)
    ensures
        r == is_colons(toks(t@), pos as int),
        r ==> pos + 2 <= t@.len() && pos + 2 <= usize::MAX,
{
    if pos >= t.len() {
        return false;
    }
    assert(toks(t@)[pos as int] == t@[pos as int]@);
    match &t[pos] {
        Token::Punct(c, joint) => *c == ':' && *joint && at_punct(t, pos + 1, ':'),
        _ => false,
    }
}

fn at_module_word(t: &Vec<Token>, pos: usize) -> (r: bool)
    ensures
        r == is_module_word(toks(t@), pos as int),
        r ==> pos < t@.len() && pos < usize::MAX,
{
    at_word(t, pos, "crate") || at_word(t, pos, "self") || at_word(t, pos, "super")
}

fn take_segments(t: &Vec<Token>, pos: usize) -> (r: Result<usize, DslError>)
    requires
        pos <= t@.len(),
    ensures
        step_view(r) == want_segments(toks(t@), pos as int),
        r matches Ok(p) ==> pos < p <= t@.len(),
{
    let ghost all = toks(t@);
    let mut p: usize = pos;
    loop
        invariant
            pos <= p <= t@.len(),
            all == toks(t@),
            want_segments(all, pos as int) == want_segments(all, p as int),
        decreases t@.len() - p,
    {
        if get_name(t, p).is_some() || at_module_word(t, p) || at_word(t, p, "Self") {
            if at_colons(t, p + 1) {
                p += 3;
            } else {
                return Ok(p + 1);
            }
        } else {
            return fail(DslFault::ExpectedIdent, p);
        }
    }
}

fn parse_visibility(t: &Vec<Token>, pos: usize) -> (r: Result<(Visibility, usize), DslError>)
    requires
        pos <= t@.len(),
    ensures
        match r {
            Ok((vis, p)) => want_visibility(toks(t@), pos as int) == Ok::<
                (VisibilityView, int),
                Flaw,
            >((vis@, p as int)) && pos <= p <= t@.len(),
            Err(e) => want_visibility(toks(t@), pos as int) == Err::<(VisibilityView, int), Flaw>(
                e@,
            ),
        },
{
    if !at_word(t, pos, "pub") {
        return Ok((Visibility::Inherited, pos));
    }
    if !at_open(t, pos + 1, Delim::Paren) {
        return Ok((Visibility::Public, pos + 1));
    }
    if at_module_word(t, pos + 2) && at_close(t, pos + 3, Delim::Paren) {
        let mut text: Vec<char> = Vec::new();
        write_tokens(t, pos + 2, pos + 2, pos + 3, &mut text);
        return Ok((Visibility::Restricted(string_of(text.as_slice())), pos + 4));
    }
    if !at_word(t, pos + 2, "in") {
        return Ok((Visibility::Public, pos + 1));
    }
    let start: usize = if at_colons(t, pos + 3) {
        pos + 5
    } else {
        pos + 3
    };
    match take_segments(t, start) {
        Ok(end) => match take_close(t, end, Delim::Paren) {
            Ok(p) => {
                let mut text: Vec<char> = Vec::new();
                write_tokens(t, pos + 2, pos + 2, end, &mut text);
                Ok((Visibility::Restricted(string_of(text.as_slice())), p))
            },
            Err(e) => Err(e),
        },
        Err(e) => Err(e),
    }
}

fn parse_name(t: &Vec<Token>, pos: usize) -> (r: Result<((Visibility, String), usize), DslError>)
    requires
        pos <= t@.len(),
    ensures
        match r {
            Ok(((vis, name), p)) => want_name(toks(t@), pos as int) == Ok::<
                ((VisibilityView, Seq<char>), int),
                Flaw,
            >(((vis@, name@), p as int)) && pos < p <= t@.len(),
            Err(e) => want_name(toks(t@), pos as int) == Err::<
                ((VisibilityView, Seq<char>), int),
                Flaw,
            >(e@),
        },
{
    let (vis, p) = match parse_visibility(t, pos) {
        Ok(x) => x,
        Err(e) => {
            return Err(e);
        },
    };
    let p: usize = match take_word(t, p, "struct") {
        Ok(p) => p,
        Err(e) => {
            return Err(e);
        },
    };
    match take_ident(t, p) {
        Ok((name, p)) => Ok(((vis, name), p)),
        Err(e) => Err(e),
    }
}

/// The items of a definition.
#[verifier::ext_equal]
pub struct ItemsView {
    pub entries: Seq<OdEntryView>,
    pub pdos: Seq<PdoDefView>,
    pub servers: Seq<SdoServerDef>,
}

/// One more item: what begins with `sdo_server` is an SDO server, with another
/// word a PDO, and anything else an entry.
#[verifier::opaque]
pub open spec fn want_item(t: Seq<Tok>, pos: int, items: ItemsView) -> Result<
    (ItemsView, int),
    Flaw,
> {
    if is_word(t, pos, "sdo_server"@) {
        match want_server(t, pos) {
            Err(e) => Err(e),
            Ok((s, p)) => Ok((ItemsView { servers: items.servers.push(s), ..items }, p)),
        }
    } else if name_at(t, pos) is Some {
        match want_pdo(t, pos) {
            Err(e) => Err(e),
            Ok((d, p)) => Ok((ItemsView { pdos: items.pdos.push(d), ..items }, p)),
        }
    } else {
        match want_entry(t, pos) {
            Err(e) => Err(e),
            Ok((x, p)) => Ok((ItemsView { entries: items.entries.push(x), ..items }, p)),
        }
    }
}

/// Items up to the end of the definition.
pub open spec fn want_items(t: Seq<Tok>, pos: int, items: ItemsView) -> Result<
    (ItemsView, int),
    Flaw,
>
    decreases t.len() - pos,
{
    if is_close(t, pos, Delim::Brace) {
        Ok((items, pos + 1))
    } else {
        match want_item(t, pos, items) {
            Err(e) => Err(e),
            Ok((items, p)) => if pos < p <= t.len() {
                want_items(t, p, items)
            } else {
                flaw(DslFault::Unexpected, pos)
            },
        }
    }
}

struct Items {
    entries: Vec<OdEntry>,
    pdos: Vec<PdoDef>,
    servers: Vec<SdoServerDef>,
}

impl View for Items {
    type V = ItemsView;

    closed spec fn view(&self) -> ItemsView {
        ItemsView {
            entries: entry_views(self.entries@),
            pdos: pdo_views(self.pdos@),
            servers: self.servers@,
        }
    }
}

fn parse_item(t: &Vec<Token>, pos: usize, items: &mut Items) -> (r: Result<usize, DslError>)
    ensures
        match r {
            Ok(p) => want_item(toks(t@), pos as int, old(items)@) == Ok::<(ItemsView, int), Flaw>(
                (final(items)@, p as int),
            ) && pos < p <= t@.len(),
            Err(e) => want_item(toks(t@), pos as int, old(items)@) == Err::<
                (ItemsView, int),
                Flaw,
            >(e@),
        },
{
    proof {
        reveal(want_item);
    }
    let ghost before = items@;
    if at_word(t, pos, "sdo_server") {
        match parse_server(t, pos) {
            Err(e) => Err(e),
            Ok((s, p)) => {
                items.servers.push(s);
                assert(items@ =~= (ItemsView { servers: before.servers.push(s), ..before }));
                Ok(p)
            },
        }
    } else if get_name(t, pos).is_some() {
        match parse_pdo_def(t, pos) {
            Err(e) => Err(e),
            Ok((d, p)) => {
                let ghost pdos = items.pdos@;
                items.pdos.push(d);
                assert(pdo_views(items.pdos@) =~= pdo_views(pdos).push(d@));
                Ok(p)
            },
        }
    } else {
        match parse_entry(t, pos) {
            Err(e) => Err(e),
            Ok((x, p)) => {
                let ghost entries = items.entries@;
                items.entries.push(x);
                assert(entry_views(items.entries@) =~= entry_views(entries).push(x@));
                Ok(p)
            },
        }
    }
}

fn parse_items(t: &Vec<Token>, pos: usize) -> (r: Result<(Items, usize), DslError>)
    ensures
        ({
            let none = ItemsView {
                entries: Seq::empty(),
                pdos: Seq::empty(),
                servers: Seq::empty(),
            };
            match r {
                Ok((i, p)) => want_items(toks(t@), pos as int, none) == Ok::<
                    (ItemsView, int),
                    Flaw,
                >((i@, p as int)) && pos < p <= t@.len(),
                Err(e) => want_items(toks(t@), pos as int, none) == Err::<(ItemsView, int), Flaw>(
                    e@,
                ),
            }
        }),
{
    let ghost all = toks(t@);
    let ghost none = ItemsView {
        entries: Seq::empty(),
        pdos: Seq::empty(),
        servers: Seq::empty(),
    };
    let mut items = Items { entries: Vec::new(), pdos: Vec::new(), servers: Vec::new() };
    assert(items@ =~= none);
    let mut p: usize = pos;
    while !at_close(t, p, Delim::Brace)
        invariant
            pos <= p,
            p == pos || p <= t@.len(),
            all == toks(t@),
            none == (ItemsView {
                entries: Seq::empty(),
                pdos: Seq::empty(),
                servers: Seq::empty(),
            }),
            want_items(all, pos as int, none) == want_items(all, p as int, items@),
        decreases t@.len() - p,
    {
        match parse_item(t, p, &mut items) {
            Err(e) => {
                return Err(e);
            },
            Ok(q) => {
                p = q;
            },
        }
    }
    Ok((items, p + 1))
}

/// The definition that tokens stand for.
pub open spec fn definition_of(t: Seq<Tok>) -> Result<DefinitionView, Flaw> {
    match want_attrs(
        t,
        0,
        AttrsView { export_eds_path: None, use_alloc: false, validate_write_fn: None },
    ) {
        Err(e) => Err(e),
        Ok((attrs, p)) => match want_name(t, p) {
            Err(e) => Err(e),
            Ok(((vis, name), p)) => match want_open(t, p, Delim::Brace) {
                Err(e) => Err(e),
                Ok(p) => match want_items(
                    t,
                    p,
                    ItemsView { entries: Seq::empty(), pdos: Seq::empty(), servers: Seq::empty() },
                ) {
                    Err(e) => Err(e),
                    Ok((items, p)) => if p != t.len() {
                        flaw(DslFault::Unexpected, p)
                    } else {
                        Ok(
                            DefinitionView {
                                vis,
                                name,
                                entries: items.entries,
                                pdos: items.pdos,
                                sdo_servers: items.servers,
                                export_eds_path: attrs.export_eds_path,
                                use_alloc: attrs.use_alloc,
                                validate_write_fn: attrs.validate_write_fn,
                            },
                        )
                    },
                },
            },
        },
    }
}

impl OdDefinition {
    /// Parse a definition from its tokens.
    pub fn parse(t: &Vec<Token>) -> (r: Result<OdDefinition, DslError>)
        ensures
            match r {
                Ok(od) => definition_of(toks(t@)) == Ok::<DefinitionView, Flaw>(od@),
                Err(e) => definition_of(toks(t@)) == Err::<DefinitionView, Flaw>(e@),
            },
    {
        let (attrs, p) = match parse_attrs(t) {
            Ok(x) => x,
            Err(e) => {
                return Err(e);
            },
        };
        let ((vis, name), p) = match parse_name(t, p) {
            Ok(x) => x,
            Err(e) => {
                return Err(e);
            },
        };
        let p: usize = match take_open(t, p, Delim::Brace) {
            Ok(p) => p,
            Err(e) => {
                return Err(e);
            },
        };
        let (items, p) = match parse_items(t, p) {
            Ok(x) => x,
            Err(e) => {
                return Err(e);
            },
        };
        if p != t.len() {
            return fail(DslFault::Unexpected, p);
        }
        Ok(
            OdDefinition {
                vis,
                name,
                entries: items.entries,
                pdos: items.pdos,
                sdo_servers: items.servers,
                export_eds_path: attrs.export_eds_path,
                use_alloc: attrs.use_alloc,
                validate_write_fn: attrs.validate_write_fn,
            },
        )
    }

    /// Parse a definition from its text.
    pub fn parse_text(text: &str) -> (r: Result<OdDefinition, DslError>)
        ensures
            match tokens_of(text@) {
                Some(t) => match r {
                    Ok(od) => definition_of(t) == Ok::<DefinitionView, Flaw>(od@),
                    Err(e) => definition_of(t) == Err::<DefinitionView, Flaw>(e@),
                },
                None => r == Err::<OdDefinition, DslError>(
                    DslError { fault: DslFault::NotTokens, at: 0 },
                ),
            },
    {
        match tokenize(text) {
            Some(t) => OdDefinition::parse(&t),
            None => Err(DslError { fault: DslFault::NotTokens, at: 0 }),
        }
    }
}

// ---- Definitions by EDS files ----

/// A capacity override: `[index] capacity = number`.
pub open spec fn want_override(t: Seq<Tok>, pos: int) -> Result<((u16, usize), int), Flaw> {
    match want_index(t, pos, 0, 0xFFFF) {
        Err(e) => Err(e),
        Ok((index, p)) => match want_word(t, p, "capacity"@) {
            Err(e) => Err(e),
            Ok(p) => match want_punct(t, p, '=') {
                Err(e) => Err(e),
                Ok(p) => match want_int(t, p, 0, usize::MAX as int) {
                    Err(e) => Err(e),
                    Ok((n, p)) => Ok(((index as u16, n as usize), p)),
                },
            },
        },
    }
}

fn take_override(t: &Vec<Token>, pos: usize) -> (r: Result<((u16, usize), usize), DslError>)
    ensures
        match r {
            Ok((o, p)) => want_override(toks(t@), pos as int) == Ok::<((u16, usize), int), Flaw>(
                (o, p as int),
            ) && pos < p <= t@.len(),
            Err(e) => want_override(toks(t@), pos as int) == Err::<((u16, usize), int), Flaw>(e@),
        },
{
    let (index, p) = match take_index(t, pos, 0, 0xFFFF) {
        Ok(x) => x,
        Err(e) => {
            return Err(e);
        },
    };
    let p: usize = match take_word(t, p, "capacity") {
        Ok(p) => p,
        Err(e) => {
            return Err(e);
        },
    };
    let p: usize = match take_punct(t, p, '=') {
        Ok(p) => p,
        Err(e) => {
            return Err(e);
        },
    };
    match take_int(t, p, 0, usize::MAX as u64) {
        Ok((n, p)) => Ok(((index as u16, n as usize), p)),
        Err(e) => Err(e),
    }
}

/// Capacity overrides, each with an optional comma behind it, up to the end of
/// the group.
pub open spec fn want_overrides(t: Seq<Tok>, pos: int) -> Result<(Seq<(u16, usize)>, int), Flaw>
    decreases t.len() - pos,
{
    if is_close(t, pos, Delim::Brace) {
        Ok((Seq::empty(), pos + 1))
    } else {
        match want_override(t, pos) {
            Err(e) => Err(e),
            Ok((o, p)) => {
                let next = if is_punct(t, p, ',') {
                    p + 1
                } else {
                    p
                };
                if pos < next <= t.len() {
                    match want_overrides(t, next) {
                        Err(e) => Err(e),
                        Ok((rest, p)) => Ok((seq![o] + rest, p)),
                    }
                } else {
                    flaw(DslFault::Unexpected, pos)
                }
            },
        }
    }
}

fn take_overrides(t: &Vec<Token>, pos: usize) -> (r: Result<(Vec<(u16, usize)>, usize), DslError>)
    ensures
        match r {
            Ok((o, p)) => want_overrides(toks(t@), pos as int) == Ok::<
                (Seq<(u16, usize)>, int),
                Flaw,
            >((o@, p as int)) && pos < p <= t@.len(),
            Err(e) => want_overrides(toks(t@), pos as int) == Err::<(Seq<(u16, usize)>, int), Flaw>(
                e@,
            ),
        },
{
    let ghost all = toks(t@);
    let ghost goal = want_overrides(all, pos as int);
    let mut out: Vec<(u16, usize)> = Vec::new();
    let mut p: usize = pos;
    proof {
        match goal {
            Ok((rest, _)) => {
                assert(out@ + rest =~= rest);
            },
            Err(_) => {},
        }
    }
    while !at_close(t, p, Delim::Brace)
        invariant
            pos <= p,
            p == pos || p <= t@.len(),
            all == toks(t@),
            goal == want_overrides(all, pos as int),
            goal == (match want_overrides(all, p as int) {
                Err(e) => Err(e),
                Ok((rest, q)) => Ok((out@ + rest, q)),
            }),
        decreases t@.len() - p,
    {
        let ghost before = out@;
        match take_override(t, p) {
            Err(e) => {
                return Err(e);
            },
            Ok((o, q)) => {
                out.push(o);
                let next: usize = if at_punct(t, q, ',') {
                    q + 1
                } else {
                    q
                };
                proof {
                    match want_overrides(all, next as int) {
                        Ok((rest, _)) => {
                            assert(before + (seq![o] + rest) =~= out@ + rest);
                        },
                        Err(_) => {},
                    }
                }
                p = next;
            },
        }
    }
    assert(out@ + Seq::<(u16, usize)>::empty() =~= out@);
    Ok((out, p + 1))
}

/// Optional overrides behind the word `with`.
pub open spec fn want_with(t: Seq<Tok>, pos: int) -> Result<(Seq<(u16, usize)>, int), Flaw> {
    if name_at(t, pos) is Some {
        match want_word(t, pos, "with"@) {
            Err(e) => Err(e),
            Ok(p) => match want_open(t, p, Delim::Brace) {
                Err(e) => Err(e),
                Ok(p) => want_overrides(t, p),
            },
        }
    } else {
        Ok((Seq::empty(), pos))
    }
}

/// The definition by an EDS file that tokens stand for:
/// `struct Name = "file" with { .. };`.
pub open spec fn eds_definition_of(t: Seq<Tok>) -> Result<EdsDefinitionView, Flaw> {
    match want_name(t, 0) {
        Err(e) => Err(e),
        Ok(((vis, name), p)) => match want_punct(t, p, '=') {
            Err(e) => Err(e),
            Ok(p) => match want_string(t, p) {
                Err(e) => Err(e),
                Ok((file_path, p)) => match want_with(t, p) {
                    Err(e) => Err(e),
                    Ok((capacity_overrides, p)) => {
                        let end = if is_punct(t, p, ';') {
                            p + 1
                        } else {
                            p
                        };
                        if end != t.len() {
                            flaw(DslFault::Unexpected, end)
                        } else {
                            Ok(EdsDefinitionView { vis, name, file_path, capacity_overrides })
                        }
                    },
                },
            },
        },
    }
}

impl EdsDefinition {
    /// Parse a definition from its tokens.
    pub fn parse(t: &Vec<Token>) -> (r: Result<EdsDefinition, DslError>)
        ensures
            match r {
                Ok(d) => eds_definition_of(toks(t@)) == Ok::<EdsDefinitionView, Flaw>(d@),
                Err(e) => eds_definition_of(toks(t@)) == Err::<EdsDefinitionView, Flaw>(e@),
            },
    {
        let ((vis, name), p) = match parse_name(t, 0) {
            Ok(x) => x,
            Err(e) => {
                return Err(e);
            },
        };
        let p: usize = match take_punct(t, p, '=') {
            Ok(p) => p,
            Err(e) => {
                return Err(e);
            },
        };
        let (file_path, p) = match take_string(t, p) {
            Ok(x) => x,
            Err(e) => {
                return Err(e);
            },
        };
        let mut capacity_overrides: Vec<(u16, usize)> = Vec::new();
        let mut p: usize = p;
        if get_name(t, p).is_some() {
            let q: usize = match take_word(t, p, "with") {
                Ok(q) => q,
                Err(e) => {
                    return Err(e);
                },
            };
            let q: usize = match take_open(t, q, Delim::Brace) {
                Ok(q) => q,
                Err(e) => {
                    return Err(e);
                },
            };
            match take_overrides(t, q) {
                Ok((o, q)) => {
                    capacity_overrides = o;
                    p = q;
                },
                Err(e) => {
                    return Err(e);
                },
            }
        }
        if at_punct(t, p, ';') {
            p = p + 1;
        }
        if p != t.len() {
            return fail(DslFault::Unexpected, p);
        }
        Ok(EdsDefinition { vis, name, file_path, capacity_overrides })
    }

    /// Parse a definition from its text.
    pub fn parse_text(text: &str) -> (r: Result<EdsDefinition, DslError>)
        ensures
            match tokens_of(text@) {
                Some(t) => match r {
                    Ok(d) => eds_definition_of(t) == Ok::<EdsDefinitionView, Flaw>(d@),
                    Err(e) => eds_definition_of(t) == Err::<EdsDefinitionView, Flaw>(e@),
                },
                None => r == Err::<EdsDefinition, DslError>(
                    DslError { fault: DslFault::NotTokens, at: 0 },
                ),
            },
    {
        match tokenize(text) {
            Some(t) => EdsDefinition::parse(&t),
            None => Err(DslError { fault: DslFault::NotTokens, at: 0 }),
        }
    }
}

} // verus!
