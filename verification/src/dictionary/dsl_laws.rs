//! What the text of a definition says, token by token.

use crate::dictionary::codegen::string_literal;
use crate::dictionary::definition::{
    AccessKind, ArrayView, CobIdSpec, FieldView, KindView, MappingKind, OdEntryView, PdoDefView,
    PdoDirection, SubView, VisibilityView,
};
use crate::dictionary::dsl::{
    default_params, eds_definition_of, expr_end, is_close, is_keyword, is_punct, is_word, text_of, want_array,
    want_attrs, want_capacity, want_cob, want_default, want_entry, want_fields, want_flags,
    want_index, want_item, want_items, want_name, want_named_cob, want_opt_params, want_override,
    want_param, want_params, want_pdo, want_server, want_sub, want_subs, want_time,
    want_transmission, want_var, AttrsView, Flaw, ItemsView, PdoParams,
};
use crate::dictionary::eds_parser::{printed, EdsDefinitionView};
use crate::dictionary::token::{digits_end, int_lit, pow10, time_lit, time_of, Delim, Tok};
use crate::dictionary::value_laws::lemma_nothing_stripped;
use crate::text::{digit_value, digits_value, is_space};
use vstd::prelude::*;

verus! {

/// Some tokens stand at a position.
#[verifier::opaque]
pub open spec fn stands(t: Seq<Tok>, pos: int, s: Seq<Tok>) -> bool {
    0 <= pos && pos + s.len() <= t.len() && t.subrange(pos, pos + s.len() as int) == s
}

proof fn lemma_token_at(t: Seq<Tok>, pos: int, s: Seq<Tok>, i: int)
    requires
        stands(t, pos, s),
        0 <= i < s.len(),
    ensures
        0 <= pos + i < t.len(),
        t[pos + i] == s[i],
{
    reveal(stands);
    assert(t.subrange(pos, pos + s.len() as int)[i] == s[i]);
}

proof fn lemma_stands_in(t: Seq<Tok>, pos: int, a: Seq<Tok>, b: Seq<Tok>)
    requires
        stands(t, pos, a + b),
    ensures
        stands(t, pos, a),
        stands(t, pos + a.len(), b),
{
    reveal(stands);
    let all = t.subrange(pos, pos + (a + b).len() as int);
    assert(all == a + b);
    assert(t.subrange(pos, pos + a.len() as int) =~= a) by {
        assert forall|i: int| 0 <= i < a.len() implies t[pos + i] == a[i] by {
            assert(all[i] == (a + b)[i]);
        }
    }
    assert(t.subrange(pos + a.len(), pos + a.len() + b.len() as int) =~= b) by {
        assert forall|i: int| 0 <= i < b.len() implies t[pos + a.len() + i] == b[i] by {
            assert(all[a.len() + i] == (a + b)[a.len() + i]);
        }
    }
}

/// A literal stands for a number.
pub open spec fn means(s: Seq<char>, v: int) -> bool {
    int_lit(s) matches Some((n, _)) && n == v
}

/// A word that can be a name.
pub open spec fn is_name(s: Seq<char>) -> bool {
    !is_keyword(s)
}

// ---- Variables ----

/// The word for an access.
pub open spec fn access_tok(access: AccessKind) -> Tok {
    match access {
        AccessKind::Ro => Tok::Ident("ro"@),
        AccessKind::Rw => Tok::Ident("rw"@),
        AccessKind::Wo => Tok::Ident("wo"@),
        AccessKind::Const => Tok::Ident("const"@),
    }
}

proof fn lemma_access_words()
    ensures
        "ro"@ != "rw"@,
        "ro"@ != "wo"@,
        "rw"@ != "wo"@,
        "const"@ != "ro"@,
        "const"@ != "rw"@,
        "const"@ != "wo"@,
{
    reveal_strlit("ro");
    reveal_strlit("rw");
    reveal_strlit("wo");
    reveal_strlit("const");
    assert("ro"@[1] != "rw"@[1]);
    assert("ro"@[0] != "wo"@[0]);
    assert("rw"@[0] != "wo"@[0]);
    assert("const"@.len() == 5);
}

/// The access to a variable, and the word `pdo` if it can be mapped.
pub open spec fn flag_toks(access: AccessKind, pdo: bool) -> Seq<Tok> {
    if pdo {
        seq![access_tok(access), Tok::Punct(',', false), Tok::Ident("pdo"@)]
    } else {
        seq![access_tok(access)]
    }
}

/// The access to a variable is as it is written, and the variable can be mapped
/// if `pdo` is written behind it.
pub proof fn lemma_flags_are_read(t: Seq<Tok>, pos: int, access: AccessKind, pdo: bool)
    requires
        stands(t, pos, flag_toks(access, pdo)),
        !is_punct(t, pos + flag_toks(access, pdo).len(), ','),
    ensures
        want_flags(t, pos) == Ok::<((AccessKind, bool), int), Flaw>(
            ((access, pdo), pos + flag_toks(access, pdo).len()),
        ),
{
    lemma_access_words();
    let s = flag_toks(access, pdo);
    lemma_token_at(t, pos, s, 0);
    if pdo {
        lemma_token_at(t, pos, s, 1);
        lemma_token_at(t, pos, s, 2);
    }
}

/// The capacity of a variable, in angle brackets.
pub open spec fn capacity_toks(capacity: Option<Seq<char>>) -> Seq<Tok> {
    match capacity {
        Some(c) => seq![Tok::Punct('<', false), Tok::Literal(c), Tok::Punct('>', false)],
        None => Seq::empty(),
    }
}

/// The default of a variable, if it is a literal, and the comma behind it.
pub open spec fn default_toks(value: Option<Seq<char>>) -> Seq<Tok> {
    match value {
        Some(v) => seq![Tok::Punct('=', false), Tok::Literal(v), Tok::Punct(',', false)],
        None => seq![Tok::Punct(',', false)],
    }
}

proof fn lemma_default_is_read(t: Seq<Tok>, pos: int, value: Option<Seq<char>>)
    requires
        stands(t, pos, default_toks(value)),
        value matches Some(v) ==> printed(v + " "@) is Some,
    ensures
        want_default(t, pos) == Ok::<(Option<Seq<char>>, int), Flaw>(
            (
                match value {
                    Some(v) => printed(v + " "@),
                    None => None,
                },
                pos + default_toks(value).len(),
            ),
        ),
{
    let s = default_toks(value);
    lemma_token_at(t, pos, s, 0);
    if let Some(v) = value {
        lemma_token_at(t, pos, s, 1);
        lemma_token_at(t, pos, s, 2);
        reveal_with_fuel(expr_end, 3);
        assert(expr_end(t, pos + 1, 0) == pos + 2);
        reveal_with_fuel(text_of, 3);
        assert(text_of(t, pos + 1, pos + 2) =~= v + " "@);
    }
}

/// A variable as it is written: `type<capacity> = default, access, pdo`.
pub open spec fn var_toks(
    ty: Seq<char>,
    capacity: Option<Seq<char>>,
    value: Option<Seq<char>>,
    access: AccessKind,
    pdo: bool,
) -> Seq<Tok> {
    seq![Tok::Ident(ty)] + (capacity_toks(capacity) + (default_toks(value) + flag_toks(
        access,
        pdo,
    )))
}

/// A variable is what is written of it: its type, capacity, default, access,
/// and whether it can be mapped.
pub proof fn lemma_var_is_read(
    t: Seq<Tok>,
    pos: int,
    ty: Seq<char>,
    capacity: Option<Seq<char>>,
    value: Option<Seq<char>>,
    access: AccessKind,
    pdo: bool,
)
    requires
        stands(t, pos, var_toks(ty, capacity, value, access, pdo)),
        !is_punct(t, pos + var_toks(ty, capacity, value, access, pdo).len(), ','),
        is_name(ty),
        capacity matches Some(c) ==> int_lit(c) is Some && (int_lit(c)->0).0 <= usize::MAX,
        value matches Some(v) ==> printed(v + " "@) is Some,
    ensures
        ({
            &&& want_var(t, pos) matches Ok((var, end))
            &&& end == pos + var_toks(ty, capacity, value, access, pdo).len()
            &&& var.ty == ty
            &&& capacity is None ==> var.capacity is None
            &&& capacity matches Some(c) ==> var.capacity == Some((int_lit(c)->0).0 as usize)
            &&& value is None ==> var.default_value is None
            &&& value matches Some(v) ==> var.default_value == printed(v + " "@)
            &&& var.real_bits is None
            &&& var.access == access
            &&& var.pdo_mappable == pdo
        }),
{
    let a = seq![Tok::Ident(ty)];
    let b = capacity_toks(capacity);
    let c = default_toks(value);
    let d = flag_toks(access, pdo);
    lemma_stands_in(t, pos, a, b + (c + d));
    lemma_token_at(t, pos, a, 0);
    lemma_stands_in(t, pos + 1, b, c + d);
    lemma_stands_in(t, pos + 1 + b.len(), c, d);
    let p = pos + 1;
    match capacity {
        Some(n) => {
            lemma_token_at(t, p, b, 0);
            lemma_token_at(t, p, b, 1);
            lemma_token_at(t, p, b, 2);
            assert(want_capacity(t, p) == Ok::<(Option<usize>, int), Flaw>(
                (Some((int_lit(n)->0).0 as usize), p + 3),
            ));
        },
        None => {
            lemma_token_at(t, p, c, 0);
            assert(want_capacity(t, p) == Ok::<(Option<usize>, int), Flaw>((None, p)));
        },
    }
    lemma_default_is_read(t, p + b.len(), value);
    lemma_flags_are_read(t, p + b.len() + c.len(), access, pdo);
}

// ---- Entries ----

/// A number in brackets, a name and a colon.
pub open spec fn head_toks(number: Seq<char>, name: Seq<char>) -> Seq<Tok> {
    seq![
        Tok::Open(Delim::Bracket),
        Tok::Literal(number),
        Tok::Close(Delim::Bracket),
        Tok::Ident(name),
        Tok::Punct(':', false),
    ]
}

proof fn lemma_head_is_read(
    t: Seq<Tok>,
    pos: int,
    number: Seq<char>,
    name: Seq<char>,
    v: int,
    low: int,
    high: int,
)
    requires
        stands(t, pos, head_toks(number, name)),
        means(number, v),
        low <= v <= high,
    ensures
        want_index(t, pos, low, high) == Ok::<(int, int), Flaw>((v, pos + 3)),
        pos + 5 <= t.len(),
        0 <= pos,
        t[pos] == Tok::Open(Delim::Bracket),
        t[pos + 3] == Tok::Ident(name),
        t[pos + 4] == Tok::Punct(':', false),
{
    let s = head_toks(number, name);
    lemma_token_at(t, pos, s, 0);
    lemma_token_at(t, pos, s, 1);
    lemma_token_at(t, pos, s, 2);
    lemma_token_at(t, pos, s, 3);
    lemma_token_at(t, pos, s, 4);
}

/// A variable with its address and name: `[number] name: variable;`.
pub open spec fn named_toks(number: Seq<char>, name: Seq<char>, var: Seq<Tok>) -> Seq<Tok> {
    head_toks(number, name) + (var + seq![Tok::Punct(';', false)])
}

proof fn lemma_named_parts(
    t: Seq<Tok>,
    pos: int,
    number: Seq<char>,
    name: Seq<char>,
    var: Seq<Tok>,
)
    requires
        stands(t, pos, named_toks(number, name, var)),
    ensures
        stands(t, pos, head_toks(number, name)),
        stands(t, pos + 5, var),
        0 <= pos + 5 + var.len() < t.len(),
        t[pos + 5 + var.len()] == Tok::Punct(';', false),
        named_toks(number, name, var).len() == 6 + var.len(),
{
    let tail = seq![Tok::Punct(';', false)];
    lemma_stands_in(t, pos, head_toks(number, name), var + tail);
    lemma_stands_in(t, pos + 5, var, tail);
    lemma_token_at(t, pos + 5 + var.len(), tail, 0);
}

/// A member of a record is what is written of it, at the subindex in brackets.
pub proof fn lemma_member_is_read(
    t: Seq<Tok>,
    pos: int,
    number: Seq<char>,
    sub: u8,
    name: Seq<char>,
    ty: Seq<char>,
    value: Option<Seq<char>>,
    access: AccessKind,
    pdo: bool,
)
    requires
        stands(t, pos, named_toks(number, name, var_toks(ty, None, value, access, pdo))),
        means(number, sub as int),
        is_name(name),
        is_name(ty),
        value matches Some(v) ==> printed(v + " "@) is Some,
    ensures
        ({
            &&& want_sub(t, pos) matches Ok((member, end))
            &&& end == pos + named_toks(number, name, var_toks(ty, None, value, access, pdo)).len()
            &&& member.subindex == sub
            &&& member.name == name
            &&& member.var.ty == ty
            &&& member.var.access == access
            &&& member.var.pdo_mappable == pdo
            &&& value is None ==> member.var.default_value is None
            &&& value matches Some(v) ==> member.var.default_value == printed(v + " "@)
        }),
{
    let var = var_toks(ty, None, value, access, pdo);
    lemma_named_parts(t, pos, number, name, var);
    lemma_head_is_read(t, pos, number, name, sub as int, 0, 0xFF);
    lemma_var_is_read(t, pos + 5, ty, None, value, access, pdo);
}

/// An entry with a variable is what is written of it, at the index in brackets.
pub proof fn lemma_variable_is_read(
    t: Seq<Tok>,
    pos: int,
    number: Seq<char>,
    index: u16,
    name: Seq<char>,
    ty: Seq<char>,
    capacity: Option<Seq<char>>,
    value: Option<Seq<char>>,
    access: AccessKind,
    pdo: bool,
)
    requires
        stands(t, pos, named_toks(number, name, var_toks(ty, capacity, value, access, pdo))),
        means(number, index as int),
        is_name(name),
        is_name(ty),
        ty != "record"@ && ty != "array"@,
        capacity matches Some(c) ==> int_lit(c) is Some && (int_lit(c)->0).0 <= usize::MAX,
        value matches Some(v) ==> printed(v + " "@) is Some,
    ensures
        ({
            &&& want_entry(t, pos) matches Ok((entry, end))
            &&& end == pos + named_toks(
                number,
                name,
                var_toks(ty, capacity, value, access, pdo),
            ).len()
            &&& entry.index == index
            &&& entry.name == name
            &&& entry.kind matches KindView::Var(var)
            &&& var.ty == ty
            &&& capacity is None ==> var.capacity is None
            &&& capacity matches Some(c) ==> var.capacity == Some((int_lit(c)->0).0 as usize)
            &&& value is None ==> var.default_value is None
            &&& value matches Some(v) ==> var.default_value == printed(v + " "@)
            &&& var.access == access
            &&& var.pdo_mappable == pdo
        }),
{
    let var = var_toks(ty, capacity, value, access, pdo);
    lemma_named_parts(t, pos, number, name, var);
    lemma_head_is_read(t, pos, number, name, index as int, 0, 0xFFFF);
    lemma_token_at(t, pos + 5, var, 0);
    assert(var[0] == Tok::Ident(ty));
    lemma_var_is_read(t, pos + 5, ty, capacity, value, access, pdo);
}

/// An array as it is written: `array<type, count>, access, pdo`.
pub open spec fn array_toks(ty: Seq<char>, count: Seq<char>, access: AccessKind, pdo: bool) -> Seq<Tok> {
    seq![
        Tok::Ident("array"@),
        Tok::Punct('<', false),
        Tok::Ident(ty),
        Tok::Punct(',', false),
        Tok::Literal(count),
        Tok::Punct('>', false),
        Tok::Punct(',', false),
    ] + flag_toks(access, pdo)
}

/// An entry with an array is what is written of it.
pub proof fn lemma_array_is_read(
    t: Seq<Tok>,
    pos: int,
    number: Seq<char>,
    index: u16,
    name: Seq<char>,
    ty: Seq<char>,
    count: Seq<char>,
    n: usize,
    access: AccessKind,
    pdo: bool,
)
    requires
        stands(t, pos, named_toks(number, name, array_toks(ty, count, access, pdo))),
        means(number, index as int),
        means(count, n as int),
        is_name(name),
        is_name(ty),
    ensures
        want_entry(t, pos) == Ok::<(OdEntryView, int), Flaw>(
            (
                OdEntryView {
                    index,
                    name,
                    kind: KindView::Array(
                        ArrayView { element_type: ty, count: n, access, pdo_mappable: pdo },
                    ),
                },
                pos + named_toks(number, name, array_toks(ty, count, access, pdo)).len(),
            ),
        ),
{
    let var = array_toks(ty, count, access, pdo);
    let flags = flag_toks(access, pdo);
    let front = seq![
        Tok::Ident("array"@),
        Tok::Punct('<', false),
        Tok::Ident(ty),
        Tok::Punct(',', false),
        Tok::Literal(count),
        Tok::Punct('>', false),
        Tok::Punct(',', false),
    ];
    lemma_named_parts(t, pos, number, name, var);
    lemma_head_is_read(t, pos, number, name, index as int, 0, 0xFFFF);
    let p = pos + 5;
    lemma_stands_in(t, p, front, flags);
    lemma_token_at(t, p, front, 0);
    lemma_token_at(t, p, front, 1);
    lemma_token_at(t, p, front, 2);
    lemma_token_at(t, p, front, 3);
    lemma_token_at(t, p, front, 4);
    lemma_token_at(t, p, front, 5);
    lemma_token_at(t, p, front, 6);
    lemma_flags_are_read(t, p + 7, access, pdo);
    reveal_strlit("array");
    reveal_strlit("record");
    assert("array"@[0] != "record"@[0]);
    assert(want_array(t, p + 1) is Ok);
}

/// The members of a record are read one after another, up to the brace that
/// closes it.
pub proof fn lemma_members_in_order(t: Seq<Tok>, pos: int, member: SubView, next: int)
    requires
        0 <= pos < next <= t.len(),
        want_sub(t, pos) == Ok::<(SubView, int), Flaw>((member, next)),
        !is_close(t, pos, Delim::Brace),
    ensures
        match want_subs(t, next) {
            Ok((rest, end)) => want_subs(t, pos) == Ok::<(Seq<SubView>, int), Flaw>(
                (seq![member] + rest, end),
            ),
            Err(e) => want_subs(t, pos) == Err::<(Seq<SubView>, int), Flaw>(e),
        },
        is_close(t, next, Delim::Brace) ==> want_subs(t, pos) == Ok::<(Seq<SubView>, int), Flaw>(
            (seq![member], next + 1),
        ),
{
    assert(seq![member] + Seq::<SubView>::empty() =~= seq![member]);
}

/// A record is the members between its braces.
pub proof fn lemma_record_is_read(
    t: Seq<Tok>,
    pos: int,
    number: Seq<char>,
    index: u16,
    name: Seq<char>,
    subs: Seq<SubView>,
    end: int,
)
    requires
        stands(
            t,
            pos,
            head_toks(number, name) + seq![Tok::Ident("record"@), Tok::Open(Delim::Brace)],
        ),
        means(number, index as int),
        is_name(name),
        want_subs(t, pos + 7) == Ok::<(Seq<SubView>, int), Flaw>((subs, end)),
        is_punct(t, end, ';'),
    ensures
        want_entry(t, pos) == Ok::<(OdEntryView, int), Flaw>(
            (OdEntryView { index, name, kind: KindView::Record(subs) }, end + 1),
        ),
{
    let tail = seq![Tok::Ident("record"@), Tok::Open(Delim::Brace)];
    lemma_stands_in(t, pos, head_toks(number, name), tail);
    lemma_head_is_read(t, pos, number, name, index as int, 0, 0xFFFF);
    lemma_token_at(t, pos + 5, tail, 0);
    lemma_token_at(t, pos + 5, tail, 1);
}

// ---- PDOs ----

/// A COB-ID as it is written: a number, or `node_id +` a number.
pub open spec fn cob_toks(relative: bool, number: Seq<char>) -> Seq<Tok> {
    if relative {
        seq![Tok::Ident("node_id"@), Tok::Punct('+', false), Tok::Literal(number)]
    } else {
        seq![Tok::Literal(number)]
    }
}

/// A COB-ID is relative to the node ID if it is written so.
pub proof fn lemma_cob_id_is_read(t: Seq<Tok>, pos: int, relative: bool, number: Seq<char>, v: u32)
    requires
        stands(t, pos, cob_toks(relative, number)),
        means(number, v as int),
    ensures
        want_cob(t, pos) == Ok::<(CobIdSpec, int), Flaw>(
            (
                if relative {
                    CobIdSpec::NodeRelative(v)
                } else {
                    CobIdSpec::Absolute(v)
                },
                pos + cob_toks(relative, number).len(),
            ),
        ),
{
    let s = cob_toks(relative, number);
    lemma_token_at(t, pos, s, 0);
    if relative {
        lemma_token_at(t, pos, s, 1);
        lemma_token_at(t, pos, s, 2);
    }
}

proof fn lemma_type_words()
    ensures
        "event_driven"@ != "event_driven_manufacturer"@,
        "event_driven"@ != "rtr_event"@,
        "event_driven"@ != "rtr_sync"@,
        "event_driven"@ != "sync_acyclic"@,
        "event_driven"@ != "sync_cyclic"@,
        "event_driven_manufacturer"@ != "rtr_event"@,
        "event_driven_manufacturer"@ != "rtr_sync"@,
        "event_driven_manufacturer"@ != "sync_acyclic"@,
        "event_driven_manufacturer"@ != "sync_cyclic"@,
        "rtr_event"@ != "rtr_sync"@,
        "rtr_event"@ != "sync_acyclic"@,
        "rtr_event"@ != "sync_cyclic"@,
        "rtr_sync"@ != "sync_acyclic"@,
        "rtr_sync"@ != "sync_cyclic"@,
        "sync_acyclic"@ != "sync_cyclic"@,
{
    reveal_strlit("event_driven");
    reveal_strlit("event_driven_manufacturer");
    reveal_strlit("rtr_event");
    reveal_strlit("rtr_sync");
    reveal_strlit("sync_acyclic");
    reveal_strlit("sync_cyclic");
    assert("event_driven"@.len() == 12);
    assert("event_driven_manufacturer"@.len() == 25);
    assert("rtr_event"@.len() == 9);
    assert("rtr_sync"@.len() == 8);
    assert("sync_acyclic"@.len() == 12);
    assert("sync_cyclic"@.len() == 11);
    assert("event_driven"@[0] != "sync_acyclic"@[0]);
}

/// The names of transmission types stand for their CiA 301 numbers; any number
/// of one byte can be written as well.
pub proof fn lemma_transmission_type_is_read(t: Seq<Tok>, pos: int)
    requires
        0 <= pos < t.len(),
    ensures
        t[pos] == Tok::Ident("event_driven"@) ==> want_transmission(t, pos) == Ok::<
            (u8, int),
            Flaw,
        >((255u8, pos + 1)),
        t[pos] == Tok::Ident("event_driven_manufacturer"@) ==> want_transmission(t, pos) == Ok::<
            (u8, int),
            Flaw,
        >((254u8, pos + 1)),
        t[pos] == Tok::Ident("rtr_event"@) ==> want_transmission(t, pos) == Ok::<(u8, int), Flaw>(
            (253u8, pos + 1),
        ),
        t[pos] == Tok::Ident("rtr_sync"@) ==> want_transmission(t, pos) == Ok::<(u8, int), Flaw>(
            (252u8, pos + 1),
        ),
        t[pos] == Tok::Ident("sync_acyclic"@) ==> want_transmission(t, pos) == Ok::<
            (u8, int),
            Flaw,
        >((0u8, pos + 1)),
        forall|s: Seq<char>, v: u8|
            t[pos] == Tok::Literal(s) && #[trigger] means(s, v as int) ==> want_transmission(t, pos)
                == Ok::<(u8, int), Flaw>((v, pos + 1)),
{
    lemma_type_words();
}

/// A cyclic type is the number of SYNC messages between two transmissions, 1 to
/// 240.
pub proof fn lemma_cyclic_type_is_read(t: Seq<Tok>, pos: int, number: Seq<char>, v: int)
    requires
        stands(
            t,
            pos,
            seq![
                Tok::Ident("sync_cyclic"@),
                Tok::Open(Delim::Paren),
                Tok::Literal(number),
                Tok::Close(Delim::Paren),
            ],
        ),
        means(number, v),
    ensures
        1 <= v <= 240 ==> want_transmission(t, pos) == Ok::<(u8, int), Flaw>((v as u8, pos + 4)),
        !(1 <= v <= 240) ==> want_transmission(t, pos) is Err,
{
    lemma_type_words();
    let s = seq![
        Tok::Ident("sync_cyclic"@),
        Tok::Open(Delim::Paren),
        Tok::Literal(number),
        Tok::Close(Delim::Paren),
    ];
    lemma_token_at(t, pos, s, 0);
    lemma_token_at(t, pos, s, 1);
    lemma_token_at(t, pos, s, 2);
    lemma_token_at(t, pos, s, 3);
}

/// A time with a unit is that many microseconds, milliseconds or seconds, in
/// whole multiples of the resolution; without a unit it is the number of
/// multiples.
pub proof fn lemma_time_is_read(text: Seq<char>, v: u64, suffix: Seq<char>, resolution_us: int)
    requires
        int_lit(text) == Some((v, suffix)),
        resolution_us > 0,
    ensures
        suffix.len() == 0 ==> time_lit(text, resolution_us) == Some(v as int),
        suffix == seq!['u', 's'] ==> time_lit(text, resolution_us) == Some(
            v as int / resolution_us,
        ),
        suffix == seq!['m', 's'] ==> time_lit(text, resolution_us) == Some(
            1000 * v as int / resolution_us,
        ),
        suffix == seq!['s'] ==> time_lit(text, resolution_us) == Some(
            1000000 * v as int / resolution_us,
        ),
        suffix.len() > 0 && suffix != seq!['u', 's'] && suffix != seq!['m', 's'] && suffix != seq![
            's',
        ] ==> time_lit(text, resolution_us) is None,
{
    reveal_strlit("us");
    reveal_strlit("ms");
    reveal_strlit("s");
    assert("us"@ =~= seq!['u', 's']);
    assert("ms"@ =~= seq!['m', 's']);
    assert("s"@ =~= seq!['s']);
    assert(seq!['u', 's'].len() == 2 && seq!['s'].len() == 1);
    assert(seq!['u', 's'][0] != seq!['m', 's'][0]);
    let n = v as int;
    assert(n * 1 == n && n * 1000 == 1000 * n && n * 1000000 == 1000000 * n) by (nonlinear_arith);
    if suffix == seq!['u', 's'] {
        assert(time_of(n, suffix, resolution_us) == Some(n * 1 / resolution_us));
    }
}

proof fn lemma_param_words()
    ensures
        "cob_id"@ != "transmission_type"@,
        "cob_id"@ != "inhibit_time"@,
        "cob_id"@ != "event_timer"@,
        "cob_id"@ != "deadline"@,
        "cob_id"@ != "mapping"@,
        "transmission_type"@ != "inhibit_time"@,
        "transmission_type"@ != "event_timer"@,
        "transmission_type"@ != "deadline"@,
        "transmission_type"@ != "mapping"@,
        "inhibit_time"@ != "event_timer"@,
        "inhibit_time"@ != "deadline"@,
        "inhibit_time"@ != "mapping"@,
        "event_timer"@ != "mapping"@,
        "deadline"@ != "mapping"@,
        "mutable"@ != "immutable"@,
        "tpdo"@ != "rpdo"@,
{
    reveal_strlit("cob_id");
    reveal_strlit("transmission_type");
    reveal_strlit("inhibit_time");
    reveal_strlit("event_timer");
    reveal_strlit("deadline");
    reveal_strlit("mapping");
    reveal_strlit("mutable");
    reveal_strlit("immutable");
    reveal_strlit("tpdo");
    reveal_strlit("rpdo");
    assert("cob_id"@.len() == 6);
    assert("transmission_type"@.len() == 17);
    assert("inhibit_time"@.len() == 12);
    assert("event_timer"@.len() == 11);
    assert("deadline"@.len() == 8);
    assert("mapping"@.len() == 7);
    assert("mutable"@.len() == 7);
    assert("immutable"@.len() == 9);
    assert("tpdo"@[0] != "rpdo"@[0]);
}

/// A key and an equals sign.
pub open spec fn key_toks(key: Seq<char>) -> Seq<Tok> {
    seq![Tok::Ident(key), Tok::Punct('=', false)]
}

/// A parameter of a PDO sets what its key names, and nothing else: inhibit
/// times are multiples of 100 microseconds, event timers and deadlines of one
/// millisecond.
pub proof fn lemma_param_is_read(t: Seq<Tok>, pos: int, key: Seq<char>, m: PdoParams)
    requires
        stands(t, pos, key_toks(key)),
        is_name(key),
    ensures
        key == "cob_id"@ ==> (want_cob(t, pos + 2) matches Ok((v, p)) ==> want_param(t, pos, m)
            == Ok::<(PdoParams, int), Flaw>((PdoParams { cob_id: Some(v), ..m }, p))),
        key == "transmission_type"@ ==> (want_transmission(t, pos + 2) matches Ok((v, p))
            ==> want_param(t, pos, m) == Ok::<(PdoParams, int), Flaw>(
            (PdoParams { transmission_type: v, ..m }, p),
        )),
        key == "inhibit_time"@ ==> (want_time(t, pos + 2, 100) matches Ok((v, p)) ==> want_param(
            t,
            pos,
            m,
        ) == Ok::<(PdoParams, int), Flaw>((PdoParams { inhibit_time: v, ..m }, p))),
        key == "event_timer"@ || key == "deadline"@ ==> (want_time(t, pos + 2, 1000) matches Ok(
            (v, p),
        ) ==> want_param(t, pos, m) == Ok::<(PdoParams, int), Flaw>(
            (PdoParams { event_timer: v, ..m }, p),
        )),
        key == "mapping"@ && is_word(t, pos + 2, "mutable"@) ==> want_param(t, pos, m) == Ok::<
            (PdoParams, int),
            Flaw,
        >((PdoParams { mapping: MappingKind::Mutable, ..m }, pos + 3)),
        key == "mapping"@ && is_word(t, pos + 2, "immutable"@) ==> want_param(t, pos, m) == Ok::<
            (PdoParams, int),
            Flaw,
        >((PdoParams { mapping: MappingKind::Immutable, ..m }, pos + 3)),
        key != "cob_id"@ && key != "transmission_type"@ && key != "inhibit_time"@ && key
            != "event_timer"@ && key != "deadline"@ && key != "mapping"@ ==> want_param(t, pos, m)
            is Err,
{
    lemma_param_words();
    lemma_token_at(t, pos, key_toks(key), 0);
    lemma_token_at(t, pos, key_toks(key), 1);
}

/// The names of mapped fields, with commas between them, and the brace that
/// closes them.
pub open spec fn field_toks(names: Seq<Seq<char>>) -> Seq<Tok>
    decreases names.len(),
{
    if names.len() == 0 {
        seq![Tok::Close(Delim::Brace)]
    } else {
        seq![Tok::Ident(names[0]), Tok::Punct(',', false)] + field_toks(names.skip(1))
    }
}

/// The fields that a PDO maps are those that are written, in order.
pub proof fn lemma_fields_are_read(t: Seq<Tok>, pos: int, names: Seq<Seq<char>>)
    requires
        stands(t, pos, field_toks(names)),
        forall|i: int| 0 <= i < names.len() ==> is_name(#[trigger] names[i]),
    ensures
        want_fields(t, pos) == Ok::<(Seq<FieldView>, int), Flaw>(
            (
                names.map_values(|n: Seq<char>| FieldView::Named(n)),
                pos + field_toks(names).len(),
            ),
        ),
    decreases names.len(),
{
    let mapped = names.map_values(|n: Seq<char>| FieldView::Named(n));
    if names.len() == 0 {
        lemma_token_at(t, pos, field_toks(names), 0);
        assert(mapped =~= Seq::<FieldView>::empty());
    } else {
        let front = seq![Tok::Ident(names[0]), Tok::Punct(',', false)];
        let rest = names.skip(1);
        lemma_stands_in(t, pos, front, field_toks(rest));
        lemma_token_at(t, pos, front, 0);
        lemma_token_at(t, pos, front, 1);
        assert forall|i: int| 0 <= i < rest.len() implies is_name(#[trigger] rest[i]) by {
            assert(rest[i] == names[i + 1]);
        }
        assert(is_name(names[0]));
        lemma_fields_are_read(t, pos + 2, rest);
        assert(seq![FieldView::Named(names[0])] + rest.map_values(
            |n: Seq<char>| FieldView::Named(n),
        ) =~= mapped);
        assert(field_toks(names) == front + field_toks(rest));
        reveal(stands);
    }
}

/// The word and the number of a PDO.
pub open spec fn pdo_head_toks(direction: PdoDirection, number: Seq<char>) -> Seq<Tok> {
    seq![
        match direction {
            PdoDirection::Tpdo => Tok::Ident("tpdo"@),
            PdoDirection::Rpdo => Tok::Ident("rpdo"@),
        },
        Tok::Open(Delim::Bracket),
        Tok::Literal(number),
        Tok::Close(Delim::Bracket),
    ]
}

/// A PDO without parameters is event-driven, without an inhibit time or event
/// timer, its mapping cannot be changed, and its COB-ID is the predefined one:
/// there is one for the first four only. It maps the fields that are written.
pub proof fn lemma_plain_pdo_is_read(
    t: Seq<Tok>,
    pos: int,
    direction: PdoDirection,
    number: Seq<char>,
    v: int,
    names: Seq<Seq<char>>,
)
    requires
        stands(
            t,
            pos,
            pdo_head_toks(direction, number) + (seq![Tok::Open(Delim::Brace)] + (field_toks(names)
                + seq![Tok::Punct(';', false)])),
        ),
        means(number, v),
        forall|i: int| 0 <= i < names.len() ==> is_name(#[trigger] names[i]),
        names.len() <= 64,
    ensures
        1 <= v <= 4 ==> want_pdo(t, pos) == Ok::<(PdoDefView, int), Flaw>(
            (
                PdoDefView {
                    direction,
                    number: v as u16,
                    cob_id: None,
                    transmission_type: 255,
                    inhibit_time: 0,
                    event_timer: 0,
                    mapping: MappingKind::Immutable,
                    mappings: names.map_values(|n: Seq<char>| FieldView::Named(n)),
                },
                pos + 6 + field_toks(names).len(),
            ),
        ),
        !(1 <= v <= 4) ==> want_pdo(t, pos) is Err,
{
    lemma_param_words();
    let head = pdo_head_toks(direction, number);
    let open = seq![Tok::Open(Delim::Brace)];
    let end = seq![Tok::Punct(';', false)];
    let fields = field_toks(names);
    lemma_stands_in(t, pos, head, open + (fields + end));
    lemma_stands_in(t, pos + 4, open, fields + end);
    lemma_stands_in(t, pos + 5, fields, end);
    lemma_token_at(t, pos, head, 0);
    lemma_token_at(t, pos, head, 1);
    lemma_token_at(t, pos, head, 2);
    lemma_token_at(t, pos, head, 3);
    lemma_token_at(t, pos + 4, open, 0);
    lemma_token_at(t, pos + 5 + fields.len(), end, 0);
    lemma_fields_are_read(t, pos + 5, names);
    assert(want_opt_params(t, pos + 4) == Ok::<(PdoParams, int), Flaw>((default_params(), pos + 4)));
}

/// Parameters of a PDO are read one after another, up to the parenthesis that
/// closes them; the last one of a kind counts.
pub proof fn lemma_params_in_order(
    t: Seq<Tok>,
    pos: int,
    m: PdoParams,
    after: PdoParams,
    next: int,
)
    requires
        0 <= pos < next < t.len(),
        !is_close(t, pos, Delim::Paren),
        want_param(t, pos, m) == Ok::<(PdoParams, int), Flaw>((after, next)),
    ensures
        is_close(t, next, Delim::Paren) ==> want_params(t, pos, m) == Ok::<(PdoParams, int), Flaw>(
            (after, next + 1),
        ),
        is_punct(t, next, ',') ==> want_params(t, pos, m) == want_params(t, next + 1, after),
{
    reveal_with_fuel(want_params, 2);
}

/// A PDO with parameters has what they say.
pub proof fn lemma_pdo_is_read(
    t: Seq<Tok>,
    pos: int,
    direction: PdoDirection,
    number: Seq<char>,
    v: int,
    m: PdoParams,
    p: int,
    names: Seq<Seq<char>>,
)
    requires
        stands(t, pos, pdo_head_toks(direction, number) + seq![Tok::Open(Delim::Paren)]),
        means(number, v),
        want_params(t, pos + 5, default_params()) == Ok::<(PdoParams, int), Flaw>((m, p)),
        stands(
            t,
            p,
            seq![Tok::Open(Delim::Brace)] + (field_toks(names) + seq![Tok::Punct(';', false)]),
        ),
        forall|i: int| 0 <= i < names.len() ==> is_name(#[trigger] names[i]),
        names.len() <= 64,
    ensures
        1 <= v <= 512 && (v <= 4 || m.cob_id is Some) ==> want_pdo(t, pos) == Ok::<
            (PdoDefView, int),
            Flaw,
        >(
            (
                PdoDefView {
                    direction,
                    number: v as u16,
                    cob_id: m.cob_id,
                    transmission_type: m.transmission_type,
                    inhibit_time: m.inhibit_time,
                    event_timer: m.event_timer,
                    mapping: m.mapping,
                    mappings: names.map_values(|n: Seq<char>| FieldView::Named(n)),
                },
                p + 2 + field_toks(names).len(),
            ),
        ),
        !(1 <= v <= 512 && (v <= 4 || m.cob_id is Some)) ==> want_pdo(t, pos) is Err,
{
    lemma_param_words();
    let head = pdo_head_toks(direction, number);
    let paren = seq![Tok::Open(Delim::Paren)];
    let open = seq![Tok::Open(Delim::Brace)];
    let end = seq![Tok::Punct(';', false)];
    let fields = field_toks(names);
    lemma_stands_in(t, pos, head, paren);
    lemma_stands_in(t, p, open, fields + end);
    lemma_stands_in(t, p + 1, fields, end);
    lemma_token_at(t, pos, head, 0);
    lemma_token_at(t, pos, head, 1);
    lemma_token_at(t, pos, head, 2);
    lemma_token_at(t, pos, head, 3);
    lemma_token_at(t, pos + 4, paren, 0);
    lemma_token_at(t, p, open, 0);
    lemma_token_at(t, p + 1 + fields.len(), end, 0);
    lemma_fields_are_read(t, p + 1, names);
}

// ---- SDO servers ----

/// An SDO server as it is written:
/// `sdo_server[number](cob_rx = .., cob_tx = ..);`.
pub open spec fn server_toks(number: Seq<char>, rx: Seq<Tok>, tx: Seq<Tok>) -> Seq<Tok> {
    seq![
        Tok::Ident("sdo_server"@),
        Tok::Open(Delim::Bracket),
        Tok::Literal(number),
        Tok::Close(Delim::Bracket),
        Tok::Open(Delim::Paren),
        Tok::Ident("cob_rx"@),
        Tok::Punct('=', false),
    ] + (rx + (seq![
        Tok::Punct(',', false),
        Tok::Ident("cob_tx"@),
        Tok::Punct('=', false),
    ] + (tx + seq![Tok::Close(Delim::Paren), Tok::Punct(';', false)])))
}

/// An SDO server receives requests and sends responses with the COB-IDs that
/// are written, in this order. Its number is 2 to 128.
pub proof fn lemma_server_is_read(
    t: Seq<Tok>,
    pos: int,
    number: Seq<char>,
    v: int,
    rx_relative: bool,
    rx: Seq<char>,
    rx_value: u32,
    tx_relative: bool,
    tx: Seq<char>,
    tx_value: u32,
)
    requires
        stands(t, pos, server_toks(number, cob_toks(rx_relative, rx), cob_toks(tx_relative, tx))),
        means(number, v),
        means(rx, rx_value as int),
        means(tx, tx_value as int),
    ensures
        2 <= v <= 128 ==> ({
            &&& want_server(t, pos) matches Ok((s, end))
            &&& s.number == v
            &&& s.cob_rx == if rx_relative {
                CobIdSpec::NodeRelative(rx_value)
            } else {
                CobIdSpec::Absolute(rx_value)
            }
            &&& s.cob_tx == if tx_relative {
                CobIdSpec::NodeRelative(tx_value)
            } else {
                CobIdSpec::Absolute(tx_value)
            }
            &&& end == pos + server_toks(
                number,
                cob_toks(rx_relative, rx),
                cob_toks(tx_relative, tx),
            ).len()
        }),
        !(2 <= v <= 128) ==> want_server(t, pos) is Err,
{
    let a = cob_toks(rx_relative, rx);
    let b = cob_toks(tx_relative, tx);
    let head = seq![
        Tok::Ident("sdo_server"@),
        Tok::Open(Delim::Bracket),
        Tok::Literal(number),
        Tok::Close(Delim::Bracket),
        Tok::Open(Delim::Paren),
        Tok::Ident("cob_rx"@),
        Tok::Punct('=', false),
    ];
    let mid = seq![Tok::Punct(',', false), Tok::Ident("cob_tx"@), Tok::Punct('=', false)];
    let end = seq![Tok::Close(Delim::Paren), Tok::Punct(';', false)];
    lemma_stands_in(t, pos, head, a + (mid + (b + end)));
    let p = pos + 7;
    lemma_stands_in(t, p, a, mid + (b + end));
    let q = p + a.len();
    lemma_stands_in(t, q, mid, b + end);
    lemma_stands_in(t, q + 3, b, end);
    let r = q + 3 + b.len();
    lemma_token_at(t, pos, head, 0);
    lemma_token_at(t, pos, head, 1);
    lemma_token_at(t, pos, head, 2);
    lemma_token_at(t, pos, head, 3);
    lemma_token_at(t, pos, head, 4);
    lemma_token_at(t, pos, head, 5);
    lemma_token_at(t, pos, head, 6);
    lemma_token_at(t, q, mid, 0);
    lemma_token_at(t, q, mid, 1);
    lemma_token_at(t, q, mid, 2);
    lemma_token_at(t, r, end, 0);
    lemma_token_at(t, r, end, 1);
    lemma_cob_id_is_read(t, p, rx_relative, rx, rx_value);
    lemma_cob_id_is_read(t, q + 3, tx_relative, tx, tx_value);
    assert(want_named_cob(t, pos + 5, "cob_rx"@) == want_cob(t, p));
    assert(want_named_cob(t, q + 1, "cob_tx"@) == want_cob(t, q + 3));
}

// ---- Definitions ----

/// The items of a definition are read one after another, up to the brace that
/// closes it, and each is added behind the others of its kind.
pub proof fn lemma_items_in_order(t: Seq<Tok>, pos: int, items: ItemsView)
    requires
        0 <= pos < t.len(),
        !is_close(t, pos, Delim::Brace),
    ensures
        t[pos] == Tok::Ident("sdo_server"@) ==> (want_server(t, pos) matches Ok((s, p)) ==> (pos
            < p <= t.len() ==> want_items(t, pos, items) == want_items(
            t,
            p,
            ItemsView { servers: items.servers.push(s), ..items },
        ))),
        t[pos] == Tok::Ident("tpdo"@) || t[pos] == Tok::Ident("rpdo"@) ==> (want_pdo(
            t,
            pos,
        ) matches Ok((d, p)) ==> (pos < p <= t.len() ==> want_items(t, pos, items) == want_items(
            t,
            p,
            ItemsView { pdos: items.pdos.push(d), ..items },
        ))),
        t[pos] == Tok::Open(Delim::Bracket) ==> (want_entry(t, pos) matches Ok((x, p)) ==> (pos
            < p <= t.len() ==> want_items(t, pos, items) == want_items(
            t,
            p,
            ItemsView { entries: items.entries.push(x), ..items },
        ))),
{
    reveal(want_item);
    lemma_item_words();
}

proof fn lemma_item_words()
    ensures
        "tpdo"@ != "sdo_server"@,
        "rpdo"@ != "sdo_server"@,
        !is_keyword("tpdo"@),
        !is_keyword("rpdo"@),
{
    reveal_strlit("tpdo");
    reveal_strlit("rpdo");
    reveal_strlit("sdo_server");
    assert("tpdo"@.len() == 4 && "rpdo"@.len() == 4 && "sdo_server"@.len() == 10);
    assert(!is_keyword("tpdo"@) && !is_keyword("rpdo"@)) by {
        reveal(is_keyword);
        lemma_short_keywords("tpdo"@);
        lemma_short_keywords("rpdo"@);
    }
}

proof fn lemma_short_keywords(s: Seq<char>)
    requires
        s.len() == 4,
        s[1] == 'p',
        s[2] == 'd',
    ensures
        !is_keyword(s),
{
    reveal(is_keyword);
    reveal_strlit("_");
    reveal_strlit("abstract");
    reveal_strlit("as");
    reveal_strlit("async");
    reveal_strlit("await");
    reveal_strlit("become");
    reveal_strlit("box");
    reveal_strlit("break");
    reveal_strlit("const");
    reveal_strlit("continue");
    reveal_strlit("crate");
    reveal_strlit("do");
    reveal_strlit("dyn");
    reveal_strlit("else");
    reveal_strlit("enum");
    reveal_strlit("extern");
    reveal_strlit("false");
    reveal_strlit("final");
    reveal_strlit("fn");
    reveal_strlit("for");
    reveal_strlit("if");
    reveal_strlit("impl");
    reveal_strlit("in");
    reveal_strlit("let");
    reveal_strlit("loop");
    reveal_strlit("macro");
    reveal_strlit("match");
    reveal_strlit("mod");
    reveal_strlit("move");
    reveal_strlit("mut");
    reveal_strlit("override");
    reveal_strlit("priv");
    reveal_strlit("pub");
    reveal_strlit("ref");
    reveal_strlit("return");
    reveal_strlit("Self");
    reveal_strlit("self");
    reveal_strlit("static");
    reveal_strlit("struct");
    reveal_strlit("super");
    reveal_strlit("trait");
    reveal_strlit("true");
    reveal_strlit("try");
    reveal_strlit("type");
    reveal_strlit("typeof");
    reveal_strlit("unsafe");
    reveal_strlit("unsized");
    reveal_strlit("use");
    reveal_strlit("virtual");
    reveal_strlit("where");
    reveal_strlit("while");
    reveal_strlit("yield");
    assert("else"@[1] != 'p' && "enum"@[1] != 'p' && "impl"@[1] != 'p' && "loop"@[1] != 'p'
        && "move"@[1] != 'p' && "priv"@[1] != 'p' && "Self"@[1] != 'p' && "self"@[1] != 'p'
        && "true"@[1] != 'p' && "type"@[1] != 'p');
}


// ---- Attributes and names ----

/// An attribute in its brackets, behind a number sign.
pub open spec fn attr_toks(inner: Seq<Tok>) -> Seq<Tok> {
    seq![Tok::Punct('#', false), Tok::Open(Delim::Bracket)] + (inner + seq![
        Tok::Close(Delim::Bracket),
    ])
}

proof fn lemma_attr_words()
    ensures
        "export_eds"@ != "use_alloc"@,
        "export_eds"@ != "validate_write"@,
        "use_alloc"@ != "validate_write"@,
{
    reveal_strlit("export_eds");
    reveal_strlit("use_alloc");
    reveal_strlit("validate_write");
    assert("export_eds"@.len() == 10 && "use_alloc"@.len() == 9 && "validate_write"@.len() == 14);
}

/// The attribute `use_alloc` asks for values of any length, and changes nothing
/// else.
pub proof fn lemma_use_alloc_is_read(t: Seq<Tok>, pos: int, a: AttrsView)
    requires
        stands(t, pos, attr_toks(seq![Tok::Ident("use_alloc"@)])),
        is_name("use_alloc"@),
    ensures
        want_attrs(t, pos, a) == want_attrs(t, pos + 4, AttrsView { use_alloc: true, ..a }),
{
    lemma_attr_words();
    let s = attr_toks(seq![Tok::Ident("use_alloc"@)]);
    lemma_token_at(t, pos, s, 0);
    lemma_token_at(t, pos, s, 1);
    lemma_token_at(t, pos, s, 2);
    lemma_token_at(t, pos, s, 3);
}

/// The attribute `export_eds` names the file to export to.
pub proof fn lemma_export_is_read(t: Seq<Tok>, pos: int, a: AttrsView, text: Seq<char>)
    requires
        stands(
            t,
            pos,
            attr_toks(
                seq![
                    Tok::Ident("export_eds"@),
                    Tok::Open(Delim::Paren),
                    Tok::Ident("path"@),
                    Tok::Punct('=', false),
                    Tok::Literal(text),
                    Tok::Close(Delim::Paren),
                ],
            ),
        ),
        is_name("export_eds"@),
        string_literal(text) is Some,
    ensures
        want_attrs(t, pos, a) == want_attrs(
            t,
            pos + 9,
            AttrsView { export_eds_path: string_literal(text), ..a },
        ),
{
    lemma_attr_words();
    let s = attr_toks(
        seq![
            Tok::Ident("export_eds"@),
            Tok::Open(Delim::Paren),
            Tok::Ident("path"@),
            Tok::Punct('=', false),
            Tok::Literal(text),
            Tok::Close(Delim::Paren),
        ],
    );
    lemma_token_at(t, pos, s, 0);
    lemma_token_at(t, pos, s, 1);
    lemma_token_at(t, pos, s, 2);
    lemma_token_at(t, pos, s, 3);
    lemma_token_at(t, pos, s, 4);
    lemma_token_at(t, pos, s, 5);
    lemma_token_at(t, pos, s, 6);
    lemma_token_at(t, pos, s, 7);
    lemma_token_at(t, pos, s, 8);
}

/// The attribute `validate_write` names the function that checks writes.
pub proof fn lemma_validation_is_read(t: Seq<Tok>, pos: int, a: AttrsView, name: Seq<char>)
    requires
        stands(
            t,
            pos,
            attr_toks(
                seq![
                    Tok::Ident("validate_write"@),
                    Tok::Open(Delim::Paren),
                    Tok::Ident(name),
                    Tok::Close(Delim::Paren),
                ],
            ),
        ),
        is_name("validate_write"@),
        is_name(name),
    ensures
        want_attrs(t, pos, a) == want_attrs(
            t,
            pos + 7,
            AttrsView { validate_write_fn: Some(name), ..a },
        ),
{
    lemma_attr_words();
    let s = attr_toks(
        seq![
            Tok::Ident("validate_write"@),
            Tok::Open(Delim::Paren),
            Tok::Ident(name),
            Tok::Close(Delim::Paren),
        ],
    );
    lemma_token_at(t, pos, s, 0);
    lemma_token_at(t, pos, s, 1);
    lemma_token_at(t, pos, s, 2);
    lemma_token_at(t, pos, s, 3);
    lemma_token_at(t, pos, s, 4);
    lemma_token_at(t, pos, s, 5);
    lemma_token_at(t, pos, s, 6);
}

/// A type is public if `pub` stands before it, and private if nothing does.
pub proof fn lemma_name_is_read(t: Seq<Tok>, pos: int, public: bool, name: Seq<char>)
    requires
        stands(
            t,
            pos,
            if public {
                seq![Tok::Ident("pub"@), Tok::Ident("struct"@), Tok::Ident(name)]
            } else {
                seq![Tok::Ident("struct"@), Tok::Ident(name)]
            },
        ),
        is_name(name),
    ensures
        want_name(t, pos) == Ok::<((VisibilityView, Seq<char>), int), Flaw>(
            if public {
                ((VisibilityView::Public, name), pos + 3)
            } else {
                ((VisibilityView::Inherited, name), pos + 2)
            },
        ),
{
    reveal_strlit("pub");
    reveal_strlit("struct");
    assert("pub"@.len() == 3 && "struct"@.len() == 6);
    let s = if public {
        seq![Tok::Ident("pub"@), Tok::Ident("struct"@), Tok::Ident(name)]
    } else {
        seq![Tok::Ident("struct"@), Tok::Ident(name)]
    };
    lemma_token_at(t, pos, s, 0);
    lemma_token_at(t, pos, s, 1);
    if public {
        lemma_token_at(t, pos, s, 2);
    }
}

/// A capacity that is given for an index is taken for it.
pub proof fn lemma_override_is_read(
    t: Seq<Tok>,
    pos: int,
    number: Seq<char>,
    index: u16,
    capacity: Seq<char>,
    n: usize,
)
    requires
        stands(
            t,
            pos,
            seq![
                Tok::Open(Delim::Bracket),
                Tok::Literal(number),
                Tok::Close(Delim::Bracket),
                Tok::Ident("capacity"@),
                Tok::Punct('=', false),
                Tok::Literal(capacity),
            ],
        ),
        means(number, index as int),
        means(capacity, n as int),
    ensures
        want_override(t, pos) == Ok::<((u16, usize), int), Flaw>(((index, n), pos + 6)),
{
    let s = seq![
        Tok::Open(Delim::Bracket),
        Tok::Literal(number),
        Tok::Close(Delim::Bracket),
        Tok::Ident("capacity"@),
        Tok::Punct('=', false),
        Tok::Literal(capacity),
    ];
    lemma_token_at(t, pos, s, 0);
    lemma_token_at(t, pos, s, 1);
    lemma_token_at(t, pos, s, 2);
    lemma_token_at(t, pos, s, 3);
    lemma_token_at(t, pos, s, 4);
    lemma_token_at(t, pos, s, 5);
}

// ---- Times with a fraction ----

/// Ten to the power of a number.
pub open spec fn tenfold(n: nat) -> int
    decreases n,
{
    if n == 0 {
        1
    } else {
        10 * tenfold((n - 1) as nat)
    }
}

proof fn lemma_tenfold(n: nat)
    ensures
        pow10(n) == tenfold(n),
        tenfold(n) >= 1,
    decreases n,
{
    if n > 0 {
        lemma_tenfold((n - 1) as nat);
    }
}

proof fn lemma_digits_end(s: Seq<char>, from: int, to: int)
    requires
        0 <= from <= to <= s.len(),
        forall|i: int| from <= i < to ==> '0' <= #[trigger] s[i] <= '9',
        to < s.len() ==> digit_value(s[to], 10) is None,
    ensures
        digits_end(s, 10, from) == to,
    decreases to - from,
{
    if from < to {
        assert('0' <= s[from] <= '9');
        assert(digit_value(s[from], 10) is Some);
        lemma_digits_end(s, from + 1, to);
    }
}

/// A time with a fraction is the number of its digits, divided by ten for each
/// digit of the fraction, in its unit; what is left over of the resolution is
/// dropped.
pub proof fn lemma_fraction_of_time(
    whole: Seq<char>,
    fraction: Seq<char>,
    unit: Seq<char>,
    v: int,
    resolution_us: int,
)
    requires
        int_lit(whole + seq!['.'] + fraction + unit) is None,
        whole.len() > 0,
        0 < fraction.len() <= 9,
        forall|i: int| 0 <= i < whole.len() ==> '0' <= #[trigger] whole[i] <= '9',
        forall|i: int| 0 <= i < fraction.len() ==> '0' <= #[trigger] fraction[i] <= '9',
        unit == seq!['u', 's'] || unit == seq!['m', 's'] || unit == seq!['s'],
        digits_value(whole + fraction, 10) == Some(v),
        0 <= v <= u64::MAX,
        resolution_us > 0,
    ensures
        time_lit(whole + seq!['.'] + fraction + unit, resolution_us) matches Some(r) && {
            let us: int = if unit == seq!['u', 's'] {
                1
            } else if unit == seq!['m', 's'] {
                1000
            } else {
                1000000
            };
            let step = tenfold(fraction.len()) * resolution_us;
            r * step <= v * us < (r + 1) * step
        },
{
    let text = whole + seq!['.'] + fraction + unit;
    assert forall|i: int| 0 <= i < text.len() implies !is_space(#[trigger] text[i]) && text[i]
        != '_' by {
        if i < whole.len() {
            assert(text[i] == whole[i]);
        } else if i == whole.len() {
            assert(text[i] == '.');
        } else if i < whole.len() + 1 + fraction.len() {
            assert(text[i] == fraction[i - whole.len() - 1]);
        } else {
            assert(text[i] == unit[i - whole.len() - 1 - fraction.len()]);
        }
    }
    lemma_nothing_stripped(text);
    let point = whole.len() as int;
    let end = point + 1 + fraction.len() as int;
    assert forall|i: int| 0 <= i < point implies '0' <= #[trigger] text[i] <= '9' by {
        assert(text[i] == whole[i]);
    }
    assert(text[point] == '.');
    lemma_digits_end(text, 0, point);
    assert forall|i: int| point + 1 <= i < end implies '0' <= #[trigger] text[i] <= '9' by {
        assert(text[i] == fraction[i - point - 1]);
    }
    assert(text[end] == unit[0]);
    lemma_digits_end(text, point + 1, end);
    assert(text.take(point) + text.subrange(point + 1, end) =~= whole + fraction);
    assert(text.skip(end) =~= unit);
    reveal_strlit("us");
    reveal_strlit("ms");
    reveal_strlit("s");
    assert("us"@ =~= seq!['u', 's']);
    assert("ms"@ =~= seq!['m', 's']);
    assert("s"@ =~= seq!['s']);
    assert(seq!['u', 's'].len() == 2 && seq!['s'].len() == 1);
    assert(seq!['u', 's'][0] != seq!['m', 's'][0]);
    lemma_tenfold(fraction.len());
    let us: int = if unit == seq!['u', 's'] {
        1
    } else if unit == seq!['m', 's'] {
        1000
    } else {
        1000000
    };
    let step = tenfold(fraction.len()) * resolution_us;
    assert(step > 0) by (nonlinear_arith)
        requires
            step == tenfold(fraction.len()) * resolution_us,
            tenfold(fraction.len()) >= 1,
            resolution_us > 0,
    ;
    let r = v * us / step;
    assert(time_lit(text, resolution_us) == Some(r));
    assert(r * step <= v * us < (r + 1) * step) by (nonlinear_arith)
        requires
            step > 0,
            r == v * us / step,
    ;
}

// ---- Definitions by a file ----

/// A definition by an EDS file names the file, and has the capacities of its
/// list alone.
pub proof fn lemma_file_definition(t: Seq<Tok>, public: bool, name: Seq<char>, path: Seq<char>)
    requires
        t == (if public {
            seq![Tok::Ident("pub"@)]
        } else {
            Seq::empty()
        }) + seq![
            Tok::Ident("struct"@),
            Tok::Ident(name),
            Tok::Punct('=', false),
            Tok::Literal(path),
            Tok::Punct(';', false),
        ],
        is_name(name),
        string_literal(path) is Some,
    ensures
        eds_definition_of(t) == Ok::<EdsDefinitionView, Flaw>(
            EdsDefinitionView {
                vis: if public {
                    VisibilityView::Public
                } else {
                    VisibilityView::Inherited
                },
                name,
                file_path: string_literal(path)->0,
                capacity_overrides: Seq::empty(),
            },
        ),
{
    let s = if public {
        seq![Tok::Ident("pub"@), Tok::Ident("struct"@), Tok::Ident(name)]
    } else {
        seq![Tok::Ident("struct"@), Tok::Ident(name)]
    };
    assert(stands(t, 0, s)) by {
        reveal(stands);
        assert(t.subrange(0, s.len() as int) =~= s);
    }
    lemma_name_is_read(t, 0, public, name);
    let p: int = s.len() as int;
    assert(t[p] == Tok::Punct('=', false));
    assert(t[p + 1] == Tok::Literal(path));
    assert(t[p + 2] == Tok::Punct(';', false));
    assert(t.len() == p + 3);
}

} // verus!
