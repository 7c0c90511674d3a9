//! The typed methods of an SDO client for a dictionary.

use crate::datatypes::DataType;
use crate::dictionary::definition::{
    data_type, data_type_of, entry_views, is_variable_length, is_variable_length_type, sub_views,
    AccessKind, ArrayView, EntryKind, KindView, OdDefinition, OdEntry, OdEntryView, SubView, Visibility,
};
use crate::ini::{lower_text, lowered};
use crate::text::{
    append_chars, append_hex_filled, append_str, chars_of, hex, string_of, zero_filled,
};
use vstd::prelude::*;

verus! {

/// The type of a value that a method reads or writes.
#[derive(Clone, Copy, Debug, PartialEq, Eq, Structural)]
pub enum ClientType {
    U8,
    U16,
    U32,
    I32,
    F32,
    /// Bytes, for variable-length values.
    Raw,
}

/// What a method does.
#[derive(Clone, Copy, Debug, PartialEq, Eq, Structural)]
pub enum ClientAccess {
    Read,
    Write,
}

/// The subindex that a method accesses.
#[derive(Clone, Copy, Debug, PartialEq, Eq, Structural)]
pub enum ClientSub {
    /// Always this one.
    At(u8),
    /// The caller says which one, from 1 up to this one.
    UpTo(u8),
}

/// A method of an SDO client.
#[derive(Debug)]
pub struct ClientMethod {
    pub name: String,
    pub access: ClientAccess,
    pub index: u16,
    pub sub: ClientSub,
    pub ty: ClientType,
}

#[verifier::ext_equal]
pub struct MethodView {
    pub name: Seq<char>,
    pub access: ClientAccess,
    pub index: u16,
    pub sub: ClientSub,
    pub ty: ClientType,
}

impl View for ClientMethod {
    type V = MethodView;

    open spec fn view(&self) -> MethodView {
        MethodView {
            name: self.name@,
            access: self.access,
            index: self.index,
            sub: self.sub,
            ty: self.ty,
        }
    }
}

/// What methods say, one by one.
pub open spec fn method_views(methods: Seq<ClientMethod>) -> Seq<MethodView> {
    methods.map_values(|m: ClientMethod| m@)
}

/// The type in which values of a named type are read. Small signed integers
/// are read as unsigned ones; there are no methods for wider types.
pub open spec fn read_type(ty: Seq<char>) -> Option<ClientType> {
    match data_type_of(ty) {
        Some(DataType::Boolean) | Some(DataType::U8) | Some(DataType::I8) => Some(ClientType::U8),
        Some(DataType::U16) | Some(DataType::I16) => Some(ClientType::U16),
        Some(DataType::U32) => Some(ClientType::U32),
        Some(DataType::I32) => Some(ClientType::I32),
        Some(DataType::Real32) => Some(ClientType::F32),
        _ => None,
    }
}

/// The type in which values of a named type are written. All signed integers
/// are written as unsigned ones.
pub open spec fn write_type(ty: Seq<char>) -> Option<ClientType> {
    match read_type(ty) {
        Some(ClientType::I32) => Some(ClientType::U32),
        other => other,
    }
}

/// Returns the type of a typed read.
pub fn typed_read_info(ty: &str) -> (r: Option<ClientType>)
    ensures
        r == read_type(ty@),
{
    match data_type(ty) {
        Some(DataType::Boolean) | Some(DataType::U8) | Some(DataType::I8) => Some(ClientType::U8),
        Some(DataType::U16) | Some(DataType::I16) => Some(ClientType::U16),
        Some(DataType::U32) => Some(ClientType::U32),
        Some(DataType::I32) => Some(ClientType::I32),
        Some(DataType::Real32) => Some(ClientType::F32),
        _ => None,
    }
}

/// Returns the type of a typed write.
pub fn typed_write_info(ty: &str) -> (r: Option<ClientType>)
    ensures
        r == write_type(ty@),
{
    match typed_read_info(ty) {
        Some(ClientType::I32) => Some(ClientType::U32),
        other => other,
    }
}

/// A name with the index of its object before it, such as `i1003_`.
pub open spec fn indexed(verb: Seq<char>, index: u16) -> Seq<char> {
    verb + "i"@ + lowered(zero_filled(hex(index as nat), 4)) + "_"@
}

/// A name with the address of its variable before it, such as `i1000_s00_`.
pub open spec fn addressed(verb: Seq<char>, index: u16, sub: u8) -> Seq<char> {
    indexed(verb, index) + "s"@ + lowered(zero_filled(hex(sub as nat), 2)) + "_"@
}

fn hex_digits(n: u64, width: usize) -> (r: Vec<char>)
    ensures
        r@ == lowered(zero_filled(hex(n as nat), width as nat)),
{
    let mut digits: Vec<char> = Vec::new();
    append_hex_filled(&mut digits, n, width);
    assert(digits@ =~= zero_filled(hex(n as nat), width as nat));
    lower_text(digits.as_slice())
}

fn write_indexed(verb: &str, index: u16) -> (r: Vec<char>)
    ensures
        r@ == indexed(verb@, index),
{
    let mut out = chars_of(verb);
    append_str(&mut out, "i");
    let digits = hex_digits(index as u64, 4);
    append_chars(&mut out, digits.as_slice());
    append_str(&mut out, "_");
    out
}

fn write_addressed(verb: &str, index: u16, sub: u8) -> (r: Vec<char>)
    ensures
        r@ == addressed(verb@, index, sub),
{
    let mut out = write_indexed(verb, index);
    append_str(&mut out, "s");
    let digits = hex_digits(sub as u64, 2);
    append_chars(&mut out, digits.as_slice());
    append_str(&mut out, "_");
    out
}

/// The methods for an object: one to read it unless it is write-only, and one
/// to write it if it can be written, each if there is a type for it.
pub open spec fn object_methods(
    index: u16,
    sub: ClientSub,
    read_name: Seq<char>,
    write_name: Seq<char>,
    access: AccessKind,
    read: Option<ClientType>,
    write: Option<ClientType>,
) -> Seq<MethodView> {
    let r = match read {
        Some(ty) if access != AccessKind::Wo => seq![
            MethodView { name: read_name, access: ClientAccess::Read, index, sub, ty },
        ],
        _ => Seq::empty(),
    };
    match write {
        Some(ty) if access == AccessKind::Rw || access == AccessKind::Wo => r.push(
            MethodView { name: write_name, access: ClientAccess::Write, index, sub, ty },
        ),
        _ => r,
    }
}

fn push_methods(
    methods: &mut Vec<ClientMethod>,
    index: u16,
    sub: ClientSub,
    read_name: &Vec<char>,
    write_name: &Vec<char>,
    access: AccessKind,
    read: Option<ClientType>,
    write: Option<ClientType>,
)
    ensures
        method_views(final(methods)@) == method_views(old(methods)@) + object_methods(
            index,
            sub,
            read_name@,
            write_name@,
            access,
            read,
            write,
        ),
{
    let ghost before = method_views(methods@);
    let readable = match access {
        AccessKind::Wo => false,
        _ => true,
    };
    let writable = match access {
        AccessKind::Rw | AccessKind::Wo => true,
        _ => false,
    };
    assert(before =~= before + Seq::<MethodView>::empty());
    if let Some(ty) = read {
        if readable {
            let m = ClientMethod {
                name: string_of(read_name.as_slice()),
                access: ClientAccess::Read,
                index,
                sub,
                ty,
            };
            methods.push(m);
            assert(method_views(methods@) =~= before + seq![m@]);
        }
    }
    let ghost mid = method_views(methods@);
    if let Some(ty) = write {
        if writable {
            let m = ClientMethod {
                name: string_of(write_name.as_slice()),
                access: ClientAccess::Write,
                index,
                sub,
                ty,
            };
            methods.push(m);
            assert(method_views(methods@) =~= mid.push(m@));
        }
    }
    assert(method_views(methods@) =~= before + object_methods(
        index,
        sub,
        read_name@,
        write_name@,
        access,
        read,
        write,
    ));
}

/// The methods for a variable. Variable-length values are read and written as
/// bytes.
pub open spec fn var_methods(index: u16, sub: u8, name: Seq<char>, ty: Seq<char>, access: AccessKind) -> Seq<
    MethodView,
> {
    let raw = is_variable_length(ty);
    object_methods(
        index,
        ClientSub::At(sub),
        addressed("read_"@, index, sub) + name,
        addressed("write_"@, index, sub) + name,
        access,
        if raw {
            Some(ClientType::Raw)
        } else {
            read_type(ty)
        },
        if raw {
            Some(ClientType::Raw)
        } else {
            write_type(ty)
        },
    )
}

fn gen_var_methods(
    methods: &mut Vec<ClientMethod>,
    index: u16,
    sub: u8,
    name: &[char],
    ty: &str,
    access: AccessKind,
)
    ensures
        method_views(final(methods)@) == method_views(old(methods)@) + var_methods(
            index,
            sub,
            name@,
            ty@,
            access,
        ),
{
    let mut read_name = write_addressed("read_", index, sub);
    append_chars(&mut read_name, name);
    let mut write_name = write_addressed("write_", index, sub);
    append_chars(&mut write_name, name);
    let raw = is_variable_length_type(ty);
    let read = if raw {
        Some(ClientType::Raw)
    } else {
        typed_read_info(ty)
    };
    let write = if raw {
        Some(ClientType::Raw)
    } else {
        typed_write_info(ty)
    };
    push_methods(
        methods,
        index,
        ClientSub::At(sub),
        &read_name,
        &write_name,
        access,
        read,
        write,
    );
}

/// The methods for an array, whose elements the caller selects.
pub open spec fn array_methods(index: u16, name: Seq<char>, a: ArrayView) -> Seq<MethodView> {
    object_methods(
        index,
        ClientSub::UpTo((a.count % 0x100) as u8),
        indexed("read_"@, index) + name,
        indexed("write_"@, index) + name,
        a.access,
        read_type(a.element_type),
        write_type(a.element_type),
    )
}

fn gen_array_methods(
    methods: &mut Vec<ClientMethod>,
    index: u16,
    name: &str,
    a: &crate::dictionary::definition::ArrayDef,
)
    ensures
        method_views(final(methods)@) == method_views(old(methods)@) + array_methods(
            index,
            name@,
            a@,
        ),
{
    let mut read_name = write_indexed("read_", index);
    append_str(&mut read_name, name);
    let mut write_name = write_indexed("write_", index);
    append_str(&mut write_name, name);
    push_methods(
        methods,
        index,
        ClientSub::UpTo((a.count % 0x100) as u8),
        &read_name,
        &write_name,
        a.access,
        typed_read_info(a.element_type.as_str()),
        typed_write_info(a.element_type.as_str()),
    );
}

/// The methods for the first `n` members of a record.
pub open spec fn record_methods(index: u16, name: Seq<char>, subs: Seq<SubView>, n: int) -> Seq<
    MethodView,
>
    decreases n,
{
    if n <= 0 || n > subs.len() {
        Seq::empty()
    } else {
        let s = subs[n - 1];
        record_methods(index, name, subs, n - 1) + var_methods(
            index,
            s.subindex,
            name + "_"@ + s.name,
            s.var.ty,
            s.var.access,
        )
    }
}

/// The methods for an entry.
pub open spec fn entry_methods(e: OdEntryView) -> Seq<MethodView> {
    match e.kind {
        KindView::Var(v) => var_methods(e.index, 0, e.name, v.ty, v.access),
        KindView::Record(subs) => record_methods(e.index, e.name, subs, subs.len() as int),
        KindView::Array(a) => array_methods(e.index, e.name, a),
    }
}

/// The methods for the first `n` entries.
pub open spec fn methods_of(entries: Seq<OdEntryView>, n: int) -> Seq<MethodView>
    decreases n,
{
    if n <= 0 || n > entries.len() {
        Seq::empty()
    } else {
        methods_of(entries, n - 1) + entry_methods(entries[n - 1])
    }
}

fn gen_entry_methods(methods: &mut Vec<ClientMethod>, entry: &OdEntry)
    ensures
        method_views(final(methods)@) == method_views(old(methods)@) + entry_methods(entry@),
{
    match &entry.kind {
        EntryKind::Var(var) => {
            let name = chars_of(entry.name.as_str());
            gen_var_methods(
                methods,
                entry.index,
                0,
                name.as_slice(),
                var.ty.as_str(),
                var.access,
            );
        },
        EntryKind::Record(subs) => {
            let ghost before = method_views(methods@);
            let ghost views = sub_views(subs@);
            let mut k: usize = 0;
            assert(before =~= before + Seq::<MethodView>::empty());
            while k < subs.len()
                invariant
                    k <= subs@.len(),
                    views == sub_views(subs@),
                    method_views(methods@) == before + record_methods(
                        entry.index,
                        entry.name@,
                        views,
                        k as int,
                    ),
                decreases subs@.len() - k,
            {
                let sub = &subs[k];
                assert(views[k as int] == sub@);
                let mut name = chars_of(entry.name.as_str());
                append_str(&mut name, "_");
                append_str(&mut name, sub.name.as_str());
                let ghost here = method_views(methods@);
                gen_var_methods(
                    methods,
                    entry.index,
                    sub.subindex,
                    name.as_slice(),
                    sub.var.ty.as_str(),
                    sub.var.access,
                );
                k += 1;
                assert(method_views(methods@) =~= before + record_methods(
                    entry.index,
                    entry.name@,
                    views,
                    k as int,
                ));
            }
        },
        EntryKind::Array(a) => {
            gen_array_methods(methods, entry.index, entry.name.as_str(), a);
        },
    }
}

/// A typed SDO client.
#[derive(Debug)]
pub struct SdoClientDef {
    pub vis: Visibility,
    pub name: String,
    pub methods: Vec<ClientMethod>,
}

/// List the methods of the SDO client for a dictionary.
pub fn generate(od: &OdDefinition) -> (r: SdoClientDef)
    ensures
        r.vis@ == od@.vis,
        r.name@ == od@.name,
        method_views(r.methods@) == methods_of(od@.entries, od@.entries.len() as int),
{
    let ghost views = entry_views(od.entries@);
    let mut methods: Vec<ClientMethod> = Vec::new();
    let mut i: usize = 0;
    assert(method_views(methods@) =~= Seq::<MethodView>::empty());
    while i < od.entries.len()
        invariant
            i <= od.entries@.len(),
            views == entry_views(od.entries@),
            method_views(methods@) == methods_of(views, i as int),
        decreases od.entries@.len() - i,
    {
        assert(views[i as int] == od.entries@[i as int]@);
        gen_entry_methods(&mut methods, &od.entries[i]);
        i += 1;
    }
    SdoClientDef { vis: od.vis.copied(), name: od.name.clone(), methods }
}

} // verus!
