//! Definitions of object dictionaries.

use crate::datatypes::DataType;
use crate::text::{chars_of, is_text};
use vstd::prelude::*;

verus! {

/// Access over the bus that an entry is defined with.
#[derive(Clone, Copy, Debug, PartialEq, Eq, Structural)]
pub enum AccessKind {
    Ro,
    Rw,
    Wo,
    Const,
}

/// The direction of a PDO.
#[derive(Clone, Copy, Debug, PartialEq, Eq, Structural)]
pub enum PdoDirection {
    Tpdo,
    Rpdo,
}

/// Whether the mapping of a PDO can be changed at runtime.
#[derive(Clone, Copy, Debug, PartialEq, Eq, Structural)]
pub enum MappingKind {
    /// Dynamic mapping: setting the count to 0 unlocks the entries.
    Mutable,
    /// The mapping is a device invariant; its record is const.
    Immutable,
}

/// The COB-ID of a communication object.
#[derive(Clone, Copy, Debug, PartialEq, Eq, Structural)]
pub enum CobIdSpec {
    /// The same on every node.
    Absolute(u32),
    /// This base plus the node ID.
    NodeRelative(u32),
}

/// A variable: its type, default and access.
#[derive(Debug)]
pub struct VarDef {
    /// Name of the type, such as `u16` or `visible_string`.
    pub ty: String,
    /// Capacity for variable-length types (e.g. `visible_string<32>`).
    pub capacity: Option<usize>,
    /// The default, as it is written.
    pub default_value: Option<String>,
    /// The bit pattern of the default where it is a real number in decimal
    /// notation, resolved by whoever read the text.
    pub real_bits: Option<u64>,
    pub access: AccessKind,
    pub pdo_mappable: bool,
}

/// A variable at a subindex of a record.
#[derive(Debug)]
pub struct SubEntry {
    pub subindex: u8,
    pub name: String,
    pub var: VarDef,
}

/// An array of equal elements.
#[derive(Debug)]
pub struct ArrayDef {
    pub element_type: String,
    pub count: usize,
    pub access: AccessKind,
    pub pdo_mappable: bool,
}

/// What an entry is.
#[derive(Debug)]
pub enum EntryKind {
    Var(VarDef),
    Record(Vec<SubEntry>),
    Array(ArrayDef),
}

/// A single entry (either a VAR or a RECORD/ARRAY with sub-entries).
#[derive(Debug)]
pub struct OdEntry {
    pub index: u16,
    pub name: String,
    pub kind: EntryKind,
}

/// What one mapping entry of a PDO refers to.
#[derive(Debug)]
pub enum PdoField {
    /// A variable or record member, with the size of its type.
    Named(String),
    /// A mapping value (0xIIIISSLL) that is kept as it is.
    Raw(u32),
}

/// Definition of one PDO.
#[derive(Debug)]
pub struct PdoDef {
    pub direction: PdoDirection,
    /// CANopen PDO number (TPDO1 = 1).
    pub number: u16,
    /// `None` = the predefined default.
    pub cob_id: Option<CobIdSpec>,
    pub transmission_type: u8,
    /// Inhibit time in units of 100us (TPDO only).
    pub inhibit_time: u16,
    /// Event timer in ms: the reception deadline of an RPDO.
    pub event_timer: u16,
    pub mapping: MappingKind,
    /// The mapped objects, in the order in which they fill the frame.
    pub mappings: Vec<PdoField>,
}

/// Definition of an additional SDO server (`sdo_server[2]` is 0x1201).
#[derive(Clone, Copy, Debug, PartialEq, Eq, Structural)]
pub struct SdoServerDef {
    pub number: u16,
    /// Client to server.
    pub cob_rx: CobIdSpec,
    /// Server to client.
    pub cob_tx: CobIdSpec,
}

/// Who sees the defined type.
#[derive(Debug, PartialEq, Eq)]
pub enum Visibility {
    /// The module of the definition.
    Inherited,
    Public,
    /// `pub` with what stands in the parentheses behind it, such as `crate`.
    Restricted(String),
}

pub enum VisibilityView {
    Inherited,
    Public,
    Restricted(Seq<char>),
}

impl View for Visibility {
    type V = VisibilityView;

    open spec fn view(&self) -> VisibilityView {
        match self {
            Visibility::Inherited => VisibilityView::Inherited,
            Visibility::Public => VisibilityView::Public,
            Visibility::Restricted(s) => VisibilityView::Restricted(s@),
        }
    }
}

impl Visibility {
    /// The same visibility once more.
    pub fn copied(&self) -> (r: Visibility)
        ensures
            r@ == self@,
    {
        match self {
            Visibility::Inherited => Visibility::Inherited,
            Visibility::Public => Visibility::Public,
            Visibility::Restricted(s) => Visibility::Restricted(s.clone()),
        }
    }
}

/// The definition of an object dictionary.
#[derive(Debug)]
pub struct OdDefinition {
    pub vis: Visibility,
    pub name: String,
    pub entries: Vec<OdEntry>,
    pub pdos: Vec<PdoDef>,
    pub sdo_servers: Vec<SdoServerDef>,
    /// If set, where to export the dictionary as an EDS file.
    pub export_eds_path: Option<String>,
    /// If true, variable-length entries need no capacity.
    pub use_alloc: bool,
    /// If set, name of the function that validates writes.
    pub validate_write_fn: Option<String>,
}

// ---- What definitions say ----

#[verifier::ext_equal]
pub struct VarView {
    pub ty: Seq<char>,
    pub capacity: Option<usize>,
    pub default_value: Option<Seq<char>>,
    pub real_bits: Option<u64>,
    pub access: AccessKind,
    pub pdo_mappable: bool,
}

#[verifier::ext_equal]
pub struct SubView {
    pub subindex: u8,
    pub name: Seq<char>,
    pub var: VarView,
}

#[verifier::ext_equal]
pub struct ArrayView {
    pub element_type: Seq<char>,
    pub count: usize,
    pub access: AccessKind,
    pub pdo_mappable: bool,
}

#[verifier::ext_equal]
pub enum KindView {
    Var(VarView),
    Record(Seq<SubView>),
    Array(ArrayView),
}

#[verifier::ext_equal]
pub struct OdEntryView {
    pub index: u16,
    pub name: Seq<char>,
    pub kind: KindView,
}

#[verifier::ext_equal]
pub enum FieldView {
    Named(Seq<char>),
    Raw(u32),
}

#[verifier::ext_equal]
pub struct PdoDefView {
    pub direction: PdoDirection,
    pub number: u16,
    pub cob_id: Option<CobIdSpec>,
    pub transmission_type: u8,
    pub inhibit_time: u16,
    pub event_timer: u16,
    pub mapping: MappingKind,
    pub mappings: Seq<FieldView>,
}

#[verifier::ext_equal]
pub struct DefinitionView {
    pub vis: VisibilityView,
    pub name: Seq<char>,
    pub entries: Seq<OdEntryView>,
    pub pdos: Seq<PdoDefView>,
    pub sdo_servers: Seq<SdoServerDef>,
    pub export_eds_path: Option<Seq<char>>,
    pub use_alloc: bool,
    pub validate_write_fn: Option<Seq<char>>,
}

/// The text of an optional string.
pub open spec fn text_view(s: Option<String>) -> Option<Seq<char>> {
    match s {
        Some(t) => Some(t@),
        None => None,
    }
}

impl View for VarDef {
    type V = VarView;

    open spec fn view(&self) -> VarView {
        VarView {
            ty: self.ty@,
            capacity: self.capacity,
            default_value: text_view(self.default_value),
            real_bits: self.real_bits,
            access: self.access,
            pdo_mappable: self.pdo_mappable,
        }
    }
}

impl View for SubEntry {
    type V = SubView;

    open spec fn view(&self) -> SubView {
        SubView { subindex: self.subindex, name: self.name@, var: self.var@ }
    }
}

impl View for ArrayDef {
    type V = ArrayView;

    open spec fn view(&self) -> ArrayView {
        ArrayView {
            element_type: self.element_type@,
            count: self.count,
            access: self.access,
            pdo_mappable: self.pdo_mappable,
        }
    }
}

/// What record members say, one by one.
pub open spec fn sub_views(subs: Seq<SubEntry>) -> Seq<SubView> {
    subs.map_values(|s: SubEntry| s@)
}

impl View for EntryKind {
    type V = KindView;

    open spec fn view(&self) -> KindView {
        match self {
            EntryKind::Var(v) => KindView::Var(v@),
            EntryKind::Record(subs) => KindView::Record(sub_views(subs@)),
            EntryKind::Array(a) => KindView::Array(a@),
        }
    }
}

impl View for OdEntry {
    type V = OdEntryView;

    open spec fn view(&self) -> OdEntryView {
        OdEntryView { index: self.index, name: self.name@, kind: self.kind@ }
    }
}

/// What entries say, one by one.
pub open spec fn entry_views(entries: Seq<OdEntry>) -> Seq<OdEntryView> {
    entries.map_values(|e: OdEntry| e@)
}

impl View for PdoField {
    type V = FieldView;

    open spec fn view(&self) -> FieldView {
        match self {
            PdoField::Named(n) => FieldView::Named(n@),
            PdoField::Raw(v) => FieldView::Raw(*v),
        }
    }
}

/// What mapping entries refer to, one by one.
pub open spec fn field_views(fields: Seq<PdoField>) -> Seq<FieldView> {
    fields.map_values(|f: PdoField| f@)
}

impl View for PdoDef {
    type V = PdoDefView;

    open spec fn view(&self) -> PdoDefView {
        PdoDefView {
            direction: self.direction,
            number: self.number,
            cob_id: self.cob_id,
            transmission_type: self.transmission_type,
            inhibit_time: self.inhibit_time,
            event_timer: self.event_timer,
            mapping: self.mapping,
            mappings: field_views(self.mappings@),
        }
    }
}

/// What PDO definitions say, one by one.
pub open spec fn pdo_views(pdos: Seq<PdoDef>) -> Seq<PdoDefView> {
    pdos.map_values(|p: PdoDef| p@)
}

impl View for OdDefinition {
    type V = DefinitionView;

    open spec fn view(&self) -> DefinitionView {
        DefinitionView {
            vis: self.vis@,
            name: self.name@,
            entries: entry_views(self.entries@),
            pdos: pdo_views(self.pdos@),
            sdo_servers: self.sdo_servers@,
            export_eds_path: text_view(self.export_eds_path),
            use_alloc: self.use_alloc,
            validate_write_fn: text_view(self.validate_write_fn),
        }
    }
}

impl Clone for VarDef {
    fn clone(&self) -> (r: Self)
        ensures
            r@ == self@,
    {
        VarDef {
            ty: self.ty.clone(),
            capacity: self.capacity,
            default_value: match &self.default_value {
                Some(t) => Some(t.clone()),
                None => None,
            },
            real_bits: self.real_bits,
            access: self.access,
            pdo_mappable: self.pdo_mappable,
        }
    }
}

// ---- Types ----

/// The data type that a type name stands for.
pub open spec fn data_type_of(ty: Seq<char>) -> Option<DataType> {
    if ty == "bool"@ {
        Some(DataType::Boolean)
    } else if ty == "u8"@ {
        Some(DataType::U8)
    } else if ty == "u16"@ {
        Some(DataType::U16)
    } else if ty == "u24"@ {
        Some(DataType::U24)
    } else if ty == "u32"@ {
        Some(DataType::U32)
    } else if ty == "u64"@ {
        Some(DataType::U64)
    } else if ty == "i8"@ {
        Some(DataType::I8)
    } else if ty == "i16"@ {
        Some(DataType::I16)
    } else if ty == "i24"@ {
        Some(DataType::I24)
    } else if ty == "i32"@ {
        Some(DataType::I32)
    } else if ty == "i64"@ {
        Some(DataType::I64)
    } else if ty == "f32"@ {
        Some(DataType::Real32)
    } else if ty == "f64"@ {
        Some(DataType::Real64)
    } else if ty == "visible_string"@ {
        Some(DataType::VisibleString)
    } else if ty == "octet_string"@ {
        Some(DataType::OctetString)
    } else if ty == "domain"@ {
        Some(DataType::Domain)
    } else {
        None
    }
}

/// The data type that a type name stands for.
pub fn data_type(ty: &str) -> (r: Option<DataType>)
    ensures
        r == data_type_of(ty@),
{
    let t = chars_of(ty);
    let s = t.as_slice();
    if is_text(s, "bool") {
        Some(DataType::Boolean)
    } else if is_text(s, "u8") {
        Some(DataType::U8)
    } else if is_text(s, "u16") {
        Some(DataType::U16)
    } else if is_text(s, "u24") {
        Some(DataType::U24)
    } else if is_text(s, "u32") {
        Some(DataType::U32)
    } else if is_text(s, "u64") {
        Some(DataType::U64)
    } else if is_text(s, "i8") {
        Some(DataType::I8)
    } else if is_text(s, "i16") {
        Some(DataType::I16)
    } else if is_text(s, "i24") {
        Some(DataType::I24)
    } else if is_text(s, "i32") {
        Some(DataType::I32)
    } else if is_text(s, "i64") {
        Some(DataType::I64)
    } else if is_text(s, "f32") {
        Some(DataType::Real32)
    } else if is_text(s, "f64") {
        Some(DataType::Real64)
    } else if is_text(s, "visible_string") {
        Some(DataType::VisibleString)
    } else if is_text(s, "octet_string") {
        Some(DataType::OctetString)
    } else if is_text(s, "domain") {
        Some(DataType::Domain)
    } else {
        None
    }
}

/// The name of a data type in `DataType`.
pub open spec fn variant_name(t: DataType) -> Seq<char> {
    match t {
        DataType::Boolean => "Boolean"@,
        DataType::U8 => "U8"@,
        DataType::U16 => "U16"@,
        DataType::U24 => "U24"@,
        DataType::U32 => "U32"@,
        DataType::U64 => "U64"@,
        DataType::I8 => "I8"@,
        DataType::I16 => "I16"@,
        DataType::I24 => "I24"@,
        DataType::I32 => "I32"@,
        DataType::I64 => "I64"@,
        DataType::Real32 => "Real32"@,
        DataType::Real64 => "Real64"@,
        DataType::VisibleString => "VisibleString"@,
        DataType::OctetString => "OctetString"@,
        DataType::Domain => "Domain"@,
    }
}

/// The name in `DataType` of the data type that a type name stands for.
pub fn type_to_datatype(ty: &str) -> (r: Option<&'static str>)
    ensures
        match r {
            Some(n) => data_type_of(ty@) matches Some(t) && n@ == variant_name(t),
            None => data_type_of(ty@) is None,
        },
{
    match data_type(ty) {
        Some(DataType::Boolean) => Some("Boolean"),
        Some(DataType::U8) => Some("U8"),
        Some(DataType::U16) => Some("U16"),
        Some(DataType::U24) => Some("U24"),
        Some(DataType::U32) => Some("U32"),
        Some(DataType::U64) => Some("U64"),
        Some(DataType::I8) => Some("I8"),
        Some(DataType::I16) => Some("I16"),
        Some(DataType::I24) => Some("I24"),
        Some(DataType::I32) => Some("I32"),
        Some(DataType::I64) => Some("I64"),
        Some(DataType::Real32) => Some("Real32"),
        Some(DataType::Real64) => Some("Real64"),
        Some(DataType::VisibleString) => Some("VisibleString"),
        Some(DataType::OctetString) => Some("OctetString"),
        Some(DataType::Domain) => Some("Domain"),
        None => None,
    }
}

/// The size in bytes of a value of a named type.
pub open spec fn size_of_type(ty: Seq<char>) -> Option<usize> {
    match data_type_of(ty) {
        Some(t) => t.spec_size(),
        None => None,
    }
}

/// Map type names to byte sizes. Returns `None` for variable-length types.
pub fn type_size(ty: &str) -> (r: Option<usize>)
    ensures
        r == size_of_type(ty@),
{
    match data_type(ty) {
        Some(t) => t.size(),
        None => None,
    }
}

/// A named type is variable-length.
pub open spec fn is_variable_length(ty: Seq<char>) -> bool {
    data_type_of(ty) matches Some(t) && t.spec_size() is None
}

/// Returns true if the type is variable-length (needs capacity parameter).
pub fn is_variable_length_type(ty: &str) -> (r: bool)
    ensures
        r == is_variable_length(ty@),
{
    match data_type(ty) {
        Some(t) => t.size().is_none(),
        None => false,
    }
}

} // verus!
