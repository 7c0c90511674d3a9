//! CANopen data types.

use vstd::prelude::*;

verus! {

/// CANopen data types (CiA 301).
#[derive(Clone, Copy, Debug, PartialEq, Eq, Structural)]
pub enum DataType {
    Boolean,
    I8,
    I16,
    I24,
    I32,
    U8,
    U16,
    U24,
    U32,
    Real32,
    VisibleString,
    OctetString,
    Domain,
    Real64,
    I64,
    U64,
}

impl DataType {
    /// The CiA 301 code of the type, for use in contracts.
    pub open spec fn spec_code(self) -> u16 {
        match self {
            DataType::Boolean => 0x0001,
            DataType::I8 => 0x0002,
            DataType::I16 => 0x0003,
            DataType::I32 => 0x0004,
            DataType::U8 => 0x0005,
            DataType::U16 => 0x0006,
            DataType::U32 => 0x0007,
            DataType::Real32 => 0x0008,
            DataType::VisibleString => 0x0009,
            DataType::OctetString => 0x000A,
            DataType::Domain => 0x000F,
            DataType::I24 => 0x0010,
            DataType::Real64 => 0x0011,
            DataType::I64 => 0x0015,
            DataType::U24 => 0x0016,
            DataType::U64 => 0x001B,
        }
    }

    /// The size in bytes of a value of the type, for use in contracts.
    pub open spec fn spec_size(self) -> Option<usize> {
        match self {
            DataType::Boolean | DataType::U8 | DataType::I8 => Some(1),
            DataType::U16 | DataType::I16 => Some(2),
            DataType::U24 | DataType::I24 => Some(3),
            DataType::U32 | DataType::I32 | DataType::Real32 => Some(4),
            DataType::U64 | DataType::I64 | DataType::Real64 => Some(8),
            DataType::VisibleString | DataType::OctetString | DataType::Domain => None,
        }
    }

    /// The CiA 301 code of the type.
    pub fn code(self) -> (r: u16)
        ensures
            r == self.spec_code(),
    {
        match self {
            DataType::Boolean => 0x0001,
            DataType::I8 => 0x0002,
            DataType::I16 => 0x0003,
            DataType::I32 => 0x0004,
            DataType::U8 => 0x0005,
            DataType::U16 => 0x0006,
            DataType::U32 => 0x0007,
            DataType::Real32 => 0x0008,
            DataType::VisibleString => 0x0009,
            DataType::OctetString => 0x000A,
            DataType::Domain => 0x000F,
            DataType::I24 => 0x0010,
            DataType::Real64 => 0x0011,
            DataType::I64 => 0x0015,
            DataType::U24 => 0x0016,
            DataType::U64 => 0x001B,
        }
    }

    /// Size in bytes for fixed-size types. Returns None for variable-length types.
    pub fn size(self) -> (r: Option<usize>)
        ensures
            r == self.spec_size(),
    {
        match self {
            DataType::Boolean | DataType::U8 | DataType::I8 => Some(1),
            DataType::U16 | DataType::I16 => Some(2),
            DataType::U24 | DataType::I24 => Some(3),
            DataType::U32 | DataType::I32 | DataType::Real32 => Some(4),
            DataType::U64 | DataType::I64 | DataType::Real64 => Some(8),
            DataType::VisibleString | DataType::OctetString | DataType::Domain => None,
        }
    }

    /// Parse from the u16 code used in EDS files.
    pub fn from_code(code: u16) -> (r: Option<Self>)
        ensures
            r matches Some(t) ==> t.spec_code() == code,
            r is None ==> forall|t: DataType| t.spec_code() != code,
    {
        match code {
            0x0001 => Some(DataType::Boolean),
            0x0002 => Some(DataType::I8),
            0x0003 => Some(DataType::I16),
            0x0004 => Some(DataType::I32),
            0x0005 => Some(DataType::U8),
            0x0006 => Some(DataType::U16),
            0x0007 => Some(DataType::U32),
            0x0008 => Some(DataType::Real32),
            0x0009 => Some(DataType::VisibleString),
            0x000A => Some(DataType::OctetString),
            0x000F => Some(DataType::Domain),
            0x0010 => Some(DataType::I24),
            0x0011 => Some(DataType::Real64),
            0x0015 => Some(DataType::I64),
            0x0016 => Some(DataType::U24),
            0x001B => Some(DataType::U64),
            _ => None,
        }
    }
}

/// Different types have different codes, so a type's code decodes to the type.
pub proof fn lemma_codes_are_distinct(a: DataType, b: DataType)
    requires
        a.spec_code() == b.spec_code(),
    ensures
        a == b,
{
}

} // verus!
