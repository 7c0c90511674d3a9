//! Node identifiers and COB-IDs of the pre-defined connection set.

use vstd::prelude::*;

verus! {

/// 7-bit CANopen node ID (1..=127).
#[derive(Clone, Copy, Debug, PartialEq, Eq, PartialOrd, Ord, Hash, Structural)]
pub struct NodeId(u8);

impl NodeId {
    #[verifier::type_invariant]
    spec fn in_range(self) -> bool {
        1 <= self.0 <= 127
    }

    /// The raw node ID, for use in contracts.
    pub closed spec fn spec_raw(self) -> u8 {
        self.0
    }

    /// The node ID with the given raw value, for use in contracts.
    pub closed spec fn of_raw(id: u8) -> Self {
        NodeId(id)
    }

    pub fn new(id: u8) -> (r: Option<Self>)
        ensures
            r == (if 1 <= id <= 127 { Some(Self::of_raw(id)) } else { None }),
            r matches Some(n) ==> n.raw() == id,
    {
        if id >= 1 && id <= 127 {
            Some(Self(id))
        } else {
            None
        }
    }

    #[verifier::when_used_as_spec(spec_raw)]
    pub fn raw(self) -> (r: u8)
        ensures
            r == self.raw(),
            1 <= r <= 127,
            Self::of_raw(r) == self,
    {
        proof {
            use_type_invariant(self);
        }
        self.0
    }
}

/// A node ID is determined by its raw value.
pub broadcast proof fn lemma_node_id_of_raw(n: NodeId)
    ensures
        NodeId::of_raw(#[trigger] n.raw()) == n,
{
}

/// The raw value of a node ID is the value that it was made of.
pub broadcast proof fn lemma_node_id_raw_of(id: u8)
    ensures
        #[trigger] NodeId::of_raw(id).raw() == id,
{
}

/// Declares the outside type for a standard 11-bit identifier.
#[verifier::external_type_specification]
#[verifier::external_body]
pub struct ExStandardId(embedded_can::StandardId);

/// What `embedded_can::StandardId::new` returns for a raw identifier.
pub uninterp spec fn standard_id(raw: u16) -> Option<embedded_can::StandardId>;

/// Calls `embedded_can::StandardId::new`, which yields an identifier exactly
/// for the raw values of 11 bits and always the same one for the same value.
#[verifier::external_body]
fn make_standard_id(raw: u16) -> (r: Option<embedded_can::StandardId>)
    ensures
        r == standard_id(raw),
        r is Some <==> raw <= 0x7FF,
{
    embedded_can::StandardId::new(raw)
}

/// A parsed 11-bit CANopen COB-ID.
#[derive(Clone, Copy, Debug, PartialEq, Eq, Structural)]
pub struct CobId(u16);

/// Semantic interpretation of a COB-ID.
#[derive(Clone, Copy, Debug, PartialEq, Eq, Structural)]
pub enum ParsedCobId {
    Nmt,
    Sync,
    Emergency(NodeId),
    Tpdo { pdo_num: u8, node: NodeId },
    Rpdo { pdo_num: u8, node: NodeId },
    SdoResponse(NodeId),
    SdoRequest(NodeId),
    Heartbeat(NodeId),
    Unknown(u16),
}

/// The node that a COB-ID addresses: its distance from the start of the block
/// of 128 identifiers that it lies in.
pub open spec fn cob_node(raw: u16) -> NodeId {
    NodeId::of_raw((raw % 0x80) as u8)
}

/// What a raw identifier means in the pre-defined connection set. The
/// identifiers come in blocks of 128, one per function; within a block the
/// offset is the node, and offset 0 addresses no node.
pub open spec fn parse_cob(raw: u16) -> ParsedCobId {
    let block = raw / 0x80;
    if raw == 0 {
        ParsedCobId::Nmt
    } else if raw == 0x80 {
        ParsedCobId::Sync
    } else if raw % 0x80 == 0 {
        ParsedCobId::Unknown(raw)
    } else if block == 1 {
        ParsedCobId::Emergency(cob_node(raw))
    } else if 3 <= block <= 10 && block % 2 == 1 {
        ParsedCobId::Tpdo { pdo_num: ((block - 3) / 2) as u8, node: cob_node(raw) }
    } else if 3 <= block <= 10 {
        ParsedCobId::Rpdo { pdo_num: ((block - 4) / 2) as u8, node: cob_node(raw) }
    } else if block == 11 {
        ParsedCobId::SdoResponse(cob_node(raw))
    } else if block == 12 {
        ParsedCobId::SdoRequest(cob_node(raw))
    } else if block == 14 {
        ParsedCobId::Heartbeat(cob_node(raw))
    } else {
        ParsedCobId::Unknown(raw)
    }
}

impl CobId {
    #[verifier::type_invariant]
    spec fn in_range(self) -> bool {
        self.0 <= 0x7FF
    }

    /// The raw identifier, for use in contracts.
    pub closed spec fn spec_raw(self) -> u16 {
        self.0
    }

    /// The COB-ID with the given raw value, for use in contracts.
    pub closed spec fn of_raw(raw: u16) -> Self {
        CobId(raw)
    }

    pub fn new(raw: u16) -> (r: Option<Self>)
        ensures
            r == (if raw <= 0x7FF { Some(Self::of_raw(raw)) } else { None }),
            r matches Some(c) ==> c.raw() == raw,
    {
        if raw <= 0x7FF {
            Some(Self(raw))
        } else {
            None
        }
    }

    #[verifier::when_used_as_spec(spec_raw)]
    pub fn raw(self) -> (r: u16)
        ensures
            r == self.raw(),
            r <= 0x7FF,
            Self::of_raw(r) == self,
    {
        proof {
            use_type_invariant(self);
        }
        self.0
    }

    /// The identifier in the form that CAN drivers take.
    pub fn to_standard_id(self) -> (r: embedded_can::StandardId)
        ensures
            standard_id(self.raw()) == Some(r),
    {
        proof {
            use_type_invariant(self);
        }
        make_standard_id(self.0).unwrap()
    }

    /// Interpret the identifier in the pre-defined connection set.
    pub fn parse(self) -> (r: ParsedCobId)
        ensures
            r == parse_cob(self.raw()),
    {
        proof {
            use_type_invariant(self);
        }
        let raw: u16 = self.0;
        match NodeId::new((raw % 0x80) as u8) {
            None => {
                if raw == 0 {
                    ParsedCobId::Nmt
                } else if raw == 0x80 {
                    ParsedCobId::Sync
                } else {
                    ParsedCobId::Unknown(raw)
                }
            },
            Some(node) => match raw / 0x80 {
                1 => ParsedCobId::Emergency(node),
                3 => ParsedCobId::Tpdo { pdo_num: 0, node },
                4 => ParsedCobId::Rpdo { pdo_num: 0, node },
                5 => ParsedCobId::Tpdo { pdo_num: 1, node },
                6 => ParsedCobId::Rpdo { pdo_num: 1, node },
                7 => ParsedCobId::Tpdo { pdo_num: 2, node },
                8 => ParsedCobId::Rpdo { pdo_num: 2, node },
                9 => ParsedCobId::Tpdo { pdo_num: 3, node },
                10 => ParsedCobId::Rpdo { pdo_num: 3, node },
                11 => ParsedCobId::SdoResponse(node),
                12 => ParsedCobId::SdoRequest(node),
                14 => ParsedCobId::Heartbeat(node),
                _ => ParsedCobId::Unknown(raw),
            },
        }
    }
}

/// COB-ID construction helpers.
impl CobId {
    pub fn nmt() -> (r: Self)
        ensures
            r.raw() == 0x000,
    {
        Self(0x000)
    }

    pub fn sync() -> (r: Self)
        ensures
            r.raw() == 0x080,
    {
        Self(0x080)
    }

    pub fn emergency(node: NodeId) -> (r: Self)
        ensures
            r.raw() == 0x080 + node.raw(),
    {
        Self(0x080 + node.raw() as u16)
    }

    /// TPDO `pdo_num` (0-based) of a node; numbers above 3 stand for TPDO 0.
    pub fn tpdo(pdo_num: u8, node: NodeId) -> (r: Self)
        ensures
            r.raw() == (if pdo_num <= 3 { 0x180 + 0x100 * pdo_num } else { 0x180 }) + node.raw(),
    {
        let base: u16 = match pdo_num {
            0 => 0x180,
            1 => 0x280,
            2 => 0x380,
            3 => 0x480,
            _ => 0x180,
        };
        Self(base + node.raw() as u16)
    }

    /// RPDO `pdo_num` (0-based) of a node; numbers above 3 stand for RPDO 0.
    pub fn rpdo(pdo_num: u8, node: NodeId) -> (r: Self)
        ensures
            r.raw() == (if pdo_num <= 3 { 0x200 + 0x100 * pdo_num } else { 0x200 }) + node.raw(),
    {
        let base: u16 = match pdo_num {
            0 => 0x200,
            1 => 0x300,
            2 => 0x400,
            3 => 0x500,
            _ => 0x200,
        };
        Self(base + node.raw() as u16)
    }

    pub fn sdo_tx(node: NodeId) -> (r: Self)
        ensures
            r.raw() == 0x580 + node.raw(),
    {
        Self(0x580 + node.raw() as u16)
    }

    pub fn sdo_rx(node: NodeId) -> (r: Self)
        ensures
            r.raw() == 0x600 + node.raw(),
    {
        Self(0x600 + node.raw() as u16)
    }

    pub fn heartbeat(node: NodeId) -> (r: Self)
        ensures
            r.raw() == 0x700 + node.raw(),
    {
        Self(0x700 + node.raw() as u16)
    }
}

/// Parsing the COB-ID that a construction helper makes gives back the
/// function and the node that it was made for.
pub proof fn lemma_construct_then_parse(node: NodeId, pdo_num: u8)
    requires
        1 <= node.raw() <= 127,
        pdo_num <= 3,
    ensures
        parse_cob(0x000) == ParsedCobId::Nmt,
        parse_cob(0x080) == ParsedCobId::Sync,
        parse_cob((0x080 + node.raw()) as u16) == ParsedCobId::Emergency(node),
        parse_cob((0x180 + 0x100 * pdo_num + node.raw()) as u16) == (ParsedCobId::Tpdo {
            pdo_num,
            node,
        }),
        parse_cob((0x200 + 0x100 * pdo_num + node.raw()) as u16) == (ParsedCobId::Rpdo {
            pdo_num,
            node,
        }),
        parse_cob((0x580 + node.raw()) as u16) == ParsedCobId::SdoResponse(node),
        parse_cob((0x600 + node.raw()) as u16) == ParsedCobId::SdoRequest(node),
        parse_cob((0x700 + node.raw()) as u16) == ParsedCobId::Heartbeat(node),
{
    broadcast use lemma_node_id_of_raw;

}

/// No two functions or nodes of the pre-defined connection set share an
/// identifier: an identifier that parses to anything but `Unknown` is
/// determined by what it parses to.
pub proof fn lemma_parse_is_injective(a: u16, b: u16)
    requires
        a <= 0x7FF,
        b <= 0x7FF,
        parse_cob(a) == parse_cob(b),
    ensures
        a == b,
{
    broadcast use lemma_node_id_raw_of;

    assert(cob_node(a).raw() == a % 0x80);
    assert(cob_node(b).raw() == b % 0x80);
}

} // verus!
