//! The object dictionary as the protocol services see it.

use crate::cobid::NodeId;
use crate::datatypes::DataType;
use vstd::prelude::*;

verus! {

/// How an entry may be accessed over the bus.
#[derive(Clone, Copy, Debug, PartialEq, Eq, Structural)]
pub enum AccessType {
    Ro,
    Rw,
    Wo,
    Const,
}

/// Why an access to an entry failed.
#[derive(Clone, Copy, Debug, PartialEq, Eq, Structural)]
pub enum OdError {
    NotFound,
    ReadOnly,
    WriteOnly,
    DataTypeMismatch,
    ValueTooLong,
    ValueRange,
    HardwareError,
}

/// Description of one entry.
#[derive(Clone, Debug)]
pub struct OdEntryMeta {
    pub index: u16,
    pub subindex: u8,
    pub data_type: DataType,
    pub access: AccessType,
    pub pdo_mappable: bool,
    pub name: String,
    /// Largest size in bytes of a variable-length entry, if it has one.
    pub max_size: Option<u16>,
}

/// What changed an entry.
#[derive(Clone, Copy, Debug, PartialEq, Eq, Structural)]
pub enum OdEventSource {
    /// An SDO download.
    Sdo,
    /// A received PDO.
    Rpdo,
    /// The reception deadline of a PDO passed.
    RpdoDeadline,
}

/// A change made by the protocol stack.
#[derive(Clone, Copy, Debug, PartialEq, Eq, Structural)]
pub struct OdEvent {
    pub index: u16,
    pub subindex: u8,
    pub source: OdEventSource,
}

/// What the object dictionary of a device holds, and how it answers.
///
/// Of a function that an implementation does not define, nothing is known.
pub trait OdContents: Sized {
    /// The data type of an entry, if there is such an entry.
    closed spec fn type_of(&self, index: u16, subindex: u8) -> Option<DataType> {
        arbitrary()
    }

    /// What a read into a buffer of the given size yields.
    closed spec fn read_result(&self, index: u16, subindex: u8, capacity: nat) -> Result<
        Seq<u8>,
        OdError,
    > {
        arbitrary()
    }

    /// Whether a write succeeds.
    closed spec fn write_result(&self, index: u16, subindex: u8, data: Seq<u8>) -> Result<(), OdError> {
        arbitrary()
    }

    /// The contents after a write, successful or not.
    closed spec fn after_write(&self, index: u16, subindex: u8, data: Seq<u8>) -> Self {
        arbitrary()
    }

    /// Whether the application admits a write.
    closed spec fn validate_result(&self, index: u16, subindex: u8, data: Seq<u8>) -> Result<
        (),
        OdError,
    > {
        arbitrary()
    }

    /// The highest subindex of an object, if there is such an object.
    closed spec fn subs_of(&self, index: u16) -> Option<u8> {
        arbitrary()
    }

    /// The contents after the COB-IDs of the additional SDO servers were
    /// resolved for a node.
    closed spec fn after_store_sdo_cob_ids(&self, node_id: NodeId) -> Self {
        arbitrary()
    }
}

/// The object dictionary of a device.
///
/// The contents say what the dictionary holds; the executable functions
/// answer accordingly.
pub trait ObjectDictionary: Sized {
    /// What the dictionary holds.
    type Contents: OdContents;

    /// What the dictionary holds.
    closed spec fn contents(&self) -> Self::Contents {
        arbitrary()
    }

    /// Describe an entry.
    fn lookup(&self, index: u16, subindex: u8) -> (r: Option<OdEntryMeta>)
        ensures
            match r {
                Some(m) => m.index == index && m.subindex == subindex && self.contents().type_of(
                    index,
                    subindex,
                ) == Some(m.data_type),
                None => self.contents().type_of(index, subindex) is None,
            },
    ;

    /// Read an entry into the front of `buf`. Returns the number of bytes.
    fn read(&self, index: u16, subindex: u8, buf: &mut [u8]) -> (r: Result<usize, OdError>)
        ensures
            final(buf)@.len() == old(buf)@.len(),
            match r {
                Ok(n) => {
                    &&& n <= old(buf)@.len()
                    &&& self.contents().read_result(index, subindex, old(buf)@.len()) == Ok::<Seq<u8>, OdError>(
                        final(buf)@.take(n as int),
                    )
                    &&& final(buf)@.skip(n as int) == old(buf)@.skip(n as int)
                },
                Err(e) => self.contents().read_result(index, subindex, old(buf)@.len()) == Err::<
                    Seq<u8>,
                    OdError,
                >(e),
            },
    ;

    /// Write an entry.
    fn write(&mut self, index: u16, subindex: u8, data: &[u8]) -> (r: Result<(), OdError>)
        ensures
            r == old(self).contents().write_result(index, subindex, data@),
            final(self).contents() == old(self).contents().after_write(index, subindex, data@),
    ;

    /// Ask the application whether a write is admissible.
    fn validate_write(&self, index: u16, subindex: u8, data: &[u8]) -> (r: Result<(), OdError>)
        ensures
            r == self.contents().validate_result(index, subindex, data@),
    ;

    /// The highest subindex of an object.
    fn sub_count(&self, index: u16) -> (r: Option<u8>)
        ensures
            r == self.contents().subs_of(index),
    ;

    /// Record the resolved COB-IDs of the additional SDO servers.
    fn store_sdo_server_cob_ids(&mut self, node_id: NodeId)
        ensures
            final(self).contents() == old(self).contents().after_store_sdo_cob_ids(node_id),
    ;
}

/// Typed change notifications of a dictionary.
pub trait OdChanges: ObjectDictionary {
    /// A change of an application-level entry, with its value.
    type Change;

    /// Whether `change` is what an event says about a dictionary.
    closed spec fn decodes(contents: Self::Contents, event: OdEvent, change: Option<Self::Change>) -> bool {
        arbitrary()
    }

    /// Decode an event. `None` for events without an application-level change.
    fn decode_event(&self, event: OdEvent) -> (r: Option<Self::Change>)
        ensures
            Self::decodes(self.contents(), event, r),
    ;
}

} // verus!
