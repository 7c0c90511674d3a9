//! A CANopen protocol stack: identifiers, frames, network management, SDO
//! and PDO services, error control and layer setting services.
//!
//! Almost every function of this library carries a contract that Verus proves.

pub mod bus;
pub mod bytes;
pub mod can_router;
pub mod cobid;
pub mod datatypes;
pub mod dcf;
pub mod dcf_laws;
pub mod dictionary;
pub mod emcy;
pub mod events;
pub mod heartbeat;
pub mod ini;
pub mod lss;
pub mod nmt;
pub mod node;
pub mod od;
pub mod pdo;
pub mod protocol_laws;
pub mod queue;
pub mod sdo;
pub mod slcan;
pub mod sync;
pub mod text;
pub mod time;
pub mod transport;
pub mod transport_laws;

pub use cobid::{CobId, NodeId, ParsedCobId};
pub use datatypes::DataType;
pub use emcy::{build_emcy_frame, error_register, EmcyErrorCode, EmcyProducer};
pub use lss::{LssEvent, LssIdentity, LssMode, LssSlave};
pub use nmt::{NmtCommand, NmtHandler, NmtState, NmtTransition};
pub use node::{Node, NodeConfig, ResetType};
pub use od::{
    AccessType, ObjectDictionary, OdChanges, OdEntryMeta, OdError, OdEvent, OdEventSource,
};
pub use pdo::{PdoConfigSource, PdoNumber, TransmissionType};
pub use time::Clock;
pub use transport::{CanError, CanFrame, MailboxTransport};
