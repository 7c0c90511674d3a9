//! Object dictionaries from definitions: the definition language, the
//! dictionary that a definition describes, and EDS files.

pub mod codegen;
pub mod definition;
pub mod definition_laws;
pub mod device;
pub mod dsl;
pub mod dsl_laws;
pub mod eds_export;
pub mod eds_laws;
pub mod eds_parser;
pub mod file_laws;
pub mod laws;
pub mod literal;
pub mod mapping;
pub mod names;
pub mod node_laws;
pub mod pdo_file_laws;
pub mod sdo_client_codegen;
pub mod sized;
pub mod table;
pub mod table_laws;
pub mod token;
pub mod value_laws;

pub use definition::{
    AccessKind, ArrayDef, CobIdSpec, EntryKind, MappingKind, OdDefinition, OdEntry, PdoDef,
    PdoDirection, PdoField, SdoServerDef, SubEntry, VarDef, Visibility,
};
pub use device::OdChange;
pub use eds_parser::EdsDefinition;
pub use sized::{AcceptAll, Device, WriteCheck};
pub use table::Table;
