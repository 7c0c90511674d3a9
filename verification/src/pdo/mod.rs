//! Process data objects (PDO).

pub mod bits;
pub mod config;
pub mod engine;

pub use config::{
    heapless_vec_new, heapless_vec_push, PdoConfigSource, PdoMapping, PdoNumber, RpdoConfig,
    TpdoConfig, TransmissionType, PDO_MAX_MAPPINGS,
};
pub use engine::{RpdoEngine, TpdoEngine};
