//! Configuration of additional SDO servers.

use crate::cobid::NodeId;
use vstd::prelude::*;

verus! {

/// Resolved COB-IDs of one additional SDO server (0x1201+).
#[derive(Clone, Copy, Debug, PartialEq, Eq, Structural)]
pub struct SdoServerConfig {
    /// Client to server.
    pub cob_rx: u16,
    /// Server to client.
    pub cob_tx: u16,
}

/// Source of the configuration of additional SDO servers: a dictionary that
/// declares them.
///
/// Of a function that an implementation does not define, nothing is known.
pub trait SdoServerConfigSource<const SDO: usize> {
    /// The servers that the dictionary declares.
    closed spec fn declared_sdo_servers(&self, node_id: NodeId) -> Seq<SdoServerConfig> {
        arbitrary()
    }

    /// Resolve the COB-IDs of the declared servers for a node.
    fn sdo_server_configs(&self, node_id: NodeId) -> (r: [SdoServerConfig; SDO])
        ensures
            r@ == self.declared_sdo_servers(node_id),
    ;
}

} // verus!
