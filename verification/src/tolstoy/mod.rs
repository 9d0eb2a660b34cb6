//! Bookkeeping for synchronising the transaction log with a remote log:
//! which transaction is the head, and which global identifier belongs to
//! which local transaction.
//!
//! The functions here decide; they neither read nor write. Each takes what
//! a statement returned and says what follows from it, or makes the
//! statement that is to be run.

pub mod metadata;
pub mod remote_client;
pub mod tx_mapper;

use vstd::prelude::*;
use crate::db::Entid;
use crate::values::Uuid;

pub use crate::tolstoy::metadata::{PartitionsTable, SyncMetadata};
pub use crate::tolstoy::remote_client::RemoteClient;
pub use crate::tolstoy::tx_mapper::TxMapper;

verus! {

/// A local transaction and the identifier it has in the remote log.
#[derive(Debug, Clone, Copy, PartialEq, Eq)]
pub struct LocalGlobalTxMapping {
    pub local: Entid,
    pub remote: Uuid,
}

impl LocalGlobalTxMapping {
    /// The mapping of a local transaction to a remote identifier.
    pub fn new(local: Entid, remote: Uuid) -> (r: Self)
        ensures
            r.local == local,
            r.remote == remote,
    {
        LocalGlobalTxMapping { local, remote }
    }
}

} // verus!
