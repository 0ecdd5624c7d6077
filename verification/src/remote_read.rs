//! Requests to read the storage of another chain at a given block.
use vstd::prelude::*;

verus! {

/// A remote storage read request.
#[derive(Clone, Debug, PartialEq, Eq, Hash)]
pub struct RemoteReadRequest {
    /// The hash of the block at whose state the read is performed.
    pub block: [u8; 32],
    /// The header of that block, encoded.
    pub header: Vec<u8>,
    /// The storage keys to read.
    pub keys: Vec<Vec<u8>>,
    /// How many times to retry; `None` for the default number of retries.
    pub retry_count: Option<usize>,
}

} // verus!
