//! What can go wrong in a store operation.

use vstd::prelude::*;

verus! {

/// The stored bytes under a key do not decode as the expected record
/// kind, or the storage layer itself failed.  Both are fatal to the
/// operation that met them; no partial result is returned.
#[derive(Debug)]
pub enum StoreError {
    DecodingError,
    DatabaseError(sled::Error),
}

} // verus!
