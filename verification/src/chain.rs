//! What a scan of the chain asks of the logs and transactions that it is
//! given.

use vstd::prelude::*;

verus! {

/// A transaction as far as a scan looks at it.
#[derive(Debug, Clone, Copy, PartialEq, Eq, Structural)]
pub enum TxKind {
    /// No blob transaction.
    Other,
    /// A blob transaction that comes with its blobs.
    WithSidecar,
    /// A blob transaction that names its blobs by so many hashes.
    Eip4844 { blob_hashes: usize },
}

/// Why a scan cannot go on.
#[derive(Debug, Clone, Copy, PartialEq, Eq, Structural)]
pub enum ScanError {
    /// The blocks hold no state update.
    NoLogs,
    /// The transaction of a state update is no blob transaction.
    NotEip4844,
    /// The transaction of a state update comes with its blobs.
    AlreadyIncludesBlob,
    /// The transaction of a state update names no blob.
    NoBlobs,
}

/// A range of blocks has to hold a state update.
pub fn check_logs(n_logs: usize) -> (r: Result<(), ScanError>)
    ensures
        r == (if n_logs == 0 {
            Err::<(), ScanError>(ScanError::NoLogs)
        } else {
            Ok::<(), ScanError>(())
        }),
{
    if n_logs == 0 {
        Err(ScanError::NoLogs)
    } else {
        Ok(())
    }
}

/// The number of blobs to fetch for the transaction of a state update,
/// which has to be a blob transaction that names at least one blob.
pub fn check_transaction(kind: TxKind) -> (r: Result<usize, ScanError>)
    ensures
        r == match kind {
            TxKind::Other => Err::<usize, ScanError>(ScanError::NotEip4844),
            TxKind::WithSidecar => Err::<usize, ScanError>(ScanError::AlreadyIncludesBlob),
            TxKind::Eip4844 { blob_hashes } => if blob_hashes == 0 {
                Err::<usize, ScanError>(ScanError::NoBlobs)
            } else {
                Ok::<usize, ScanError>(blob_hashes)
            },
        },
{
    match kind {
        TxKind::Other => Err(ScanError::NotEip4844),
        TxKind::WithSidecar => Err(ScanError::AlreadyIncludesBlob),
        TxKind::Eip4844 { blob_hashes } => if blob_hashes == 0 {
            Err(ScanError::NoBlobs)
        } else {
            Ok(blob_hashes)
        },
    }
}

} // verus!
