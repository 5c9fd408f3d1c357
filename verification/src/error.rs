//! The errors that the ledger reports.

use vstd::prelude::*;

verus! {

/// Why a submitted transaction is refused at ingress.
#[derive(Clone, Copy, Debug, PartialEq, Eq, Structural)]
pub enum ValidationError {
    /// `transaction_id` is empty.
    MissingTransactionId,
    /// `sender` is empty.
    MissingSender,
    /// `receiver` is empty.
    MissingReceiver,
    /// `amount` is zero.
    NonPositiveAmount,
    /// `sender_municipality` is not of the form `Continent-City`, or a part
    /// of it is empty.
    MalformedSenderMunicipality,
    /// `receiver_municipality` is not of the form `Continent-City`, or a part
    /// of it is empty.
    MalformedReceiverMunicipality,
    /// `sender_continent` is empty.
    MissingSenderContinent,
    /// `receiver_continent` is empty.
    MissingReceiverContinent,
}

/// Every way in which an operation of the ledger fails.
#[derive(Clone, Copy, Debug, PartialEq, Eq, Structural)]
pub enum LedgerError {
    /// The transaction is malformed; it was not stored.
    Validation(ValidationError),
    /// No representative can approve for the municipality.
    NoRepresentativeAvailable,
    /// The active representative's term does not cover the present instant.
    RepresentativeTermExpired,
    /// A forward did not reach its endpoint; the item stays pending.
    ForwardingFailure,
    /// The routing table has neither the destination nor a default.
    UnknownDestination,
    /// The store refused an operation.
    PersistenceError,
    /// The lifecycle has no such step; the status is unchanged.
    InvalidTransition,
    /// No pending transaction has the given id.
    UnknownTransaction,
}

/// Why a block offered by a peer is not appended.
#[derive(Clone, Copy, Debug, PartialEq, Eq, Structural)]
pub enum BlockRejection {
    /// A block with the same hash is already in the chain.
    Duplicate,
    /// `prev_hash` is not the hash of the chain's last block.
    PrevHashMismatch,
    /// `index` is not the length of the chain.
    IndexMismatch,
    /// `hash` is not the hash of the block's other fields.
    HashMismatch,
}

} // verus!
