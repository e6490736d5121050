use vstd::prelude::*;

verus! {

/// Every way an operation on the registry can fail. A failing operation
/// leaves the registry exactly as it found it.
#[derive(Clone, Copy, Debug, PartialEq, Eq, Structural)]
pub enum ContractError {
    /// No vote box holds the requested id.
    NotFound,
    /// The caller is not allowed to perform the operation.
    Unauthorized,
    /// The vote box's deadline has been reached.
    Expired,
    /// The vote box's deadline has not been reached yet.
    Unexpired,
    /// The address already cast a ballot in this vote box.
    DuplicateVoter,
    /// The ballot code is none of the four known categories.
    InvalidVote,
    /// The vote box carries no escrow.
    NoEscrowConfigured,
    /// None of the sent coins is in the vote box's denomination.
    UnsupportedDenom,
    /// The contract holds less than the share being claimed.
    InsufficientBalance,
    /// A counter or an amount would exceed its range.
    Overflow,
    /// The owner address was rejected by the host.
    InvalidAddress,
}

} // verus!
