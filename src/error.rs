use vstd::prelude::*;

verus! {

/// Why an escrow operation or a ledger transfer was refused.
#[derive(Clone, Copy, Debug, PartialEq, Eq, Structural)]
pub enum EscrowError {
    /// A quantity of zero was given.
    InvalidAmount,
    /// The source account holds less than the amount to move.
    InsufficientFunds,
    /// An offer record, or its vault, already exists at the derived address.
    AlreadyExists,
    /// No pending offer for the given maker and id.
    OfferNotFound,
    /// The offer's authority could not be re-derived from its seeds, or a
    /// paying party is a vault, whose derived owner cannot sign.
    Unauthorized,
    /// The asset kinds supplied differ from those bound into the offer.
    AssetMismatch,
    /// A credit would exceed the largest representable balance.
    Overflow,
    /// No bump seed yields an address for the offer record.
    NoProgramAddress,
}

} // verus!
