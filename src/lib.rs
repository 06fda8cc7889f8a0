//! Two-party escrow: a maker vaults an asset and names the asset it wants;
//! a taker settles the offer by paying the wanted asset and receiving the
//! vaulted one, atomically.
//!
//! The vault of an offer is a token account whose owner is the offer
//! record's derived address; units leave it only when the offer is taken.
//! There is no cancel path: a pending offer stays takeable until it is
//! taken. The two asset kinds of an offer may be the same kind.
use vstd::prelude::*;

pub mod address;
pub mod error;
mod key;
pub mod laws;
pub mod ledger;
pub mod make_offer;
pub mod state;
pub mod take_offer;

pub use error::EscrowError;
pub use key::Key;
pub use ledger::{Ledger, TokenAccount};
pub use make_offer::MakeOffer;
pub use state::{Escrow, Offer};
pub use take_offer::TakeOffer;

verus! {

/// Entry point of the program: opens offer `id` of the maker, vaulting
/// `token_a_amount` units and asking `token_b_wanted_amount` in return.
pub fn make_offer(
    escrow: &mut Escrow,
    accounts: &MakeOffer,
    id: u64,
    token_a_amount: u64,
    token_b_wanted_amount: u64,
) -> (r: Result<(), EscrowError>)
    requires
        old(escrow).wf(),
    ensures
        final(escrow).wf(),
        r is Ok <==> make_offer::can_make_offer(
            *old(escrow),
            *accounts,
            id,
            token_a_amount,
            token_b_wanted_amount,
        ),
        r is Ok ==> make_offer::made_offer(
            *old(escrow),
            *final(escrow),
            *accounts,
            id,
            token_a_amount,
            token_b_wanted_amount,
        ),
        r is Err ==> state::same_state(*final(escrow), *old(escrow)),
{
    make_offer::handler(escrow, accounts, id, token_a_amount, token_b_wanted_amount)
}

/// Entry point of the program: settles offer `id` of the maker for the taker.
pub fn take_offer(escrow: &mut Escrow, accounts: &TakeOffer, id: u64) -> (r: Result<(), EscrowError>)
    requires
        old(escrow).wf(),
    ensures
        final(escrow).wf(),
        r is Ok <==> take_offer::can_take_offer(*old(escrow), *accounts, id),
        r is Ok ==> take_offer::took_offer(*old(escrow), *final(escrow), *accounts, id),
        r is Err ==> state::same_state(*final(escrow), *old(escrow)),
        r == Err::<(), EscrowError>(EscrowError::OfferNotFound) <==> !state::has_offer(
            old(escrow).spec_offers(),
            accounts.maker,
            id,
        ),
{
    take_offer::handler(escrow, accounts, id)
}

} // verus!
