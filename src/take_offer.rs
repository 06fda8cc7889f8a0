use vstd::prelude::*;
use crate::address::{derive_authority, offer_address};
use crate::error::EscrowError;
use crate::key::Key;
use crate::ledger::{Ledger, transferred, balance_in, supply_in, has_in};
use crate::state::{
    Escrow,
    Offer,
    has_offer,
    offer_index,
    offer_of,
    vault_of,
    same_state,
    lemma_vault_of,
    is_pending_vault,
    is_offer_of,
    custody,
    offer_vault,
};

verus! {

/// The parties and asset kinds named by a taker: `taker` pays units of
/// `token_mint_b` to `maker` and receives the vaulted units of `token_mint_a`.
#[derive(Clone, Copy, Debug, PartialEq, Eq)]
pub struct TakeOffer {
    pub taker: Key,
    pub maker: Key,
    pub token_mint_a: Key,
    pub token_mint_b: Key,
}

/// The offer that a take of offer `id` resolves to.
pub open spec fn pending(e: Escrow, accounts: TakeOffer, id: u64) -> Offer {
    offer_of(e.spec_offers(), accounts.maker, id)
}

/// The vault authority re-derived from the pending offer's seeds.
pub open spec fn pending_vault(e: Escrow, accounts: TakeOffer, id: u64) -> Key {
    vault_of(e.spec_program_id(), accounts.maker, id, pending(e, accounts, id).bump)
}

/// How a completed swap changes the balance of `owner` in `mint`: the taker
/// pays the wanted units to the maker and the vault releases the offered
/// units to the taker.
pub open spec fn swap_delta(owner: Key, mint: Key, accounts: TakeOffer, vault: Key, offer: Offer) -> int {
    (if owner == accounts.maker && mint == accounts.token_mint_b {
        offer.token_b_wanted_amount as int
    } else {
        0
    }) - (if owner == accounts.taker && mint == accounts.token_mint_b {
        offer.token_b_wanted_amount as int
    } else {
        0
    }) + (if owner == accounts.taker && mint == accounts.token_mint_a {
        offer.token_a_amount as int
    } else {
        0
    }) - (if owner == vault && mint == accounts.token_mint_a {
        offer.token_a_amount as int
    } else {
        0
    })
}

/// The balance of `owner` in `mint` once the taker has paid the maker.
pub open spec fn after_payment(e: Escrow, accounts: TakeOffer, id: u64, owner: Key, mint: Key) -> int {
    let w = pending(e, accounts, id).token_b_wanted_amount as int;
    e.spec_ledger().balance(owner, mint) - (if owner == accounts.taker && mint == accounts.token_mint_b {
        w
    } else {
        0
    }) + (if owner == accounts.maker && mint == accounts.token_mint_b {
        w
    } else {
        0
    })
}

/// The offer exists and names the supplied asset kinds.
pub open spec fn take_offer_matches(e: Escrow, accounts: TakeOffer, id: u64) -> bool {
    &&& has_offer(e.spec_offers(), accounts.maker, id)
    &&& pending(e, accounts, id).token_mint_a == accounts.token_mint_a
    &&& pending(e, accounts, id).token_mint_b == accounts.token_mint_b
}

/// The offer's authority can be re-derived, and the taker's paying account
/// is not itself a vault, whose derived owner cannot sign.
pub open spec fn take_authorized(e: Escrow, accounts: TakeOffer, id: u64) -> bool {
    &&& offer_address(e.spec_program_id(), accounts.maker, id, pending(e, accounts, id).bump) is Some
    &&& !is_pending_vault(e.spec_program_id(), e.spec_offers(), accounts.taker, accounts.token_mint_b)
}

/// Every check made before any units move.
pub open spec fn take_checks_pass(e: Escrow, accounts: TakeOffer, id: u64) -> bool {
    take_offer_matches(e, accounts, id) && take_authorized(e, accounts, id)
}

pub open spec fn payment_funded(e: Escrow, accounts: TakeOffer, id: u64) -> bool {
    e.spec_ledger().balance(accounts.taker, accounts.token_mint_b) >= pending(
        e,
        accounts,
        id,
    ).token_b_wanted_amount
}

pub open spec fn payment_fits(e: Escrow, accounts: TakeOffer, id: u64) -> bool {
    accounts.taker == accounts.maker || e.spec_ledger().balance(accounts.maker, accounts.token_mint_b)
        + pending(e, accounts, id).token_b_wanted_amount <= u64::MAX
}

pub open spec fn release_funded(e: Escrow, accounts: TakeOffer, id: u64) -> bool {
    after_payment(e, accounts, id, pending_vault(e, accounts, id), accounts.token_mint_a)
        >= pending(e, accounts, id).token_a_amount
}

pub open spec fn release_fits(e: Escrow, accounts: TakeOffer, id: u64) -> bool {
    pending_vault(e, accounts, id) == accounts.taker || after_payment(
        e,
        accounts,
        id,
        accounts.taker,
        accounts.token_mint_a,
    ) + pending(e, accounts, id).token_a_amount <= u64::MAX
}

/// Whether `take_offer` succeeds on `e`.
pub open spec fn can_take_offer(e: Escrow, accounts: TakeOffer, id: u64) -> bool {
    &&& take_checks_pass(e, accounts, id)
    &&& payment_funded(e, accounts, id)
    &&& payment_fits(e, accounts, id)
    &&& release_funded(e, accounts, id)
    &&& release_fits(e, accounts, id)
}

/// `e1` is `e0` after a successful take: the offer record is consumed, both
/// legs of the swap moved exactly the recorded amounts of the recorded kinds,
/// and the vault was closed once empty.
pub open spec fn took_offer(e0: Escrow, e1: Escrow, accounts: TakeOffer, id: u64) -> bool {
    let offer = pending(e0, accounts, id);
    let vault = pending_vault(e0, accounts, id);
    &&& e1.spec_program_id() == e0.spec_program_id()
    &&& e1.spec_offers() == e0.spec_offers().remove(offer_index(e0.spec_offers(), accounts.maker, id))
    &&& forall|o: Key, m: Key|
        #[trigger] e1.spec_ledger().balance(o, m) == e0.spec_ledger().balance(o, m) + swap_delta(
            o,
            m,
            accounts,
            vault,
            offer,
        )
    &&& forall|m: Key| #[trigger] e1.spec_ledger().supply(m) == e0.spec_ledger().supply(m)
    &&& forall|o: Key, m: Key|
        #[trigger] e1.spec_ledger().has_account(o, m) == ((e0.spec_ledger().has_account(o, m) || (o
            == accounts.maker && m == accounts.token_mint_b) || (o == accounts.taker && m
            == accounts.token_mint_a)) && !(o == vault && m == accounts.token_mint_a
            && e1.spec_ledger().balance(o, m) == 0))
}

proof fn lemma_take_keeps_custody(e0: Escrow, e1: Escrow, accounts: TakeOffer, id: u64)
    requires
        e0.wf(),
        take_checks_pass(e0, accounts, id),
        took_offer(e0, e1, accounts, id),
    ensures
        custody(e1.spec_program_id(), e1.spec_offers(), e1.spec_ledger()),
{
    let pid = e0.spec_program_id();
    let s0 = e0.spec_offers();
    let s1 = e1.spec_offers();
    let i = offer_index(s0, accounts.maker, id);
    let offer = pending(e0, accounts, id);
    let vault = pending_vault(e0, accounts, id);
    assert(is_offer_of(s0[i], accounts.maker, id));
    assert(offer_vault(pid, s0[i]) == vault);
    assert forall|k: int| 0 <= k < s1.len() implies e1.spec_ledger().balance(
        offer_vault(pid, s1[k]),
        s1[k].token_mint_a,
    ) >= s1[k].token_a_amount by {
        let k0 = if k < i {
            k
        } else {
            k + 1
        };
        assert(s1[k] == s0[k0]);
        let vk = offer_vault(pid, s0[k0]);
        let ak = s0[k0].token_mint_a;
        assert(e1.spec_ledger().balance(vk, ak) == e0.spec_ledger().balance(vk, ak) + swap_delta(
            vk,
            ak,
            accounts,
            vault,
            offer,
        ));
        if vk == accounts.taker && ak == accounts.token_mint_b {
            assert(is_pending_vault(pid, s0, accounts.taker, accounts.token_mint_b));
        }
    }
    assert forall|k: int, j: int|
        0 <= k < s1.len() && 0 <= j < s1.len() && k != j implies !(offer_vault(pid, s1[k])
        == offer_vault(pid, s1[j]) && s1[k].token_mint_a == s1[j].token_mint_a) by {
        let k0 = if k < i {
            k
        } else {
            k + 1
        };
        let j0 = if j < i {
            j
        } else {
            j + 1
        };
        assert(s1[k] == s0[k0]);
        assert(s1[j] == s0[j0]);
    }
    assert forall|k: int| 0 <= k < s1.len() implies offer_address(
        pid,
        s1[k].maker,
        s1[k].id,
        s1[k].bump,
    ) is Some by {
        let k0 = if k < i {
            k
        } else {
            k + 1
        };
        assert(s1[k] == s0[k0]);
    }
}

/// The taker pays the wanted units of the offer to the maker.
pub fn transfer_tokens_to_maker(ledger: &mut Ledger, accounts: &TakeOffer, offer: &Offer) -> (r:
    Result<(), EscrowError>)
    requires
        old(ledger).wf(),
    ensures
        final(ledger).wf(),
        offer.token_b_wanted_amount == 0 ==> r == Err::<(), EscrowError>(
            EscrowError::InvalidAmount,
        ),
        offer.token_b_wanted_amount > 0 && old(ledger).balance(
            accounts.taker,
            accounts.token_mint_b,
        ) < offer.token_b_wanted_amount ==> r == Err::<(), EscrowError>(
            EscrowError::InsufficientFunds,
        ),
        offer.token_b_wanted_amount > 0 && old(ledger).balance(accounts.taker, accounts.token_mint_b)
            >= offer.token_b_wanted_amount && accounts.taker != accounts.maker && old(
            ledger,
        ).balance(accounts.maker, accounts.token_mint_b) + offer.token_b_wanted_amount > u64::MAX
            ==> r == Err::<(), EscrowError>(EscrowError::Overflow),
        r is Ok <==> (offer.token_b_wanted_amount > 0 && old(ledger).balance(
            accounts.taker,
            accounts.token_mint_b,
        ) >= offer.token_b_wanted_amount && (accounts.taker == accounts.maker || old(
            ledger,
        ).balance(accounts.maker, accounts.token_mint_b) + offer.token_b_wanted_amount
            <= u64::MAX)),
        r is Err ==> final(ledger)@ == old(ledger)@,
        r is Ok ==> transferred(
            old(ledger)@,
            final(ledger)@,
            accounts.taker,
            accounts.maker,
            accounts.token_mint_b,
            offer.token_b_wanted_amount as nat,
        ),
{
    ledger.transfer_checked(
        &accounts.taker,
        &accounts.maker,
        &accounts.token_mint_b,
        offer.token_b_wanted_amount,
    )
}

/// The vault, under the authority of the offer's derived address, releases
/// the offered units to the taker.
pub fn withdraw_from_vault(ledger: &mut Ledger, accounts: &TakeOffer, offer: &Offer, vault: &Key) -> (r:
    Result<(), EscrowError>)
    requires
        old(ledger).wf(),
    ensures
        final(ledger).wf(),
        offer.token_a_amount == 0 ==> r == Err::<(), EscrowError>(EscrowError::InvalidAmount),
        offer.token_a_amount > 0 && old(ledger).balance(*vault, accounts.token_mint_a)
            < offer.token_a_amount ==> r == Err::<(), EscrowError>(EscrowError::InsufficientFunds),
        offer.token_a_amount > 0 && old(ledger).balance(*vault, accounts.token_mint_a)
            >= offer.token_a_amount && *vault != accounts.taker && old(ledger).balance(
            accounts.taker,
            accounts.token_mint_a,
        ) + offer.token_a_amount > u64::MAX ==> r == Err::<(), EscrowError>(EscrowError::Overflow),
        r is Ok <==> (offer.token_a_amount > 0 && old(ledger).balance(*vault, accounts.token_mint_a)
            >= offer.token_a_amount && (*vault == accounts.taker || old(ledger).balance(
            accounts.taker,
            accounts.token_mint_a,
        ) + offer.token_a_amount <= u64::MAX)),
        r is Err ==> final(ledger)@ == old(ledger)@,
        r is Ok ==> transferred(
            old(ledger)@,
            final(ledger)@,
            *vault,
            accounts.taker,
            accounts.token_mint_a,
            offer.token_a_amount as nat,
        ),
{
    ledger.transfer_checked(vault, &accounts.taker, &accounts.token_mint_a, offer.token_a_amount)
}

/// Settles offer `id` of the maker: the taker pays the wanted units to the
/// maker, the vault releases the offered units to the taker, the vault is
/// closed and the record consumed. Both legs happen or neither does.
pub fn handler(escrow: &mut Escrow, accounts: &TakeOffer, id: u64) -> (r: Result<(), EscrowError>)
    requires
        old(escrow).wf(),
    ensures
        final(escrow).wf(),
        r is Err ==> same_state(*final(escrow), *old(escrow)),
        r is Ok <==> can_take_offer(*old(escrow), *accounts, id),
        r is Ok ==> took_offer(*old(escrow), *final(escrow), *accounts, id),
        r == Err::<(), EscrowError>(EscrowError::OfferNotFound) <==> !has_offer(
            old(escrow).spec_offers(),
            accounts.maker,
            id,
        ),
        r == Err::<(), EscrowError>(EscrowError::AssetMismatch) <==> (has_offer(
            old(escrow).spec_offers(),
            accounts.maker,
            id,
        ) && !(pending(*old(escrow), *accounts, id).token_mint_a == accounts.token_mint_a && pending(
            *old(escrow),
            *accounts,
            id,
        ).token_mint_b == accounts.token_mint_b)),
        r == Err::<(), EscrowError>(EscrowError::Unauthorized) <==> (take_offer_matches(
            *old(escrow),
            *accounts,
            id,
        ) && !take_authorized(*old(escrow), *accounts, id)),
        r == Err::<(), EscrowError>(EscrowError::InsufficientFunds) <==> (take_checks_pass(
            *old(escrow),
            *accounts,
            id,
        ) && (!payment_funded(*old(escrow), *accounts, id) || (payment_fits(
            *old(escrow),
            *accounts,
            id,
        ) && !release_funded(*old(escrow), *accounts, id)))),
        r == Err::<(), EscrowError>(EscrowError::Overflow) <==> (take_checks_pass(
            *old(escrow),
            *accounts,
            id,
        ) && payment_funded(*old(escrow), *accounts, id) && (!payment_fits(
            *old(escrow),
            *accounts,
            id,
        ) || (release_funded(*old(escrow), *accounts, id) && !release_fits(
            *old(escrow),
            *accounts,
            id,
        )))),
{
    let i = match escrow.find_offer(&accounts.maker, id) {
        Some(i) => i,
        None => {
            return Err(EscrowError::OfferNotFound);
        },
    };
    let offer = escrow.offers[i];
    if !offer.token_mint_a.same(&accounts.token_mint_a) || !offer.token_mint_b.same(
        &accounts.token_mint_b,
    ) {
        return Err(EscrowError::AssetMismatch);
    }
    let vault = match derive_authority(&escrow.program_id, &accounts.maker, id, offer.bump) {
        Some(v) => v,
        None => {
            return Err(EscrowError::Unauthorized);
        },
    };
    // a derived address cannot sign for the payment
    if escrow.pending_vault(&accounts.taker, &accounts.token_mint_b) {
        return Err(EscrowError::Unauthorized);
    }
    let ghost e0 = *escrow;
    proof {
        lemma_vault_of(escrow.program_id, accounts.maker, id, offer.bump, vault);
        assert(offer == pending(e0, *accounts, id));
        assert(vault == pending_vault(e0, *accounts, id));
    }
    let mut next = escrow.ledger.snapshot();
    let ghost l0 = next@;
    match transfer_tokens_to_maker(&mut next, accounts, &offer) {
        Ok(()) => {},
        Err(e) => {
            return Err(e);
        },
    }
    let ghost l1 = next@;
    proof {
        assert forall|o: Key, m: Key|
            #[trigger] balance_in(l1, o, m) == after_payment(e0, *accounts, id, o, m) by {}
    }
    match withdraw_from_vault(&mut next, accounts, &offer, &vault) {
        Ok(()) => {},
        Err(e) => {
            return Err(e);
        },
    }
    let ghost l2 = next@;
    next.close_if_empty(&vault, &accounts.token_mint_a);
    let _ = escrow.offers.remove(i);
    escrow.ledger = next;
    proof {
        let s0 = e0.spec_offers();
        let s1 = escrow.offers@;
        assert(s1 == s0.remove(i as int));
        assert forall|a: int, b: int|
            0 <= a < s1.len() && 0 <= b < s1.len() && a != b implies !(s1[a].maker == s1[b].maker
            && s1[a].id == s1[b].id) by {
            let a0 = if a < i {
                a
            } else {
                a + 1
            };
            let b0 = if b < i {
                b
            } else {
                b + 1
            };
            assert(s1[a] == s0[a0]);
            assert(s1[b] == s0[b0]);
        }
        assert forall|a: int| 0 <= a < s1.len() implies s1[a].token_a_amount > 0
            && s1[a].token_b_wanted_amount > 0 by {
            let a0 = if a < i {
                a
            } else {
                a + 1
            };
            assert(s1[a] == s0[a0]);
        }
        assert forall|o: Key, m: Key|
            #[trigger] escrow.ledger.balance(o, m) == e0.spec_ledger().balance(o, m) + swap_delta(
                o,
                m,
                *accounts,
                vault,
                offer,
            ) by {
            assert(balance_in(l1, o, m) == balance_in(l0, o, m) - (if o == accounts.taker && m
                == accounts.token_mint_b {
                offer.token_b_wanted_amount as int
            } else {
                0
            }) + (if o == accounts.maker && m == accounts.token_mint_b {
                offer.token_b_wanted_amount as int
            } else {
                0
            }));
            assert(balance_in(l2, o, m) == balance_in(l1, o, m) - (if o == vault && m
                == accounts.token_mint_a {
                offer.token_a_amount as int
            } else {
                0
            }) + (if o == accounts.taker && m == accounts.token_mint_a {
                offer.token_a_amount as int
            } else {
                0
            }));
        }
        assert forall|m: Key| #[trigger] escrow.ledger.supply(m) == e0.spec_ledger().supply(m) by {
            assert(supply_in(l1, m) == supply_in(l0, m));
            assert(supply_in(l2, m) == supply_in(l1, m));
        }
        assert forall|o: Key, m: Key|
            #[trigger] escrow.ledger.has_account(o, m) == ((e0.spec_ledger().has_account(o, m) || (o
                == accounts.maker && m == accounts.token_mint_b) || (o == accounts.taker && m
                == accounts.token_mint_a)) && !(o == vault && m == accounts.token_mint_a
                && escrow.ledger.balance(o, m) == 0)) by {
            assert(has_in(l1, o, m) == (has_in(l0, o, m) || (o == accounts.maker && m
                == accounts.token_mint_b)));
            assert(has_in(l2, o, m) == (has_in(l1, o, m) || (o == accounts.taker && m
                == accounts.token_mint_a)));
            assert(balance_in(escrow.ledger@, o, m) == balance_in(l2, o, m));
        }
    }
    Ok(())
}

} // verus!
