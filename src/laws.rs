use vstd::prelude::*;
use crate::key::Key;
use crate::make_offer::{MakeOffer, made_offer, can_make_offer, new_offer, new_vault};
use crate::state::{Escrow, has_offer, is_offer_of, offer_index};
use crate::take_offer::{TakeOffer, took_offer, can_take_offer, pending, pending_vault};

verus! {

/// The offer made on `e0` is the one that a take of the same maker and id
/// resolves to on `e1`, and its vault is the one the make funded.
proof fn lemma_take_finds_made(
    e0: Escrow,
    e1: Escrow,
    make: MakeOffer,
    take: TakeOffer,
    id: u64,
    a: u64,
    w: u64,
)
    requires
        can_make_offer(e0, make, id, a, w),
        made_offer(e0, e1, make, id, a, w),
        take.maker == make.maker,
    ensures
        pending(e1, take, id) == new_offer(e0, make, id, a, w),
        offer_index(e1.spec_offers(), take.maker, id) == e0.spec_offers().len(),
        pending_vault(e1, take, id) == new_vault(e0, make.maker, id),
{
    let s1 = e1.spec_offers();
    let n = e0.spec_offers().len() as int;
    assert(is_offer_of(s1[n], take.maker, id));
    let k = offer_index(s1, take.maker, id);
    if k < n {
        assert(s1[k] == e0.spec_offers()[k]);
        assert(has_offer(e0.spec_offers(), make.maker, id));
    }
}

/// Conservation: an offer made and then taken moves the offered units from
/// the maker to the taker and the wanted units from the taker to the maker,
/// exactly once; every other balance, the vault's included, ends as it began,
/// the supply of every asset kind is unchanged and the record is gone.
pub proof fn lemma_make_then_take_conserves(
    e0: Escrow,
    e1: Escrow,
    e2: Escrow,
    make: MakeOffer,
    take: TakeOffer,
    id: u64,
    a: u64,
    w: u64,
)
    requires
        e0.wf(),
        can_make_offer(e0, make, id, a, w),
        made_offer(e0, e1, make, id, a, w),
        e1.wf(),
        take.maker == make.maker,
        can_take_offer(e1, take, id),
        took_offer(e1, e2, take, id),
    ensures
        forall|m: Key| #[trigger] e2.spec_ledger().supply(m) == e0.spec_ledger().supply(m),
        forall|o: Key, m: Key|
            #[trigger] e2.spec_ledger().balance(o, m) == e0.spec_ledger().balance(o, m) - (if o == make.maker && m
                == make.token_mint_a {
                a as int
            } else {
                0
            }) + (if o == take.taker && m == make.token_mint_a {
                a as int
            } else {
                0
            }) - (if o == take.taker && m == make.token_mint_b {
                w as int
            } else {
                0
            }) + (if o == make.maker && m == make.token_mint_b {
                w as int
            } else {
                0
            }),
        !has_offer(e2.spec_offers(), make.maker, id),
{
    lemma_take_finds_made(e0, e1, make, take, id, a, w);
    lemma_take_consumes(e1, e2, take, id);
}

/// No double settlement: once a take of offer `id` of a maker succeeds, no
/// offer of that maker and id is pending, so every later take of it is
/// refused as not found.
pub proof fn lemma_take_consumes(e0: Escrow, e1: Escrow, take: TakeOffer, id: u64)
    requires
        e0.wf(),
        can_take_offer(e0, take, id),
        took_offer(e0, e1, take, id),
    ensures
        !has_offer(e1.spec_offers(), take.maker, id),
{
    let s0 = e0.spec_offers();
    let s1 = e1.spec_offers();
    let i = offer_index(s0, take.maker, id);
    if has_offer(s1, take.maker, id) {
        let k = choose|k: int| 0 <= k < s1.len() && is_offer_of(s1[k], take.maker, id);
        let k0 = if k < i {
            k
        } else {
            k + 1
        };
        assert(s1[k] == s0[k0]);
        assert(is_offer_of(s0[i], take.maker, id));
    }
}

/// Exact amounts, exact kinds: a take changes no balance in an asset kind
/// other than the two bound into the offer, and, where taker, maker and vault
/// are distinct and the kinds differ, moves exactly the recorded amounts.
pub proof fn lemma_take_moves_recorded_amounts(e0: Escrow, e1: Escrow, take: TakeOffer, id: u64)
    requires
        e0.wf(),
        can_take_offer(e0, take, id),
        took_offer(e0, e1, take, id),
    ensures
        forall|o: Key, m: Key|
            m != pending(e0, take, id).token_mint_a && m != pending(e0, take, id).token_mint_b
                ==> #[trigger] e1.spec_ledger().balance(o, m) == e0.spec_ledger().balance(o, m),
        ({
            let offer = pending(e0, take, id);
            let vault = pending_vault(e0, take, id);
            take.taker != take.maker && vault != take.taker && vault != take.maker
                && offer.token_mint_a != offer.token_mint_b ==> {
                &&& e1.spec_ledger().balance(take.taker, offer.token_mint_b) == e0.spec_ledger().balance(
                    take.taker,
                    offer.token_mint_b,
                ) - offer.token_b_wanted_amount
                &&& e1.spec_ledger().balance(take.maker, offer.token_mint_b) == e0.spec_ledger().balance(
                    take.maker,
                    offer.token_mint_b,
                ) + offer.token_b_wanted_amount
                &&& e1.spec_ledger().balance(vault, offer.token_mint_a) == e0.spec_ledger().balance(
                    vault,
                    offer.token_mint_a,
                ) - offer.token_a_amount
                &&& e1.spec_ledger().balance(take.taker, offer.token_mint_a) == e0.spec_ledger().balance(
                    take.taker,
                    offer.token_mint_a,
                ) + offer.token_a_amount
            }
        }),
{
    let offer = pending(e0, take, id);
    let vault = pending_vault(e0, take, id);
    assert(e1.spec_ledger().balance(take.taker, offer.token_mint_b) == e0.spec_ledger().balance(
        take.taker,
        offer.token_mint_b,
    ) + crate::take_offer::swap_delta(take.taker, offer.token_mint_b, take, vault, offer));
    assert(e1.spec_ledger().balance(take.maker, offer.token_mint_b) == e0.spec_ledger().balance(
        take.maker,
        offer.token_mint_b,
    ) + crate::take_offer::swap_delta(take.maker, offer.token_mint_b, take, vault, offer));
    assert(e1.spec_ledger().balance(vault, offer.token_mint_a) == e0.spec_ledger().balance(
        vault,
        offer.token_mint_a,
    ) + crate::take_offer::swap_delta(vault, offer.token_mint_a, take, vault, offer));
    assert(e1.spec_ledger().balance(take.taker, offer.token_mint_a) == e0.spec_ledger().balance(
        take.taker,
        offer.token_mint_a,
    ) + crate::take_offer::swap_delta(take.taker, offer.token_mint_a, take, vault, offer));
}

} // verus!
