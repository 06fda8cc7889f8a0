use vstd::prelude::*;
use crate::address::find_offer_address;
use crate::error::EscrowError;
use crate::key::Key;
use crate::ledger::{Ledger, transferred, has_in, lemma_balance_of};
use crate::state::{
    Escrow,
    Offer,
    has_offer,
    has_address,
    canonical_bump,
    vault_of,
    same_state,
    lemma_vault_of,
    lemma_canonical_bump,
    is_pending_vault,
    is_canonical_bump,
    custody,
    offer_vault,
};

verus! {

/// The parties and asset kinds of a new offer: `maker` vaults units of
/// `token_mint_a` and wants units of `token_mint_b`.
#[derive(Clone, Copy, Debug, PartialEq, Eq)]
pub struct MakeOffer {
    pub maker: Key,
    pub token_mint_a: Key,
    pub token_mint_b: Key,
}

/// The vault authority of a new offer: the key at its canonical address.
pub open spec fn new_vault(e: Escrow, maker: Key, id: u64) -> Key {
    vault_of(e.spec_program_id(), maker, id, canonical_bump(e.spec_program_id(), maker, id))
}

/// The record that a successful `make_offer` stores.
pub open spec fn new_offer(e: Escrow, accounts: MakeOffer, id: u64, token_a_amount: u64, token_b_wanted_amount: u64) -> Offer {
    Offer {
        id,
        maker: accounts.maker,
        token_a_amount,
        token_mint_a: accounts.token_mint_a,
        token_b_wanted_amount,
        token_mint_b: accounts.token_mint_b,
        bump: canonical_bump(e.spec_program_id(), accounts.maker, id),
    }
}

/// `e1` is `e0` after a successful `make_offer`: the record is stored and the
/// offered units moved from the maker into the new vault.
pub open spec fn made_offer(
    e0: Escrow,
    e1: Escrow,
    accounts: MakeOffer,
    id: u64,
    token_a_amount: u64,
    token_b_wanted_amount: u64,
) -> bool {
    &&& e1.spec_program_id() == e0.spec_program_id()
    &&& e1.spec_offers() == e0.spec_offers().push(
        new_offer(e0, accounts, id, token_a_amount, token_b_wanted_amount),
    )
    &&& transferred(
        e0.spec_ledger()@,
        e1.spec_ledger()@,
        accounts.maker,
        new_vault(e0, accounts.maker, id),
        accounts.token_mint_a,
        token_a_amount as nat,
    )
}

/// Whether `make_offer` succeeds on `e`.
pub open spec fn can_make_offer(
    e: Escrow,
    accounts: MakeOffer,
    id: u64,
    token_a_amount: u64,
    token_b_wanted_amount: u64,
) -> bool {
    &&& token_a_amount > 0
    &&& token_b_wanted_amount > 0
    &&& !has_offer(e.spec_offers(), accounts.maker, id)
    &&& has_address(e.spec_program_id(), accounts.maker, id)
    &&& !has_in(e.spec_ledger()@, new_vault(e, accounts.maker, id), accounts.token_mint_a)
    &&& !is_pending_vault(e.spec_program_id(), e.spec_offers(), accounts.maker, accounts.token_mint_a)
    &&& e.spec_ledger().balance(accounts.maker, accounts.token_mint_a) >= token_a_amount
}

proof fn lemma_make_keeps_custody(
    e0: Escrow,
    e1: Escrow,
    accounts: MakeOffer,
    id: u64,
    token_a_amount: u64,
    token_b_wanted_amount: u64,
)
    requires
        e0.wf(),
        can_make_offer(e0, accounts, id, token_a_amount, token_b_wanted_amount),
        made_offer(e0, e1, accounts, id, token_a_amount, token_b_wanted_amount),
    ensures
        custody(e1.spec_program_id(), e1.spec_offers(), e1.spec_ledger()),
{
    let pid = e0.spec_program_id();
    let s0 = e0.spec_offers();
    let s1 = e1.spec_offers();
    let n = s0.len() as int;
    let a = accounts.token_mint_a;
    let maker = accounts.maker;
    let b = canonical_bump(pid, maker, id);
    let v = new_vault(e0, maker, id);
    let l0 = e0.spec_ledger();
    let l1 = e1.spec_ledger();
    assert(is_canonical_bump(pid, maker, id, b));
    assert(offer_vault(pid, s1[n]) == v);
    lemma_balance_of(l0@, v, a);
    lemma_balance_of(l0@, maker, a);
    assert(maker != v) by {
        if maker == v {
            assert(l0.balance(maker, a) > 0);
        }
    }
    assert forall|k: int| 0 <= k < s1.len() implies l1.balance(offer_vault(pid, s1[k]), s1[k].token_mint_a)
        >= s1[k].token_a_amount by {
        let vk = offer_vault(pid, s1[k]);
        let ak = s1[k].token_mint_a;
        assert(l1.balance(vk, ak) == l0.balance(vk, ak) - (if vk == maker && ak == a {
            token_a_amount as int
        } else {
            0
        }) + (if vk == v && ak == a {
            token_a_amount as int
        } else {
            0
        }));
        if k < n {
            assert(s1[k] == s0[k]);
            if vk == maker && ak == a {
                assert(is_pending_vault(pid, s0, maker, a));
            }
        }
    }
    assert forall|k: int, j: int|
        0 <= k < s1.len() && 0 <= j < s1.len() && k != j implies !(offer_vault(pid, s1[k])
        == offer_vault(pid, s1[j]) && s1[k].token_mint_a == s1[j].token_mint_a) by {
        if k == n || j == n {
            let o = if k == n {
                j
            } else {
                k
            };
            assert(s1[o] == s0[o]);
            lemma_balance_of(l0@, offer_vault(pid, s0[o]), s0[o].token_mint_a);
        } else {
            assert(s1[k] == s0[k]);
            assert(s1[j] == s0[j]);
        }
    }
    assert forall|k: int| 0 <= k < s1.len() implies crate::address::offer_address(
        pid,
        s1[k].maker,
        s1[k].id,
        s1[k].bump,
    ) is Some by {
        if k < n {
            assert(s1[k] == s0[k]);
        }
    }
}

/// Moves the offered units from the maker's account into the vault.
pub fn send_offer_tokens_to_vault(
    ledger: &mut Ledger,
    accounts: &MakeOffer,
    vault: &Key,
    token_a_amount: u64,
) -> (r: Result<(), EscrowError>)
    requires
        old(ledger).wf(),
    ensures
        final(ledger).wf(),
        r is Ok <==> (token_a_amount > 0 && old(ledger).balance(accounts.maker, accounts.token_mint_a)
            >= token_a_amount && (accounts.maker == *vault || old(ledger).balance(
            *vault,
            accounts.token_mint_a,
        ) + token_a_amount <= u64::MAX)),
        token_a_amount == 0 ==> r == Err::<(), EscrowError>(EscrowError::InvalidAmount),
        token_a_amount > 0 && old(ledger).balance(accounts.maker, accounts.token_mint_a)
            < token_a_amount ==> r == Err::<(), EscrowError>(EscrowError::InsufficientFunds),
        token_a_amount > 0 && old(ledger).balance(accounts.maker, accounts.token_mint_a)
            >= token_a_amount && accounts.maker != *vault && old(ledger).balance(
            *vault,
            accounts.token_mint_a,
        ) + token_a_amount > u64::MAX ==> r == Err::<(), EscrowError>(EscrowError::Overflow),
        r is Err ==> final(ledger)@ == old(ledger)@,
        r is Ok ==> transferred(
            old(ledger)@,
            final(ledger)@,
            accounts.maker,
            *vault,
            accounts.token_mint_a,
            token_a_amount as nat,
        ),
{
    ledger.transfer_checked(&accounts.maker, vault, &accounts.token_mint_a, token_a_amount)
}

/// Opens offer `id` of the maker: stores its record and moves
/// `token_a_amount` of `token_mint_a` into a vault whose sole authority is the
/// record's derived address. Nothing changes on any error.
pub fn handler(
    escrow: &mut Escrow,
    accounts: &MakeOffer,
    id: u64,
    token_a_amount: u64,
    token_b_wanted_amount: u64,
) -> (r: Result<(), EscrowError>)
    requires
        old(escrow).wf(),
    ensures
        final(escrow).wf(),
        r is Err ==> same_state(*final(escrow), *old(escrow)),
        r is Ok <==> can_make_offer(*old(escrow), *accounts, id, token_a_amount, token_b_wanted_amount),
        r is Ok ==> made_offer(
            *old(escrow),
            *final(escrow),
            *accounts,
            id,
            token_a_amount,
            token_b_wanted_amount,
        ),
        r == Err::<(), EscrowError>(EscrowError::InvalidAmount) <==> (token_a_amount == 0
            || token_b_wanted_amount == 0),
        r == Err::<(), EscrowError>(EscrowError::AlreadyExists) <==> (token_a_amount > 0
            && token_b_wanted_amount > 0 && (has_offer(old(escrow).spec_offers(), accounts.maker, id) || (
        has_address(old(escrow).spec_program_id(), accounts.maker, id) && has_in(
            old(escrow).spec_ledger()@,
            new_vault(*old(escrow), accounts.maker, id),
            accounts.token_mint_a,
        )))),
        r == Err::<(), EscrowError>(EscrowError::NoProgramAddress) <==> (token_a_amount > 0
            && token_b_wanted_amount > 0 && !has_offer(old(escrow).spec_offers(), accounts.maker, id)
            && !has_address(old(escrow).spec_program_id(), accounts.maker, id)),
        r == Err::<(), EscrowError>(EscrowError::Unauthorized) <==> (token_a_amount > 0
            && token_b_wanted_amount > 0 && !has_offer(old(escrow).spec_offers(), accounts.maker, id)
            && has_address(old(escrow).spec_program_id(), accounts.maker, id) && !has_in(
            old(escrow).spec_ledger()@,
            new_vault(*old(escrow), accounts.maker, id),
            accounts.token_mint_a,
        ) && is_pending_vault(
            old(escrow).spec_program_id(),
            old(escrow).spec_offers(),
            accounts.maker,
            accounts.token_mint_a,
        )),
        r == Err::<(), EscrowError>(EscrowError::InsufficientFunds) <==> (token_a_amount > 0
            && token_b_wanted_amount > 0 && !has_offer(old(escrow).spec_offers(), accounts.maker, id)
            && has_address(old(escrow).spec_program_id(), accounts.maker, id) && !has_in(
            old(escrow).spec_ledger()@,
            new_vault(*old(escrow), accounts.maker, id),
            accounts.token_mint_a,
        ) && !is_pending_vault(
            old(escrow).spec_program_id(),
            old(escrow).spec_offers(),
            accounts.maker,
            accounts.token_mint_a,
        ) && old(escrow).spec_ledger().balance(accounts.maker, accounts.token_mint_a)
            < token_a_amount),
{
    if token_a_amount == 0 || token_b_wanted_amount == 0 {
        return Err(EscrowError::InvalidAmount);
    }
    if escrow.find_offer(&accounts.maker, id).is_some() {
        return Err(EscrowError::AlreadyExists);
    }
    let (vault, bump) = match find_offer_address(&escrow.program_id, &accounts.maker, id) {
        Some(found) => found,
        None => {
            proof {
                if has_address(escrow.program_id, accounts.maker, id) {
                    let b = canonical_bump(escrow.program_id, accounts.maker, id);
                    assert(crate::address::offer_address(escrow.program_id, accounts.maker, id, b) is Some);
                }
            }
            return Err(EscrowError::NoProgramAddress);
        },
    };
    proof {
        lemma_canonical_bump(escrow.program_id, accounts.maker, id, bump);
        lemma_vault_of(escrow.program_id, accounts.maker, id, bump, vault);
    }
    if escrow.ledger.account_exists(&vault, &accounts.token_mint_a) {
        return Err(EscrowError::AlreadyExists);
    }
    // a derived address cannot sign for the deposit
    if escrow.pending_vault(&accounts.maker, &accounts.token_mint_a) {
        return Err(EscrowError::Unauthorized);
    }
    proof {
        lemma_balance_of(escrow.ledger@, vault, accounts.token_mint_a);
        lemma_balance_of(escrow.ledger@, accounts.maker, accounts.token_mint_a);
        if escrow.ledger.balance(accounts.maker, accounts.token_mint_a) >= token_a_amount {
            assert(accounts.maker != vault);
        }
    }
    let ghost e0 = *escrow;
    match send_offer_tokens_to_vault(&mut escrow.ledger, accounts, &vault, token_a_amount) {
        Ok(()) => {},
        Err(e) => {
            return Err(e);
        },
    }
    let offer = Offer {
        id,
        maker: accounts.maker,
        token_a_amount,
        token_mint_a: accounts.token_mint_a,
        token_b_wanted_amount,
        token_mint_b: accounts.token_mint_b,
        bump,
    };
    escrow.offers.push(offer);
    proof {
        assert(offer == new_offer(e0, *accounts, id, token_a_amount, token_b_wanted_amount));
        assert forall|i: int, j: int|
            0 <= i < escrow.offers@.len() && 0 <= j < escrow.offers@.len() && i != j implies !(
            escrow.offers@[i].maker == escrow.offers@[j].maker && escrow.offers@[i].id
                == escrow.offers@[j].id) by {
            if i == e0.spec_offers().len() {
                assert(!crate::state::is_offer_of(e0.spec_offers()[j], accounts.maker, id));
            }
            if j == e0.spec_offers().len() {
                assert(!crate::state::is_offer_of(e0.spec_offers()[i], accounts.maker, id));
            }
        }
        lemma_make_keeps_custody(e0, *escrow, *accounts, id, token_a_amount, token_b_wanted_amount);
    }
    Ok(())
}

} // verus!
