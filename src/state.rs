use vstd::prelude::*;
use crate::address::{derive_authority, offer_address};
use crate::key::Key;
use crate::error::EscrowError;
use crate::ledger::{Ledger, changed_by};

verus! {

broadcast use vstd::array::group_array_axioms;

/// One pending exchange: the maker vaulted `token_a_amount` of `token_mint_a`
/// and wants `token_b_wanted_amount` of `token_mint_b` in return.
#[derive(Clone, Copy, Debug, PartialEq, Eq)]
pub struct Offer {
    pub id: u64,
    pub maker: Key,
    pub token_a_amount: u64,
    pub token_mint_a: Key,
    pub token_b_wanted_amount: u64,
    pub token_mint_b: Key,
    /// The bump seed that, appended to the offer's seeds, yields its address.
    pub bump: u8,
}

/// The state that the escrow program sees: its own id, the pending offers
/// and the host's token accounts, vaults included.
/// Units in a vault move only through `make_offer` and `take_offer`.
pub struct Escrow {
    pub(crate) program_id: Key,
    pub(crate) offers: Vec<Offer>,
    pub(crate) ledger: Ledger,
}

pub open spec fn is_offer_of(o: Offer, maker: Key, id: u64) -> bool {
    o.maker == maker && o.id == id
}

pub open spec fn has_offer(s: Seq<Offer>, maker: Key, id: u64) -> bool {
    exists|i: int| 0 <= i < s.len() && is_offer_of(s[i], maker, id)
}

/// The position of the pending offer of `maker` with id `id`, where there is one.
pub open spec fn offer_index(s: Seq<Offer>, maker: Key, id: u64) -> int {
    choose|i: int| 0 <= i < s.len() && is_offer_of(s[i], maker, id)
}

/// The pending offer of `maker` with id `id`, where there is one.
pub open spec fn offer_of(s: Seq<Offer>, maker: Key, id: u64) -> Offer {
    s[offer_index(s, maker, id)]
}

/// At most one offer for each maker and id, and no offer of a zero amount.
pub open spec fn offers_wf(s: Seq<Offer>) -> bool {
    &&& forall|i: int, j: int|
        0 <= i < s.len() && 0 <= j < s.len() && i != j ==> !(s[i].maker == s[j].maker && s[i].id
            == s[j].id)
    &&& forall|i: int|
        0 <= i < s.len() ==> s[i].token_a_amount > 0 && s[i].token_b_wanted_amount > 0
}

/// `b` is the highest bump under which offer `id` of `maker` has an address.
pub open spec fn is_canonical_bump(program_id: Key, maker: Key, id: u64, b: u8) -> bool {
    &&& 1 <= b
    &&& offer_address(program_id, maker, id, b) is Some
    &&& forall|c: u8| b < c ==> (#[trigger] offer_address(program_id, maker, id, c)) is None
}

pub open spec fn has_address(program_id: Key, maker: Key, id: u64) -> bool {
    exists|b: u8| is_canonical_bump(program_id, maker, id, b)
}

pub open spec fn canonical_bump(program_id: Key, maker: Key, id: u64) -> u8 {
    choose|b: u8| is_canonical_bump(program_id, maker, id, b)
}

/// The key at the derived address of offer `id` of `maker` under `bump`:
/// the authority of its vault.
pub open spec fn vault_of(program_id: Key, maker: Key, id: u64, bump: u8) -> Key {
    choose|v: Key| offer_address(program_id, maker, id, bump) == Some(v.bytes@)
}

pub proof fn lemma_vault_of(program_id: Key, maker: Key, id: u64, bump: u8, v: Key)
    requires
        offer_address(program_id, maker, id, bump) == Some(v.bytes@),
    ensures
        vault_of(program_id, maker, id, bump) == v,
{
    let w = vault_of(program_id, maker, id, bump);
    assert(w.bytes@ == v.bytes@);
    assert(w.bytes =~= v.bytes) by {
        assert forall|i: int| 0 <= i < 32 implies w.bytes[i] == v.bytes[i] by {
            assert(w.bytes@[i] == v.bytes@[i]);
        }
    }
}

pub proof fn lemma_canonical_bump(program_id: Key, maker: Key, id: u64, b: u8)
    requires
        is_canonical_bump(program_id, maker, id, b),
    ensures
        has_address(program_id, maker, id),
        canonical_bump(program_id, maker, id) == b,
{
    let c = canonical_bump(program_id, maker, id);
    if c < b {
        assert(offer_address(program_id, maker, id, b) is None);
    } else if b < c {
        assert(offer_address(program_id, maker, id, c) is None);
    }
}

/// The authority of the vault of `o`.
pub open spec fn offer_vault(program_id: Key, o: Offer) -> Key {
    vault_of(program_id, o.maker, o.id, o.bump)
}

/// `owner`'s account for `mint` is the vault of a pending offer.
pub open spec fn is_pending_vault(program_id: Key, s: Seq<Offer>, owner: Key, mint: Key) -> bool {
    exists|k: int|
        0 <= k < s.len() && offer_vault(program_id, #[trigger] s[k]) == owner && s[k].token_mint_a
            == mint
}

/// Every pending offer has a derived address, its vault holds at least the
/// offered units, and no two pending offers share a vault account.
pub open spec fn custody(program_id: Key, s: Seq<Offer>, ledger: Ledger) -> bool {
    &&& forall|k: int|
        0 <= k < s.len() ==> offer_address(program_id, s[k].maker, s[k].id, s[k].bump) is Some
    &&& forall|k: int|
        0 <= k < s.len() ==> ledger.balance(offer_vault(program_id, s[k]), s[k].token_mint_a)
            >= s[k].token_a_amount
    &&& forall|k: int, j: int|
        0 <= k < s.len() && 0 <= j < s.len() && k != j ==> !(offer_vault(program_id, s[k])
            == offer_vault(program_id, s[j]) && s[k].token_mint_a == s[j].token_mint_a)
}

impl Escrow {
    pub open(crate) spec fn spec_program_id(&self) -> Key {
        self.program_id
    }

    pub open(crate) spec fn spec_offers(&self) -> Seq<Offer> {
        self.offers@
    }

    pub open(crate) spec fn spec_ledger(&self) -> Ledger {
        self.ledger
    }

    pub fn program_id(&self) -> (r: Key)
        ensures
            r == self.spec_program_id(),
    {
        self.program_id
    }

    /// The pending offers.
    pub fn offers(&self) -> (r: &[Offer])
        ensures
            r@ == self.spec_offers(),
    {
        self.offers.as_slice()
    }

    /// The token accounts, for reading.
    pub fn ledger(&self) -> (r: &Ledger)
        ensures
            *r == self.spec_ledger(),
    {
        &self.ledger
    }

    /// Credits `amount` units of `mint` to `owner` from outside the escrow,
    /// as `Ledger::mint_to` does; offers are untouched.
    pub fn deposit(&mut self, owner: &Key, mint: &Key, amount: u64) -> (r: Result<(), EscrowError>)
        requires
            old(self).wf(),
        ensures
            final(self).wf(),
            final(self).spec_program_id() == old(self).spec_program_id(),
            final(self).spec_offers() == old(self).spec_offers(),
            amount == 0 ==> r == Err::<(), EscrowError>(EscrowError::InvalidAmount),
            amount > 0 && old(self).spec_ledger().balance(*owner, *mint) + amount > u64::MAX ==> r
                == Err::<(), EscrowError>(EscrowError::Overflow),
            amount > 0 && old(self).spec_ledger().balance(*owner, *mint) + amount <= u64::MAX ==> r is Ok,
            r is Err ==> final(self).spec_ledger()@ == old(self).spec_ledger()@,
            r is Ok ==> changed_by(
                old(self).spec_ledger()@,
                final(self).spec_ledger()@,
                *owner,
                *mint,
                amount as int,
            ),
    {
        let r = self.ledger.mint_to(owner, mint, amount);
        proof {
            let s = self.offers@;
            assert forall|k: int| 0 <= k < s.len() implies self.ledger.balance(
                offer_vault(self.program_id, s[k]),
                s[k].token_mint_a,
            ) >= s[k].token_a_amount by {
                assert(old(self).ledger.balance(offer_vault(self.program_id, s[k]), s[k].token_mint_a)
                    >= s[k].token_a_amount);
            }
        }
        r
    }

    pub open spec fn wf(&self) -> bool {
        &&& self.spec_ledger().wf()
        &&& offers_wf(self.spec_offers())
        &&& custody(self.spec_program_id(), self.spec_offers(), self.spec_ledger())
    }

    /// Whether `owner`'s account for `mint` is the vault of a pending offer.
    pub(crate) fn pending_vault(&self, owner: &Key, mint: &Key) -> (r: bool)
        requires
            self.wf(),
        ensures
            r == is_pending_vault(self.spec_program_id(), self.spec_offers(), *owner, *mint),
    {
        let mut k: usize = 0;
        while k < self.offers.len()
            invariant
                k <= self.offers@.len(),
                self.wf(),
                forall|j: int|
                    0 <= j < k ==> !(offer_vault(self.program_id, self.offers@[j]) == *owner
                        && self.offers@[j].token_mint_a == *mint),
            decreases self.offers@.len() - k,
        {
            let o = self.offers[k];
            match derive_authority(&self.program_id, &o.maker, o.id, o.bump) {
                Some(v) => {
                    proof {
                        lemma_vault_of(self.program_id, o.maker, o.id, o.bump, v);
                    }
                    if v.same(owner) && o.token_mint_a.same(mint) {
                        return true;
                    }
                },
                None => {
                    proof {
                        assert(offer_address(self.program_id, o.maker, o.id, o.bump) is Some);
                    }
                },
            }
            k = k + 1;
        }
        false
    }

    /// An escrow program with id `program_id` over the given ledger, with no
    /// pending offers.
    pub fn new(program_id: Key, ledger: Ledger) -> (r: Escrow)
        requires
            ledger.wf(),
        ensures
            r.wf(),
            r.spec_program_id() == program_id,
            r.spec_offers() == Seq::<Offer>::empty(),
            r.spec_ledger()@ == ledger@,
    {
        Escrow { program_id, offers: Vec::new(), ledger }
    }

    /// The index of the pending offer of `maker` with id `id`.
    pub fn find_offer(&self, maker: &Key, id: u64) -> (r: Option<usize>)
        requires
            offers_wf(self.spec_offers()),
        ensures
            r is None <==> !has_offer(self.spec_offers(), *maker, id),
            r matches Some(i) ==> i < self.spec_offers().len() && is_offer_of(
                self.spec_offers()[i as int],
                *maker,
                id,
            ) && i == offer_index(self.spec_offers(), *maker, id),
    {
        let mut i: usize = 0;
        while i < self.offers.len()
            invariant
                i <= self.spec_offers().len(),
                offers_wf(self.spec_offers()),
                forall|k: int| 0 <= k < i ==> !is_offer_of(self.spec_offers()[k], *maker, id),
            decreases self.spec_offers().len() - i,
        {
            let o = &self.offers[i];
            if o.id == id && o.maker.same(maker) {
                proof {
                    assert(is_offer_of(self.spec_offers()[i as int], *maker, id));
                    let k = choose|k: int|
                        0 <= k < self.spec_offers().len() && is_offer_of(self.spec_offers()[k], *maker, id);
                    assert(k == i as int);
                }
                return Some(i);
            }
            i = i + 1;
        }
        None
    }
}

/// `e0` and `e1` agree on the program id, the offers and every account.
pub open spec fn same_state(e0: Escrow, e1: Escrow) -> bool {
    &&& e1.spec_program_id() == e0.spec_program_id()
    &&& e1.spec_offers() == e0.spec_offers()
    &&& e1.spec_ledger()@ == e0.spec_ledger()@
}

} // verus!
