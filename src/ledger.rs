use vstd::prelude::*;
use crate::error::EscrowError;
use crate::key::Key;

verus! {

/// A holding of `amount` units of asset kind `mint`, controlled by `owner`.
#[derive(Clone, Copy, Debug, PartialEq, Eq)]
pub struct TokenAccount {
    pub owner: Key,
    pub mint: Key,
    pub amount: u64,
}

/// Accounts of `owner` for `mint`.
pub open spec fn held_by(owner: Key, mint: Key) -> spec_fn(TokenAccount) -> bool {
    |a: TokenAccount| a.owner == owner && a.mint == mint
}

/// Accounts of any owner for `mint`.
pub open spec fn of_kind(mint: Key) -> spec_fn(TokenAccount) -> bool {
    |a: TokenAccount| a.mint == mint
}

/// The sum of the amounts of the accounts that `f` selects.
pub open spec fn total(s: Seq<TokenAccount>, f: spec_fn(TokenAccount) -> bool) -> nat
    decreases s.len(),
{
    if s.len() == 0 {
        0
    } else {
        total(s.drop_last(), f) + if f(s.last()) {
            s.last().amount as nat
        } else {
            0
        }
    }
}

pub open spec fn balance_in(s: Seq<TokenAccount>, owner: Key, mint: Key) -> nat {
    total(s, held_by(owner, mint))
}

pub open spec fn supply_in(s: Seq<TokenAccount>, mint: Key) -> nat {
    total(s, of_kind(mint))
}

pub open spec fn has_in(s: Seq<TokenAccount>, owner: Key, mint: Key) -> bool {
    exists|i: int| 0 <= i < s.len() && s[i].owner == owner && s[i].mint == mint
}

/// No two accounts share an owner and a mint.
pub open spec fn unique(s: Seq<TokenAccount>) -> bool {
    forall|i: int, j: int|
        0 <= i < s.len() && 0 <= j < s.len() && i != j ==> !(s[i].owner == s[j].owner
            && s[i].mint == s[j].mint)
}

/// `l1` is `l0` with the balance of (`owner`, `mint`) moved by `delta`, that
/// account opened if it was absent, and nothing else changed.
pub open spec fn changed_by(
    l0: Seq<TokenAccount>,
    l1: Seq<TokenAccount>,
    owner: Key,
    mint: Key,
    delta: int,
) -> bool {
    &&& forall|o: Key, m: Key|
        #[trigger] balance_in(l1, o, m) == balance_in(l0, o, m) + if o == owner && m == mint {
            delta
        } else {
            0
        }
    &&& forall|m: Key|
        #[trigger] supply_in(l1, m) == supply_in(l0, m) + if m == mint {
            delta
        } else {
            0
        }
    &&& forall|o: Key, m: Key|
        #[trigger] has_in(l1, o, m) == (has_in(l0, o, m) || (o == owner && m == mint))
}

/// `l1` is `l0` after `amount` of `mint` went from `from` to `to`: the
/// destination account is opened if absent, the supply of every kind is kept.
pub open spec fn transferred(
    l0: Seq<TokenAccount>,
    l1: Seq<TokenAccount>,
    from: Key,
    to: Key,
    mint: Key,
    amount: nat,
) -> bool {
    &&& forall|o: Key, m: Key|
        #[trigger] balance_in(l1, o, m) == balance_in(l0, o, m) - (if o == from && m == mint {
            amount as int
        } else {
            0
        }) + (if o == to && m == mint {
            amount as int
        } else {
            0
        })
    &&& forall|m: Key| #[trigger] supply_in(l1, m) == supply_in(l0, m)
    &&& forall|o: Key, m: Key|
        #[trigger] has_in(l1, o, m) == (has_in(l0, o, m) || (o == to && m == mint))
}

proof fn lemma_total_update(s: Seq<TokenAccount>, i: int, a: TokenAccount, f: spec_fn(TokenAccount) -> bool)
    requires
        0 <= i < s.len(),
    ensures
        total(s.update(i, a), f) == total(s, f) - (if f(s[i]) {
            s[i].amount as int
        } else {
            0
        }) + (if f(a) {
            a.amount as int
        } else {
            0
        }),
    decreases s.len(),
{
    let t = s.update(i, a);
    if i == s.len() - 1 {
        assert(t.drop_last() =~= s.drop_last());
    } else {
        assert(t.drop_last() =~= s.drop_last().update(i, a));
        lemma_total_update(s.drop_last(), i, a, f);
    }
}

proof fn lemma_total_push(s: Seq<TokenAccount>, a: TokenAccount, f: spec_fn(TokenAccount) -> bool)
    ensures
        total(s.push(a), f) == total(s, f) + if f(a) {
            a.amount as int
        } else {
            0
        },
{
    assert(s.push(a).drop_last() =~= s);
}

proof fn lemma_total_remove(s: Seq<TokenAccount>, i: int, f: spec_fn(TokenAccount) -> bool)
    requires
        0 <= i < s.len(),
    ensures
        total(s.remove(i), f) == total(s, f) - if f(s[i]) {
            s[i].amount as int
        } else {
            0
        },
    decreases s.len(),
{
    if i == s.len() - 1 {
        assert(s.remove(i) =~= s.drop_last());
    } else {
        let r = s.remove(i);
        assert(r.drop_last() =~= s.drop_last().remove(i));
        assert(r.last() == s.last());
        lemma_total_remove(s.drop_last(), i, f);
    }
}

proof fn lemma_total_none(s: Seq<TokenAccount>, f: spec_fn(TokenAccount) -> bool)
    requires
        forall|k: int| 0 <= k < s.len() ==> !f(s[k]),
    ensures
        total(s, f) == 0,
    decreases s.len(),
{
    if s.len() > 0 {
        lemma_total_none(s.drop_last(), f);
    }
}

proof fn lemma_total_single(s: Seq<TokenAccount>, i: int, f: spec_fn(TokenAccount) -> bool)
    requires
        0 <= i < s.len(),
        f(s[i]),
        forall|k: int| 0 <= k < s.len() && k != i ==> !f(s[k]),
    ensures
        total(s, f) == s[i].amount,
    decreases s.len(),
{
    if i == s.len() - 1 {
        lemma_total_none(s.drop_last(), f);
    } else {
        lemma_total_single(s.drop_last(), i, f);
    }
}

/// Under uniqueness the balance of a present account is its amount, and that
/// of an absent one is zero.
pub proof fn lemma_balance_of(s: Seq<TokenAccount>, owner: Key, mint: Key)
    requires
        unique(s),
    ensures
        forall|i: int|
            0 <= i < s.len() && s[i].owner == owner && s[i].mint == mint ==> balance_in(s, owner, mint)
                == s[i].amount,
        !has_in(s, owner, mint) ==> balance_in(s, owner, mint) == 0,
{
    assert forall|i: int|
        0 <= i < s.len() && s[i].owner == owner && s[i].mint == mint implies balance_in(
        s,
        owner,
        mint,
    ) == s[i].amount by {
        lemma_total_single(s, i, held_by(owner, mint));
    }
    if !has_in(s, owner, mint) {
        lemma_total_none(s, held_by(owner, mint));
    }
}

/// The holdings of every owner in every asset kind.
pub struct Ledger {
    accounts: Vec<TokenAccount>,
}

impl View for Ledger {
    type V = Seq<TokenAccount>;

    closed spec fn view(&self) -> Seq<TokenAccount> {
        self.accounts@
    }
}

impl Ledger {
    pub open spec fn wf(&self) -> bool {
        unique(self@)
    }

    pub open spec fn balance(&self, owner: Key, mint: Key) -> nat {
        balance_in(self@, owner, mint)
    }

    pub open spec fn supply(&self, mint: Key) -> nat {
        supply_in(self@, mint)
    }

    pub open spec fn has_account(&self, owner: Key, mint: Key) -> bool {
        has_in(self@, owner, mint)
    }

    /// A ledger with no accounts.
    pub fn new() -> (r: Ledger)
        ensures
            r.wf(),
            r@ == Seq::<TokenAccount>::empty(),
    {
        Ledger { accounts: Vec::new() }
    }

    fn find(&self, owner: &Key, mint: &Key) -> (r: Option<usize>)
        ensures
            r matches Some(i) ==> i < self@.len() && self@[i as int].owner == *owner
                && self@[i as int].mint == *mint,
            r is None ==> !self.has_account(*owner, *mint),
    {
        let mut i: usize = 0;
        while i < self.accounts.len()
            invariant
                i <= self.accounts@.len(),
                forall|k: int|
                    0 <= k < i ==> !(self.accounts@[k].owner == *owner && self.accounts@[k].mint
                        == *mint),
            decreases self.accounts@.len() - i,
        {
            let a = &self.accounts[i];
            if a.owner.same(owner) && a.mint.same(mint) {
                return Some(i);
            }
            i = i + 1;
        }
        None
    }

    /// The units of `mint` that `owner` holds; zero without an account.
    pub fn get_balance(&self, owner: &Key, mint: &Key) -> (r: u64)
        requires
            self.wf(),
        ensures
            r == self.balance(*owner, *mint),
    {
        proof {
            lemma_balance_of(self@, *owner, *mint);
        }
        match self.find(owner, mint) {
            Some(i) => self.accounts[i].amount,
            None => 0,
        }
    }

    /// Whether `owner` has an account for `mint`.
    pub fn account_exists(&self, owner: &Key, mint: &Key) -> (r: bool)
        ensures
            r == self.has_account(*owner, *mint),
    {
        self.find(owner, mint).is_some()
    }

    /// A copy of this ledger.
    pub fn snapshot(&self) -> (r: Ledger)
        ensures
            r@ == self@,
    {
        let mut accounts: Vec<TokenAccount> = Vec::new();
        let mut i: usize = 0;
        while i < self.accounts.len()
            invariant
                i <= self.accounts@.len(),
                accounts@ == self.accounts@.subrange(0, i as int),
            decreases self.accounts@.len() - i,
        {
            accounts.push(self.accounts[i]);
            i = i + 1;
            assert(accounts@ =~= self.accounts@.subrange(0, i as int));
        }
        assert(accounts@ =~= self.accounts@);
        Ledger { accounts }
    }

    fn debit(&mut self, owner: &Key, mint: &Key, amount: u64)
        requires
            old(self).wf(),
            amount <= old(self).balance(*owner, *mint),
            old(self).has_account(*owner, *mint),
        ensures
            final(self).wf(),
            changed_by(old(self)@, final(self)@, *owner, *mint, -(amount as int)),
    {
        proof {
            lemma_balance_of(self@, *owner, *mint);
        }
        let i = self.find(owner, mint).unwrap();
        let a = self.accounts[i];
        let ghost s0 = self@;
        let b = TokenAccount { owner: a.owner, mint: a.mint, amount: a.amount - amount };
        self.accounts.set(i, b);
        proof {
            assert(self@ == s0.update(i as int, b));
            assert forall|o: Key, m: Key|
                #[trigger] balance_in(self@, o, m) == balance_in(s0, o, m) + if o == *owner && m
                    == *mint {
                    -(amount as int)
                } else {
                    0
                } by {
                lemma_total_update(s0, i as int, b, held_by(o, m));
            }
            assert forall|m: Key|
                #[trigger] supply_in(self@, m) == supply_in(s0, m) + if m == *mint {
                    -(amount as int)
                } else {
                    0
                } by {
                lemma_total_update(s0, i as int, b, of_kind(m));
            }
            assert forall|o: Key, m: Key|
                #[trigger] has_in(self@, o, m) == (has_in(s0, o, m) || (o == *owner && m
                    == *mint)) by {
                if has_in(s0, o, m) {
                    let k = choose|k: int|
                        0 <= k < s0.len() && s0[k].owner == o && s0[k].mint == m;
                    assert(self@[k].owner == o && self@[k].mint == m);
                }
                if has_in(self@, o, m) {
                    let k = choose|k: int|
                        0 <= k < self@.len() && self@[k].owner == o && self@[k].mint == m;
                    assert(s0[k].owner == o && s0[k].mint == m);
                }
            }
        }
    }

    fn credit(&mut self, owner: &Key, mint: &Key, amount: u64)
        requires
            old(self).wf(),
            old(self).balance(*owner, *mint) + amount <= u64::MAX,
        ensures
            final(self).wf(),
            changed_by(old(self)@, final(self)@, *owner, *mint, amount as int),
    {
        proof {
            lemma_balance_of(self@, *owner, *mint);
        }
        let ghost s0 = self@;
        match self.find(owner, mint) {
            Some(i) => {
                let a = self.accounts[i];
                let b = TokenAccount { owner: a.owner, mint: a.mint, amount: a.amount + amount };
                self.accounts.set(i, b);
                proof {
                    assert(self@ == s0.update(i as int, b));
                    assert forall|o: Key, m: Key|
                        #[trigger] balance_in(self@, o, m) == balance_in(s0, o, m) + if o
                            == *owner && m == *mint {
                            amount as int
                        } else {
                            0
                        } by {
                        lemma_total_update(s0, i as int, b, held_by(o, m));
                    }
                    assert forall|m: Key|
                        #[trigger] supply_in(self@, m) == supply_in(s0, m) + if m == *mint {
                            amount as int
                        } else {
                            0
                        } by {
                        lemma_total_update(s0, i as int, b, of_kind(m));
                    }
                    assert forall|o: Key, m: Key|
                        #[trigger] has_in(self@, o, m) == (has_in(s0, o, m) || (o == *owner && m
                            == *mint)) by {
                        if has_in(s0, o, m) {
                            let k = choose|k: int|
                                0 <= k < s0.len() && s0[k].owner == o && s0[k].mint == m;
                            assert(self@[k].owner == o && self@[k].mint == m);
                        }
                        if has_in(self@, o, m) {
                            let k = choose|k: int|
                                0 <= k < self@.len() && self@[k].owner == o && self@[k].mint == m;
                            assert(s0[k].owner == o && s0[k].mint == m);
                        }
                    }
                }
            },
            None => {
                let b = TokenAccount { owner: *owner, mint: *mint, amount };
                self.accounts.push(b);
                proof {
                    assert(self@ == s0.push(b));
                    assert forall|o: Key, m: Key|
                        #[trigger] balance_in(self@, o, m) == balance_in(s0, o, m) + if o
                            == *owner && m == *mint {
                            amount as int
                        } else {
                            0
                        } by {
                        lemma_total_push(s0, b, held_by(o, m));
                    }
                    assert forall|m: Key|
                        #[trigger] supply_in(self@, m) == supply_in(s0, m) + if m == *mint {
                            amount as int
                        } else {
                            0
                        } by {
                        lemma_total_push(s0, b, of_kind(m));
                    }
                    assert forall|o: Key, m: Key|
                        #[trigger] has_in(self@, o, m) == (has_in(s0, o, m) || (o == *owner && m
                            == *mint)) by {
                        if has_in(s0, o, m) {
                            let k = choose|k: int|
                                0 <= k < s0.len() && s0[k].owner == o && s0[k].mint == m;
                            assert(self@[k].owner == o && self@[k].mint == m);
                        }
                        if o == *owner && m == *mint {
                            assert(self@[s0.len() as int] == b);
                        }
                    }
                }
            },
        }
    }

    /// Credits `amount` units of `mint` to `owner`, opening the account if
    /// it is absent: the one way new units enter the ledger.
    pub fn mint_to(&mut self, owner: &Key, mint: &Key, amount: u64) -> (r: Result<(), EscrowError>)
        requires
            old(self).wf(),
        ensures
            final(self).wf(),
            amount == 0 ==> r == Err::<(), EscrowError>(EscrowError::InvalidAmount),
            amount > 0 && old(self).balance(*owner, *mint) + amount > u64::MAX ==> r == Err::<
                (),
                EscrowError,
            >(EscrowError::Overflow),
            amount > 0 && old(self).balance(*owner, *mint) + amount <= u64::MAX ==> r is Ok,
            r is Err ==> final(self)@ == old(self)@,
            r is Ok ==> changed_by(old(self)@, final(self)@, *owner, *mint, amount as int),
    {
        if amount == 0 {
            return Err(EscrowError::InvalidAmount);
        }
        let held = self.get_balance(owner, mint);
        if held > u64::MAX - amount {
            return Err(EscrowError::Overflow);
        }
        self.credit(owner, mint, amount);
        Ok(())
    }

    /// Moves exactly `amount` units of `mint` from `from` to `to`, opening
    /// the destination account if it is absent. On any error nothing moves.
    pub fn transfer_checked(&mut self, from: &Key, to: &Key, mint: &Key, amount: u64) -> (r: Result<
        (),
        EscrowError,
    >)
        requires
            old(self).wf(),
        ensures
            final(self).wf(),
            amount == 0 ==> r == Err::<(), EscrowError>(EscrowError::InvalidAmount),
            amount > 0 && old(self).balance(*from, *mint) < amount ==> r == Err::<(), EscrowError>(
                EscrowError::InsufficientFunds,
            ),
            amount > 0 && old(self).balance(*from, *mint) >= amount && *from != *to && old(
                self,
            ).balance(*to, *mint) + amount > u64::MAX ==> r == Err::<(), EscrowError>(
                EscrowError::Overflow,
            ),
            amount > 0 && old(self).balance(*from, *mint) >= amount && (*from == *to || old(
                self,
            ).balance(*to, *mint) + amount <= u64::MAX) ==> r is Ok,
            r is Err ==> final(self)@ == old(self)@,
            r is Ok ==> transferred(old(self)@, final(self)@, *from, *to, *mint, amount as nat),
    {
        if amount == 0 {
            return Err(EscrowError::InvalidAmount);
        }
        let held = self.get_balance(from, mint);
        if held < amount {
            return Err(EscrowError::InsufficientFunds);
        }
        proof {
            lemma_balance_of(self@, *from, *mint);
        }
        let same = from.same(to);
        if !same {
            let dest = self.get_balance(to, mint);
            if dest > u64::MAX - amount {
                return Err(EscrowError::Overflow);
            }
        }
        let ghost s0 = self@;
        self.debit(from, mint, amount);
        let ghost s1 = self@;
        self.credit(to, mint, amount);
        proof {
            assert forall|o: Key, m: Key|
                #[trigger] balance_in(self@, o, m) == balance_in(s0, o, m) - (if o == *from && m
                    == *mint {
                    amount as int
                } else {
                    0
                }) + (if o == *to && m == *mint {
                    amount as int
                } else {
                    0
                }) by {
                assert(balance_in(s1, o, m) == balance_in(s0, o, m) + if o == *from && m == *mint {
                    -(amount as int)
                } else {
                    0
                });
            }
            assert forall|m: Key| #[trigger] supply_in(self@, m) == supply_in(s0, m) by {
                assert(supply_in(s1, m) == supply_in(s0, m) + if m == *mint {
                    -(amount as int)
                } else {
                    0
                });
            }
            assert forall|o: Key, m: Key|
                #[trigger] has_in(self@, o, m) == (has_in(s0, o, m) || (o == *to && m == *mint)) by {
                assert(has_in(s1, o, m) == (has_in(s0, o, m) || (o == *from && m == *mint)));
            }
        }
        Ok(())
    }

    /// Closes the account of `owner` for `mint` where it exists and is empty;
    /// otherwise leaves the ledger as it is. No balance changes.
    pub fn close_if_empty(&mut self, owner: &Key, mint: &Key)
        requires
            old(self).wf(),
        ensures
            final(self).wf(),
            forall|o: Key, m: Key|
                #[trigger] balance_in(final(self)@, o, m) == balance_in(old(self)@, o, m),
            forall|m: Key| #[trigger] supply_in(final(self)@, m) == supply_in(old(self)@, m),
            forall|o: Key, m: Key|
                #[trigger] has_in(final(self)@, o, m) == (has_in(old(self)@, o, m) && !(o == *owner
                    && m == *mint && balance_in(old(self)@, o, m) == 0)),
    {
        let ghost s0 = self@;
        proof {
            lemma_balance_of(s0, *owner, *mint);
        }
        match self.find(owner, mint) {
            Some(i) => {
                if self.accounts[i].amount == 0 {
                    let _ = self.accounts.remove(i);
                    proof {
                        assert(self@ == s0.remove(i as int));
                        assert forall|o: Key, m: Key|
                            #[trigger] balance_in(self@, o, m) == balance_in(s0, o, m) by {
                            lemma_total_remove(s0, i as int, held_by(o, m));
                        }
                        assert forall|m: Key| #[trigger] supply_in(self@, m) == supply_in(s0, m) by {
                            lemma_total_remove(s0, i as int, of_kind(m));
                        }
                        assert forall|o: Key, m: Key|
                            #[trigger] has_in(self@, o, m) == (has_in(s0, o, m) && !(o == *owner
                                && m == *mint && balance_in(s0, o, m) == 0)) by {
                            if has_in(s0, o, m) && !(o == *owner && m == *mint) {
                                let k = choose|k: int|
                                    0 <= k < s0.len() && s0[k].owner == o && s0[k].mint == m;
                                if k < i {
                                    assert(self@[k] == s0[k]);
                                } else {
                                    assert(self@[k - 1] == s0[k]);
                                }
                            }
                            if has_in(self@, o, m) {
                                let k = choose|k: int|
                                    0 <= k < self@.len() && self@[k].owner == o && self@[k].mint
                                        == m;
                                if k < i {
                                    assert(s0[k] == self@[k]);
                                } else {
                                    assert(s0[k + 1] == self@[k]);
                                }
                            }
                        }
                        assert forall|a: int, b: int|
                            0 <= a < self@.len() && 0 <= b < self@.len() && a != b implies !(
                            self@[a].owner == self@[b].owner && self@[a].mint == self@[b].mint) by {
                            let a0 = if a < i {
                                a
                            } else {
                                a + 1
                            };
                            let b0 = if b < i {
                                b
                            } else {
                                b + 1
                            };
                            assert(self@[a] == s0[a0]);
                            assert(self@[b] == s0[b0]);
                        }
                    }
                }
            },
            None => {},
        }
    }
}

} // verus!
