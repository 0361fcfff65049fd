//! Persistent state: the custody ledger of user balances, the pool record,
//! and the market maker holding every pool beside the ledger.

use vstd::prelude::*;

use crate::error::ErrorCode;

verus! {

/// A custody sub-account: what one owner holds of one asset.
#[derive(Clone, Copy, Debug, PartialEq, Eq, Structural)]
pub struct TokenAccount {
    pub owner: u64,
    pub asset: u64,
    pub balance: u64,
}

/// The balance a sequence of accounts holds for `owner` in `asset`: the
/// balance of the first matching account, or zero when none matches.
pub open spec fn bal_of(s: Seq<TokenAccount>, owner: u64, asset: u64) -> int
    decreases s.len(),
{
    if s.len() == 0 {
        0
    } else if s[0].owner == owner && s[0].asset == asset {
        s[0].balance as int
    } else {
        bal_of(s.drop_first(), owner, asset)
    }
}

/// When index `i` is the first account matching `(owner, asset)`, the ledger
/// balance for that key is exactly the balance stored there.
proof fn lemma_bal_of_first_match(s: Seq<TokenAccount>, owner: u64, asset: u64, i: int)
    requires
        0 <= i < s.len(),
        s[i].owner == owner && s[i].asset == asset,
        forall|k: int|
            0 <= k < i ==> !((#[trigger] s[k]).owner == owner && s[k].asset == asset),
    ensures
        bal_of(s, owner, asset) == s[i].balance as int,
    decreases i,
{
    if i > 0 {
        lemma_bal_of_first_match(s.drop_first(), owner, asset, i - 1);
    }
}

/// When no account matches `(owner, asset)`, the balance for that key is zero.
proof fn lemma_bal_of_no_match(s: Seq<TokenAccount>, owner: u64, asset: u64)
    requires
        forall|k: int|
            0 <= k < s.len() ==> !((#[trigger] s[k]).owner == owner && s[k].asset == asset),
    ensures
        bal_of(s, owner, asset) == 0,
    decreases s.len(),
{
    if s.len() > 0 {
        lemma_bal_of_no_match(s.drop_first(), owner, asset);
    }
}

/// Appending an account leaves the balance of every other key unchanged.
proof fn lemma_bal_of_push(s: Seq<TokenAccount>, x: TokenAccount)
    ensures
        forall|o: u64, t: u64|
            !(o == x.owner && t == x.asset) ==> #[trigger] bal_of(s.push(x), o, t) == bal_of(
                s,
                o,
                t,
            ),
    decreases s.len(),
{
    if s.len() == 0 {
        assert forall|o: u64, t: u64| !(o == x.owner && t == x.asset) implies #[trigger] bal_of(
            s.push(x),
            o,
            t,
        ) == bal_of(s, o, t) by {
            assert(s.push(x).drop_first() =~= Seq::<TokenAccount>::empty());
            assert(s.push(x)[0] == x);
            assert(bal_of(s.push(x), o, t) == bal_of(s.push(x).drop_first(), o, t));
            assert(bal_of(Seq::<TokenAccount>::empty(), o, t) == 0);
        }
    } else {
        lemma_bal_of_push(s.drop_first(), x);
        assert(s.push(x).drop_first() =~= s.drop_first().push(x));
        assert forall|o: u64, t: u64| !(o == x.owner && t == x.asset) implies #[trigger] bal_of(
            s.push(x),
            o,
            t,
        ) == bal_of(s, o, t) by {
            if !(s[0].owner == o && s[0].asset == t) {
                assert(bal_of(s.push(x), o, t) == bal_of(s.drop_first().push(x), o, t));
            }
        }
    }
}

/// Overwriting the balance stored at the first account matching its own key
/// sets that key's ledger balance and leaves every other key unchanged.
proof fn lemma_bal_of_update(s: Seq<TokenAccount>, i: int, v: u64)
    requires
        0 <= i < s.len(),
        forall|k: int|
            0 <= k < i ==> !((#[trigger] s[k]).owner == s[i].owner && s[k].asset == s[i].asset),
    ensures
        bal_of(
            s.update(i, TokenAccount { owner: s[i].owner, asset: s[i].asset, balance: v }),
            s[i].owner,
            s[i].asset,
        ) == v as int,
        forall|o: u64, t: u64|
            !(o == s[i].owner && t == s[i].asset) ==> #[trigger] bal_of(
                s.update(i, TokenAccount { owner: s[i].owner, asset: s[i].asset, balance: v }),
                o,
                t,
            ) == bal_of(s, o, t),
    decreases i,
{
    let upd = TokenAccount { owner: s[i].owner, asset: s[i].asset, balance: v };
    let su = s.update(i, upd);
    if i == 0 {
        assert(su.drop_first() =~= s.drop_first());
    } else {
        lemma_bal_of_update(s.drop_first(), i - 1, v);
        assert(su.drop_first() =~= s.drop_first().update(i - 1, upd));
        assert(s.drop_first()[i - 1] == s[i]);
        assert(bal_of(su, s[i].owner, s[i].asset) == v as int);
        assert forall|o: u64, t: u64| !(o == s[i].owner && t == s[i].asset) implies
            #[trigger] bal_of(su, o, t) == bal_of(s, o, t) by {
            if !(s[0].owner == o && s[0].asset == t) {
                assert(bal_of(su, o, t) == bal_of(su.drop_first(), o, t));
                assert(bal_of(s, o, t) == bal_of(s.drop_first(), o, t));
            }
        }
    }
}

/// The custody ledger of user holdings, one entry per (owner, asset) pair that
/// has ever been funded. Pool reserves are not held here: each pool's vaults
/// are part of the pool record itself, so only the pool can move them.
#[derive(Debug)]
pub struct Ledger {
    pub accounts: Vec<TokenAccount>,
}

impl Ledger {
    /// The balance this ledger holds for `owner` in `asset`.
    pub open spec fn balance_spec(self, owner: u64, asset: u64) -> int {
        bal_of(self.accounts@, owner, asset)
    }

    /// An empty ledger: every balance is zero.
    pub fn new() -> (r: Ledger)
        ensures
            r.accounts@.len() == 0,
            forall|o: u64, t: u64| #[trigger] r.balance_spec(o, t) == 0,
    {
        Ledger { accounts: Vec::new() }
    }

    /// The index of the first account matching `(owner, asset)`, if any.
    fn find(&self, owner: u64, asset: u64) -> (r: Option<usize>)
        ensures
            match r {
                Some(i) => (i as int) < self.accounts@.len() && self.accounts@[i as int].owner
                    == owner && self.accounts@[i as int].asset == asset && forall|k: int|
                    0 <= k < i as int ==> !((#[trigger] self.accounts@[k]).owner == owner
                        && self.accounts@[k].asset == asset),
                None => forall|k: int|
                    0 <= k < self.accounts@.len() ==> !((#[trigger] self.accounts@[k]).owner
                        == owner && self.accounts@[k].asset == asset),
            },
    {
        let mut j: usize = 0;
        while j < self.accounts.len()
            invariant
                j <= self.accounts@.len(),
                forall|k: int|
                    0 <= k < j as int ==> !((#[trigger] self.accounts@[k]).owner == owner
                        && self.accounts@[k].asset == asset),
            decreases self.accounts@.len() - j,
        {
            if self.accounts[j].owner == owner && self.accounts[j].asset == asset {
                return Some(j);
            }
            j = j + 1;
        }
        None
    }

    /// Read the current balance for `(owner, asset)`; zero when no account
    /// exists for that pair.
    pub fn balance_of(&self, owner: u64, asset: u64) -> (r: u64)
        ensures
            r as int == self.balance_spec(owner, asset),
    {
        match self.find(owner, asset) {
            Some(i) => {
                proof {
                    lemma_bal_of_first_match(self.accounts@, owner, asset, i as int);
                }
                self.accounts[i].balance
            },
            None => {
                proof {
                    lemma_bal_of_no_match(self.accounts@, owner, asset);
                }
                0
            },
        }
    }

    /// Add `amount` to the balance of `(owner, asset)`, opening the account
    /// when it does not exist yet. Fails, changing nothing, exactly when the
    /// new balance would exceed `u64::MAX`; no other balance ever changes.
    pub fn credit(&mut self, owner: u64, asset: u64, amount: u64) -> (r: Result<(), ErrorCode>)
        ensures
            r is Ok <==> old(self).balance_spec(owner, asset) + amount <= u64::MAX,
            r is Err ==> r == Err::<(), ErrorCode>(ErrorCode::BalanceOverflow) && *final(self)
                == *old(self),
            r is Ok ==> final(self).balance_spec(owner, asset) == old(self).balance_spec(
                owner,
                asset,
            ) + amount,
            forall|o: u64, t: u64|
                !(o == owner && t == asset) ==> #[trigger] final(self).balance_spec(o, t) == old(
                    self,
                ).balance_spec(o, t),
    {
        match self.find(owner, asset) {
            None => {
                proof {
                    lemma_bal_of_no_match(self.accounts@, owner, asset);
                    lemma_bal_of_push(
                        self.accounts@,
                        TokenAccount { owner, asset, balance: amount },
                    );
                    lemma_bal_of_first_match(
                        self.accounts@.push(TokenAccount { owner, asset, balance: amount }),
                        owner,
                        asset,
                        self.accounts@.len() as int,
                    );
                }
                self.accounts.push(TokenAccount { owner, asset, balance: amount });
                Ok(())
            },
            Some(i) => {
                let bal = self.accounts[i].balance;
                proof {
                    lemma_bal_of_first_match(self.accounts@, owner, asset, i as int);
                }
                if amount > u64::MAX - bal {
                    return Err(ErrorCode::BalanceOverflow);
                }
                proof {
                    lemma_bal_of_update(self.accounts@, i as int, (bal + amount) as u64);
                }
                self.accounts[i] = TokenAccount { owner, asset, balance: bal + amount };
                Ok(())
            },
        }
    }

    /// Remove `amount` from the balance of `(owner, asset)`. Fails, changing
    /// nothing, exactly when the balance is smaller than `amount`; no other
    /// balance ever changes.
    pub fn debit(&mut self, owner: u64, asset: u64, amount: u64) -> (r: Result<(), ErrorCode>)
        ensures
            r is Ok <==> amount as int <= old(self).balance_spec(owner, asset),
            r is Err ==> r == Err::<(), ErrorCode>(ErrorCode::InsufficientFunds) && *final(self)
                == *old(self),
            r is Ok ==> final(self).balance_spec(owner, asset) == old(self).balance_spec(
                owner,
                asset,
            ) - amount,
            forall|o: u64, t: u64|
                !(o == owner && t == asset) ==> #[trigger] final(self).balance_spec(o, t) == old(
                    self,
                ).balance_spec(o, t),
    {
        match self.find(owner, asset) {
            None => {
                proof {
                    lemma_bal_of_no_match(self.accounts@, owner, asset);
                }
                if amount == 0 {
                    Ok(())
                } else {
                    Err(ErrorCode::InsufficientFunds)
                }
            },
            Some(i) => {
                let bal = self.accounts[i].balance;
                proof {
                    lemma_bal_of_first_match(self.accounts@, owner, asset, i as int);
                }
                if amount > bal {
                    return Err(ErrorCode::InsufficientFunds);
                }
                proof {
                    lemma_bal_of_update(self.accounts@, i as int, (bal - amount) as u64);
                }
                self.accounts[i] = TokenAccount { owner, asset, balance: bal - amount };
                Ok(())
            },
        }
    }
}

/// One pool: the ordered pair of asset identities it trades, the creator it
/// records for provenance, and its two vaults. A vault is modeled by the
/// reserve it holds; since the vaults are fields of the pool record, only the
/// pool's own operations can move vault funds.
#[derive(Clone, Copy, Debug, PartialEq, Eq, Structural)]
pub struct Pool {
    /// The account that initialized the pool; informational only.
    pub authority: u64,
    /// Identity of asset A. Order matters: it is fixed at creation.
    pub mint_a: u64,
    /// Identity of asset B.
    pub mint_b: u64,
    /// Reserve of asset A held in the pool's own vault.
    pub vault_a: u64,
    /// Reserve of asset B held in the pool's own vault.
    pub vault_b: u64,
}

/// Whether `p` is the pool for the ordered asset pair `(a, b)`.
pub open spec fn pool_matches(p: Pool, a: u64, b: u64) -> bool {
    p.mint_a == a && p.mint_b == b
}

/// Whether a sequence of pools holds one for the ordered pair `(a, b)`.
pub open spec fn has_pair(s: Seq<Pool>, a: u64, b: u64) -> bool {
    exists|i: int| 0 <= i < s.len() && pool_matches(#[trigger] s[i], a, b)
}

/// The index of the pool for `(a, b)` in `s`; under `pools_wf` it is unique.
pub open spec fn pair_idx(s: Seq<Pool>, a: u64, b: u64) -> int {
    choose|i: int| 0 <= i < s.len() && pool_matches(#[trigger] s[i], a, b)
}

/// Well-formedness of a sequence of pools: each trades two distinct assets,
/// and no ordered asset pair appears twice.
pub open spec fn pools_wf(s: Seq<Pool>) -> bool {
    &&& forall|i: int| 0 <= i < s.len() ==> (#[trigger] s[i]).mint_a != s[i].mint_b
    &&& forall|i: int, j: int|
        0 <= i < j < s.len() ==> !((#[trigger] s[i]).mint_a == (#[trigger] s[j]).mint_a
            && s[i].mint_b == s[j].mint_b)
}

/// Two pool sequences whose entries trade the same ordered pairs hold pools
/// for exactly the same pairs.
pub proof fn lemma_same_pairs_has_pair(s1: Seq<Pool>, s2: Seq<Pool>)
    requires
        s1.len() == s2.len(),
        forall|k: int|
            0 <= k < s1.len() ==> (#[trigger] s2[k]).mint_a == s1[k].mint_a && s2[k].mint_b
                == s1[k].mint_b,
    ensures
        forall|x: u64, y: u64| #[trigger] has_pair(s2, x, y) <==> has_pair(s1, x, y),
{
    assert forall|x: u64, y: u64| #[trigger] has_pair(s2, x, y) <==> has_pair(s1, x, y) by {
        if has_pair(s1, x, y) {
            let w = choose|i: int| 0 <= i < s1.len() && pool_matches(#[trigger] s1[i], x, y);
            assert(pool_matches(s2[w], x, y));
        }
        if has_pair(s2, x, y) {
            let w = choose|i: int| 0 <= i < s2.len() && pool_matches(#[trigger] s2[i], x, y);
            assert(pool_matches(s1[w], x, y));
        }
    }
}

/// Appending a pool leaves every pair present before, and adds exactly the
/// appended pool's own pair.
pub proof fn lemma_push_has_pair(s: Seq<Pool>, p: Pool)
    ensures
        forall|x: u64, y: u64| #[trigger]
            has_pair(s.push(p), x, y) <==> (has_pair(s, x, y) || pool_matches(p, x, y)),
{
    assert forall|x: u64, y: u64| #[trigger]
        has_pair(s.push(p), x, y) <==> (has_pair(s, x, y) || pool_matches(p, x, y)) by {
        if has_pair(s, x, y) {
            let w = choose|i: int| 0 <= i < s.len() && pool_matches(#[trigger] s[i], x, y);
            assert(pool_matches(s.push(p)[w], x, y));
        }
        if pool_matches(p, x, y) {
            assert(pool_matches(s.push(p)[s.len() as int], x, y));
        }
        if has_pair(s.push(p), x, y) {
            let w = choose|i: int|
                0 <= i < s.push(p).len() && pool_matches(#[trigger] s.push(p)[i], x, y);
            if w < s.len() {
                assert(pool_matches(s[w], x, y));
            }
        }
    }
}

/// The market maker: every pool created so far, beside the custody ledger of
/// user holdings.
#[derive(Debug)]
pub struct Amm {
    pub pools: Vec<Pool>,
    pub custody: Ledger,
}

impl Amm {
    /// Well-formedness: each pool trades two distinct assets, and no ordered
    /// asset pair has more than one pool.
    pub open spec fn wf(self) -> bool {
        pools_wf(self.pools@)
    }

    /// Whether a pool exists for the ordered pair `(a, b)`.
    pub open spec fn has_pool(self, a: u64, b: u64) -> bool {
        has_pair(self.pools@, a, b)
    }

    /// The index of the pool for `(a, b)`; under `wf` it is unique.
    pub open spec fn pool_idx(self, a: u64, b: u64) -> int {
        pair_idx(self.pools@, a, b)
    }

    /// The pool record for `(a, b)`.
    pub open spec fn pool_of(self, a: u64, b: u64) -> Pool {
        self.pools@[self.pool_idx(a, b)]
    }

    /// The ledger balance of `owner` in `asset`.
    pub open spec fn balance(self, owner: u64, asset: u64) -> int {
        self.custody.balance_spec(owner, asset)
    }

    /// A market maker with no pools and an empty ledger.
    pub fn new() -> (r: Amm)
        ensures
            r.wf(),
            r.pools@.len() == 0,
            r.custody.accounts@.len() == 0,
            forall|o: u64, t: u64| #[trigger] r.balance(o, t) == 0,
            forall|o: u64, t: u64| #[trigger] r.custody.balance_spec(o, t) == 0,
    {
        Amm { pools: Vec::new(), custody: Ledger::new() }
    }

    /// Under `wf`, any index holding the pool for `(a, b)` is the one
    /// `pool_idx` denotes.
    pub proof fn lemma_pool_idx_unique(self, a: u64, b: u64, i: int)
        requires
            self.wf(),
            0 <= i < self.pools@.len(),
            pool_matches(self.pools@[i], a, b),
        ensures
            self.has_pool(a, b),
            self.pool_idx(a, b) == i,
    {
        assert(self.has_pool(a, b));
        let j = self.pool_idx(a, b);
        if i < j {
            assert(!(self.pools@[i].mint_a == self.pools@[j].mint_a && self.pools@[i].mint_b
                == self.pools@[j].mint_b));
        } else if j < i {
            assert(!(self.pools@[j].mint_a == self.pools@[i].mint_a && self.pools@[j].mint_b
                == self.pools@[i].mint_b));
        }
    }

    /// Locate the pool for `(a, b)`, if one exists.
    pub(crate) fn find_pool(&self, a: u64, b: u64) -> (r: Option<usize>)
        ensures
            r matches Some(i) ==> (i as int) < self.pools@.len() && pool_matches(
                self.pools@[i as int],
                a,
                b,
            ),
            r is None ==> !self.has_pool(a, b),
    {
        let mut j: usize = 0;
        while j < self.pools.len()
            invariant
                j <= self.pools@.len(),
                forall|k: int| 0 <= k < j as int ==> !pool_matches(#[trigger] self.pools@[k], a, b),
            decreases self.pools@.len() - j,
        {
            if self.pools[j].mint_a == a && self.pools[j].mint_b == b {
                return Some(j);
            }
            j = j + 1;
        }
        None
    }

    /// Read the two reserves of the pool for `(a, b)` live from its vaults:
    /// first the reserve of asset A, then the reserve of asset B.
    pub fn reserves_of(&self, a: u64, b: u64) -> (r: (u64, u64))
        requires
            self.wf(),
            self.has_pool(a, b),
        ensures
            r.0 == self.pool_of(a, b).vault_a,
            r.1 == self.pool_of(a, b).vault_b,
    {
        let i = self.find_pool_idx(a, b);
        (self.pools[i].vault_a, self.pools[i].vault_b)
    }

    /// Locate the pool for `(a, b)`, which the caller asserts exists.
    pub(crate) fn find_pool_idx(&self, a: u64, b: u64) -> (i: usize)
        requires
            self.wf(),
            self.has_pool(a, b),
        ensures
            i as int == self.pool_idx(a, b),
            (i as int) < self.pools@.len(),
            pool_matches(self.pools@[i as int], a, b),
    {
        match self.find_pool(a, b) {
            Some(i) => {
                proof {
                    self.lemma_pool_idx_unique(a, b, i as int);
                }
                i
            },
            None => {
                proof {
                    assert(false);
                }
                0
            },
        }
    }
}

} // verus!
