//! Deposits: move caller-chosen amounts of both assets into the pool's vaults.

use vstd::prelude::*;

use crate::error::ErrorCode;
use crate::state::{lemma_same_pairs_has_pair, Amm, Pool};

verus! {

/// The request to deposit into a pool: the depositor and the ordered asset
/// pair naming the pool.
#[derive(Clone, Copy, Debug, PartialEq, Eq, Structural)]
pub struct AddLiquidity {
    /// The depositor, who pays both amounts out of their own holdings.
    pub user: u64,
    /// Identity of asset A of the pool deposited into.
    pub mint_a: u64,
    /// Identity of asset B of the pool deposited into.
    pub mint_b: u64,
}

/// The outcome `add_liquidity` owes. The transfer of asset A is attempted
/// first, so its failure is the one reported when both sides would fail:
/// a depositor balance below the requested amount fails with
/// `InsufficientFunds`, a vault that would exceed `u64::MAX` with
/// `BalanceOverflow`. No proportionality to the current reserve ratio is
/// asked: any pair of amounts is absorbed as given.
pub open spec fn add_liquidity_spec(
    amm: Amm,
    accounts: AddLiquidity,
    amount_a: u64,
    amount_b: u64,
) -> Result<(), ErrorCode> {
    let p = amm.pool_of(accounts.mint_a, accounts.mint_b);
    if amm.balance(accounts.user, accounts.mint_a) < amount_a {
        Err(ErrorCode::InsufficientFunds)
    } else if p.vault_a + amount_a > u64::MAX {
        Err(ErrorCode::BalanceOverflow)
    } else if amm.balance(accounts.user, accounts.mint_b) < amount_b {
        Err(ErrorCode::InsufficientFunds)
    } else if p.vault_b + amount_b > u64::MAX {
        Err(ErrorCode::BalanceOverflow)
    } else {
        Ok(())
    }
}

/// Deposit `amount_a` of asset A and `amount_b` of asset B from the depositor
/// into the pool's vaults. The pool for the ordered pair must exist: resolving
/// a request to a live pool is the host's account lookup, done before this
/// engine runs. The operation is atomic: on any failure nothing
/// changes; on success each reserve grows by exactly the requested amount,
/// the depositor's two balances shrink by the same amounts, and no other
/// balance or pool changes.
pub fn add_liquidity(
    amm: &mut Amm,
    accounts: AddLiquidity,
    amount_a: u64,
    amount_b: u64,
) -> (r: Result<(), ErrorCode>)
    requires
        old(amm).wf(),
        old(amm).has_pool(accounts.mint_a, accounts.mint_b),
    ensures
        final(amm).wf(),
        r == add_liquidity_spec(*old(amm), accounts, amount_a, amount_b),
        r is Err ==> *final(amm) == *old(amm),
        r is Ok ==> final(amm).pools@ == old(amm).pools@.update(
            old(amm).pool_idx(accounts.mint_a, accounts.mint_b),
            (Pool {
                vault_a: (old(amm).pool_of(accounts.mint_a, accounts.mint_b).vault_a
                    + amount_a) as u64,
                vault_b: (old(amm).pool_of(accounts.mint_a, accounts.mint_b).vault_b
                    + amount_b) as u64,
                ..old(amm).pool_of(accounts.mint_a, accounts.mint_b)
            }),
        ),
        r is Ok ==> final(amm).balance(accounts.user, accounts.mint_a) == old(amm).balance(
            accounts.user,
            accounts.mint_a,
        ) - amount_a,
        r is Ok ==> final(amm).balance(accounts.user, accounts.mint_b) == old(amm).balance(
            accounts.user,
            accounts.mint_b,
        ) - amount_b,
        forall|o: u64, t: u64|
            !(o == accounts.user && (t == accounts.mint_a || t == accounts.mint_b))
                ==> #[trigger] final(amm).balance(o, t) == old(amm).balance(o, t),
        r is Ok ==> forall|x: u64, y: u64| #[trigger]
            final(amm).has_pool(x, y) <==> old(amm).has_pool(x, y),
        r is Ok ==> final(amm).pool_idx(accounts.mint_a, accounts.mint_b) == old(amm).pool_idx(
            accounts.mint_a,
            accounts.mint_b,
        ),
{
    let a = accounts.mint_a;
    let b = accounts.mint_b;
    let user = accounts.user;
    let i = amm.find_pool_idx(a, b);
    let p = amm.pools[i];
    let bal_a = amm.custody.balance_of(user, a);
    if bal_a < amount_a {
        return Err(ErrorCode::InsufficientFunds);
    }
    if amount_a > u64::MAX - p.vault_a {
        return Err(ErrorCode::BalanceOverflow);
    }
    let bal_b = amm.custody.balance_of(user, b);
    if bal_b < amount_b {
        return Err(ErrorCode::InsufficientFunds);
    }
    if amount_b > u64::MAX - p.vault_b {
        return Err(ErrorCode::BalanceOverflow);
    }
    match amm.custody.debit(user, a, amount_a) {
        Ok(_) => {},
        Err(e) => {
            proof {
                assert(false);
            }
            return Err(e);
        },
    }
    match amm.custody.debit(user, b, amount_b) {
        Ok(_) => {},
        Err(e) => {
            proof {
                assert(false);
            }
            return Err(e);
        },
    }
    let ghost pools_pre = amm.pools@;
    amm.pools[i] = Pool {
        authority: p.authority,
        mint_a: p.mint_a,
        mint_b: p.mint_b,
        vault_a: p.vault_a + amount_a,
        vault_b: p.vault_b + amount_b,
    };
    proof {
        assert forall|k: int, j: int| 0 <= k < j < amm.pools@.len() implies !((
        #[trigger] amm.pools@[k]).mint_a == (#[trigger] amm.pools@[j]).mint_a && amm.pools@[k].mint_b
            == amm.pools@[j].mint_b) by {
            assert(amm.pools@[k].mint_a == pools_pre[k].mint_a && amm.pools@[k].mint_b
                == pools_pre[k].mint_b);
            assert(amm.pools@[j].mint_a == pools_pre[j].mint_a && amm.pools@[j].mint_b
                == pools_pre[j].mint_b);
        }
        assert forall|k: int| 0 <= k < amm.pools@.len() implies (#[trigger] amm.pools@[k]).mint_a
            != amm.pools@[k].mint_b by {
            assert(amm.pools@[k].mint_a == pools_pre[k].mint_a && amm.pools@[k].mint_b
                == pools_pre[k].mint_b);
        }
        assert forall|k: int| 0 <= k < pools_pre.len() implies (#[trigger] amm.pools@[k]).mint_a
            == pools_pre[k].mint_a && amm.pools@[k].mint_b == pools_pre[k].mint_b by {}
        lemma_same_pairs_has_pair(pools_pre, amm.pools@);
        amm.lemma_pool_idx_unique(a, b, i as int);
    }
    Ok(())
}

} // verus!
