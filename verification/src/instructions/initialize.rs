//! Pool creation: one pool per ordered asset pair, starting with empty vaults.

use vstd::prelude::*;

use crate::error::ErrorCode;
use crate::state::{lemma_push_has_pair, pool_matches, Amm, Pool};

verus! {

/// The request to create a pool: who creates it and which ordered asset pair
/// it will trade.
#[derive(Clone, Copy, Debug, PartialEq, Eq, Structural)]
pub struct InitializePool {
    /// The creator, recorded in the pool for provenance only.
    pub authority: u64,
    /// Identity of asset A.
    pub mint_a: u64,
    /// Identity of asset B.
    pub mint_b: u64,
}

/// The outcome `initialize_pool` owes: `InvalidAssetPair` when the two asset
/// identities are equal, `DuplicatePool` when the ordered pair already has a
/// pool, and success otherwise. The pair `(mint_b, mint_a)` is a distinct
/// pool: ordering is not canonicalized.
pub open spec fn initialize_pool_spec(amm: Amm, accounts: InitializePool) -> Result<
    (),
    ErrorCode,
> {
    if accounts.mint_a == accounts.mint_b {
        Err(ErrorCode::InvalidAssetPair)
    } else if amm.has_pool(accounts.mint_a, accounts.mint_b) {
        Err(ErrorCode::DuplicatePool)
    } else {
        Ok(())
    }
}

/// Create the pool for `(accounts.mint_a, accounts.mint_b)` with zero
/// reserves in both vaults. On failure nothing changes; on success the new
/// pool is appended and every balance and existing pool is left as it was.
pub fn initialize_pool(amm: &mut Amm, accounts: InitializePool) -> (r: Result<(), ErrorCode>)
    requires
        old(amm).wf(),
    ensures
        final(amm).wf(),
        r == initialize_pool_spec(*old(amm), accounts),
        r is Err ==> *final(amm) == *old(amm),
        r is Ok ==> final(amm).pools@ == old(amm).pools@.push(
            Pool {
                authority: accounts.authority,
                mint_a: accounts.mint_a,
                mint_b: accounts.mint_b,
                vault_a: 0,
                vault_b: 0,
            },
        ),
        r is Ok ==> final(amm).custody == old(amm).custody,
        r is Ok ==> final(amm).has_pool(accounts.mint_a, accounts.mint_b),
        r is Ok ==> final(amm).pool_of(accounts.mint_a, accounts.mint_b) == (Pool {
            authority: accounts.authority,
            mint_a: accounts.mint_a,
            mint_b: accounts.mint_b,
            vault_a: 0,
            vault_b: 0,
        }),
        r is Ok ==> forall|x: u64, y: u64| #[trigger]
            final(amm).has_pool(x, y) <==> (old(amm).has_pool(x, y) || (x == accounts.mint_a && y
                == accounts.mint_b)),
{
    let a = accounts.mint_a;
    let b = accounts.mint_b;
    if a == b {
        return Err(ErrorCode::InvalidAssetPair);
    }
    if let Some(_) = amm.find_pool(a, b) {
        return Err(ErrorCode::DuplicatePool);
    }
    let p = Pool { authority: accounts.authority, mint_a: a, mint_b: b, vault_a: 0, vault_b: 0 };
    let ghost pools_pre = amm.pools@;
    amm.pools.push(p);
    proof {
        assert forall|i: int, j: int| 0 <= i < j < amm.pools@.len() implies !((
        #[trigger] amm.pools@[i]).mint_a == (#[trigger] amm.pools@[j]).mint_a && amm.pools@[i].mint_b
            == amm.pools@[j].mint_b) by {
            if j < pools_pre.len() as int {
                assert(amm.pools@[i] == pools_pre[i] && amm.pools@[j] == pools_pre[j]);
            } else {
                assert(amm.pools@[j] == p);
                assert(!pool_matches(pools_pre[i], a, b));
            }
        }
        amm.lemma_pool_idx_unique(a, b, pools_pre.len() as int);
        lemma_push_has_pair(pools_pre, p);
    }
    Ok(())
}

} // verus!
