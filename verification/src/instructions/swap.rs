//! Swaps: a single-direction exchange priced by the constant-product formula,
//! guarded against overflow and slippage, atomic as a unit.

use vstd::prelude::*;

use crate::error::ErrorCode;
use crate::math::{calculate_swap_output, lemma_swap_product_non_decreasing, swap_output};
use crate::state::{lemma_same_pairs_has_pair, Amm, Pool};

verus! {

/// The request to swap against a pool: the trader and the ordered asset pair
/// naming the pool. The direction of the exchange is a separate argument.
#[derive(Clone, Copy, Debug, PartialEq, Eq, Structural)]
pub struct Swap {
    /// The trader, who pays the input amount and receives the output.
    pub user: u64,
    /// Identity of asset A of the pool traded against.
    pub mint_a: u64,
    /// Identity of asset B of the pool traded against.
    pub mint_b: u64,
}

/// The reserve of the input side of a swap in direction `a_to_b`.
pub open spec fn reserve_in_of(p: Pool, a_to_b: bool) -> u64 {
    if a_to_b {
        p.vault_a
    } else {
        p.vault_b
    }
}

/// The reserve of the output side of a swap in direction `a_to_b`.
pub open spec fn reserve_out_of(p: Pool, a_to_b: bool) -> u64 {
    if a_to_b {
        p.vault_b
    } else {
        p.vault_a
    }
}

/// The asset the trader pays in direction `a_to_b`.
pub open spec fn asset_in_of(accounts: Swap, a_to_b: bool) -> u64 {
    if a_to_b {
        accounts.mint_a
    } else {
        accounts.mint_b
    }
}

/// The asset the trader receives in direction `a_to_b`.
pub open spec fn asset_out_of(accounts: Swap, a_to_b: bool) -> u64 {
    if a_to_b {
        accounts.mint_b
    } else {
        accounts.mint_a
    }
}

/// The pool after a swap that paid `amount_in` in and `amount_out` out.
pub open spec fn pool_after_swap(p: Pool, a_to_b: bool, amount_in: u64, amount_out: u64) -> Pool {
    if a_to_b {
        Pool {
            vault_a: (p.vault_a + amount_in) as u64,
            vault_b: (p.vault_b - amount_out) as u64,
            ..p
        }
    } else {
        Pool {
            vault_a: (p.vault_a - amount_out) as u64,
            vault_b: (p.vault_b + amount_in) as u64,
            ..p
        }
    }
}

/// The outcome `swap` owes, following the order the operation works in:
/// pricing first (`MathOverflow` exactly when `reserve_in` and `amount_in`
/// are both zero), then the slippage guard (`SlippageTooHigh` exactly when
/// the quote is below `minimum_amount_out`, checked strictly before any
/// transfer), then the inbound transfer (the trader's balance, then the
/// capacity of the input vault), then the outbound credit (the capacity of
/// the trader's receiving balance). The output vault itself never falls
/// short: the quote cannot exceed it.
pub open spec fn swap_spec(
    amm: Amm,
    accounts: Swap,
    amount_in: u64,
    minimum_amount_out: u64,
    a_to_b: bool,
) -> Result<u64, ErrorCode> {
    let p = amm.pool_of(accounts.mint_a, accounts.mint_b);
    let reserve_in = reserve_in_of(p, a_to_b);
    let reserve_out = reserve_out_of(p, a_to_b);
    if reserve_in == 0 && amount_in == 0 {
        Err(ErrorCode::MathOverflow)
    } else {
        let out = swap_output(amount_in as int, reserve_in as int, reserve_out as int);
        if out < minimum_amount_out {
            Err(ErrorCode::SlippageTooHigh)
        } else if amm.balance(accounts.user, asset_in_of(accounts, a_to_b)) < amount_in {
            Err(ErrorCode::InsufficientFunds)
        } else if reserve_in + amount_in > u64::MAX {
            Err(ErrorCode::BalanceOverflow)
        } else if amm.balance(accounts.user, asset_out_of(accounts, a_to_b)) + out > u64::MAX {
            Err(ErrorCode::BalanceOverflow)
        } else {
            Ok(out as u64)
        }
    }
}

/// Exchange `amount_in` of the input asset for the constant-product quote of
/// the output asset, in direction `a_to_b` (true: A in, B out).
///
/// The pool for the ordered pair must exist: resolving a request to a live
/// pool is the host's account lookup, done before this engine runs.
///
/// The swap is atomic: on any failure nothing changes. On success the trader
/// receives exactly `floor(amount_in * reserve_out / (reserve_in +
/// amount_in))`, the input reserve grows by `amount_in`, the output reserve
/// shrinks by the amount paid out, the product of the reserves never
/// decreases, and no other balance or pool changes.
pub fn swap(
    amm: &mut Amm,
    accounts: Swap,
    amount_in: u64,
    minimum_amount_out: u64,
    a_to_b: bool,
) -> (r: Result<u64, ErrorCode>)
    requires
        old(amm).wf(),
        old(amm).has_pool(accounts.mint_a, accounts.mint_b),
    ensures
        final(amm).wf(),
        r == swap_spec(*old(amm), accounts, amount_in, minimum_amount_out, a_to_b),
        r is Err ==> *final(amm) == *old(amm),
        r matches Ok(out) ==> out as int == swap_output(
            amount_in as int,
            reserve_in_of(old(amm).pool_of(accounts.mint_a, accounts.mint_b), a_to_b) as int,
            reserve_out_of(old(amm).pool_of(accounts.mint_a, accounts.mint_b), a_to_b) as int,
        ),
        r matches Ok(out) ==> final(amm).pools@ == old(amm).pools@.update(
            old(amm).pool_idx(accounts.mint_a, accounts.mint_b),
            pool_after_swap(
                old(amm).pool_of(accounts.mint_a, accounts.mint_b),
                a_to_b,
                amount_in,
                out,
            ),
        ),
        r matches Ok(out) ==> ({
            let p = old(amm).pool_of(accounts.mint_a, accounts.mint_b);
            (reserve_in_of(p, a_to_b) + amount_in) * (reserve_out_of(p, a_to_b) - out)
                >= (reserve_in_of(p, a_to_b) as int) * (reserve_out_of(p, a_to_b) as int)
        }),
        r matches Ok(out) ==> final(amm).balance(accounts.user, asset_in_of(accounts, a_to_b))
            == old(amm).balance(accounts.user, asset_in_of(accounts, a_to_b)) - amount_in,
        r matches Ok(out) ==> final(amm).balance(accounts.user, asset_out_of(accounts, a_to_b))
            == old(amm).balance(accounts.user, asset_out_of(accounts, a_to_b)) + out,
        forall|o: u64, t: u64|
            !(o == accounts.user && (t == accounts.mint_a || t == accounts.mint_b))
                ==> #[trigger] final(amm).balance(o, t) == old(amm).balance(o, t),
        r is Ok ==> forall|x: u64, y: u64| #[trigger]
            final(amm).has_pool(x, y) <==> old(amm).has_pool(x, y),
        r is Ok ==> final(amm).pool_idx(accounts.mint_a, accounts.mint_b) == old(amm).pool_idx(
            accounts.mint_a,
            accounts.mint_b,
        ),
{
    let a = accounts.mint_a;
    let b = accounts.mint_b;
    let user = accounts.user;
    let i = amm.find_pool_idx(a, b);
    let p = amm.pools[i];
    proof {
        assert(p.mint_a != p.mint_b);
    }
    let reserve_in = if a_to_b {
        p.vault_a
    } else {
        p.vault_b
    };
    let reserve_out = if a_to_b {
        p.vault_b
    } else {
        p.vault_a
    };
    let asset_in = if a_to_b {
        a
    } else {
        b
    };
    let asset_out = if a_to_b {
        b
    } else {
        a
    };
    let amount_out = match calculate_swap_output(amount_in, reserve_in, reserve_out) {
        Ok(v) => v,
        Err(e) => {
            return Err(e);
        },
    };
    if amount_out < minimum_amount_out {
        return Err(ErrorCode::SlippageTooHigh);
    }
    let bal_in = amm.custody.balance_of(user, asset_in);
    if bal_in < amount_in {
        return Err(ErrorCode::InsufficientFunds);
    }
    if amount_in > u64::MAX - reserve_in {
        return Err(ErrorCode::BalanceOverflow);
    }
    let bal_out = amm.custody.balance_of(user, asset_out);
    if bal_out > u64::MAX - amount_out {
        return Err(ErrorCode::BalanceOverflow);
    }
    match amm.custody.debit(user, asset_in, amount_in) {
        Ok(_) => {},
        Err(e) => {
            proof {
                assert(false);
            }
            return Err(e);
        },
    }
    match amm.custody.credit(user, asset_out, amount_out) {
        Ok(_) => {},
        Err(e) => {
            proof {
                assert(false);
            }
            return Err(e);
        },
    }
    let ghost pools_pre = amm.pools@;
    amm.pools[i] = if a_to_b {
        Pool {
            authority: p.authority,
            mint_a: p.mint_a,
            mint_b: p.mint_b,
            vault_a: p.vault_a + amount_in,
            vault_b: p.vault_b - amount_out,
        }
    } else {
        Pool {
            authority: p.authority,
            mint_a: p.mint_a,
            mint_b: p.mint_b,
            vault_a: p.vault_a - amount_out,
            vault_b: p.vault_b + amount_in,
        }
    };
    proof {
        lemma_swap_product_non_decreasing(
            amount_in as int,
            reserve_in as int,
            reserve_out as int,
        );
        assert forall|k: int, j: int| 0 <= k < j < amm.pools@.len() implies !((
        #[trigger] amm.pools@[k]).mint_a == (#[trigger] amm.pools@[j]).mint_a && amm.pools@[k].mint_b
            == amm.pools@[j].mint_b) by {
            assert(amm.pools@[k].mint_a == pools_pre[k].mint_a && amm.pools@[k].mint_b
                == pools_pre[k].mint_b);
            assert(amm.pools@[j].mint_a == pools_pre[j].mint_a && amm.pools@[j].mint_b
                == pools_pre[j].mint_b);
        }
        assert forall|k: int| 0 <= k < amm.pools@.len() implies (#[trigger] amm.pools@[k]).mint_a
            != amm.pools@[k].mint_b by {
            assert(amm.pools@[k].mint_a == pools_pre[k].mint_a && amm.pools@[k].mint_b
                == pools_pre[k].mint_b);
        }
        assert forall|k: int| 0 <= k < pools_pre.len() implies (#[trigger] amm.pools@[k]).mint_a
            == pools_pre[k].mint_a && amm.pools@[k].mint_b == pools_pre[k].mint_b by {}
        lemma_same_pairs_has_pair(pools_pre, amm.pools@);
        amm.lemma_pool_idx_unique(a, b, i as int);
    }
    Ok(amount_out)
}

} // verus!
