use swap_program::add_liquidity;
use swap_program::initialize_pool;
use swap_program::swap;
use swap_program::AddLiquidity;
use swap_program::Amm;
use swap_program::ErrorCode;
use swap_program::InitializePool;
use swap_program::Swap;

const ASSET_A: u64 = 10;
const ASSET_B: u64 = 20;
const CREATOR: u64 = 1;
const DEPOSITOR: u64 = 2;
const TRADER: u64 = 3;

/// A market maker with one (ASSET_A, ASSET_B) pool holding the given reserves.
fn pool_with_reserves(reserve_a: u64, reserve_b: u64) -> Amm {
    let mut amm = Amm::new();
    let init = InitializePool { authority: CREATOR, mint_a: ASSET_A, mint_b: ASSET_B };
    assert_eq!(initialize_pool(&mut amm, init), Ok(()));
    amm.custody.credit(DEPOSITOR, ASSET_A, reserve_a).unwrap();
    amm.custody.credit(DEPOSITOR, ASSET_B, reserve_b).unwrap();
    let accounts = AddLiquidity { user: DEPOSITOR, mint_a: ASSET_A, mint_b: ASSET_B };
    assert_eq!(add_liquidity(&mut amm, accounts, reserve_a, reserve_b), Ok(()));
    amm
}

fn reserves(amm: &Amm) -> (u64, u64) {
    amm.reserves_of(ASSET_A, ASSET_B)
}

#[test]
fn swap_prices_with_constant_product() {
    let mut amm = pool_with_reserves(1000, 1000);
    amm.custody.credit(TRADER, ASSET_A, 100).unwrap();
    let accounts = Swap { user: TRADER, mint_a: ASSET_A, mint_b: ASSET_B };
    // floor(100 * 1000 / (1000 + 100)) = 90
    assert_eq!(swap(&mut amm, accounts, 100, 0, true), Ok(90));
    assert_eq!(reserves(&amm), (1100, 910));
    assert_eq!(amm.custody.balance_of(TRADER, ASSET_A), 0);
    assert_eq!(amm.custody.balance_of(TRADER, ASSET_B), 90);
}

#[test]
fn swap_product_never_decreases() {
    let mut amm = pool_with_reserves(1000, 1000);
    amm.custody.credit(TRADER, ASSET_A, 100).unwrap();
    let accounts = Swap { user: TRADER, mint_a: ASSET_A, mint_b: ASSET_B };
    swap(&mut amm, accounts, 100, 0, true).unwrap();
    let (ra, rb) = reserves(&amm);
    assert!((ra as u128) * (rb as u128) >= 1000u128 * 1000u128);
}

#[test]
fn swap_slippage_guard_blocks_low_output() {
    let mut amm = pool_with_reserves(1000, 1000);
    amm.custody.credit(TRADER, ASSET_A, 100).unwrap();
    let accounts = Swap { user: TRADER, mint_a: ASSET_A, mint_b: ASSET_B };
    assert_eq!(swap(&mut amm, accounts, 100, 91, true), Err(ErrorCode::SlippageTooHigh));
    // nothing moved
    assert_eq!(reserves(&amm), (1000, 1000));
    assert_eq!(amm.custody.balance_of(TRADER, ASSET_A), 100);
    assert_eq!(amm.custody.balance_of(TRADER, ASSET_B), 0);
    // the same trade passes at the exact quote
    assert_eq!(swap(&mut amm, accounts, 100, 90, true), Ok(90));
}

#[test]
fn swap_reverse_direction() {
    let mut amm = pool_with_reserves(1000, 1000);
    amm.custody.credit(TRADER, ASSET_B, 100).unwrap();
    let accounts = Swap { user: TRADER, mint_a: ASSET_A, mint_b: ASSET_B };
    assert_eq!(swap(&mut amm, accounts, 100, 0, false), Ok(90));
    assert_eq!(reserves(&amm), (910, 1100));
    assert_eq!(amm.custody.balance_of(TRADER, ASSET_A), 90);
}

#[test]
fn swap_zero_amount_in() {
    let mut amm = pool_with_reserves(1000, 1000);
    let accounts = Swap { user: TRADER, mint_a: ASSET_A, mint_b: ASSET_B };
    // a zero input quotes zero: it passes a zero minimum and fails any other
    assert_eq!(swap(&mut amm, accounts, 0, 0, true), Ok(0));
    assert_eq!(swap(&mut amm, accounts, 0, 1, true), Err(ErrorCode::SlippageTooHigh));
    assert_eq!(reserves(&amm), (1000, 1000));
}

#[test]
fn swap_empty_input_side_drains_output_side() {
    let mut amm = pool_with_reserves(0, 500);
    amm.custody.credit(TRADER, ASSET_A, 10).unwrap();
    let accounts = Swap { user: TRADER, mint_a: ASSET_A, mint_b: ASSET_B };
    // denominator = amount_in, so floor(10 * 500 / 10) = 500: all of B leaves
    assert_eq!(swap(&mut amm, accounts, 10, 0, true), Ok(500));
    assert_eq!(reserves(&amm), (10, 0));
    assert_eq!(amm.custody.balance_of(TRADER, ASSET_B), 500);
}

#[test]
fn swap_empty_pool_zero_input_is_math_overflow() {
    let mut amm = pool_with_reserves(0, 0);
    let accounts = Swap { user: TRADER, mint_a: ASSET_A, mint_b: ASSET_B };
    assert_eq!(swap(&mut amm, accounts, 0, 0, true), Err(ErrorCode::MathOverflow));
    assert_eq!(reserves(&amm), (0, 0));
}

#[test]
fn swap_largest_input_overflows_vault() {
    let mut amm = pool_with_reserves(1_000_000, 1_000_000);
    amm.custody.credit(TRADER, ASSET_A, u64::MAX).unwrap();
    let accounts = Swap { user: TRADER, mint_a: ASSET_A, mint_b: ASSET_B };
    // the 128-bit pricing succeeds, but no 64-bit vault can absorb the input
    assert_eq!(swap(&mut amm, accounts, u64::MAX, 0, true), Err(ErrorCode::BalanceOverflow));
    assert_eq!(reserves(&amm), (1_000_000, 1_000_000));
    assert_eq!(amm.custody.balance_of(TRADER, ASSET_A), u64::MAX);
}

#[test]
fn swap_without_funds_fails() {
    let mut amm = pool_with_reserves(1000, 1000);
    amm.custody.credit(TRADER, ASSET_A, 99).unwrap();
    let accounts = Swap { user: TRADER, mint_a: ASSET_A, mint_b: ASSET_B };
    assert_eq!(swap(&mut amm, accounts, 100, 0, true), Err(ErrorCode::InsufficientFunds));
    assert_eq!(reserves(&amm), (1000, 1000));
}

#[test]
fn deposit_into_empty_pool() {
    let mut amm = Amm::new();
    let init = InitializePool { authority: CREATOR, mint_a: ASSET_A, mint_b: ASSET_B };
    initialize_pool(&mut amm, init).unwrap();
    assert_eq!(reserves(&amm), (0, 0));
    amm.custody.credit(DEPOSITOR, ASSET_A, 500).unwrap();
    amm.custody.credit(DEPOSITOR, ASSET_B, 300).unwrap();
    let accounts = AddLiquidity { user: DEPOSITOR, mint_a: ASSET_A, mint_b: ASSET_B };
    assert_eq!(add_liquidity(&mut amm, accounts, 500, 300), Ok(()));
    assert_eq!(reserves(&amm), (500, 300));
    assert_eq!(amm.custody.balance_of(DEPOSITOR, ASSET_A), 0);
    assert_eq!(amm.custody.balance_of(DEPOSITOR, ASSET_B), 0);
}

#[test]
fn deposit_grows_reserves_linearly_at_any_ratio() {
    let mut amm = pool_with_reserves(1000, 1000);
    amm.custody.credit(DEPOSITOR, ASSET_A, 7).unwrap();
    amm.custody.credit(DEPOSITOR, ASSET_B, 9000).unwrap();
    let accounts = AddLiquidity { user: DEPOSITOR, mint_a: ASSET_A, mint_b: ASSET_B };
    // no proportionality check: each side grows by exactly what was asked
    assert_eq!(add_liquidity(&mut amm, accounts, 7, 9000), Ok(()));
    assert_eq!(reserves(&amm), (1007, 10000));
}

#[test]
fn deposit_without_funds_fails_atomically() {
    let mut amm = pool_with_reserves(1000, 1000);
    amm.custody.credit(DEPOSITOR, ASSET_A, 50).unwrap();
    amm.custody.credit(DEPOSITOR, ASSET_B, 50).unwrap();
    let accounts = AddLiquidity { user: DEPOSITOR, mint_a: ASSET_A, mint_b: ASSET_B };
    // the second leg is short of funds: neither leg is retained
    assert_eq!(add_liquidity(&mut amm, accounts, 50, 51), Err(ErrorCode::InsufficientFunds));
    assert_eq!(reserves(&amm), (1000, 1000));
    assert_eq!(amm.custody.balance_of(DEPOSITOR, ASSET_A), 50);
    assert_eq!(amm.custody.balance_of(DEPOSITOR, ASSET_B), 50);
}

#[test]
fn deposit_overflowing_vault_fails() {
    let mut amm = pool_with_reserves(1000, 1000);
    amm.custody.credit(DEPOSITOR, ASSET_A, u64::MAX).unwrap();
    amm.custody.credit(DEPOSITOR, ASSET_B, 1).unwrap();
    let accounts = AddLiquidity { user: DEPOSITOR, mint_a: ASSET_A, mint_b: ASSET_B };
    assert_eq!(add_liquidity(&mut amm, accounts, u64::MAX, 1), Err(ErrorCode::BalanceOverflow));
    assert_eq!(reserves(&amm), (1000, 1000));
}

#[test]
fn pool_creation_is_unique_per_ordered_pair() {
    let mut amm = Amm::new();
    let init = InitializePool { authority: CREATOR, mint_a: ASSET_A, mint_b: ASSET_B };
    assert_eq!(initialize_pool(&mut amm, init), Ok(()));
    assert_eq!(initialize_pool(&mut amm, init), Err(ErrorCode::DuplicatePool));
    // the reversed pair is a distinct pool: ordering is not canonicalized
    let reversed = InitializePool { authority: CREATOR, mint_a: ASSET_B, mint_b: ASSET_A };
    assert_eq!(initialize_pool(&mut amm, reversed), Ok(()));
    assert_eq!(amm.pools.len(), 2);
}

#[test]
fn pool_creation_rejects_equal_assets() {
    let mut amm = Amm::new();
    let init = InitializePool { authority: CREATOR, mint_a: ASSET_A, mint_b: ASSET_A };
    assert_eq!(initialize_pool(&mut amm, init), Err(ErrorCode::InvalidAssetPair));
    assert_eq!(amm.pools.len(), 0);
}

#[test]
fn pool_records_creator_and_pair() {
    let mut amm = Amm::new();
    let init = InitializePool { authority: CREATOR, mint_a: ASSET_A, mint_b: ASSET_B };
    initialize_pool(&mut amm, init).unwrap();
    assert_eq!(amm.pools[0].authority, CREATOR);
    assert_eq!(amm.pools[0].mint_a, ASSET_A);
    assert_eq!(amm.pools[0].mint_b, ASSET_B);
}

#[test]
fn reversed_pair_pool_trades_independently() {
    let mut amm = Amm::new();
    let init = InitializePool { authority: CREATOR, mint_a: ASSET_A, mint_b: ASSET_B };
    initialize_pool(&mut amm, init).unwrap();
    let reversed = InitializePool { authority: CREATOR, mint_a: ASSET_B, mint_b: ASSET_A };
    initialize_pool(&mut amm, reversed).unwrap();
    amm.custody.credit(DEPOSITOR, ASSET_A, 400).unwrap();
    amm.custody.credit(DEPOSITOR, ASSET_B, 400).unwrap();
    // fund only the reversed pool: its asset A is ASSET_B
    let accounts = AddLiquidity { user: DEPOSITOR, mint_a: ASSET_B, mint_b: ASSET_A };
    add_liquidity(&mut amm, accounts, 400, 400).unwrap();
    assert_eq!(amm.reserves_of(ASSET_A, ASSET_B), (0, 0));
    assert_eq!(amm.reserves_of(ASSET_B, ASSET_A), (400, 400));
    amm.custody.credit(TRADER, ASSET_B, 100).unwrap();
    let trade = Swap { user: TRADER, mint_a: ASSET_B, mint_b: ASSET_A };
    // floor(100 * 400 / (400 + 100)) = 80
    assert_eq!(swap(&mut amm, trade, 100, 0, true), Ok(80));
    assert_eq!(amm.reserves_of(ASSET_B, ASSET_A), (500, 320));
    assert_eq!(amm.reserves_of(ASSET_A, ASSET_B), (0, 0));
}

#[test]
fn swaps_leave_other_pools_and_users_alone() {
    let mut amm = Amm::new();
    let init = InitializePool { authority: CREATOR, mint_a: ASSET_A, mint_b: ASSET_B };
    initialize_pool(&mut amm, init).unwrap();
    let other = InitializePool { authority: CREATOR, mint_a: 30, mint_b: 40 };
    initialize_pool(&mut amm, other).unwrap();
    amm.custody.credit(DEPOSITOR, ASSET_A, 1000).unwrap();
    amm.custody.credit(DEPOSITOR, ASSET_B, 1000).unwrap();
    amm.custody.credit(DEPOSITOR, 30, 77).unwrap();
    let accounts = AddLiquidity { user: DEPOSITOR, mint_a: ASSET_A, mint_b: ASSET_B };
    add_liquidity(&mut amm, accounts, 1000, 1000).unwrap();
    amm.custody.credit(TRADER, ASSET_A, 100).unwrap();
    let trade = Swap { user: TRADER, mint_a: ASSET_A, mint_b: ASSET_B };
    swap(&mut amm, trade, 100, 0, true).unwrap();
    // the second pool and unrelated balances are untouched
    assert_eq!(amm.pools[1].vault_a, 0);
    assert_eq!(amm.pools[1].vault_b, 0);
    assert_eq!(amm.custody.balance_of(DEPOSITOR, 30), 77);
}
