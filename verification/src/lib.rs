//! A two-asset constant-product automated market maker: pools of two token
//! reserves, deposits into both sides, and single-direction swaps priced by
//! the constant-product formula with floor division, guarded against overflow
//! and slippage.

pub mod error;
pub mod instructions;
pub mod math;
pub mod state;

pub use error::ErrorCode;
pub use instructions::add::add_liquidity;
pub use instructions::add::AddLiquidity;
pub use instructions::initialize::initialize_pool;
pub use instructions::initialize::InitializePool;
pub use instructions::swap::swap;
pub use instructions::swap::Swap;
pub use math::calculate_swap_output;
pub use state::Amm;
pub use state::Ledger;
pub use state::Pool;
pub use state::TokenAccount;
