//! An automated liquidity-pool exchange: canonical pool identities, LP-share
//! pricing, a registry of pools and their providers, and the deposit,
//! withdrawal and swap operations over an in-memory token ledger.
pub mod lemmas;
pub mod ledger;
pub mod pair;
pub mod pallet;
pub mod pricing;
pub mod registry;

pub use ledger::{AccountId, Ledger, LedgerError, LedgerState};
pub use pair::{
    check_swap_token_a, create_deposit, create_token_pair_id, create_withdrawal, lp_token_of,
    pair_id, Balance, Deposit, TokenId, Withdrawal,
};
pub use pallet::{
    Config, Error, Event, Pallet, PalletState, SwapReserves, ADA, BTC, DOT, ETH,
};
pub use pricing::{DexPricer, PRECISION};
pub use registry::{Pool, PoolRegistry, RegistryError};
