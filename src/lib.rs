//! Settlement engine for binary-outcome prediction markets.
//!
//! Markets are created by an administrator, participants stake value on one
//! of two options, the administrator resolves the market, and winners
//! withdraw a pari-mutuel share of the pool net of a fixed commission.
//! Operations work on the records they are handed and return the transfer
//! of value they call for; performing it is left to the custody layer.

pub mod authority;
pub mod errors;
pub mod instructions;
pub mod laws;
pub mod market;
pub mod payout;
pub mod principal;
pub mod registry;

pub use authority::AUTHORITY_SEED;
pub use errors::SolcastError;
pub use instructions::{
    buy_share, create_market, get_all_markets, initialize, resolve, withdraw, BuyShare,
    CreateMarket, GetAllMarkets, Initialize, ResolveMarket, Transfer, Withdraw,
};
pub use laws::{
    lemma_duplicate_id_refused, lemma_ledger_sums_to_pool, lemma_resolve_needs_admin,
    lemma_second_withdraw_refused, lemma_sides_sum_to_pool, lemma_unbacked_outcome_pays_nobody,
};
pub use market::{Market, OutcomeState, Share, MAX_SHARES};
pub use payout::{compute_payout, payout_spec, COMMISSION_RATE};
pub use principal::Principal;
pub use registry::{MarketInfo, State};
