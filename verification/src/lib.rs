//! Regen Bazaar on-chain core, modeled as explicit state machines.
//!
//! Every contract of the platform is a deterministic state machine: one entry
//! point call is one atomic transition. The host runtime (storage, caller
//! authentication, the ledger clock, cross-contract dispatch) is kept outside
//! the library; each entry point takes the values the host would supply (the
//! authenticated caller, the current timestamp, values read from collaborating
//! contracts) and returns the values the host would publish or apply.

pub mod factory;
pub mod impact_nft;
pub mod marketplace;
pub mod product_nft;
pub mod staking;
pub mod token;
