//! Coordination protocol for a verifiable compute-gig market: miners submit
//! work claims bound to whitelisted URLs, a deterministically drawn committee
//! of verifiers attests to them, and a treasury pays out on a quorum.

pub mod types;
pub mod table;
pub mod error;
pub mod ledger;
pub mod whitelist;
pub mod registry;
pub mod committee;
pub mod intake;
pub mod treasury;
pub mod payout;
pub mod treasury_manager;
pub mod aggregator;
pub mod rpc;
