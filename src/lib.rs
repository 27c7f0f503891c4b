//! A warehouse facility ledger: collateral assets pledged against cash advances and later
//! paid down, with settlement funds held in an escrow marker and an inventory that records
//! which assets are free, reserved, or gone.
//!
//! The ledger's operations are all-or-nothing: each either refuses its arguments and leaves
//! the ledger as it was, or updates the ledger and returns the settlement instructions for
//! the surrounding system to carry out.
pub mod consistency;
pub mod escrow;
pub mod inventory;
pub mod laws;
pub mod ledger;
pub mod paydown;
pub mod pledge;
pub mod query;
pub mod store;
pub mod types;

pub use escrow::{has_escrow_grant, marker_has_grant};
pub use ledger::{Context, Ledger};
pub use paydown::{PaydownExecution, PaydownProposal};
pub use types::{
    AccessGrant, Asset, AssetState, Coin, ContractError, ContractParty, Facility, LedgerAction,
    Marker, MarkerAccess, PartiesAccepted, Paydown, PaydownKind, PaydownSaleInfo, PaydownState,
    Pledge, PledgeState, SettlementMsg,
};
