//! The logic of the Superciety identity contract: trust scores, avatars, and
//! the staking pool that shares out rewards, as verified state transitions.
//!
//! Each endpoint is a method that takes the state, the caller and what the
//! chain tells about the call, and either refuses the call, changing nothing, or
//! changes the state and lists the effects (burns, transfers, calls of other
//! contracts) that the chain is to carry out.
pub mod address_map;
pub mod amount;
pub mod config;
pub mod earn;
pub mod identity;
pub mod stake;
pub mod trust;
pub mod types;

pub use config::{Config, ConfigModule};
pub use earn::{Earn, EarnModule};
pub use identity::{Avatar, Identity, IdentityState};
pub use stake::{StakeModule, StakeStorage};
pub use trust::{Trust, TrustModule};
