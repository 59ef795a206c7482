pub mod allowances;
pub mod balances;
pub mod boost;
pub mod boost_book;
pub mod context;
pub mod token;
pub mod treasury;

pub use allowances::AllowanceValue;
pub use boost::{
    AdminBoostGrantedEvent, AdminBoostRevokedEvent, Boost, BoostActivatedEvent, BoostError,
    BoostEvent, BoostExpiredEvent, BoostType, BoostsClearedEvent, DeprecatedFunctionCalledEvent,
    TycoonBoostSystem, MAX_BOOSTS_PER_PLAYER,
};
pub use context::{AccountId, CallContext};
pub use token::{
    ApproveEvent, BurnEvent, MintEvent, SetAdminEvent, TokenError, TransferEvent, TycoonToken,
};
pub use treasury::TreasurySnapshot;
