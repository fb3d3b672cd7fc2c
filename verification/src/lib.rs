//! A persistent marketplace ledger: durable key-value stores plus the
//! transactional logic that creates, transfers, and deactivates listings
//! while recording the resulting exchanges.

pub mod codec;
pub mod market;
pub mod model;
pub mod repo;
pub mod storage;
pub mod text;
pub mod types;

pub use market::Marketplace;
pub use types::{
    ANONYMOUS_USER, Listing, ListingInput, ListingInputView, ListingView, MarketError,
    MarketplaceStats, Transaction, TransactionStatus, TransactionView, UserId, seq_views,
};
