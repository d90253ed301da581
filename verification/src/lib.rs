//! Verified core of a decentralized exchange quote service: quotes built from signed
//! contingent inputs, an in-memory quote book, ledger synchronization decisions, storage row
//! encodings, API conversions, and the decision logic of a liquidity bot and a p2p node.

pub mod range;
pub mod types;
pub mod sci;
pub mod error;
pub mod quote;
pub mod quote_book;
pub mod seq_filter;
pub mod tombstone;
pub mod synchronized;
pub mod vec_u64;
pub mod storage;
pub mod api;
pub mod wallet;
pub mod bot;
pub mod p2p;
