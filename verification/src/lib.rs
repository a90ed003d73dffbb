//! Wallet export: the decisions behind exporting a Ronin wallet's holdings.
//!
//! The library holds the rules that turn index-service documents and
//! on-chain balances into one wallet snapshot: address normalisation, page
//! handling for asset identifiers, discovery and resolution of
//! semi-fungible tokens, and the projection of the result.

pub mod adapter;
pub mod address;
pub mod args;
pub mod category;
pub mod error;
pub mod json;
pub mod output;
pub mod paginator;
pub mod resolver;
pub mod retry;
pub mod text;
pub mod wallet;

pub use adapter::Adapter;
pub use address::normalize_address;
pub use args::ArgParser;
pub use category::{ERC1155, NFT};
pub use error::ParseError;
pub use paginator::NFTIdList;
pub use resolver::{TokenInfo, TokenTable};
