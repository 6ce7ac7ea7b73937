//! Canonical codec for the on-chain locking state of projected NFTs.
//!
//! The crate defines a closed set of entities (`Owner`, `Status`, `Unlocking`,
//! `State`, `Redeem`, `MintRedeemer`, `MintTokens`, `NFT`) together with a
//! binary wire format (canonical CBOR) and a textual mirror (JSON). Every
//! encoder and decoder is verified against a mathematical description of the
//! wire format, and the round-trip and canonical-form laws are proved in
//! `laws`.

pub mod err;
pub mod prim;
pub mod entity;
pub mod cbor;
pub mod cbor_codec;
pub mod json;
pub mod json_codec;
pub mod laws;

pub use err::{DecodeError, EncodeError, ErrorKind, FieldId};
pub use prim::{AssetName, KeyHash, PolicyId, TransactionHash, TransactionInput};
pub use entity::{
    MintRedeemer, MintRedeemerKind, MintTokens, Owner, OwnerKind, Redeem, State, Status,
    StatusKind, Unlocking, NFT,
};
