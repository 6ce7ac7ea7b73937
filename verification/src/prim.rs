//! Byte-backed primitive value types.
//!
//! The chain primitives that the entities reference — a key hash, a policy
//! id, an asset name, a transaction input — are value types backed by plain
//! byte sequences with a fixed length rule each. The codec reads nothing of
//! them beyond those bytes.

use vstd::prelude::*;

verus! {

/// Number of bytes in a key hash.
pub const KEY_HASH_LEN: usize = 28;

/// Number of bytes in a policy id.
pub const POLICY_ID_LEN: usize = 28;

/// Largest number of bytes in an asset name.
pub const ASSET_NAME_MAX_LEN: usize = 32;

/// Number of bytes in a transaction hash.
pub const TRANSACTION_HASH_LEN: usize = 32;

/// Well-formed key hash bytes: exactly 28 bytes.
pub open spec fn key_hash_wf(s: Seq<u8>) -> bool {
    s.len() == KEY_HASH_LEN
}

/// Well-formed policy id bytes: exactly 28 bytes.
pub open spec fn policy_id_wf(s: Seq<u8>) -> bool {
    s.len() == POLICY_ID_LEN
}

/// Well-formed asset name bytes: at most 32 bytes.
pub open spec fn asset_name_wf(s: Seq<u8>) -> bool {
    s.len() <= ASSET_NAME_MAX_LEN
}

/// Well-formed transaction hash bytes: exactly 32 bytes.
pub open spec fn transaction_hash_wf(s: Seq<u8>) -> bool {
    s.len() == TRANSACTION_HASH_LEN
}

/// A 28-byte hash of a public key.
#[derive(Debug, PartialEq, Eq)]
pub struct KeyHash {
    pub bytes: Vec<u8>,
}

impl View for KeyHash {
    type V = Seq<u8>;

    open spec fn view(&self) -> Seq<u8> {
        self.bytes@
    }
}

impl Clone for KeyHash {
    fn clone(&self) -> (r: Self)
        ensures
            r@ == self@,
    {
        let bytes = clone_bytes(&self.bytes);
        KeyHash { bytes }
    }
}

impl KeyHash {
    /// Wraps 28 raw bytes as a key hash; any other length is refused.
    pub fn new(bytes: Vec<u8>) -> (r: Option<KeyHash>)
        ensures
            key_hash_wf(bytes@) ==> r == Some(KeyHash { bytes }),
            !key_hash_wf(bytes@) ==> r is None,
    {
        if bytes.len() == KEY_HASH_LEN {
            Some(KeyHash { bytes })
        } else {
            None
        }
    }

    /// The raw bytes of the hash.
    pub fn to_raw_bytes(&self) -> (r: &Vec<u8>)
        ensures
            r@ == self@,
    {
        &self.bytes
    }
}

/// A 28-byte minting policy id.
#[derive(Debug, PartialEq, Eq)]
pub struct PolicyId {
    pub bytes: Vec<u8>,
}

impl View for PolicyId {
    type V = Seq<u8>;

    open spec fn view(&self) -> Seq<u8> {
        self.bytes@
    }
}

impl Clone for PolicyId {
    fn clone(&self) -> (r: Self)
        ensures
            r@ == self@,
    {
        let bytes = clone_bytes(&self.bytes);
        PolicyId { bytes }
    }
}

impl PolicyId {
    /// Wraps 28 raw bytes as a policy id; any other length is refused.
    pub fn new(bytes: Vec<u8>) -> (r: Option<PolicyId>)
        ensures
            policy_id_wf(bytes@) ==> r == Some(PolicyId { bytes }),
            !policy_id_wf(bytes@) ==> r is None,
    {
        if bytes.len() == POLICY_ID_LEN {
            Some(PolicyId { bytes })
        } else {
            None
        }
    }

    /// The raw bytes of the policy id.
    pub fn to_raw_bytes(&self) -> (r: &Vec<u8>)
        ensures
            r@ == self@,
    {
        &self.bytes
    }
}

/// An asset name label of at most 32 bytes.
#[derive(Debug, PartialEq, Eq)]
pub struct AssetName {
    pub bytes: Vec<u8>,
}

impl View for AssetName {
    type V = Seq<u8>;

    open spec fn view(&self) -> Seq<u8> {
        self.bytes@
    }
}

impl Clone for AssetName {
    fn clone(&self) -> (r: Self)
        ensures
            r@ == self@,
    {
        let bytes = clone_bytes(&self.bytes);
        AssetName { bytes }
    }
}

impl AssetName {
    /// Wraps up to 32 raw bytes as an asset name; a longer label is refused.
    pub fn new(bytes: Vec<u8>) -> (r: Option<AssetName>)
        ensures
            asset_name_wf(bytes@) ==> r == Some(AssetName { bytes }),
            !asset_name_wf(bytes@) ==> r is None,
    {
        if bytes.len() <= ASSET_NAME_MAX_LEN {
            Some(AssetName { bytes })
        } else {
            None
        }
    }

    /// The raw bytes of the name.
    pub fn to_raw_bytes(&self) -> (r: &Vec<u8>)
        ensures
            r@ == self@,
    {
        &self.bytes
    }
}

/// A 32-byte hash identifying a transaction.
#[derive(Debug, PartialEq, Eq)]
pub struct TransactionHash {
    pub bytes: Vec<u8>,
}

impl View for TransactionHash {
    type V = Seq<u8>;

    open spec fn view(&self) -> Seq<u8> {
        self.bytes@
    }
}

impl Clone for TransactionHash {
    fn clone(&self) -> (r: Self)
        ensures
            r@ == self@,
    {
        let bytes = clone_bytes(&self.bytes);
        TransactionHash { bytes }
    }
}

impl TransactionHash {
    /// Wraps 32 raw bytes as a transaction hash; any other length is refused.
    pub fn new(bytes: Vec<u8>) -> (r: Option<TransactionHash>)
        ensures
            transaction_hash_wf(bytes@) ==> r == Some(TransactionHash { bytes }),
            !transaction_hash_wf(bytes@) ==> r is None,
    {
        if bytes.len() == TRANSACTION_HASH_LEN {
            Some(TransactionHash { bytes })
        } else {
            None
        }
    }

    /// The raw bytes of the hash.
    pub fn to_raw_bytes(&self) -> (r: &Vec<u8>)
        ensures
            r@ == self@,
    {
        &self.bytes
    }
}

/// Mathematical value of a [`TransactionInput`].
#[verifier::ext_equal]
pub struct TransactionInputV {
    pub transaction_id: Seq<u8>,
    pub index: u64,
}

impl TransactionInputV {
    /// Well-formed input reference: the transaction id has 32 bytes.
    pub open spec fn wf(self) -> bool {
        transaction_hash_wf(self.transaction_id)
    }
}

/// A reference to one output of an earlier transaction.
#[derive(Debug, PartialEq, Eq)]
pub struct TransactionInput {
    pub transaction_id: TransactionHash,
    pub index: u64,
}

impl View for TransactionInput {
    type V = TransactionInputV;

    open spec fn view(&self) -> TransactionInputV {
        TransactionInputV { transaction_id: self.transaction_id@, index: self.index }
    }
}

impl Clone for TransactionInput {
    fn clone(&self) -> (r: Self)
        ensures
            r@ == self@,
    {
        let r = TransactionInput {
            transaction_id: self.transaction_id.clone(),
            index: self.index,
        };
        proof {
            assert(r@ =~= self@);
        }
        r
    }
}

impl TransactionInput {
    /// Pairs a transaction hash with an output index.
    pub fn new(transaction_id: &TransactionHash, index: u64) -> (r: TransactionInput)
        ensures
            r@ == (TransactionInputV { transaction_id: transaction_id@, index }),
    {
        let r = TransactionInput { transaction_id: transaction_id.clone(), index };
        proof {
            assert(r@ =~= TransactionInputV { transaction_id: transaction_id@, index });
        }
        r
    }

    /// The hash of the transaction the referenced output belongs to.
    pub fn transaction_id(&self) -> (r: TransactionHash)
        ensures
            r@ == self@.transaction_id,
    {
        self.transaction_id.clone()
    }

    /// The index of the referenced output inside that transaction.
    pub fn index(&self) -> (r: u64)
        ensures
            r == self@.index,
    {
        self.index
    }
}

/// Clones a byte vector, keeping its contents.
pub(crate) fn clone_bytes(v: &Vec<u8>) -> (r: Vec<u8>)
    ensures
        r@ == v@,
{
    let r = v.clone();
    proof {
        assert(r@ =~= v@);
    }
    r
}

} // verus!
