//! The binary bridge: canonical CBOR encodings of the entities.
//!
//! Every product entity is a definite-length array of its fields in schema
//! order; every sum entity is a definite-length array whose first element is
//! the variant's integer discriminant, followed by the variant's fields
//! flattened into the same array. An absent optional field is an explicit
//! `null`, so arity is constant. For each entity the writer emits exactly the
//! `spec_*_cbor` bytes and the reader accepts exactly those bytes.

use vstd::prelude::*;

use crate::cbor::{
    lemma_head_first_byte, lemma_parse_bool_canonical, lemma_parse_bool_prefix,
    lemma_parse_bytes_canonical, lemma_parse_bytes_prefix, lemma_parse_head_canonical,
    lemma_parse_head_prefix, lemma_parse_i64_canonical, lemma_parse_i64_prefix,
    lemma_subrange_join, lemma_subrange_split, push_bool, push_bytes, push_head, push_i64,
    read_bool, read_bytes, read_head, read_i64, spec_cbor_bool, spec_cbor_bytes, spec_cbor_i64,
    spec_head, spec_parse_bool, spec_parse_bytes, spec_parse_head, spec_parse_i64, SIMPLE_NULL,
};
use crate::entity::{
    MintRedeemer, MintRedeemerV, MintTokens, MintTokensV, Owner, OwnerV, Redeem, RedeemV, State,
    StateV, Status, StatusV, Unlocking, UnlockingV, NFTV, NFT,
};
use crate::err::{DecodeError, DecodeErrorV, ErrorKind, FieldId};
use crate::prim::{
    AssetName, KeyHash, PolicyId, TransactionHash, TransactionInput, TransactionInputV,
    ASSET_NAME_MAX_LEN, KEY_HASH_LEN, POLICY_ID_LEN, TRANSACTION_HASH_LEN,
};

verus! {

/// The canonical encoding of a transaction input: a 2-element array of the
/// transaction hash bytes and the output index.
pub open spec fn spec_txin_cbor(m: TransactionInputV) -> Seq<u8> {
    spec_head(4, 2) + spec_cbor_bytes(m.transaction_id) + spec_head(0, m.index)
}

/// Reads a transaction input at position `i` of `s`.
pub open spec fn spec_parse_txin(s: Seq<u8>, i: int) -> Result<
    (TransactionInputV, int),
    DecodeErrorV,
> {
    match spec_parse_head(s, i) {
        Err(e) => Err(e),
        Ok((major, n, j)) => {
            if major != 4 || n != 2 {
                Err(DecodeErrorV::root(ErrorKind::Shape))
            } else {
                match spec_parse_bytes(s, j) {
                    Err(e) => Err(e.in_field(FieldId::TransactionId)),
                    Ok((id, j2)) => {
                        if id.len() != TRANSACTION_HASH_LEN {
                            Err(
                                DecodeErrorV::root(ErrorKind::Shape).in_field(
                                    FieldId::TransactionId,
                                ),
                            )
                        } else {
                            match spec_parse_head(s, j2) {
                                Err(e) => Err(e.in_field(FieldId::Index)),
                                Ok((m2, idx, j3)) => {
                                    if m2 != 0 {
                                        Err(
                                            DecodeErrorV::root(ErrorKind::Shape).in_field(
                                                FieldId::Index,
                                            ),
                                        )
                                    } else {
                                        Ok(
                                            (
                                                TransactionInputV {
                                                    transaction_id: id,
                                                    index: idx,
                                                },
                                                j3,
                                            ),
                                        )
                                    }
                                },
                            }
                        }
                    },
                }
            }
        },
    }
}

/// Reading a buffer that carries an encoded transaction input at position `i`
/// yields that input and stops right after it.
pub proof fn lemma_parse_txin_prefix(s: Seq<u8>, i: int, m: TransactionInputV)
    requires
        m.wf(),
        0 <= i,
        i + spec_txin_cbor(m).len() <= s.len(),
        s.subrange(i, i + spec_txin_cbor(m).len() as int) == spec_txin_cbor(m),
    ensures
        spec_parse_txin(s, i) == Ok::<(TransactionInputV, int), DecodeErrorV>(
            (m, i + spec_txin_cbor(m).len() as int),
        ),
{
    let h = spec_head(4, 2);
    let e1 = spec_cbor_bytes(m.transaction_id);
    let e2 = spec_head(0, m.index);
    assert(spec_txin_cbor(m) =~= h + (e1 + e2));
    lemma_subrange_split(s, i, h, e1 + e2);
    lemma_parse_head_prefix(s, i, 4, 2);
    let j = i + h.len() as int;
    lemma_subrange_split(s, j, e1, e2);
    lemma_parse_bytes_prefix(s, j, m.transaction_id);
    let j2 = j + e1.len() as int;
    lemma_parse_head_prefix(s, j2, 0, m.index);
    assert(spec_parse_txin(s, i)->Ok_0.0 =~= m);
}

/// A transaction input the reader accepts occupies exactly its canonical
/// encoding and is well formed.
pub proof fn lemma_parse_txin_canonical(s: Seq<u8>, i: int)
    requires
        spec_parse_txin(s, i) is Ok,
    ensures
        ({
            let (m, j) = spec_parse_txin(s, i)->Ok_0;
            &&& 0 <= i < j <= s.len()
            &&& m.wf()
            &&& s.subrange(i, j) == spec_txin_cbor(m)
        }),
{
    lemma_parse_head_canonical(s, i);
    let (_, _, j1) = spec_parse_head(s, i)->Ok_0;
    lemma_parse_bytes_canonical(s, j1);
    let (id, j2) = spec_parse_bytes(s, j1)->Ok_0;
    lemma_parse_head_canonical(s, j2);
    let (_, _, j3) = spec_parse_head(s, j2)->Ok_0;
    lemma_subrange_join(s, j1, j2, j3);
    lemma_subrange_join(s, i, j1, j3);
    let (m, j) = spec_parse_txin(s, i)->Ok_0;
    assert(s.subrange(i, j) =~= spec_txin_cbor(m));
}

impl TransactionInput {
    /// Writes the canonical encoding of the input onto `out`.
    pub(crate) fn write_cbor(&self, out: &mut Vec<u8>)
        ensures
            final(out)@ == old(out)@ + spec_txin_cbor(self@),
    {
        push_head(out, 4, 2);
        push_bytes(out, self.transaction_id.to_raw_bytes());
        push_head(out, 0, self.index);
        proof {
            assert(out@ =~= old(out)@ + spec_txin_cbor(self@));
        }
    }

    /// Reads a transaction input at position `i` of `s`, as
    /// [`spec_parse_txin`] describes.
    pub(crate) fn read_cbor(s: &[u8], i: usize) -> (r: Result<
        (TransactionInput, usize),
        DecodeError,
    >)
        ensures
            ({
                let sp = spec_parse_txin(s@, i as int);
                match r {
                    Ok((t, j)) => sp == Ok::<(TransactionInputV, int), DecodeErrorV>(
                        (t@, j as int),
                    ),
                    Err(e) => sp == Err::<(TransactionInputV, int), DecodeErrorV>(e@),
                }
            }),
    {
        let (major, n, j) = match read_head(s, i) {
            Ok(x) => x,
            Err(e) => {
                return Err(e);
            },
        };
        if major != 4 || n != 2 {
            return Err(DecodeError::root(ErrorKind::Shape));
        }
        let (id_bytes, j2) = match read_bytes(s, j) {
            Ok(x) => x,
            Err(e) => {
                return Err(e.in_field(FieldId::TransactionId));
            },
        };
        let id = match TransactionHash::new(id_bytes) {
            Some(h) => h,
            None => {
                return Err(DecodeError::root(ErrorKind::Shape).in_field(FieldId::TransactionId));
            },
        };
        let (m2, idx, j3) = match read_head(s, j2) {
            Ok(x) => x,
            Err(e) => {
                return Err(e.in_field(FieldId::Index));
            },
        };
        if m2 != 0 {
            return Err(DecodeError::root(ErrorKind::Shape).in_field(FieldId::Index));
        }
        let t = TransactionInput { transaction_id: id, index: idx };
        proof {
            assert(t@ =~= spec_parse_txin(s@, i as int)->Ok_0.0);
        }
        Ok((t, j3))
    }
}

/// The canonical encoding of an asset identity: a 2-element array of the
/// policy id bytes and the asset name bytes.
pub open spec fn spec_nft_cbor(m: NFTV) -> Seq<u8> {
    spec_head(4, 2) + spec_cbor_bytes(m.policy_id) + spec_cbor_bytes(m.asset_name)
}

/// Reads an asset identity at position `i` of `s`.
pub open spec fn spec_parse_nft(s: Seq<u8>, i: int) -> Result<(NFTV, int), DecodeErrorV> {
    match spec_parse_head(s, i) {
        Err(e) => Err(e),
        Ok((major, n, j)) => {
            if major != 4 || n != 2 {
                Err(DecodeErrorV::root(ErrorKind::Shape))
            } else {
                match spec_parse_bytes(s, j) {
                    Err(e) => Err(e.in_field(FieldId::PolicyId)),
                    Ok((p, j2)) => {
                        if p.len() != POLICY_ID_LEN {
                            Err(DecodeErrorV::root(ErrorKind::Shape).in_field(FieldId::PolicyId))
                        } else {
                            match spec_parse_bytes(s, j2) {
                                Err(e) => Err(e.in_field(FieldId::AssetName)),
                                Ok((a, j3)) => {
                                    if a.len() > ASSET_NAME_MAX_LEN {
                                        Err(
                                            DecodeErrorV::root(ErrorKind::Shape).in_field(
                                                FieldId::AssetName,
                                            ),
                                        )
                                    } else {
                                        Ok((NFTV { policy_id: p, asset_name: a }, j3))
                                    }
                                },
                            }
                        }
                    },
                }
            }
        },
    }
}

/// Reading a buffer that carries an encoded asset identity at position `i`
/// yields that identity and stops right after it.
pub proof fn lemma_parse_nft_prefix(s: Seq<u8>, i: int, m: NFTV)
    requires
        m.wf(),
        0 <= i,
        i + spec_nft_cbor(m).len() <= s.len(),
        s.subrange(i, i + spec_nft_cbor(m).len() as int) == spec_nft_cbor(m),
    ensures
        spec_parse_nft(s, i) == Ok::<(NFTV, int), DecodeErrorV>(
            (m, i + spec_nft_cbor(m).len() as int),
        ),
{
    let h = spec_head(4, 2);
    let e1 = spec_cbor_bytes(m.policy_id);
    let e2 = spec_cbor_bytes(m.asset_name);
    assert(spec_nft_cbor(m) =~= h + (e1 + e2));
    lemma_subrange_split(s, i, h, e1 + e2);
    lemma_parse_head_prefix(s, i, 4, 2);
    let j = i + h.len() as int;
    lemma_subrange_split(s, j, e1, e2);
    lemma_parse_bytes_prefix(s, j, m.policy_id);
    let j2 = j + e1.len() as int;
    lemma_parse_bytes_prefix(s, j2, m.asset_name);
    assert(spec_parse_nft(s, i)->Ok_0.0 =~= m);
}

/// An asset identity the reader accepts occupies exactly its canonical
/// encoding and is well formed.
pub proof fn lemma_parse_nft_canonical(s: Seq<u8>, i: int)
    requires
        spec_parse_nft(s, i) is Ok,
    ensures
        ({
            let (m, j) = spec_parse_nft(s, i)->Ok_0;
            &&& 0 <= i < j <= s.len()
            &&& m.wf()
            &&& s.subrange(i, j) == spec_nft_cbor(m)
        }),
{
    lemma_parse_head_canonical(s, i);
    let (_, _, j1) = spec_parse_head(s, i)->Ok_0;
    lemma_parse_bytes_canonical(s, j1);
    let (_, j2) = spec_parse_bytes(s, j1)->Ok_0;
    lemma_parse_bytes_canonical(s, j2);
    let (_, j3) = spec_parse_bytes(s, j2)->Ok_0;
    lemma_subrange_join(s, j1, j2, j3);
    lemma_subrange_join(s, i, j1, j3);
    let (m, j) = spec_parse_nft(s, i)->Ok_0;
    assert(s.subrange(i, j) =~= spec_nft_cbor(m));
}

/// Top-level decode of an asset identity: the whole buffer is one encoded
/// value, with nothing after it.
pub open spec fn spec_nft_from_cbor(s: Seq<u8>) -> Result<NFTV, DecodeErrorV> {
    match spec_parse_nft(s, 0) {
        Err(e) => Err(e),
        Ok((m, j)) => {
            if j == s.len() {
                Ok(m)
            } else {
                Err(DecodeErrorV::root(ErrorKind::Shape))
            }
        },
    }
}

impl NFT {
    /// Writes the canonical encoding of the asset identity onto `out`.
    pub(crate) fn write_cbor(&self, out: &mut Vec<u8>)
        ensures
            final(out)@ == old(out)@ + spec_nft_cbor(self@),
    {
        push_head(out, 4, 2);
        push_bytes(out, self.policy_id.to_raw_bytes());
        push_bytes(out, self.asset_name.to_raw_bytes());
        proof {
            assert(out@ =~= old(out)@ + spec_nft_cbor(self@));
        }
    }

    /// Reads an asset identity at position `i` of `s`, as [`spec_parse_nft`]
    /// describes.
    pub(crate) fn read_cbor(s: &[u8], i: usize) -> (r: Result<(NFT, usize), DecodeError>)
        ensures
            ({
                let sp = spec_parse_nft(s@, i as int);
                match r {
                    Ok((x, j)) => sp == Ok::<(NFTV, int), DecodeErrorV>((x@, j as int)),
                    Err(e) => sp == Err::<(NFTV, int), DecodeErrorV>(e@),
                }
            }),
    {
        let (major, n, j) = match read_head(s, i) {
            Ok(x) => x,
            Err(e) => {
                return Err(e);
            },
        };
        if major != 4 || n != 2 {
            return Err(DecodeError::root(ErrorKind::Shape));
        }
        let (p_bytes, j2) = match read_bytes(s, j) {
            Ok(x) => x,
            Err(e) => {
                return Err(e.in_field(FieldId::PolicyId));
            },
        };
        let policy_id = match crate::prim::PolicyId::new(p_bytes) {
            Some(p) => p,
            None => {
                return Err(DecodeError::root(ErrorKind::Shape).in_field(FieldId::PolicyId));
            },
        };
        let (a_bytes, j3) = match read_bytes(s, j2) {
            Ok(x) => x,
            Err(e) => {
                return Err(e.in_field(FieldId::AssetName));
            },
        };
        let asset_name = match crate::prim::AssetName::new(a_bytes) {
            Some(a) => a,
            None => {
                return Err(DecodeError::root(ErrorKind::Shape).in_field(FieldId::AssetName));
            },
        };
        let x = NFT { policy_id, asset_name };
        proof {
            assert(x@ =~= spec_parse_nft(s@, i as int)->Ok_0.0);
        }
        Ok((x, j3))
    }

    /// Encodes the asset identity as canonical CBOR bytes.
    pub fn to_cbor_bytes(&self) -> (r: Vec<u8>)
        ensures
            r@ == spec_nft_cbor(self@),
    {
        let mut out: Vec<u8> = Vec::new();
        self.write_cbor(&mut out);
        proof {
            assert(out@ =~= spec_nft_cbor(self@));
        }
        out
    }

    /// Decodes an asset identity from canonical CBOR bytes, as
    /// [`spec_nft_from_cbor`] describes.
    pub fn from_cbor_bytes(cbor_bytes: &[u8]) -> (r: Result<NFT, DecodeError>)
        ensures
            ({
                let sp = spec_nft_from_cbor(cbor_bytes@);
                match r {
                    Ok(x) => sp == Ok::<NFTV, DecodeErrorV>(x@) && x@.wf(),
                    Err(e) => sp == Err::<NFTV, DecodeErrorV>(e@),
                }
            }),
    {
        match NFT::read_cbor(cbor_bytes, 0) {
            Err(e) => Err(e),
            Ok((x, j)) => {
                if j == cbor_bytes.len() {
                    proof {
                        lemma_parse_nft_canonical(cbor_bytes@, 0);
                    }
                    Ok(x)
                } else {
                    Err(DecodeError::root(ErrorKind::Shape))
                }
            },
        }
    }
}

/// The canonical encoding of a mint count: a 1-element array of the signed
/// total.
pub open spec fn spec_mint_tokens_cbor(m: MintTokensV) -> Seq<u8> {
    spec_head(4, 1) + spec_cbor_i64(m.total)
}

/// Reads a mint count at position `i` of `s`.
pub open spec fn spec_parse_mint_tokens(s: Seq<u8>, i: int) -> Result<
    (MintTokensV, int),
    DecodeErrorV,
> {
    match spec_parse_head(s, i) {
        Err(e) => Err(e),
        Ok((major, n, j)) => {
            if major != 4 || n != 1 {
                Err(DecodeErrorV::root(ErrorKind::Shape))
            } else {
                match spec_parse_i64(s, j) {
                    Err(e) => Err(e.in_field(FieldId::Total)),
                    Ok((t, j2)) => Ok((MintTokensV { total: t }, j2)),
                }
            }
        },
    }
}

/// Reading a buffer that carries an encoded mint count at position `i` yields
/// that count and stops right after it.
pub proof fn lemma_parse_mint_tokens_prefix(s: Seq<u8>, i: int, m: MintTokensV)
    requires
        0 <= i,
        i + spec_mint_tokens_cbor(m).len() <= s.len(),
        s.subrange(i, i + spec_mint_tokens_cbor(m).len() as int) == spec_mint_tokens_cbor(m),
    ensures
        spec_parse_mint_tokens(s, i) == Ok::<(MintTokensV, int), DecodeErrorV>(
            (m, i + spec_mint_tokens_cbor(m).len() as int),
        ),
{
    let h = spec_head(4, 1);
    let e1 = spec_cbor_i64(m.total);
    lemma_subrange_split(s, i, h, e1);
    lemma_parse_head_prefix(s, i, 4, 1);
    let j = i + h.len() as int;
    lemma_parse_i64_prefix(s, j, m.total);
    assert(spec_parse_mint_tokens(s, i)->Ok_0.0 =~= m);
}

/// A mint count the reader accepts occupies exactly its canonical encoding.
pub proof fn lemma_parse_mint_tokens_canonical(s: Seq<u8>, i: int)
    requires
        spec_parse_mint_tokens(s, i) is Ok,
    ensures
        ({
            let (m, j) = spec_parse_mint_tokens(s, i)->Ok_0;
            &&& 0 <= i < j <= s.len()
            &&& m.wf()
            &&& s.subrange(i, j) == spec_mint_tokens_cbor(m)
        }),
{
    lemma_parse_head_canonical(s, i);
    let (_, _, j1) = spec_parse_head(s, i)->Ok_0;
    lemma_parse_i64_canonical(s, j1);
    let (_, j2) = spec_parse_i64(s, j1)->Ok_0;
    lemma_subrange_join(s, i, j1, j2);
    let (m, j) = spec_parse_mint_tokens(s, i)->Ok_0;
    assert(s.subrange(i, j) =~= spec_mint_tokens_cbor(m));
}

/// Top-level decode of a mint count: the whole buffer is one encoded value.
pub open spec fn spec_mint_tokens_from_cbor(s: Seq<u8>) -> Result<MintTokensV, DecodeErrorV> {
    match spec_parse_mint_tokens(s, 0) {
        Err(e) => Err(e),
        Ok((m, j)) => {
            if j == s.len() {
                Ok(m)
            } else {
                Err(DecodeErrorV::root(ErrorKind::Shape))
            }
        },
    }
}

impl MintTokens {
    /// Writes the canonical encoding of the mint count onto `out`.
    pub(crate) fn write_cbor(&self, out: &mut Vec<u8>)
        ensures
            final(out)@ == old(out)@ + spec_mint_tokens_cbor(self@),
    {
        push_head(out, 4, 1);
        push_i64(out, self.total);
        proof {
            assert(out@ =~= old(out)@ + spec_mint_tokens_cbor(self@));
        }
    }

    /// Reads a mint count at position `i` of `s`, as
    /// [`spec_parse_mint_tokens`] describes.
    pub(crate) fn read_cbor(s: &[u8], i: usize) -> (r: Result<(MintTokens, usize), DecodeError>)
        ensures
            ({
                let sp = spec_parse_mint_tokens(s@, i as int);
                match r {
                    Ok((x, j)) => sp == Ok::<(MintTokensV, int), DecodeErrorV>((x@, j as int)),
                    Err(e) => sp == Err::<(MintTokensV, int), DecodeErrorV>(e@),
                }
            }),
    {
        let (major, n, j) = match read_head(s, i) {
            Ok(x) => x,
            Err(e) => {
                return Err(e);
            },
        };
        if major != 4 || n != 1 {
            return Err(DecodeError::root(ErrorKind::Shape));
        }
        let (t, j2) = match read_i64(s, j) {
            Ok(x) => x,
            Err(e) => {
                return Err(e.in_field(FieldId::Total));
            },
        };
        Ok((MintTokens { total: t }, j2))
    }

    /// Encodes the mint count as canonical CBOR bytes.
    pub fn to_cbor_bytes(&self) -> (r: Vec<u8>)
        ensures
            r@ == spec_mint_tokens_cbor(self@),
    {
        let mut out: Vec<u8> = Vec::new();
        self.write_cbor(&mut out);
        proof {
            assert(out@ =~= spec_mint_tokens_cbor(self@));
        }
        out
    }

    /// Decodes a mint count from canonical CBOR bytes, as
    /// [`spec_mint_tokens_from_cbor`] describes.
    pub fn from_cbor_bytes(cbor_bytes: &[u8]) -> (r: Result<MintTokens, DecodeError>)
        ensures
            ({
                let sp = spec_mint_tokens_from_cbor(cbor_bytes@);
                match r {
                    Ok(x) => sp == Ok::<MintTokensV, DecodeErrorV>(x@) && x@.wf(),
                    Err(e) => sp == Err::<MintTokensV, DecodeErrorV>(e@),
                }
            }),
    {
        match MintTokens::read_cbor(cbor_bytes, 0) {
            Err(e) => Err(e),
            Ok((x, j)) => {
                if j == cbor_bytes.len() {
                    Ok(x)
                } else {
                    Err(DecodeError::root(ErrorKind::Shape))
                }
            },
        }
    }
}

/// The canonical encoding of an owner: an array holding the variant's
/// discriminant and then the variant's fields.
pub open spec fn spec_owner_cbor(m: OwnerV) -> Seq<u8> {
    match m {
        OwnerV::PKH(k) => spec_head(4, 2) + spec_head(0, 0) + spec_cbor_bytes(k),
        OwnerV::NFT(n) => spec_head(4, 3) + spec_head(0, 1) + spec_cbor_bytes(n.policy_id)
            + spec_cbor_bytes(n.asset_name),
        OwnerV::Receipt(a) => spec_head(4, 2) + spec_head(0, 2) + spec_cbor_bytes(a),
    }
}

/// Reads an owner at position `i` of `s`. A discriminant outside 0, 1, 2 is
/// an unknown-variant failure.
pub open spec fn spec_parse_owner(s: Seq<u8>, i: int) -> Result<(OwnerV, int), DecodeErrorV> {
    match spec_parse_head(s, i) {
        Err(e) => Err(e),
        Ok((major, n, j)) => {
            if major != 4 {
                Err(DecodeErrorV::root(ErrorKind::Shape))
            } else {
                match spec_parse_head(s, j) {
                    Err(e) => Err(e),
                    Ok((tm, tag, j1)) => {
                        if tm != 0 {
                            Err(DecodeErrorV::root(ErrorKind::Shape))
                        } else if tag == 0 {
                            if n != 2 {
                                Err(DecodeErrorV::root(ErrorKind::Shape))
                            } else {
                                match spec_parse_bytes(s, j1) {
                                    Err(e) => Err(e.in_field(FieldId::PKH)),
                                    Ok((k, j2)) => {
                                        if k.len() != KEY_HASH_LEN {
                                            Err(
                                                DecodeErrorV::root(ErrorKind::Shape).in_field(
                                                    FieldId::PKH,
                                                ),
                                            )
                                        } else {
                                            Ok((OwnerV::PKH(k), j2))
                                        }
                                    },
                                }
                            }
                        } else if tag == 1 {
                            if n != 3 {
                                Err(DecodeErrorV::root(ErrorKind::Shape))
                            } else {
                                match spec_parse_bytes(s, j1) {
                                    Err(e) => Err(e.in_field(FieldId::PolicyId)),
                                    Ok((p, j2)) => {
                                        if p.len() != POLICY_ID_LEN {
                                            Err(
                                                DecodeErrorV::root(ErrorKind::Shape).in_field(
                                                    FieldId::PolicyId,
                                                ),
                                            )
                                        } else {
                                            match spec_parse_bytes(s, j2) {
                                                Err(e) => Err(e.in_field(FieldId::AssetName)),
                                                Ok((a, j3)) => {
                                                    if a.len() > ASSET_NAME_MAX_LEN {
                                                        Err(
                                                            DecodeErrorV::root(
                                                                ErrorKind::Shape,
                                                            ).in_field(FieldId::AssetName),
                                                        )
                                                    } else {
                                                        Ok(
                                                            (
                                                                OwnerV::NFT(
                                                                    NFTV {
                                                                        policy_id: p,
                                                                        asset_name: a,
                                                                    },
                                                                ),
                                                                j3,
                                                            ),
                                                        )
                                                    }
                                                },
                                            }
                                        }
                                    },
                                }
                            }
                        } else if tag == 2 {
                            if n != 2 {
                                Err(DecodeErrorV::root(ErrorKind::Shape))
                            } else {
                                match spec_parse_bytes(s, j1) {
                                    Err(e) => Err(e.in_field(FieldId::AssetName)),
                                    Ok((a, j2)) => {
                                        if a.len() > ASSET_NAME_MAX_LEN {
                                            Err(
                                                DecodeErrorV::root(ErrorKind::Shape).in_field(
                                                    FieldId::AssetName,
                                                ),
                                            )
                                        } else {
                                            Ok((OwnerV::Receipt(a), j2))
                                        }
                                    },
                                }
                            }
                        } else {
                            Err(DecodeErrorV::root(ErrorKind::UnknownVariant(tag)))
                        }
                    },
                }
            }
        },
    }
}

/// Reading a buffer that carries an encoded owner at position `i` yields that
/// owner and stops right after it.
pub proof fn lemma_parse_owner_prefix(s: Seq<u8>, i: int, m: OwnerV)
    requires
        m.wf(),
        0 <= i,
        i + spec_owner_cbor(m).len() <= s.len(),
        s.subrange(i, i + spec_owner_cbor(m).len() as int) == spec_owner_cbor(m),
    ensures
        spec_parse_owner(s, i) == Ok::<(OwnerV, int), DecodeErrorV>(
            (m, i + spec_owner_cbor(m).len() as int),
        ),
{
    match m {
        OwnerV::PKH(k) => {
            let h = spec_head(4, 2);
            let t = spec_head(0, 0);
            let e1 = spec_cbor_bytes(k);
            assert(spec_owner_cbor(m) =~= h + (t + e1));
            lemma_subrange_split(s, i, h, t + e1);
            lemma_parse_head_prefix(s, i, 4, 2);
            let j = i + h.len() as int;
            lemma_subrange_split(s, j, t, e1);
            lemma_parse_head_prefix(s, j, 0, 0);
            let j1 = j + t.len() as int;
            lemma_parse_bytes_prefix(s, j1, k);
        },
        OwnerV::NFT(n) => {
            let h = spec_head(4, 3);
            let t = spec_head(0, 1);
            let e1 = spec_cbor_bytes(n.policy_id);
            let e2 = spec_cbor_bytes(n.asset_name);
            assert(spec_owner_cbor(m) =~= h + (t + (e1 + e2)));
            lemma_subrange_split(s, i, h, t + (e1 + e2));
            lemma_parse_head_prefix(s, i, 4, 3);
            let j = i + h.len() as int;
            lemma_subrange_split(s, j, t, e1 + e2);
            lemma_parse_head_prefix(s, j, 0, 1);
            let j1 = j + t.len() as int;
            lemma_subrange_split(s, j1, e1, e2);
            lemma_parse_bytes_prefix(s, j1, n.policy_id);
            let j2 = j1 + e1.len() as int;
            lemma_parse_bytes_prefix(s, j2, n.asset_name);
            assert(spec_parse_owner(s, i)->Ok_0.0 =~= m);
        },
        OwnerV::Receipt(a) => {
            let h = spec_head(4, 2);
            let t = spec_head(0, 2);
            let e1 = spec_cbor_bytes(a);
            assert(spec_owner_cbor(m) =~= h + (t + e1));
            lemma_subrange_split(s, i, h, t + e1);
            lemma_parse_head_prefix(s, i, 4, 2);
            let j = i + h.len() as int;
            lemma_subrange_split(s, j, t, e1);
            lemma_parse_head_prefix(s, j, 0, 2);
            let j1 = j + t.len() as int;
            lemma_parse_bytes_prefix(s, j1, a);
        },
    }
}

/// An owner the reader accepts occupies exactly its canonical encoding and is
/// well formed.
pub proof fn lemma_parse_owner_canonical(s: Seq<u8>, i: int)
    requires
        spec_parse_owner(s, i) is Ok,
    ensures
        ({
            let (m, j) = spec_parse_owner(s, i)->Ok_0;
            &&& 0 <= i < j <= s.len()
            &&& m.wf()
            &&& s.subrange(i, j) == spec_owner_cbor(m)
        }),
{
    lemma_parse_head_canonical(s, i);
    let (_, n, j0) = spec_parse_head(s, i)->Ok_0;
    lemma_parse_head_canonical(s, j0);
    let (_, tag, j1) = spec_parse_head(s, j0)->Ok_0;
    let (m, j) = spec_parse_owner(s, i)->Ok_0;
    if tag == 0 || tag == 2 {
        lemma_parse_bytes_canonical(s, j1);
        let (_, j2) = spec_parse_bytes(s, j1)->Ok_0;
        lemma_subrange_join(s, j0, j1, j2);
        lemma_subrange_join(s, i, j0, j2);
        assert(s.subrange(i, j) =~= spec_owner_cbor(m));
    } else {
        lemma_parse_bytes_canonical(s, j1);
        let (_, j2) = spec_parse_bytes(s, j1)->Ok_0;
        lemma_parse_bytes_canonical(s, j2);
        let (_, j3) = spec_parse_bytes(s, j2)->Ok_0;
        lemma_subrange_join(s, j1, j2, j3);
        lemma_subrange_join(s, j0, j1, j3);
        lemma_subrange_join(s, i, j0, j3);
        assert(s.subrange(i, j) =~= spec_owner_cbor(m));
    }
}

/// Top-level decode of an owner: the whole buffer is one encoded value.
pub open spec fn spec_owner_from_cbor(s: Seq<u8>) -> Result<OwnerV, DecodeErrorV> {
    match spec_parse_owner(s, 0) {
        Err(e) => Err(e),
        Ok((m, j)) => {
            if j == s.len() {
                Ok(m)
            } else {
                Err(DecodeErrorV::root(ErrorKind::Shape))
            }
        },
    }
}

impl Owner {
    /// Writes the canonical encoding of the owner onto `out`.
    pub(crate) fn write_cbor(&self, out: &mut Vec<u8>)
        ensures
            final(out)@ == old(out)@ + spec_owner_cbor(self@),
    {
        match self {
            Owner::PKH(k) => {
                push_head(out, 4, 2);
                push_head(out, 0, 0);
                push_bytes(out, k.to_raw_bytes());
            },
            Owner::NFT(n) => {
                push_head(out, 4, 3);
                push_head(out, 0, 1);
                push_bytes(out, n.policy_id.to_raw_bytes());
                push_bytes(out, n.asset_name.to_raw_bytes());
            },
            Owner::Receipt(a) => {
                push_head(out, 4, 2);
                push_head(out, 0, 2);
                push_bytes(out, a.to_raw_bytes());
            },
        }
        proof {
            assert(out@ =~= old(out)@ + spec_owner_cbor(self@));
        }
    }

    /// Reads an owner at position `i` of `s`, as [`spec_parse_owner`]
    /// describes.
    pub(crate) fn read_cbor(s: &[u8], i: usize) -> (r: Result<(Owner, usize), DecodeError>)
        ensures
            ({
                let sp = spec_parse_owner(s@, i as int);
                match r {
                    Ok((x, j)) => sp == Ok::<(OwnerV, int), DecodeErrorV>((x@, j as int)),
                    Err(e) => sp == Err::<(OwnerV, int), DecodeErrorV>(e@),
                }
            }),
    {
        let (major, n, j) = match read_head(s, i) {
            Ok(x) => x,
            Err(e) => {
                return Err(e);
            },
        };
        if major != 4 {
            return Err(DecodeError::root(ErrorKind::Shape));
        }
        let (tm, tag, j1) = match read_head(s, j) {
            Ok(x) => x,
            Err(e) => {
                return Err(e);
            },
        };
        if tm != 0 {
            return Err(DecodeError::root(ErrorKind::Shape));
        }
        if tag == 0 {
            if n != 2 {
                return Err(DecodeError::root(ErrorKind::Shape));
            }
            let (k_bytes, j2) = match read_bytes(s, j1) {
                Ok(x) => x,
                Err(e) => {
                    return Err(e.in_field(FieldId::PKH));
                },
            };
            let k = match KeyHash::new(k_bytes) {
                Some(k) => k,
                None => {
                    return Err(DecodeError::root(ErrorKind::Shape).in_field(FieldId::PKH));
                },
            };
            Ok((Owner::PKH(k), j2))
        } else if tag == 1 {
            if n != 3 {
                return Err(DecodeError::root(ErrorKind::Shape));
            }
            let (p_bytes, j2) = match read_bytes(s, j1) {
                Ok(x) => x,
                Err(e) => {
                    return Err(e.in_field(FieldId::PolicyId));
                },
            };
            let policy_id = match PolicyId::new(p_bytes) {
                Some(p) => p,
                None => {
                    return Err(DecodeError::root(ErrorKind::Shape).in_field(FieldId::PolicyId));
                },
            };
            let (a_bytes, j3) = match read_bytes(s, j2) {
                Ok(x) => x,
                Err(e) => {
                    return Err(e.in_field(FieldId::AssetName));
                },
            };
            let asset_name = match AssetName::new(a_bytes) {
                Some(a) => a,
                None => {
                    return Err(DecodeError::root(ErrorKind::Shape).in_field(FieldId::AssetName));
                },
            };
            let x = Owner::NFT(NFT { policy_id, asset_name });
            proof {
                assert(x@ =~= spec_parse_owner(s@, i as int)->Ok_0.0);
            }
            Ok((x, j3))
        } else if tag == 2 {
            if n != 2 {
                return Err(DecodeError::root(ErrorKind::Shape));
            }
            let (a_bytes, j2) = match read_bytes(s, j1) {
                Ok(x) => x,
                Err(e) => {
                    return Err(e.in_field(FieldId::AssetName));
                },
            };
            let a = match AssetName::new(a_bytes) {
                Some(a) => a,
                None => {
                    return Err(DecodeError::root(ErrorKind::Shape).in_field(FieldId::AssetName));
                },
            };
            Ok((Owner::Receipt(a), j2))
        } else {
            Err(DecodeError::root(ErrorKind::UnknownVariant(tag)))
        }
    }

    /// Encodes the owner as canonical CBOR bytes.
    pub fn to_cbor_bytes(&self) -> (r: Vec<u8>)
        ensures
            r@ == spec_owner_cbor(self@),
    {
        let mut out: Vec<u8> = Vec::new();
        self.write_cbor(&mut out);
        proof {
            assert(out@ =~= spec_owner_cbor(self@));
        }
        out
    }

    /// Decodes an owner from canonical CBOR bytes, as [`spec_owner_from_cbor`]
    /// describes.
    pub fn from_cbor_bytes(cbor_bytes: &[u8]) -> (r: Result<Owner, DecodeError>)
        ensures
            ({
                let sp = spec_owner_from_cbor(cbor_bytes@);
                match r {
                    Ok(x) => sp == Ok::<OwnerV, DecodeErrorV>(x@) && x@.wf(),
                    Err(e) => sp == Err::<OwnerV, DecodeErrorV>(e@),
                }
            }),
    {
        match Owner::read_cbor(cbor_bytes, 0) {
            Err(e) => Err(e),
            Ok((x, j)) => {
                if j == cbor_bytes.len() {
                    proof {
                        lemma_parse_owner_canonical(cbor_bytes@, 0);
                    }
                    Ok(x)
                } else {
                    Err(DecodeError::root(ErrorKind::Shape))
                }
            },
        }
    }
}

/// The canonical encoding of an unlocking payload: a 2-element array of the
/// input reference and the deadline.
pub open spec fn spec_unlocking_cbor(m: UnlockingV) -> Seq<u8> {
    spec_head(4, 2) + spec_txin_cbor(m.out_ref) + spec_cbor_i64(m.for_how_long)
}

/// Reads an unlocking payload at position `i` of `s`.
pub open spec fn spec_parse_unlocking(s: Seq<u8>, i: int) -> Result<
    (UnlockingV, int),
    DecodeErrorV,
> {
    match spec_parse_head(s, i) {
        Err(e) => Err(e),
        Ok((major, n, j)) => {
            if major != 4 || n != 2 {
                Err(DecodeErrorV::root(ErrorKind::Shape))
            } else {
                match spec_parse_txin(s, j) {
                    Err(e) => Err(e.in_field(FieldId::OutRef)),
                    Ok((t, j2)) => {
                        match spec_parse_i64(s, j2) {
                            Err(e) => Err(e.in_field(FieldId::ForHowLong)),
                            Ok((d, j3)) => Ok((UnlockingV { out_ref: t, for_how_long: d }, j3)),
                        }
                    },
                }
            }
        },
    }
}

/// Reading a buffer that carries an encoded unlocking payload at position `i`
/// yields that payload and stops right after it.
pub proof fn lemma_parse_unlocking_prefix(s: Seq<u8>, i: int, m: UnlockingV)
    requires
        m.wf(),
        0 <= i,
        i + spec_unlocking_cbor(m).len() <= s.len(),
        s.subrange(i, i + spec_unlocking_cbor(m).len() as int) == spec_unlocking_cbor(m),
    ensures
        spec_parse_unlocking(s, i) == Ok::<(UnlockingV, int), DecodeErrorV>(
            (m, i + spec_unlocking_cbor(m).len() as int),
        ),
{
    let h = spec_head(4, 2);
    let e1 = spec_txin_cbor(m.out_ref);
    let e2 = spec_cbor_i64(m.for_how_long);
    assert(spec_unlocking_cbor(m) =~= h + (e1 + e2));
    lemma_subrange_split(s, i, h, e1 + e2);
    lemma_parse_head_prefix(s, i, 4, 2);
    let j = i + h.len() as int;
    lemma_subrange_split(s, j, e1, e2);
    lemma_parse_txin_prefix(s, j, m.out_ref);
    let j2 = j + e1.len() as int;
    lemma_parse_i64_prefix(s, j2, m.for_how_long);
    assert(spec_parse_unlocking(s, i)->Ok_0.0 =~= m);
}

/// An unlocking payload the reader accepts occupies exactly its canonical
/// encoding and is well formed.
pub proof fn lemma_parse_unlocking_canonical(s: Seq<u8>, i: int)
    requires
        spec_parse_unlocking(s, i) is Ok,
    ensures
        ({
            let (m, j) = spec_parse_unlocking(s, i)->Ok_0;
            &&& 0 <= i < j <= s.len()
            &&& m.wf()
            &&& s.subrange(i, j) == spec_unlocking_cbor(m)
        }),
{
    lemma_parse_head_canonical(s, i);
    let (_, _, j1) = spec_parse_head(s, i)->Ok_0;
    lemma_parse_txin_canonical(s, j1);
    let (_, j2) = spec_parse_txin(s, j1)->Ok_0;
    lemma_parse_i64_canonical(s, j2);
    let (_, j3) = spec_parse_i64(s, j2)->Ok_0;
    lemma_subrange_join(s, j1, j2, j3);
    lemma_subrange_join(s, i, j1, j3);
    let (m, j) = spec_parse_unlocking(s, i)->Ok_0;
    assert(s.subrange(i, j) =~= spec_unlocking_cbor(m));
}

/// Top-level decode of an unlocking payload: the whole buffer is one encoded
/// value.
pub open spec fn spec_unlocking_from_cbor(s: Seq<u8>) -> Result<UnlockingV, DecodeErrorV> {
    match spec_parse_unlocking(s, 0) {
        Err(e) => Err(e),
        Ok((m, j)) => {
            if j == s.len() {
                Ok(m)
            } else {
                Err(DecodeErrorV::root(ErrorKind::Shape))
            }
        },
    }
}

impl Unlocking {
    /// Writes the canonical encoding of the unlocking payload onto `out`.
    pub(crate) fn write_cbor(&self, out: &mut Vec<u8>)
        ensures
            final(out)@ == old(out)@ + spec_unlocking_cbor(self@),
    {
        push_head(out, 4, 2);
        self.out_ref.write_cbor(out);
        push_i64(out, self.for_how_long);
        proof {
            assert(out@ =~= old(out)@ + spec_unlocking_cbor(self@));
        }
    }

    /// Reads an unlocking payload at position `i` of `s`, as
    /// [`spec_parse_unlocking`] describes.
    pub(crate) fn read_cbor(s: &[u8], i: usize) -> (r: Result<(Unlocking, usize), DecodeError>)
        ensures
            ({
                let sp = spec_parse_unlocking(s@, i as int);
                match r {
                    Ok((x, j)) => sp == Ok::<(UnlockingV, int), DecodeErrorV>((x@, j as int)),
                    Err(e) => sp == Err::<(UnlockingV, int), DecodeErrorV>(e@),
                }
            }),
    {
        let (major, n, j) = match read_head(s, i) {
            Ok(x) => x,
            Err(e) => {
                return Err(e);
            },
        };
        if major != 4 || n != 2 {
            return Err(DecodeError::root(ErrorKind::Shape));
        }
        let (out_ref, j2) = match TransactionInput::read_cbor(s, j) {
            Ok(x) => x,
            Err(e) => {
                return Err(e.in_field(FieldId::OutRef));
            },
        };
        let (for_how_long, j3) = match read_i64(s, j2) {
            Ok(x) => x,
            Err(e) => {
                return Err(e.in_field(FieldId::ForHowLong));
            },
        };
        let x = Unlocking { out_ref, for_how_long };
        proof {
            assert(x@ =~= spec_parse_unlocking(s@, i as int)->Ok_0.0);
        }
        Ok((x, j3))
    }

    /// Encodes the unlocking payload as canonical CBOR bytes.
    pub fn to_cbor_bytes(&self) -> (r: Vec<u8>)
        ensures
            r@ == spec_unlocking_cbor(self@),
    {
        let mut out: Vec<u8> = Vec::new();
        self.write_cbor(&mut out);
        proof {
            assert(out@ =~= spec_unlocking_cbor(self@));
        }
        out
    }

    /// Decodes an unlocking payload from canonical CBOR bytes, as
    /// [`spec_unlocking_from_cbor`] describes.
    pub fn from_cbor_bytes(cbor_bytes: &[u8]) -> (r: Result<Unlocking, DecodeError>)
        ensures
            ({
                let sp = spec_unlocking_from_cbor(cbor_bytes@);
                match r {
                    Ok(x) => sp == Ok::<UnlockingV, DecodeErrorV>(x@) && x@.wf(),
                    Err(e) => sp == Err::<UnlockingV, DecodeErrorV>(e@),
                }
            }),
    {
        match Unlocking::read_cbor(cbor_bytes, 0) {
            Err(e) => Err(e),
            Ok((x, j)) => {
                if j == cbor_bytes.len() {
                    proof {
                        lemma_parse_unlocking_canonical(cbor_bytes@, 0);
                    }
                    Ok(x)
                } else {
                    Err(DecodeError::root(ErrorKind::Shape))
                }
            },
        }
    }
}

/// The canonical encoding of a status: the locked variant is a 1-element
/// array holding only the discriminant; the unlocking variant flattens its
/// payload's fields after the discriminant.
pub open spec fn spec_status_cbor(m: StatusV) -> Seq<u8> {
    match m {
        StatusV::Locked => spec_head(4, 1) + spec_head(0, 0),
        StatusV::Unlocking(u) => spec_head(4, 3) + spec_head(0, 1) + spec_txin_cbor(u.out_ref)
            + spec_cbor_i64(u.for_how_long),
    }
}

/// Reads a status at position `i` of `s`. A discriminant outside 0, 1 is an
/// unknown-variant failure.
pub open spec fn spec_parse_status(s: Seq<u8>, i: int) -> Result<(StatusV, int), DecodeErrorV> {
    match spec_parse_head(s, i) {
        Err(e) => Err(e),
        Ok((major, n, j)) => {
            if major != 4 {
                Err(DecodeErrorV::root(ErrorKind::Shape))
            } else {
                match spec_parse_head(s, j) {
                    Err(e) => Err(e),
                    Ok((tm, tag, j1)) => {
                        if tm != 0 {
                            Err(DecodeErrorV::root(ErrorKind::Shape))
                        } else if tag == 0 {
                            if n != 1 {
                                Err(DecodeErrorV::root(ErrorKind::Shape))
                            } else {
                                Ok((StatusV::Locked, j1))
                            }
                        } else if tag == 1 {
                            if n != 3 {
                                Err(DecodeErrorV::root(ErrorKind::Shape))
                            } else {
                                match spec_parse_txin(s, j1) {
                                    Err(e) => Err(e.in_field(FieldId::OutRef)),
                                    Ok((t, j2)) => {
                                        match spec_parse_i64(s, j2) {
                                            Err(e) => Err(e.in_field(FieldId::ForHowLong)),
                                            Ok((d, j3)) => Ok(
                                                (
                                                    StatusV::Unlocking(
                                                        UnlockingV {
                                                            out_ref: t,
                                                            for_how_long: d,
                                                        },
                                                    ),
                                                    j3,
                                                ),
                                            ),
                                        }
                                    },
                                }
                            }
                        } else {
                            Err(DecodeErrorV::root(ErrorKind::UnknownVariant(tag)))
                        }
                    },
                }
            }
        },
    }
}

/// Reading a buffer that carries an encoded status at position `i` yields
/// that status and stops right after it.
pub proof fn lemma_parse_status_prefix(s: Seq<u8>, i: int, m: StatusV)
    requires
        m.wf(),
        0 <= i,
        i + spec_status_cbor(m).len() <= s.len(),
        s.subrange(i, i + spec_status_cbor(m).len() as int) == spec_status_cbor(m),
    ensures
        spec_parse_status(s, i) == Ok::<(StatusV, int), DecodeErrorV>(
            (m, i + spec_status_cbor(m).len() as int),
        ),
{
    match m {
        StatusV::Locked => {
            let h = spec_head(4, 1);
            let t = spec_head(0, 0);
            lemma_subrange_split(s, i, h, t);
            lemma_parse_head_prefix(s, i, 4, 1);
            let j = i + h.len() as int;
            lemma_parse_head_prefix(s, j, 0, 0);
        },
        StatusV::Unlocking(u) => {
            let h = spec_head(4, 3);
            let t = spec_head(0, 1);
            let e1 = spec_txin_cbor(u.out_ref);
            let e2 = spec_cbor_i64(u.for_how_long);
            assert(spec_status_cbor(m) =~= h + (t + (e1 + e2)));
            lemma_subrange_split(s, i, h, t + (e1 + e2));
            lemma_parse_head_prefix(s, i, 4, 3);
            let j = i + h.len() as int;
            lemma_subrange_split(s, j, t, e1 + e2);
            lemma_parse_head_prefix(s, j, 0, 1);
            let j1 = j + t.len() as int;
            lemma_subrange_split(s, j1, e1, e2);
            lemma_parse_txin_prefix(s, j1, u.out_ref);
            let j2 = j1 + e1.len() as int;
            lemma_parse_i64_prefix(s, j2, u.for_how_long);
            assert(spec_parse_status(s, i)->Ok_0.0 =~= m);
        },
    }
}

/// A status the reader accepts occupies exactly its canonical encoding and is
/// well formed.
pub proof fn lemma_parse_status_canonical(s: Seq<u8>, i: int)
    requires
        spec_parse_status(s, i) is Ok,
    ensures
        ({
            let (m, j) = spec_parse_status(s, i)->Ok_0;
            &&& 0 <= i < j <= s.len()
            &&& m.wf()
            &&& s.subrange(i, j) == spec_status_cbor(m)
        }),
{
    lemma_parse_head_canonical(s, i);
    let (_, n, j0) = spec_parse_head(s, i)->Ok_0;
    lemma_parse_head_canonical(s, j0);
    let (_, tag, j1) = spec_parse_head(s, j0)->Ok_0;
    let (m, j) = spec_parse_status(s, i)->Ok_0;
    if tag == 0 {
        lemma_subrange_join(s, i, j0, j1);
        assert(s.subrange(i, j) =~= spec_status_cbor(m));
    } else {
        lemma_parse_txin_canonical(s, j1);
        let (_, j2) = spec_parse_txin(s, j1)->Ok_0;
        lemma_parse_i64_canonical(s, j2);
        let (_, j3) = spec_parse_i64(s, j2)->Ok_0;
        lemma_subrange_join(s, j1, j2, j3);
        lemma_subrange_join(s, j0, j1, j3);
        lemma_subrange_join(s, i, j0, j3);
        assert(s.subrange(i, j) =~= spec_status_cbor(m));
    }
}

/// Top-level decode of a status: the whole buffer is one encoded value.
pub open spec fn spec_status_from_cbor(s: Seq<u8>) -> Result<StatusV, DecodeErrorV> {
    match spec_parse_status(s, 0) {
        Err(e) => Err(e),
        Ok((m, j)) => {
            if j == s.len() {
                Ok(m)
            } else {
                Err(DecodeErrorV::root(ErrorKind::Shape))
            }
        },
    }
}

impl Status {
    /// Writes the canonical encoding of the status onto `out`.
    pub(crate) fn write_cbor(&self, out: &mut Vec<u8>)
        ensures
            final(out)@ == old(out)@ + spec_status_cbor(self@),
    {
        match self {
            Status::Locked => {
                push_head(out, 4, 1);
                push_head(out, 0, 0);
            },
            Status::Unlocking(u) => {
                push_head(out, 4, 3);
                push_head(out, 0, 1);
                u.out_ref.write_cbor(out);
                push_i64(out, u.for_how_long);
            },
        }
        proof {
            assert(out@ =~= old(out)@ + spec_status_cbor(self@));
        }
    }

    /// Reads a status at position `i` of `s`, as [`spec_parse_status`]
    /// describes.
    pub(crate) fn read_cbor(s: &[u8], i: usize) -> (r: Result<(Status, usize), DecodeError>)
        ensures
            ({
                let sp = spec_parse_status(s@, i as int);
                match r {
                    Ok((x, j)) => sp == Ok::<(StatusV, int), DecodeErrorV>((x@, j as int)),
                    Err(e) => sp == Err::<(StatusV, int), DecodeErrorV>(e@),
                }
            }),
    {
        let (major, n, j) = match read_head(s, i) {
            Ok(x) => x,
            Err(e) => {
                return Err(e);
            },
        };
        if major != 4 {
            return Err(DecodeError::root(ErrorKind::Shape));
        }
        let (tm, tag, j1) = match read_head(s, j) {
            Ok(x) => x,
            Err(e) => {
                return Err(e);
            },
        };
        if tm != 0 {
            return Err(DecodeError::root(ErrorKind::Shape));
        }
        if tag == 0 {
            if n != 1 {
                return Err(DecodeError::root(ErrorKind::Shape));
            }
            Ok((Status::Locked, j1))
        } else if tag == 1 {
            if n != 3 {
                return Err(DecodeError::root(ErrorKind::Shape));
            }
            let (out_ref, j2) = match TransactionInput::read_cbor(s, j1) {
                Ok(x) => x,
                Err(e) => {
                    return Err(e.in_field(FieldId::OutRef));
                },
            };
            let (for_how_long, j3) = match read_i64(s, j2) {
                Ok(x) => x,
                Err(e) => {
                    return Err(e.in_field(FieldId::ForHowLong));
                },
            };
            let x = Status::Unlocking(Unlocking { out_ref, for_how_long });
            proof {
                assert(x@ =~= spec_parse_status(s@, i as int)->Ok_0.0);
            }
            Ok((x, j3))
        } else {
            Err(DecodeError::root(ErrorKind::UnknownVariant(tag)))
        }
    }

    /// Encodes the status as canonical CBOR bytes.
    pub fn to_cbor_bytes(&self) -> (r: Vec<u8>)
        ensures
            r@ == spec_status_cbor(self@),
    {
        let mut out: Vec<u8> = Vec::new();
        self.write_cbor(&mut out);
        proof {
            assert(out@ =~= spec_status_cbor(self@));
        }
        out
    }

    /// Decodes a status from canonical CBOR bytes, as
    /// [`spec_status_from_cbor`] describes.
    pub fn from_cbor_bytes(cbor_bytes: &[u8]) -> (r: Result<Status, DecodeError>)
        ensures
            ({
                let sp = spec_status_from_cbor(cbor_bytes@);
                match r {
                    Ok(x) => sp == Ok::<StatusV, DecodeErrorV>(x@) && x@.wf(),
                    Err(e) => sp == Err::<StatusV, DecodeErrorV>(e@),
                }
            }),
    {
        match Status::read_cbor(cbor_bytes, 0) {
            Err(e) => Err(e),
            Ok((x, j)) => {
                if j == cbor_bytes.len() {
                    proof {
                        lemma_parse_status_canonical(cbor_bytes@, 0);
                    }
                    Ok(x)
                } else {
                    Err(DecodeError::root(ErrorKind::Shape))
                }
            },
        }
    }
}

/// The canonical encoding of a state: a 2-element array of the owner and the
/// status.
pub open spec fn spec_state_cbor(m: StateV) -> Seq<u8> {
    spec_head(4, 2) + spec_owner_cbor(m.owner) + spec_status_cbor(m.status)
}

/// Reads a state at position `i` of `s`.
pub open spec fn spec_parse_state(s: Seq<u8>, i: int) -> Result<(StateV, int), DecodeErrorV> {
    match spec_parse_head(s, i) {
        Err(e) => Err(e),
        Ok((major, n, j)) => {
            if major != 4 || n != 2 {
                Err(DecodeErrorV::root(ErrorKind::Shape))
            } else {
                match spec_parse_owner(s, j) {
                    Err(e) => Err(e.in_field(FieldId::Owner)),
                    Ok((o, j2)) => {
                        match spec_parse_status(s, j2) {
                            Err(e) => Err(e.in_field(FieldId::Status)),
                            Ok((st, j3)) => Ok((StateV { owner: o, status: st }, j3)),
                        }
                    },
                }
            }
        },
    }
}

/// Reading a buffer that carries an encoded state at position `i` yields that
/// state and stops right after it.
pub proof fn lemma_parse_state_prefix(s: Seq<u8>, i: int, m: StateV)
    requires
        m.wf(),
        0 <= i,
        i + spec_state_cbor(m).len() <= s.len(),
        s.subrange(i, i + spec_state_cbor(m).len() as int) == spec_state_cbor(m),
    ensures
        spec_parse_state(s, i) == Ok::<(StateV, int), DecodeErrorV>(
            (m, i + spec_state_cbor(m).len() as int),
        ),
{
    let h = spec_head(4, 2);
    let e1 = spec_owner_cbor(m.owner);
    let e2 = spec_status_cbor(m.status);
    assert(spec_state_cbor(m) =~= h + (e1 + e2));
    lemma_subrange_split(s, i, h, e1 + e2);
    lemma_parse_head_prefix(s, i, 4, 2);
    let j = i + h.len() as int;
    lemma_subrange_split(s, j, e1, e2);
    lemma_parse_owner_prefix(s, j, m.owner);
    let j2 = j + e1.len() as int;
    lemma_parse_status_prefix(s, j2, m.status);
    assert(spec_parse_state(s, i)->Ok_0.0 =~= m);
}

/// A state the reader accepts occupies exactly its canonical encoding and is
/// well formed.
pub proof fn lemma_parse_state_canonical(s: Seq<u8>, i: int)
    requires
        spec_parse_state(s, i) is Ok,
    ensures
        ({
            let (m, j) = spec_parse_state(s, i)->Ok_0;
            &&& 0 <= i < j <= s.len()
            &&& m.wf()
            &&& s.subrange(i, j) == spec_state_cbor(m)
        }),
{
    lemma_parse_head_canonical(s, i);
    let (_, _, j1) = spec_parse_head(s, i)->Ok_0;
    lemma_parse_owner_canonical(s, j1);
    let (_, j2) = spec_parse_owner(s, j1)->Ok_0;
    lemma_parse_status_canonical(s, j2);
    let (_, j3) = spec_parse_status(s, j2)->Ok_0;
    lemma_subrange_join(s, j1, j2, j3);
    lemma_subrange_join(s, i, j1, j3);
    let (m, j) = spec_parse_state(s, i)->Ok_0;
    assert(s.subrange(i, j) =~= spec_state_cbor(m));
}

/// Top-level decode of a state: the whole buffer is one encoded value.
pub open spec fn spec_state_from_cbor(s: Seq<u8>) -> Result<StateV, DecodeErrorV> {
    match spec_parse_state(s, 0) {
        Err(e) => Err(e),
        Ok((m, j)) => {
            if j == s.len() {
                Ok(m)
            } else {
                Err(DecodeErrorV::root(ErrorKind::Shape))
            }
        },
    }
}

impl State {
    /// Writes the canonical encoding of the state onto `out`.
    pub(crate) fn write_cbor(&self, out: &mut Vec<u8>)
        ensures
            final(out)@ == old(out)@ + spec_state_cbor(self@),
    {
        push_head(out, 4, 2);
        self.owner.write_cbor(out);
        self.status.write_cbor(out);
        proof {
            assert(out@ =~= old(out)@ + spec_state_cbor(self@));
        }
    }

    /// Reads a state at position `i` of `s`, as [`spec_parse_state`]
    /// describes.
    pub(crate) fn read_cbor(s: &[u8], i: usize) -> (r: Result<(State, usize), DecodeError>)
        ensures
            ({
                let sp = spec_parse_state(s@, i as int);
                match r {
                    Ok((x, j)) => sp == Ok::<(StateV, int), DecodeErrorV>((x@, j as int)),
                    Err(e) => sp == Err::<(StateV, int), DecodeErrorV>(e@),
                }
            }),
    {
        let (major, n, j) = match read_head(s, i) {
            Ok(x) => x,
            Err(e) => {
                return Err(e);
            },
        };
        if major != 4 || n != 2 {
            return Err(DecodeError::root(ErrorKind::Shape));
        }
        let (owner, j2) = match Owner::read_cbor(s, j) {
            Ok(x) => x,
            Err(e) => {
                return Err(e.in_field(FieldId::Owner));
            },
        };
        let (status, j3) = match Status::read_cbor(s, j2) {
            Ok(x) => x,
            Err(e) => {
                return Err(e.in_field(FieldId::Status));
            },
        };
        let x = State { owner, status };
        proof {
            assert(x@ =~= spec_parse_state(s@, i as int)->Ok_0.0);
        }
        Ok((x, j3))
    }

    /// Encodes the state as canonical CBOR bytes.
    pub fn to_cbor_bytes(&self) -> (r: Vec<u8>)
        ensures
            r@ == spec_state_cbor(self@),
    {
        let mut out: Vec<u8> = Vec::new();
        self.write_cbor(&mut out);
        proof {
            assert(out@ =~= spec_state_cbor(self@));
        }
        out
    }

    /// Decodes a state from canonical CBOR bytes, as [`spec_state_from_cbor`]
    /// describes.
    pub fn from_cbor_bytes(cbor_bytes: &[u8]) -> (r: Result<State, DecodeError>)
        ensures
            ({
                let sp = spec_state_from_cbor(cbor_bytes@);
                match r {
                    Ok(x) => sp == Ok::<StateV, DecodeErrorV>(x@) && x@.wf(),
                    Err(e) => sp == Err::<StateV, DecodeErrorV>(e@),
                }
            }),
    {
        match State::read_cbor(cbor_bytes, 0) {
            Err(e) => Err(e),
            Ok((x, j)) => {
                if j == cbor_bytes.len() {
                    proof {
                        lemma_parse_state_canonical(cbor_bytes@, 0);
                    }
                    Ok(x)
                } else {
                    Err(DecodeError::root(ErrorKind::Shape))
                }
            },
        }
    }
}

/// The canonical encoding of an optional transaction input: an explicit
/// `null` when absent.
pub open spec fn spec_opt_txin_cbor(o: Option<TransactionInputV>) -> Seq<u8> {
    match o {
        None => seq![SIMPLE_NULL],
        Some(t) => spec_txin_cbor(t),
    }
}

/// The canonical encoding of an optional asset name: an explicit `null` when
/// absent.
pub open spec fn spec_opt_name_cbor(o: Option<Seq<u8>>) -> Seq<u8> {
    match o {
        None => seq![SIMPLE_NULL],
        Some(b) => spec_cbor_bytes(b),
    }
}

/// The canonical encoding of a redeem: a 3-element array of the withdraw
/// flag and the two independently nullable fields.
pub open spec fn spec_redeem_cbor(m: RedeemV) -> Seq<u8> {
    spec_head(4, 3) + spec_cbor_bool(m.partial_withdraw) + spec_opt_txin_cbor(m.nft_input_owner)
        + spec_opt_name_cbor(m.new_receipt_owner)
}

/// Reads a redeem at position `i` of `s`.
pub open spec fn spec_parse_redeem(s: Seq<u8>, i: int) -> Result<(RedeemV, int), DecodeErrorV> {
    match spec_parse_head(s, i) {
        Err(e) => Err(e),
        Ok((major, n, j)) => {
            if major != 4 || n != 3 {
                Err(DecodeErrorV::root(ErrorKind::Shape))
            } else {
                match spec_parse_bool(s, j) {
                    Err(e) => Err(e.in_field(FieldId::PartialWithdraw)),
                    Ok((pw, j1)) => {
                        let nio_step: Result<(Option<TransactionInputV>, int), DecodeErrorV> = if j1
                            < s.len() && s[j1] == SIMPLE_NULL {
                            Ok((None, j1 + 1))
                        } else {
                            match spec_parse_txin(s, j1) {
                                Err(e) => Err(e.in_field(FieldId::NftInputOwner)),
                                Ok((t, j2)) => Ok((Some(t), j2)),
                            }
                        };
                        match nio_step {
                            Err(e) => Err(e),
                            Ok((nio, j2)) => {
                                let nro_step: Result<
                                    (Option<Seq<u8>>, int),
                                    DecodeErrorV,
                                > = if j2 < s.len() && s[j2] == SIMPLE_NULL {
                                    Ok((None, j2 + 1))
                                } else {
                                    match spec_parse_bytes(s, j2) {
                                        Err(e) => Err(e.in_field(FieldId::NewReceiptOwner)),
                                        Ok((b, j3)) => {
                                            if b.len() > ASSET_NAME_MAX_LEN {
                                                Err(
                                                    DecodeErrorV::root(ErrorKind::Shape).in_field(
                                                        FieldId::NewReceiptOwner,
                                                    ),
                                                )
                                            } else {
                                                Ok((Some(b), j3))
                                            }
                                        },
                                    }
                                };
                                match nro_step {
                                    Err(e) => Err(e),
                                    Ok((nro, j3)) => Ok(
                                        (
                                            RedeemV {
                                                partial_withdraw: pw,
                                                nft_input_owner: nio,
                                                new_receipt_owner: nro,
                                            },
                                            j3,
                                        ),
                                    ),
                                }
                            },
                        }
                    },
                }
            }
        },
    }
}

/// Reading a buffer that carries an encoded redeem at position `i` yields
/// that redeem and stops right after it; each of the four combinations of
/// present and absent optional fields reads back as written.
pub proof fn lemma_parse_redeem_prefix(s: Seq<u8>, i: int, m: RedeemV)
    requires
        m.wf(),
        0 <= i,
        i + spec_redeem_cbor(m).len() <= s.len(),
        s.subrange(i, i + spec_redeem_cbor(m).len() as int) == spec_redeem_cbor(m),
    ensures
        spec_parse_redeem(s, i) == Ok::<(RedeemV, int), DecodeErrorV>(
            (m, i + spec_redeem_cbor(m).len() as int),
        ),
{
    let h = spec_head(4, 3);
    let e1 = spec_cbor_bool(m.partial_withdraw);
    let e2 = spec_opt_txin_cbor(m.nft_input_owner);
    let e3 = spec_opt_name_cbor(m.new_receipt_owner);
    assert(spec_redeem_cbor(m) =~= h + (e1 + (e2 + e3)));
    lemma_subrange_split(s, i, h, e1 + (e2 + e3));
    lemma_parse_head_prefix(s, i, 4, 3);
    let j = i + h.len() as int;
    lemma_subrange_split(s, j, e1, e2 + e3);
    lemma_parse_bool_prefix(s, j, m.partial_withdraw);
    let j1 = j + e1.len() as int;
    lemma_subrange_split(s, j1, e2, e3);
    let j2 = j1 + e2.len() as int;
    assert(((0xf6u8 >> 5) as u8) == 7) by (bit_vector);
    match m.nft_input_owner {
        None => {
            assert(s.subrange(j1, j1 + e2.len() as int)[0] == s[j1 + 0]);
            assert(s[j1] == SIMPLE_NULL);
        },
        Some(t) => {
            assert(s.subrange(j1, j1 + e2.len() as int)[0] == s[j1 + 0]);
            lemma_head_first_byte(4, 2);
            assert(s[j1] != SIMPLE_NULL);
            lemma_parse_txin_prefix(s, j1, t);
        },
    }
    match m.new_receipt_owner {
        None => {
            assert(s.subrange(j2, j2 + e3.len() as int)[0] == s[j2 + 0]);
            assert(s[j2] == SIMPLE_NULL);
        },
        Some(b) => {
            assert(s.subrange(j2, j2 + e3.len() as int)[0] == s[j2 + 0]);
            lemma_head_first_byte(2, b.len() as u64);
            assert(s[j2] != SIMPLE_NULL);
            lemma_parse_bytes_prefix(s, j2, b);
        },
    }
    assert(spec_parse_redeem(s, i)->Ok_0.0 =~= m);
}

/// A redeem the reader accepts occupies exactly its canonical encoding and is
/// well formed.
pub proof fn lemma_parse_redeem_canonical(s: Seq<u8>, i: int)
    requires
        spec_parse_redeem(s, i) is Ok,
    ensures
        ({
            let (m, j) = spec_parse_redeem(s, i)->Ok_0;
            &&& 0 <= i < j <= s.len()
            &&& m.wf()
            &&& s.subrange(i, j) == spec_redeem_cbor(m)
        }),
{
    lemma_parse_head_canonical(s, i);
    let (_, _, j0) = spec_parse_head(s, i)->Ok_0;
    lemma_parse_bool_canonical(s, j0);
    let (_, j1) = spec_parse_bool(s, j0)->Ok_0;
    let (m, j) = spec_parse_redeem(s, i)->Ok_0;
    let j2: int = if j1 < s.len() && s[j1] == SIMPLE_NULL {
        j1 + 1
    } else {
        spec_parse_txin(s, j1)->Ok_0.1
    };
    if j1 < s.len() && s[j1] == SIMPLE_NULL {
        assert(s.subrange(j1, j2) =~= spec_opt_txin_cbor(m.nft_input_owner));
    } else {
        lemma_parse_txin_canonical(s, j1);
    }
    if j2 < s.len() && s[j2] == SIMPLE_NULL {
        assert(s.subrange(j2, j) =~= spec_opt_name_cbor(m.new_receipt_owner));
    } else {
        lemma_parse_bytes_canonical(s, j2);
    }
    lemma_subrange_join(s, j1, j2, j);
    lemma_subrange_join(s, j0, j1, j);
    lemma_subrange_join(s, i, j0, j);
    assert(s.subrange(i, j) =~= spec_redeem_cbor(m));
}

/// Top-level decode of a redeem: the whole buffer is one encoded value.
pub open spec fn spec_redeem_from_cbor(s: Seq<u8>) -> Result<RedeemV, DecodeErrorV> {
    match spec_parse_redeem(s, 0) {
        Err(e) => Err(e),
        Ok((m, j)) => {
            if j == s.len() {
                Ok(m)
            } else {
                Err(DecodeErrorV::root(ErrorKind::Shape))
            }
        },
    }
}

impl Redeem {
    /// Writes the canonical encoding of the redeem onto `out`.
    pub(crate) fn write_cbor(&self, out: &mut Vec<u8>)
        ensures
            final(out)@ == old(out)@ + spec_redeem_cbor(self@),
    {
        push_head(out, 4, 3);
        push_bool(out, self.partial_withdraw);
        match &self.nft_input_owner {
            None => {
                out.push(SIMPLE_NULL);
            },
            Some(t) => {
                t.write_cbor(out);
            },
        }
        match &self.new_receipt_owner {
            None => {
                out.push(SIMPLE_NULL);
            },
            Some(a) => {
                push_bytes(out, a.to_raw_bytes());
            },
        }
        proof {
            assert(out@ =~= old(out)@ + spec_redeem_cbor(self@));
        }
    }

    /// Reads a redeem at position `i` of `s`, as [`spec_parse_redeem`]
    /// describes.
    pub(crate) fn read_cbor(s: &[u8], i: usize) -> (r: Result<(Redeem, usize), DecodeError>)
        ensures
            ({
                let sp = spec_parse_redeem(s@, i as int);
                match r {
                    Ok((x, j)) => sp == Ok::<(RedeemV, int), DecodeErrorV>((x@, j as int)),
                    Err(e) => sp == Err::<(RedeemV, int), DecodeErrorV>(e@),
                }
            }),
    {
        let (major, n, j) = match read_head(s, i) {
            Ok(x) => x,
            Err(e) => {
                return Err(e);
            },
        };
        if major != 4 || n != 3 {
            return Err(DecodeError::root(ErrorKind::Shape));
        }
        let (partial_withdraw, j1) = match read_bool(s, j) {
            Ok(x) => x,
            Err(e) => {
                return Err(e.in_field(FieldId::PartialWithdraw));
            },
        };
        let (nft_input_owner, j2): (Option<TransactionInput>, usize) = if j1 < s.len() && s[j1]
            == SIMPLE_NULL {
            (None, j1 + 1)
        } else {
            match TransactionInput::read_cbor(s, j1) {
                Ok((t, j2)) => (Some(t), j2),
                Err(e) => {
                    return Err(e.in_field(FieldId::NftInputOwner));
                },
            }
        };
        let (new_receipt_owner, j3): (Option<AssetName>, usize) = if j2 < s.len() && s[j2]
            == SIMPLE_NULL {
            (None, j2 + 1)
        } else {
            match read_bytes(s, j2) {
                Ok((b, j3)) => {
                    match AssetName::new(b) {
                        Some(a) => (Some(a), j3),
                        None => {
                            return Err(
                                DecodeError::root(ErrorKind::Shape).in_field(
                                    FieldId::NewReceiptOwner,
                                ),
                            );
                        },
                    }
                },
                Err(e) => {
                    return Err(e.in_field(FieldId::NewReceiptOwner));
                },
            }
        };
        let x = Redeem { partial_withdraw, nft_input_owner, new_receipt_owner };
        proof {
            assert(x@ =~= spec_parse_redeem(s@, i as int)->Ok_0.0);
        }
        Ok((x, j3))
    }

    /// Encodes the redeem as canonical CBOR bytes.
    pub fn to_cbor_bytes(&self) -> (r: Vec<u8>)
        ensures
            r@ == spec_redeem_cbor(self@),
    {
        let mut out: Vec<u8> = Vec::new();
        self.write_cbor(&mut out);
        proof {
            assert(out@ =~= spec_redeem_cbor(self@));
        }
        out
    }

    /// Decodes a redeem from canonical CBOR bytes, as
    /// [`spec_redeem_from_cbor`] describes.
    pub fn from_cbor_bytes(cbor_bytes: &[u8]) -> (r: Result<Redeem, DecodeError>)
        ensures
            ({
                let sp = spec_redeem_from_cbor(cbor_bytes@);
                match r {
                    Ok(x) => sp == Ok::<RedeemV, DecodeErrorV>(x@) && x@.wf(),
                    Err(e) => sp == Err::<RedeemV, DecodeErrorV>(e@),
                }
            }),
    {
        match Redeem::read_cbor(cbor_bytes, 0) {
            Err(e) => Err(e),
            Ok((x, j)) => {
                if j == cbor_bytes.len() {
                    proof {
                        lemma_parse_redeem_canonical(cbor_bytes@, 0);
                    }
                    Ok(x)
                } else {
                    Err(DecodeError::root(ErrorKind::Shape))
                }
            },
        }
    }
}

/// The canonical encoding of a mint redeemer: the minting variant flattens
/// its payload's single field after the discriminant; the burning variant is
/// the discriminant alone.
pub open spec fn spec_mint_redeemer_cbor(m: MintRedeemerV) -> Seq<u8> {
    match m {
        MintRedeemerV::MintTokens(t) => spec_head(4, 2) + spec_head(0, 0) + spec_cbor_i64(t.total),
        MintRedeemerV::BurnTokens => spec_head(4, 1) + spec_head(0, 1),
    }
}

/// Reads a mint redeemer at position `i` of `s`. A discriminant outside 0, 1
/// is an unknown-variant failure.
pub open spec fn spec_parse_mint_redeemer(s: Seq<u8>, i: int) -> Result<
    (MintRedeemerV, int),
    DecodeErrorV,
> {
    match spec_parse_head(s, i) {
        Err(e) => Err(e),
        Ok((major, n, j)) => {
            if major != 4 {
                Err(DecodeErrorV::root(ErrorKind::Shape))
            } else {
                match spec_parse_head(s, j) {
                    Err(e) => Err(e),
                    Ok((tm, tag, j1)) => {
                        if tm != 0 {
                            Err(DecodeErrorV::root(ErrorKind::Shape))
                        } else if tag == 0 {
                            if n != 2 {
                                Err(DecodeErrorV::root(ErrorKind::Shape))
                            } else {
                                match spec_parse_i64(s, j1) {
                                    Err(e) => Err(e.in_field(FieldId::Total)),
                                    Ok((t, j2)) => Ok(
                                        (
                                            MintRedeemerV::MintTokens(MintTokensV { total: t }),
                                            j2,
                                        ),
                                    ),
                                }
                            }
                        } else if tag == 1 {
                            if n != 1 {
                                Err(DecodeErrorV::root(ErrorKind::Shape))
                            } else {
                                Ok((MintRedeemerV::BurnTokens, j1))
                            }
                        } else {
                            Err(DecodeErrorV::root(ErrorKind::UnknownVariant(tag)))
                        }
                    },
                }
            }
        },
    }
}

/// Reading a buffer that carries an encoded mint redeemer at position `i`
/// yields that redeemer and stops right after it.
pub proof fn lemma_parse_mint_redeemer_prefix(s: Seq<u8>, i: int, m: MintRedeemerV)
    requires
        m.wf(),
        0 <= i,
        i + spec_mint_redeemer_cbor(m).len() <= s.len(),
        s.subrange(i, i + spec_mint_redeemer_cbor(m).len() as int) == spec_mint_redeemer_cbor(m),
    ensures
        spec_parse_mint_redeemer(s, i) == Ok::<(MintRedeemerV, int), DecodeErrorV>(
            (m, i + spec_mint_redeemer_cbor(m).len() as int),
        ),
{
    match m {
        MintRedeemerV::MintTokens(t) => {
            let h = spec_head(4, 2);
            let tg = spec_head(0, 0);
            let e1 = spec_cbor_i64(t.total);
            assert(spec_mint_redeemer_cbor(m) =~= h + (tg + e1));
            lemma_subrange_split(s, i, h, tg + e1);
            lemma_parse_head_prefix(s, i, 4, 2);
            let j = i + h.len() as int;
            lemma_subrange_split(s, j, tg, e1);
            lemma_parse_head_prefix(s, j, 0, 0);
            let j1 = j + tg.len() as int;
            lemma_parse_i64_prefix(s, j1, t.total);
            assert(spec_parse_mint_redeemer(s, i)->Ok_0.0 =~= m);
        },
        MintRedeemerV::BurnTokens => {
            let h = spec_head(4, 1);
            let tg = spec_head(0, 1);
            lemma_subrange_split(s, i, h, tg);
            lemma_parse_head_prefix(s, i, 4, 1);
            let j = i + h.len() as int;
            lemma_parse_head_prefix(s, j, 0, 1);
        },
    }
}

/// A mint redeemer the reader accepts occupies exactly its canonical
/// encoding.
pub proof fn lemma_parse_mint_redeemer_canonical(s: Seq<u8>, i: int)
    requires
        spec_parse_mint_redeemer(s, i) is Ok,
    ensures
        ({
            let (m, j) = spec_parse_mint_redeemer(s, i)->Ok_0;
            &&& 0 <= i < j <= s.len()
            &&& m.wf()
            &&& s.subrange(i, j) == spec_mint_redeemer_cbor(m)
        }),
{
    lemma_parse_head_canonical(s, i);
    let (_, n, j0) = spec_parse_head(s, i)->Ok_0;
    lemma_parse_head_canonical(s, j0);
    let (_, tag, j1) = spec_parse_head(s, j0)->Ok_0;
    let (m, j) = spec_parse_mint_redeemer(s, i)->Ok_0;
    if tag == 0 {
        lemma_parse_i64_canonical(s, j1);
        let (_, j2) = spec_parse_i64(s, j1)->Ok_0;
        lemma_subrange_join(s, j0, j1, j2);
        lemma_subrange_join(s, i, j0, j2);
        assert(s.subrange(i, j) =~= spec_mint_redeemer_cbor(m));
    } else {
        lemma_subrange_join(s, i, j0, j1);
        assert(s.subrange(i, j) =~= spec_mint_redeemer_cbor(m));
    }
}

/// Top-level decode of a mint redeemer: the whole buffer is one encoded
/// value.
pub open spec fn spec_mint_redeemer_from_cbor(s: Seq<u8>) -> Result<MintRedeemerV, DecodeErrorV> {
    match spec_parse_mint_redeemer(s, 0) {
        Err(e) => Err(e),
        Ok((m, j)) => {
            if j == s.len() {
                Ok(m)
            } else {
                Err(DecodeErrorV::root(ErrorKind::Shape))
            }
        },
    }
}

impl MintRedeemer {
    /// Writes the canonical encoding of the mint redeemer onto `out`.
    pub(crate) fn write_cbor(&self, out: &mut Vec<u8>)
        ensures
            final(out)@ == old(out)@ + spec_mint_redeemer_cbor(self@),
    {
        match self {
            MintRedeemer::MintTokens(t) => {
                push_head(out, 4, 2);
                push_head(out, 0, 0);
                push_i64(out, t.total);
            },
            MintRedeemer::BurnTokens => {
                push_head(out, 4, 1);
                push_head(out, 0, 1);
            },
        }
        proof {
            assert(out@ =~= old(out)@ + spec_mint_redeemer_cbor(self@));
        }
    }

    /// Reads a mint redeemer at position `i` of `s`, as
    /// [`spec_parse_mint_redeemer`] describes.
    pub(crate) fn read_cbor(s: &[u8], i: usize) -> (r: Result<(MintRedeemer, usize), DecodeError>)
        ensures
            ({
                let sp = spec_parse_mint_redeemer(s@, i as int);
                match r {
                    Ok((x, j)) => sp == Ok::<(MintRedeemerV, int), DecodeErrorV>((x@, j as int)),
                    Err(e) => sp == Err::<(MintRedeemerV, int), DecodeErrorV>(e@),
                }
            }),
    {
        let (major, n, j) = match read_head(s, i) {
            Ok(x) => x,
            Err(e) => {
                return Err(e);
            },
        };
        if major != 4 {
            return Err(DecodeError::root(ErrorKind::Shape));
        }
        let (tm, tag, j1) = match read_head(s, j) {
            Ok(x) => x,
            Err(e) => {
                return Err(e);
            },
        };
        if tm != 0 {
            return Err(DecodeError::root(ErrorKind::Shape));
        }
        if tag == 0 {
            if n != 2 {
                return Err(DecodeError::root(ErrorKind::Shape));
            }
            let (t, j2) = match read_i64(s, j1) {
                Ok(x) => x,
                Err(e) => {
                    return Err(e.in_field(FieldId::Total));
                },
            };
            Ok((MintRedeemer::MintTokens(MintTokens { total: t }), j2))
        } else if tag == 1 {
            if n != 1 {
                return Err(DecodeError::root(ErrorKind::Shape));
            }
            Ok((MintRedeemer::BurnTokens, j1))
        } else {
            Err(DecodeError::root(ErrorKind::UnknownVariant(tag)))
        }
    }

    /// Encodes the mint redeemer as canonical CBOR bytes.
    pub fn to_cbor_bytes(&self) -> (r: Vec<u8>)
        ensures
            r@ == spec_mint_redeemer_cbor(self@),
    {
        let mut out: Vec<u8> = Vec::new();
        self.write_cbor(&mut out);
        proof {
            assert(out@ =~= spec_mint_redeemer_cbor(self@));
        }
        out
    }

    /// Decodes a mint redeemer from canonical CBOR bytes, as
    /// [`spec_mint_redeemer_from_cbor`] describes.
    pub fn from_cbor_bytes(cbor_bytes: &[u8]) -> (r: Result<MintRedeemer, DecodeError>)
        ensures
            ({
                let sp = spec_mint_redeemer_from_cbor(cbor_bytes@);
                match r {
                    Ok(x) => sp == Ok::<MintRedeemerV, DecodeErrorV>(x@) && x@.wf(),
                    Err(e) => sp == Err::<MintRedeemerV, DecodeErrorV>(e@),
                }
            }),
    {
        match MintRedeemer::read_cbor(cbor_bytes, 0) {
            Err(e) => Err(e),
            Ok((x, j)) => {
                if j == cbor_bytes.len() {
                    Ok(x)
                } else {
                    Err(DecodeError::root(ErrorKind::Shape))
                }
            },
        }
    }
}

} // verus!
