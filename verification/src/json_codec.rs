//! The textual bridge: the canonical JSON rendering of the entities.
//!
//! Every product entity is a compact JSON object with its schema field names
//! in schema order; every sum entity is a JSON array whose first element is
//! the variant's integer discriminant, followed by the variant's fields.
//! Byte strings appear as lowercase hex text and an absent optional field is
//! an explicit `null`. For each entity the writer emits exactly the
//! `spec_*_json` bytes and the reader accepts exactly those bytes.

use vstd::prelude::*;

use crate::entity::{
    MintRedeemer, MintRedeemerV, MintTokens, MintTokensV, Owner, OwnerV, Redeem, RedeemV, State,
    StateV, Status, StatusV, Unlocking, UnlockingV, NFTV, NFT,
};
use crate::err::{DecodeError, DecodeErrorV, ErrorKind, FieldId};
use crate::json::{
    ascii_seq, bytes_of_chars, chars_of_bytes, expect_lit, lemma_dec_ascii, lemma_dec_i64_ascii,
    lemma_hex_ascii, lemma_parse_hex_str_prefix, lemma_parse_json_bool_prefix,
    lemma_parse_json_i64_prefix, lemma_parse_json_udec_prefix, push_dec_i64, push_dec_u64,
    push_hex_str, push_lit, read_hex_str, read_json_i64, read_json_u64, spec_dec_i64, spec_dec_u64,
    spec_hex_str, spec_json_bool, spec_lit_null, spec_match_lit, spec_parse_hex_str,
    spec_parse_json_bool, spec_parse_json_i64, spec_parse_json_u64, string_from_ascii, COMMA,
    LBRACK, RBRACE, RBRACK,
};
use crate::cbor::lemma_subrange_split;
use crate::prim::{
    AssetName, KeyHash, PolicyId, TransactionHash, TransactionInput, TransactionInputV,
    ASSET_NAME_MAX_LEN, KEY_HASH_LEN, POLICY_ID_LEN, TRANSACTION_HASH_LEN,
};

verus! {

/// The text `{\"transaction_id\":`.
pub open spec fn spec_lit_txin_open() -> Seq<u8> {
    seq![123u8, 34u8, 116u8, 114u8, 97u8, 110u8, 115u8, 97u8, 99u8, 116u8, 105u8, 111u8, 110u8, 95u8, 105u8, 100u8, 34u8, 58u8]
}

/// Builds the text the matching spec function describes.
pub(crate) fn lit_txin_open() -> (r: Vec<u8>)
    ensures
        r@ == spec_lit_txin_open(),
{
    let mut v: Vec<u8> = Vec::new();
    v.push(123);
    v.push(34);
    v.push(116);
    v.push(114);
    v.push(97);
    v.push(110);
    v.push(115);
    v.push(97);
    v.push(99);
    v.push(116);
    v.push(105);
    v.push(111);
    v.push(110);
    v.push(95);
    v.push(105);
    v.push(100);
    v.push(34);
    v.push(58);
    proof {
        assert(v@ =~= spec_lit_txin_open());
    }
    v
}

/// The text `,\"index\":`.
pub open spec fn spec_lit_txin_mid() -> Seq<u8> {
    seq![44u8, 34u8, 105u8, 110u8, 100u8, 101u8, 120u8, 34u8, 58u8]
}

/// Builds the text the matching spec function describes.
pub(crate) fn lit_txin_mid() -> (r: Vec<u8>)
    ensures
        r@ == spec_lit_txin_mid(),
{
    let mut v: Vec<u8> = Vec::new();
    v.push(44);
    v.push(34);
    v.push(105);
    v.push(110);
    v.push(100);
    v.push(101);
    v.push(120);
    v.push(34);
    v.push(58);
    proof {
        assert(v@ =~= spec_lit_txin_mid());
    }
    v
}

/// The text `{\"policy_id\":`.
pub open spec fn spec_lit_nft_open() -> Seq<u8> {
    seq![123u8, 34u8, 112u8, 111u8, 108u8, 105u8, 99u8, 121u8, 95u8, 105u8, 100u8, 34u8, 58u8]
}

/// Builds the text the matching spec function describes.
pub(crate) fn lit_nft_open() -> (r: Vec<u8>)
    ensures
        r@ == spec_lit_nft_open(),
{
    let mut v: Vec<u8> = Vec::new();
    v.push(123);
    v.push(34);
    v.push(112);
    v.push(111);
    v.push(108);
    v.push(105);
    v.push(99);
    v.push(121);
    v.push(95);
    v.push(105);
    v.push(100);
    v.push(34);
    v.push(58);
    proof {
        assert(v@ =~= spec_lit_nft_open());
    }
    v
}

/// The text `,\"asset_name\":`.
pub open spec fn spec_lit_nft_mid() -> Seq<u8> {
    seq![44u8, 34u8, 97u8, 115u8, 115u8, 101u8, 116u8, 95u8, 110u8, 97u8, 109u8, 101u8, 34u8, 58u8]
}

/// Builds the text the matching spec function describes.
pub(crate) fn lit_nft_mid() -> (r: Vec<u8>)
    ensures
        r@ == spec_lit_nft_mid(),
{
    let mut v: Vec<u8> = Vec::new();
    v.push(44);
    v.push(34);
    v.push(97);
    v.push(115);
    v.push(115);
    v.push(101);
    v.push(116);
    v.push(95);
    v.push(110);
    v.push(97);
    v.push(109);
    v.push(101);
    v.push(34);
    v.push(58);
    proof {
        assert(v@ =~= spec_lit_nft_mid());
    }
    v
}

/// The text `{\"total\":`.
pub open spec fn spec_lit_mt_open() -> Seq<u8> {
    seq![123u8, 34u8, 116u8, 111u8, 116u8, 97u8, 108u8, 34u8, 58u8]
}

/// Builds the text the matching spec function describes.
pub(crate) fn lit_mt_open() -> (r: Vec<u8>)
    ensures
        r@ == spec_lit_mt_open(),
{
    let mut v: Vec<u8> = Vec::new();
    v.push(123);
    v.push(34);
    v.push(116);
    v.push(111);
    v.push(116);
    v.push(97);
    v.push(108);
    v.push(34);
    v.push(58);
    proof {
        assert(v@ =~= spec_lit_mt_open());
    }
    v
}

/// The text `{\"out_ref\":`.
pub open spec fn spec_lit_unl_open() -> Seq<u8> {
    seq![123u8, 34u8, 111u8, 117u8, 116u8, 95u8, 114u8, 101u8, 102u8, 34u8, 58u8]
}

/// Builds the text the matching spec function describes.
pub(crate) fn lit_unl_open() -> (r: Vec<u8>)
    ensures
        r@ == spec_lit_unl_open(),
{
    let mut v: Vec<u8> = Vec::new();
    v.push(123);
    v.push(34);
    v.push(111);
    v.push(117);
    v.push(116);
    v.push(95);
    v.push(114);
    v.push(101);
    v.push(102);
    v.push(34);
    v.push(58);
    proof {
        assert(v@ =~= spec_lit_unl_open());
    }
    v
}

/// The text `,\"for_how_long\":`.
pub open spec fn spec_lit_unl_mid() -> Seq<u8> {
    seq![44u8, 34u8, 102u8, 111u8, 114u8, 95u8, 104u8, 111u8, 119u8, 95u8, 108u8, 111u8, 110u8, 103u8, 34u8, 58u8]
}

/// Builds the text the matching spec function describes.
pub(crate) fn lit_unl_mid() -> (r: Vec<u8>)
    ensures
        r@ == spec_lit_unl_mid(),
{
    let mut v: Vec<u8> = Vec::new();
    v.push(44);
    v.push(34);
    v.push(102);
    v.push(111);
    v.push(114);
    v.push(95);
    v.push(104);
    v.push(111);
    v.push(119);
    v.push(95);
    v.push(108);
    v.push(111);
    v.push(110);
    v.push(103);
    v.push(34);
    v.push(58);
    proof {
        assert(v@ =~= spec_lit_unl_mid());
    }
    v
}

/// The text `{\"owner\":`.
pub open spec fn spec_lit_state_open() -> Seq<u8> {
    seq![123u8, 34u8, 111u8, 119u8, 110u8, 101u8, 114u8, 34u8, 58u8]
}

/// Builds the text the matching spec function describes.
pub(crate) fn lit_state_open() -> (r: Vec<u8>)
    ensures
        r@ == spec_lit_state_open(),
{
    let mut v: Vec<u8> = Vec::new();
    v.push(123);
    v.push(34);
    v.push(111);
    v.push(119);
    v.push(110);
    v.push(101);
    v.push(114);
    v.push(34);
    v.push(58);
    proof {
        assert(v@ =~= spec_lit_state_open());
    }
    v
}

/// The text `,\"status\":`.
pub open spec fn spec_lit_state_mid() -> Seq<u8> {
    seq![44u8, 34u8, 115u8, 116u8, 97u8, 116u8, 117u8, 115u8, 34u8, 58u8]
}

/// Builds the text the matching spec function describes.
pub(crate) fn lit_state_mid() -> (r: Vec<u8>)
    ensures
        r@ == spec_lit_state_mid(),
{
    let mut v: Vec<u8> = Vec::new();
    v.push(44);
    v.push(34);
    v.push(115);
    v.push(116);
    v.push(97);
    v.push(116);
    v.push(117);
    v.push(115);
    v.push(34);
    v.push(58);
    proof {
        assert(v@ =~= spec_lit_state_mid());
    }
    v
}

/// The text `{\"partial_withdraw\":`.
pub open spec fn spec_lit_red_open() -> Seq<u8> {
    seq![123u8, 34u8, 112u8, 97u8, 114u8, 116u8, 105u8, 97u8, 108u8, 95u8, 119u8, 105u8, 116u8, 104u8, 100u8, 114u8, 97u8, 119u8, 34u8, 58u8]
}

/// Builds the text the matching spec function describes.
pub(crate) fn lit_red_open() -> (r: Vec<u8>)
    ensures
        r@ == spec_lit_red_open(),
{
    let mut v: Vec<u8> = Vec::new();
    v.push(123);
    v.push(34);
    v.push(112);
    v.push(97);
    v.push(114);
    v.push(116);
    v.push(105);
    v.push(97);
    v.push(108);
    v.push(95);
    v.push(119);
    v.push(105);
    v.push(116);
    v.push(104);
    v.push(100);
    v.push(114);
    v.push(97);
    v.push(119);
    v.push(34);
    v.push(58);
    proof {
        assert(v@ =~= spec_lit_red_open());
    }
    v
}

/// The text `,\"nft_input_owner\":`.
pub open spec fn spec_lit_red_mid1() -> Seq<u8> {
    seq![44u8, 34u8, 110u8, 102u8, 116u8, 95u8, 105u8, 110u8, 112u8, 117u8, 116u8, 95u8, 111u8, 119u8, 110u8, 101u8, 114u8, 34u8, 58u8]
}

/// Builds the text the matching spec function describes.
pub(crate) fn lit_red_mid1() -> (r: Vec<u8>)
    ensures
        r@ == spec_lit_red_mid1(),
{
    let mut v: Vec<u8> = Vec::new();
    v.push(44);
    v.push(34);
    v.push(110);
    v.push(102);
    v.push(116);
    v.push(95);
    v.push(105);
    v.push(110);
    v.push(112);
    v.push(117);
    v.push(116);
    v.push(95);
    v.push(111);
    v.push(119);
    v.push(110);
    v.push(101);
    v.push(114);
    v.push(34);
    v.push(58);
    proof {
        assert(v@ =~= spec_lit_red_mid1());
    }
    v
}

/// The text `,\"new_receipt_owner\":`.
pub open spec fn spec_lit_red_mid2() -> Seq<u8> {
    seq![44u8, 34u8, 110u8, 101u8, 119u8, 95u8, 114u8, 101u8, 99u8, 101u8, 105u8, 112u8, 116u8, 95u8, 111u8, 119u8, 110u8, 101u8, 114u8, 34u8, 58u8]
}

/// Builds the text the matching spec function describes.
pub(crate) fn lit_red_mid2() -> (r: Vec<u8>)
    ensures
        r@ == spec_lit_red_mid2(),
{
    let mut v: Vec<u8> = Vec::new();
    v.push(44);
    v.push(34);
    v.push(110);
    v.push(101);
    v.push(119);
    v.push(95);
    v.push(114);
    v.push(101);
    v.push(99);
    v.push(101);
    v.push(105);
    v.push(112);
    v.push(116);
    v.push(95);
    v.push(111);
    v.push(119);
    v.push(110);
    v.push(101);
    v.push(114);
    v.push(34);
    v.push(58);
    proof {
        assert(v@ =~= spec_lit_red_mid2());
    }
    v
}

/// The canonical text of a transaction input.
pub open spec fn spec_txin_json(m: TransactionInputV) -> Seq<u8> {
    spec_lit_txin_open() + spec_hex_str(m.transaction_id) + spec_lit_txin_mid() + spec_dec_u64(
        m.index,
    ) + seq![RBRACE]
}

/// Reads the text of a transaction input at position `i` of `s`.
pub open spec fn spec_parse_txin_json(s: Seq<u8>, i: int) -> Result<
    (TransactionInputV, int),
    DecodeErrorV,
> {
    if !spec_match_lit(s, i, spec_lit_txin_open()) {
        Err(DecodeErrorV::root(ErrorKind::TextFormat))
    } else {
        let j1 = i + spec_lit_txin_open().len();
        match spec_parse_hex_str(s, j1) {
            Err(e) => Err(e.in_field(FieldId::TransactionId)),
            Ok((id, j2)) => {
                if id.len() != TRANSACTION_HASH_LEN {
                    Err(DecodeErrorV::root(ErrorKind::Shape).in_field(FieldId::TransactionId))
                } else if !spec_match_lit(s, j2, spec_lit_txin_mid()) {
                    Err(DecodeErrorV::root(ErrorKind::TextFormat))
                } else {
                    let j3 = j2 + spec_lit_txin_mid().len();
                    match spec_parse_json_u64(s, j3) {
                        Err(e) => Err(e.in_field(FieldId::Index)),
                        Ok((idx, j4)) => {
                            if !(j4 < s.len() && s[j4] == RBRACE) {
                                Err(DecodeErrorV::root(ErrorKind::TextFormat))
                            } else {
                                Ok((TransactionInputV { transaction_id: id, index: idx }, j4 + 1))
                            }
                        },
                    }
                }
            },
        }
    }
}

/// The text of a transaction input is ASCII.
pub proof fn lemma_txin_json_ascii(m: TransactionInputV)
    ensures
        ascii_seq(spec_txin_json(m)),
{
    lemma_hex_ascii(m.transaction_id);
    lemma_dec_ascii(m.index);
    assert(ascii_seq(spec_lit_txin_open()));
    assert(ascii_seq(spec_lit_txin_mid()));
    assert(ascii_seq(spec_txin_json(m)));
}

/// Reading a buffer that carries the text of a transaction input yields that
/// input and stops right after it.
pub proof fn lemma_parse_txin_json_prefix(s: Seq<u8>, i: int, m: TransactionInputV)
    requires
        m.wf(),
        0 <= i,
        i + spec_txin_json(m).len() <= s.len(),
        s.subrange(i, i + spec_txin_json(m).len() as int) == spec_txin_json(m),
    ensures
        spec_parse_txin_json(s, i) == Ok::<(TransactionInputV, int), DecodeErrorV>(
            (m, i + spec_txin_json(m).len() as int),
        ),
{
    let p1 = spec_lit_txin_open();
    let p2 = spec_hex_str(m.transaction_id);
    let p3 = spec_lit_txin_mid();
    let p4 = spec_dec_u64(m.index);
    let p5 = seq![RBRACE];
    assert(spec_txin_json(m) =~= p1 + (p2 + (p3 + (p4 + p5))));
    lemma_subrange_split(s, i, p1, p2 + (p3 + (p4 + p5)));
    let j1 = i + p1.len() as int;
    lemma_subrange_split(s, j1, p2, p3 + (p4 + p5));
    lemma_parse_hex_str_prefix(s, j1, m.transaction_id);
    let j2 = j1 + p2.len() as int;
    lemma_subrange_split(s, j2, p3, p4 + p5);
    let j3 = j2 + p3.len() as int;
    lemma_subrange_split(s, j3, p4, p5);
    let j4 = j3 + p4.len() as int;
    assert(s.subrange(j4, j4 + 1 as int)[0] == s[j4 + 0]);
    assert(s[j4] == RBRACE);
    lemma_parse_json_udec_prefix(s, j3, m.index);
    assert(spec_parse_txin_json(s, i)->Ok_0.0 =~= m);
}

impl TransactionInput {
    /// Writes the canonical text of the input onto `out`.
    pub(crate) fn write_json(&self, out: &mut Vec<u8>)
        ensures
            final(out)@ == old(out)@ + spec_txin_json(self@),
    {
        let open = lit_txin_open();
        push_lit(out, &open);
        push_hex_str(out, self.transaction_id.to_raw_bytes());
        let mid = lit_txin_mid();
        push_lit(out, &mid);
        push_dec_u64(out, self.index);
        out.push(RBRACE);
        proof {
            assert(out@ =~= old(out)@ + spec_txin_json(self@));
        }
    }

    /// Reads a transaction input at position `i` of `s`, as
    /// [`spec_parse_txin_json`] describes.
    pub(crate) fn read_json(s: &[u8], i: usize) -> (r: Result<
        (TransactionInput, usize),
        DecodeError,
    >)
        ensures
            ({
                let sp = spec_parse_txin_json(s@, i as int);
                match r {
                    Ok((x, j)) => sp == Ok::<(TransactionInputV, int), DecodeErrorV>(
                        (x@, j as int),
                    ),
                    Err(e) => sp == Err::<(TransactionInputV, int), DecodeErrorV>(e@),
                }
            }),
            r matches Ok((x, j)) ==> x@.wf(),
    {
        let sn = s.len();
        let open = lit_txin_open();
        if !expect_lit(s, i, &open) {
            return Err(DecodeError::root(ErrorKind::TextFormat));
        }
        let j1 = i + open.len();
        let (id_bytes, j2) = match read_hex_str(s, j1) {
            Ok(x) => x,
            Err(e) => {
                return Err(e.in_field(FieldId::TransactionId));
            },
        };
        let id = match TransactionHash::new(id_bytes) {
            Some(h) => h,
            None => {
                return Err(DecodeError::root(ErrorKind::Shape).in_field(FieldId::TransactionId));
            },
        };
        let mid = lit_txin_mid();
        if !expect_lit(s, j2, &mid) {
            return Err(DecodeError::root(ErrorKind::TextFormat));
        }
        let j3 = j2 + mid.len();
        let (idx, j4) = match read_json_u64(s, j3) {
            Ok(x) => x,
            Err(e) => {
                return Err(e.in_field(FieldId::Index));
            },
        };
        if !(j4 < sn && s[j4] == RBRACE) {
            return Err(DecodeError::root(ErrorKind::TextFormat));
        }
        let x = TransactionInput { transaction_id: id, index: idx };
        proof {
            assert(x@ =~= spec_parse_txin_json(s@, i as int)->Ok_0.0);
        }
        Ok((x, j4 + 1))
    }
}

/// The canonical text of an asset identity.
pub open spec fn spec_nft_json(m: NFTV) -> Seq<u8> {
    spec_lit_nft_open() + spec_hex_str(m.policy_id) + spec_lit_nft_mid() + spec_hex_str(
        m.asset_name,
    ) + seq![RBRACE]
}

/// Reads the text of an asset identity at position `i` of `s`.
pub open spec fn spec_parse_nft_json(s: Seq<u8>, i: int) -> Result<(NFTV, int), DecodeErrorV> {
    if !spec_match_lit(s, i, spec_lit_nft_open()) {
        Err(DecodeErrorV::root(ErrorKind::TextFormat))
    } else {
        let j1 = i + spec_lit_nft_open().len();
        match spec_parse_hex_str(s, j1) {
            Err(e) => Err(e.in_field(FieldId::PolicyId)),
            Ok((p, j2)) => {
                if p.len() != POLICY_ID_LEN {
                    Err(DecodeErrorV::root(ErrorKind::Shape).in_field(FieldId::PolicyId))
                } else if !spec_match_lit(s, j2, spec_lit_nft_mid()) {
                    Err(DecodeErrorV::root(ErrorKind::TextFormat))
                } else {
                    let j3 = j2 + spec_lit_nft_mid().len();
                    match spec_parse_hex_str(s, j3) {
                        Err(e) => Err(e.in_field(FieldId::AssetName)),
                        Ok((a, j4)) => {
                            if a.len() > ASSET_NAME_MAX_LEN {
                                Err(
                                    DecodeErrorV::root(ErrorKind::Shape).in_field(
                                        FieldId::AssetName,
                                    ),
                                )
                            } else if !(j4 < s.len() && s[j4] == RBRACE) {
                                Err(DecodeErrorV::root(ErrorKind::TextFormat))
                            } else {
                                Ok((NFTV { policy_id: p, asset_name: a }, j4 + 1))
                            }
                        },
                    }
                }
            },
        }
    }
}

/// The text of an asset identity is ASCII.
pub proof fn lemma_nft_json_ascii(m: NFTV)
    ensures
        ascii_seq(spec_nft_json(m)),
{
    lemma_hex_ascii(m.policy_id);
    lemma_hex_ascii(m.asset_name);
    assert(ascii_seq(spec_lit_nft_open()));
    assert(ascii_seq(spec_lit_nft_mid()));
    assert(ascii_seq(spec_nft_json(m)));
}

/// Reading a buffer that carries the text of an asset identity yields that
/// identity and stops right after it.
pub proof fn lemma_parse_nft_json_prefix(s: Seq<u8>, i: int, m: NFTV)
    requires
        m.wf(),
        0 <= i,
        i + spec_nft_json(m).len() <= s.len(),
        s.subrange(i, i + spec_nft_json(m).len() as int) == spec_nft_json(m),
    ensures
        spec_parse_nft_json(s, i) == Ok::<(NFTV, int), DecodeErrorV>(
            (m, i + spec_nft_json(m).len() as int),
        ),
{
    let p1 = spec_lit_nft_open();
    let p2 = spec_hex_str(m.policy_id);
    let p3 = spec_lit_nft_mid();
    let p4 = spec_hex_str(m.asset_name);
    let p5 = seq![RBRACE];
    assert(spec_nft_json(m) =~= p1 + (p2 + (p3 + (p4 + p5))));
    lemma_subrange_split(s, i, p1, p2 + (p3 + (p4 + p5)));
    let j1 = i + p1.len() as int;
    lemma_subrange_split(s, j1, p2, p3 + (p4 + p5));
    lemma_parse_hex_str_prefix(s, j1, m.policy_id);
    let j2 = j1 + p2.len() as int;
    lemma_subrange_split(s, j2, p3, p4 + p5);
    let j3 = j2 + p3.len() as int;
    lemma_subrange_split(s, j3, p4, p5);
    lemma_parse_hex_str_prefix(s, j3, m.asset_name);
    let j4 = j3 + p4.len() as int;
    assert(s.subrange(j4, j4 + 1 as int)[0] == s[j4 + 0]);
    assert(s[j4] == RBRACE);
    assert(spec_parse_nft_json(s, i)->Ok_0.0 =~= m);
}

/// Top-level decode of an asset identity from text: the whole buffer is one
/// rendered value.
pub open spec fn spec_nft_from_json(s: Seq<u8>) -> Result<NFTV, DecodeErrorV> {
    match spec_parse_nft_json(s, 0) {
        Err(e) => Err(e),
        Ok((m, j)) => {
            if j == s.len() {
                Ok(m)
            } else {
                Err(DecodeErrorV::root(ErrorKind::Shape))
            }
        },
    }
}

impl NFT {
    /// Writes the canonical text of the asset identity onto `out`.
    pub(crate) fn write_json(&self, out: &mut Vec<u8>)
        ensures
            final(out)@ == old(out)@ + spec_nft_json(self@),
    {
        let open = lit_nft_open();
        push_lit(out, &open);
        push_hex_str(out, self.policy_id.to_raw_bytes());
        let mid = lit_nft_mid();
        push_lit(out, &mid);
        push_hex_str(out, self.asset_name.to_raw_bytes());
        out.push(RBRACE);
        proof {
            assert(out@ =~= old(out)@ + spec_nft_json(self@));
        }
    }

    /// Reads an asset identity at position `i` of `s`, as
    /// [`spec_parse_nft_json`] describes.
    pub(crate) fn read_json(s: &[u8], i: usize) -> (r: Result<(NFT, usize), DecodeError>)
        ensures
            ({
                let sp = spec_parse_nft_json(s@, i as int);
                match r {
                    Ok((x, j)) => sp == Ok::<(NFTV, int), DecodeErrorV>((x@, j as int)),
                    Err(e) => sp == Err::<(NFTV, int), DecodeErrorV>(e@),
                }
            }),
            r matches Ok((x, j)) ==> x@.wf(),
    {
        let sn = s.len();
        let open = lit_nft_open();
        if !expect_lit(s, i, &open) {
            return Err(DecodeError::root(ErrorKind::TextFormat));
        }
        let j1 = i + open.len();
        let (p_bytes, j2) = match read_hex_str(s, j1) {
            Ok(x) => x,
            Err(e) => {
                return Err(e.in_field(FieldId::PolicyId));
            },
        };
        let policy_id = match PolicyId::new(p_bytes) {
            Some(p) => p,
            None => {
                return Err(DecodeError::root(ErrorKind::Shape).in_field(FieldId::PolicyId));
            },
        };
        let mid = lit_nft_mid();
        if !expect_lit(s, j2, &mid) {
            return Err(DecodeError::root(ErrorKind::TextFormat));
        }
        let j3 = j2 + mid.len();
        let (a_bytes, j4) = match read_hex_str(s, j3) {
            Ok(x) => x,
            Err(e) => {
                return Err(e.in_field(FieldId::AssetName));
            },
        };
        let asset_name = match AssetName::new(a_bytes) {
            Some(a) => a,
            None => {
                return Err(DecodeError::root(ErrorKind::Shape).in_field(FieldId::AssetName));
            },
        };
        if !(j4 < sn && s[j4] == RBRACE) {
            return Err(DecodeError::root(ErrorKind::TextFormat));
        }
        let x = NFT { policy_id, asset_name };
        proof {
            assert(x@ =~= spec_parse_nft_json(s@, i as int)->Ok_0.0);
        }
        Ok((x, j4 + 1))
    }

    /// Encodes the asset identity as its canonical JSON text.
    pub fn to_json(&self) -> (r: Result<String, crate::err::EncodeError>)
        ensures
            (r matches Ok(t) && t@ == chars_of_bytes(spec_nft_json(self@))),
    {
        let mut out: Vec<u8> = Vec::new();
        self.write_json(&mut out);
        proof {
            lemma_nft_json_ascii(self@);
        }
        Ok(string_from_ascii(out))
    }

    /// Decodes an asset identity from JSON text, as [`spec_nft_from_json`]
    /// describes; text outside the ASCII range is malformed.
    pub fn from_json(json: &str) -> (r: Result<NFT, DecodeError>)
        ensures
            ({
                let sp = spec_nft_from_json(bytes_of_chars(json@));
                if vstd::string::is_ascii(json) {
                    match r {
                        Ok(x) => sp == Ok::<NFTV, DecodeErrorV>(x@) && x@.wf(),
                        Err(e) => sp == Err::<NFTV, DecodeErrorV>(e@),
                    }
                } else {
                    (r matches Err(e) && e@ == DecodeErrorV::root(ErrorKind::TextFormat))
                }
            }),
    {
        if !json.is_ascii() {
            return Err(DecodeError::root(ErrorKind::TextFormat));
        }
        let bytes = json.as_bytes_vec();
        proof {
            broadcast use vstd::string::is_ascii_spec_bytes;
            assert(bytes@ =~= bytes_of_chars(json@));
        }
        match NFT::read_json(bytes.as_slice(), 0) {
            Err(e) => Err(e),
            Ok((x, j)) => {
                if j == bytes.len() {
                    Ok(x)
                } else {
                    Err(DecodeError::root(ErrorKind::Shape))
                }
            },
        }
    }
}

/// The canonical text of a mint count.
pub open spec fn spec_mint_tokens_json(m: MintTokensV) -> Seq<u8> {
    spec_lit_mt_open() + spec_dec_i64(m.total) + seq![RBRACE]
}

/// Reads the text of a mint count at position `i` of `s`.
pub open spec fn spec_parse_mint_tokens_json(s: Seq<u8>, i: int) -> Result<
    (MintTokensV, int),
    DecodeErrorV,
> {
    if !spec_match_lit(s, i, spec_lit_mt_open()) {
        Err(DecodeErrorV::root(ErrorKind::TextFormat))
    } else {
        let j1 = i + spec_lit_mt_open().len();
        match spec_parse_json_i64(s, j1) {
            Err(e) => Err(e.in_field(FieldId::Total)),
            Ok((t, j2)) => {
                if !(j2 < s.len() && s[j2] == RBRACE) {
                    Err(DecodeErrorV::root(ErrorKind::TextFormat))
                } else {
                    Ok((MintTokensV { total: t }, j2 + 1))
                }
            },
        }
    }
}

/// The text of a mint count is ASCII.
pub proof fn lemma_mint_tokens_json_ascii(m: MintTokensV)
    ensures
        ascii_seq(spec_mint_tokens_json(m)),
{
    lemma_dec_i64_ascii(m.total);
    assert(ascii_seq(spec_lit_mt_open()));
    assert(ascii_seq(spec_mint_tokens_json(m)));
}

/// Reading a buffer that carries the text of a mint count yields that count
/// and stops right after it.
pub proof fn lemma_parse_mint_tokens_json_prefix(s: Seq<u8>, i: int, m: MintTokensV)
    requires
        0 <= i,
        i + spec_mint_tokens_json(m).len() <= s.len(),
        s.subrange(i, i + spec_mint_tokens_json(m).len() as int) == spec_mint_tokens_json(m),
    ensures
        spec_parse_mint_tokens_json(s, i) == Ok::<(MintTokensV, int), DecodeErrorV>(
            (m, i + spec_mint_tokens_json(m).len() as int),
        ),
{
    let p1 = spec_lit_mt_open();
    let p2 = spec_dec_i64(m.total);
    let p3 = seq![RBRACE];
    assert(spec_mint_tokens_json(m) =~= p1 + (p2 + p3));
    lemma_subrange_split(s, i, p1, p2 + p3);
    let j1 = i + p1.len() as int;
    lemma_subrange_split(s, j1, p2, p3);
    let j2 = j1 + p2.len() as int;
    assert(s.subrange(j2, j2 + 1 as int)[0] == s[j2 + 0]);
    assert(s[j2] == RBRACE);
    lemma_parse_json_i64_prefix(s, j1, m.total);
    assert(spec_parse_mint_tokens_json(s, i)->Ok_0.0 =~= m);
}

/// Top-level decode of a mint count from text.
pub open spec fn spec_mint_tokens_from_json(s: Seq<u8>) -> Result<MintTokensV, DecodeErrorV> {
    match spec_parse_mint_tokens_json(s, 0) {
        Err(e) => Err(e),
        Ok((m, j)) => {
            if j == s.len() {
                Ok(m)
            } else {
                Err(DecodeErrorV::root(ErrorKind::Shape))
            }
        },
    }
}

impl MintTokens {
    /// Writes the canonical text of the mint count onto `out`.
    pub(crate) fn write_json(&self, out: &mut Vec<u8>)
        ensures
            final(out)@ == old(out)@ + spec_mint_tokens_json(self@),
    {
        let open = lit_mt_open();
        push_lit(out, &open);
        push_dec_i64(out, self.total);
        out.push(RBRACE);
        proof {
            assert(out@ =~= old(out)@ + spec_mint_tokens_json(self@));
        }
    }

    /// Reads a mint count at position `i` of `s`, as
    /// [`spec_parse_mint_tokens_json`] describes.
    pub(crate) fn read_json(s: &[u8], i: usize) -> (r: Result<(MintTokens, usize), DecodeError>)
        ensures
            ({
                let sp = spec_parse_mint_tokens_json(s@, i as int);
                match r {
                    Ok((x, j)) => sp == Ok::<(MintTokensV, int), DecodeErrorV>((x@, j as int)),
                    Err(e) => sp == Err::<(MintTokensV, int), DecodeErrorV>(e@),
                }
            }),
    {
        let sn = s.len();
        let open = lit_mt_open();
        if !expect_lit(s, i, &open) {
            return Err(DecodeError::root(ErrorKind::TextFormat));
        }
        let j1 = i + open.len();
        let (t, j2) = match read_json_i64(s, j1) {
            Ok(x) => x,
            Err(e) => {
                return Err(e.in_field(FieldId::Total));
            },
        };
        if !(j2 < sn && s[j2] == RBRACE) {
            return Err(DecodeError::root(ErrorKind::TextFormat));
        }
        Ok((MintTokens { total: t }, j2 + 1))
    }

    /// Encodes the mint count as its canonical JSON text.
    pub fn to_json(&self) -> (r: Result<String, crate::err::EncodeError>)
        ensures
            (r matches Ok(t) && t@ == chars_of_bytes(spec_mint_tokens_json(self@))),
    {
        let mut out: Vec<u8> = Vec::new();
        self.write_json(&mut out);
        proof {
            lemma_mint_tokens_json_ascii(self@);
        }
        Ok(string_from_ascii(out))
    }

    /// Decodes a mint count from JSON text, as [`spec_mint_tokens_from_json`]
    /// describes; text outside the ASCII range is malformed.
    pub fn from_json(json: &str) -> (r: Result<MintTokens, DecodeError>)
        ensures
            ({
                let sp = spec_mint_tokens_from_json(bytes_of_chars(json@));
                if vstd::string::is_ascii(json) {
                    match r {
                        Ok(x) => sp == Ok::<MintTokensV, DecodeErrorV>(x@) && x@.wf(),
                        Err(e) => sp == Err::<MintTokensV, DecodeErrorV>(e@),
                    }
                } else {
                    (r matches Err(e) && e@ == DecodeErrorV::root(ErrorKind::TextFormat))
                }
            }),
    {
        if !json.is_ascii() {
            return Err(DecodeError::root(ErrorKind::TextFormat));
        }
        let bytes = json.as_bytes_vec();
        proof {
            broadcast use vstd::string::is_ascii_spec_bytes;
            assert(bytes@ =~= bytes_of_chars(json@));
        }
        match MintTokens::read_json(bytes.as_slice(), 0) {
            Err(e) => Err(e),
            Ok((x, j)) => {
                if j == bytes.len() {
                    Ok(x)
                } else {
                    Err(DecodeError::root(ErrorKind::Shape))
                }
            },
        }
    }
}

/// The canonical text of an owner: an array with the variant's discriminant
/// first.
pub open spec fn spec_owner_json(m: OwnerV) -> Seq<u8> {
    match m {
        OwnerV::PKH(k) => seq![LBRACK] + spec_dec_u64(0) + seq![COMMA] + spec_hex_str(k)
            + seq![RBRACK],
        OwnerV::NFT(n) => seq![LBRACK] + spec_dec_u64(1) + seq![COMMA] + spec_hex_str(n.policy_id)
            + seq![COMMA] + spec_hex_str(n.asset_name) + seq![RBRACK],
        OwnerV::Receipt(a) => seq![LBRACK] + spec_dec_u64(2) + seq![COMMA] + spec_hex_str(a)
            + seq![RBRACK],
    }
}

/// Reads the text of an owner at position `i` of `s`. A discriminant outside
/// 0, 1, 2 is an unknown-variant failure.
pub open spec fn spec_parse_owner_json(s: Seq<u8>, i: int) -> Result<(OwnerV, int), DecodeErrorV> {
    if !(0 <= i < s.len() && s[i] == LBRACK) {
        Err(DecodeErrorV::root(ErrorKind::TextFormat))
    } else {
        match spec_parse_json_u64(s, i + 1) {
            Err(e) => Err(e),
            Ok((tag, j1)) => {
                if tag == 0 {
                    if !(j1 < s.len() && s[j1] == COMMA) {
                        Err(DecodeErrorV::root(ErrorKind::TextFormat))
                    } else {
                        match spec_parse_hex_str(s, j1 + 1) {
                            Err(e) => Err(e.in_field(FieldId::PKH)),
                            Ok((k, j2)) => {
                                if k.len() != KEY_HASH_LEN {
                                    Err(DecodeErrorV::root(ErrorKind::Shape).in_field(FieldId::PKH))
                                } else if !(j2 < s.len() && s[j2] == RBRACK) {
                                    Err(DecodeErrorV::root(ErrorKind::TextFormat))
                                } else {
                                    Ok((OwnerV::PKH(k), j2 + 1))
                                }
                            },
                        }
                    }
                } else if tag == 1 {
                    if !(j1 < s.len() && s[j1] == COMMA) {
                        Err(DecodeErrorV::root(ErrorKind::TextFormat))
                    } else {
                        match spec_parse_hex_str(s, j1 + 1) {
                            Err(e) => Err(e.in_field(FieldId::PolicyId)),
                            Ok((p, j2)) => {
                                if p.len() != POLICY_ID_LEN {
                                    Err(
                                        DecodeErrorV::root(ErrorKind::Shape).in_field(
                                            FieldId::PolicyId,
                                        ),
                                    )
                                } else if !(j2 < s.len() && s[j2] == COMMA) {
                                    Err(DecodeErrorV::root(ErrorKind::TextFormat))
                                } else {
                                    match spec_parse_hex_str(s, j2 + 1) {
                                        Err(e) => Err(e.in_field(FieldId::AssetName)),
                                        Ok((a, j3)) => {
                                            if a.len() > ASSET_NAME_MAX_LEN {
                                                Err(
                                                    DecodeErrorV::root(ErrorKind::Shape).in_field(
                                                        FieldId::AssetName,
                                                    ),
                                                )
                                            } else if !(j3 < s.len() && s[j3] == RBRACK) {
                                                Err(DecodeErrorV::root(ErrorKind::TextFormat))
                                            } else {
                                                Ok(
                                                    (
                                                        OwnerV::NFT(
                                                            NFTV {
                                                                policy_id: p,
                                                                asset_name: a,
                                                            },
                                                        ),
                                                        j3 + 1,
                                                    ),
                                                )
                                            }
                                        },
                                    }
                                }
                            },
                        }
                    }
                } else if tag == 2 {
                    if !(j1 < s.len() && s[j1] == COMMA) {
                        Err(DecodeErrorV::root(ErrorKind::TextFormat))
                    } else {
                        match spec_parse_hex_str(s, j1 + 1) {
                            Err(e) => Err(e.in_field(FieldId::AssetName)),
                            Ok((a, j2)) => {
                                if a.len() > ASSET_NAME_MAX_LEN {
                                    Err(
                                        DecodeErrorV::root(ErrorKind::Shape).in_field(
                                            FieldId::AssetName,
                                        ),
                                    )
                                } else if !(j2 < s.len() && s[j2] == RBRACK) {
                                    Err(DecodeErrorV::root(ErrorKind::TextFormat))
                                } else {
                                    Ok((OwnerV::Receipt(a), j2 + 1))
                                }
                            },
                        }
                    }
                } else {
                    Err(DecodeErrorV::root(ErrorKind::UnknownVariant(tag)))
                }
            },
        }
    }
}

/// The text of an owner is ASCII.
pub proof fn lemma_owner_json_ascii(m: OwnerV)
    ensures
        ascii_seq(spec_owner_json(m)),
{
    match m {
        OwnerV::PKH(k) => {
            lemma_hex_ascii(k);
            lemma_dec_ascii(0);
        },
        OwnerV::NFT(n) => {
            lemma_hex_ascii(n.policy_id);
            lemma_hex_ascii(n.asset_name);
            lemma_dec_ascii(1);
        },
        OwnerV::Receipt(a) => {
            lemma_hex_ascii(a);
            lemma_dec_ascii(2);
        },
    }
    assert(ascii_seq(spec_owner_json(m)));
}

/// Reading a buffer that carries the text of an owner yields that owner and
/// stops right after it.
pub proof fn lemma_parse_owner_json_prefix(s: Seq<u8>, i: int, m: OwnerV)
    requires
        m.wf(),
        0 <= i,
        i + spec_owner_json(m).len() <= s.len(),
        s.subrange(i, i + spec_owner_json(m).len() as int) == spec_owner_json(m),
    ensures
        spec_parse_owner_json(s, i) == Ok::<(OwnerV, int), DecodeErrorV>(
            (m, i + spec_owner_json(m).len() as int),
        ),
{
    match m {
        OwnerV::PKH(k) => {
            let p1 = seq![LBRACK];
            let p2 = spec_dec_u64(0);
            let p3 = seq![COMMA];
            let p4 = spec_hex_str(k);
            let p5 = seq![RBRACK];
            assert(spec_owner_json(m) =~= p1 + (p2 + (p3 + (p4 + p5))));
            lemma_subrange_split(s, i, p1, p2 + (p3 + (p4 + p5)));
            assert(s.subrange(i, i + 1 as int)[0] == s[i + 0]);
            let j0 = i + 1;
            lemma_subrange_split(s, j0, p2, p3 + (p4 + p5));
            let j1 = j0 + p2.len() as int;
            lemma_subrange_split(s, j1, p3, p4 + p5);
            assert(s.subrange(j1, j1 + 1 as int)[0] == s[j1 + 0]);
            lemma_parse_json_udec_prefix(s, j0, 0);
            let j2 = j1 + 1;
            lemma_subrange_split(s, j2, p4, p5);
            lemma_parse_hex_str_prefix(s, j2, k);
            let j3 = j2 + p4.len() as int;
            assert(s.subrange(j3, j3 + 1 as int)[0] == s[j3 + 0]);
            assert(s[j3] == RBRACK);
        },
        OwnerV::NFT(n) => {
            let p1 = seq![LBRACK];
            let p2 = spec_dec_u64(1);
            let p3 = seq![COMMA];
            let p4 = spec_hex_str(n.policy_id);
            let p5 = seq![COMMA];
            let p6 = spec_hex_str(n.asset_name);
            let p7 = seq![RBRACK];
            assert(spec_owner_json(m) =~= p1 + (p2 + (p3 + (p4 + (p5 + (p6 + p7))))));
            lemma_subrange_split(s, i, p1, p2 + (p3 + (p4 + (p5 + (p6 + p7)))));
            assert(s.subrange(i, i + 1 as int)[0] == s[i + 0]);
            let j0 = i + 1;
            lemma_subrange_split(s, j0, p2, p3 + (p4 + (p5 + (p6 + p7))));
            let j1 = j0 + p2.len() as int;
            lemma_subrange_split(s, j1, p3, p4 + (p5 + (p6 + p7)));
            assert(s.subrange(j1, j1 + 1 as int)[0] == s[j1 + 0]);
            lemma_parse_json_udec_prefix(s, j0, 1);
            let j2 = j1 + 1;
            lemma_subrange_split(s, j2, p4, p5 + (p6 + p7));
            lemma_parse_hex_str_prefix(s, j2, n.policy_id);
            let j3 = j2 + p4.len() as int;
            lemma_subrange_split(s, j3, p5, p6 + p7);
            assert(s.subrange(j3, j3 + 1 as int)[0] == s[j3 + 0]);
            assert(s[j3] == COMMA);
            let j4 = j3 + 1;
            lemma_subrange_split(s, j4, p6, p7);
            lemma_parse_hex_str_prefix(s, j4, n.asset_name);
            let j5 = j4 + p6.len() as int;
            assert(s.subrange(j5, j5 + 1 as int)[0] == s[j5 + 0]);
            assert(s[j5] == RBRACK);
            assert(spec_parse_owner_json(s, i)->Ok_0.0 =~= m);
        },
        OwnerV::Receipt(a) => {
            let p1 = seq![LBRACK];
            let p2 = spec_dec_u64(2);
            let p3 = seq![COMMA];
            let p4 = spec_hex_str(a);
            let p5 = seq![RBRACK];
            assert(spec_owner_json(m) =~= p1 + (p2 + (p3 + (p4 + p5))));
            lemma_subrange_split(s, i, p1, p2 + (p3 + (p4 + p5)));
            assert(s.subrange(i, i + 1 as int)[0] == s[i + 0]);
            let j0 = i + 1;
            lemma_subrange_split(s, j0, p2, p3 + (p4 + p5));
            let j1 = j0 + p2.len() as int;
            lemma_subrange_split(s, j1, p3, p4 + p5);
            assert(s.subrange(j1, j1 + 1 as int)[0] == s[j1 + 0]);
            lemma_parse_json_udec_prefix(s, j0, 2);
            let j2 = j1 + 1;
            lemma_subrange_split(s, j2, p4, p5);
            lemma_parse_hex_str_prefix(s, j2, a);
            let j3 = j2 + p4.len() as int;
            assert(s.subrange(j3, j3 + 1 as int)[0] == s[j3 + 0]);
            assert(s[j3] == RBRACK);
        },
    }
}

/// Top-level decode of an owner from text.
pub open spec fn spec_owner_from_json(s: Seq<u8>) -> Result<OwnerV, DecodeErrorV> {
    match spec_parse_owner_json(s, 0) {
        Err(e) => Err(e),
        Ok((m, j)) => {
            if j == s.len() {
                Ok(m)
            } else {
                Err(DecodeErrorV::root(ErrorKind::Shape))
            }
        },
    }
}

impl Owner {
    /// Writes the canonical text of the owner onto `out`.
    pub(crate) fn write_json(&self, out: &mut Vec<u8>)
        ensures
            final(out)@ == old(out)@ + spec_owner_json(self@),
    {
        match self {
            Owner::PKH(k) => {
                out.push(LBRACK);
                push_dec_u64(out, 0);
                out.push(COMMA);
                push_hex_str(out, k.to_raw_bytes());
                out.push(RBRACK);
            },
            Owner::NFT(n) => {
                out.push(LBRACK);
                push_dec_u64(out, 1);
                out.push(COMMA);
                push_hex_str(out, n.policy_id.to_raw_bytes());
                out.push(COMMA);
                push_hex_str(out, n.asset_name.to_raw_bytes());
                out.push(RBRACK);
            },
            Owner::Receipt(a) => {
                out.push(LBRACK);
                push_dec_u64(out, 2);
                out.push(COMMA);
                push_hex_str(out, a.to_raw_bytes());
                out.push(RBRACK);
            },
        }
        proof {
            assert(out@ =~= old(out)@ + spec_owner_json(self@));
        }
    }

    /// Reads an owner at position `i` of `s`, as [`spec_parse_owner_json`]
    /// describes.
    pub(crate) fn read_json(s: &[u8], i: usize) -> (r: Result<(Owner, usize), DecodeError>)
        ensures
            ({
                let sp = spec_parse_owner_json(s@, i as int);
                match r {
                    Ok((x, j)) => sp == Ok::<(OwnerV, int), DecodeErrorV>((x@, j as int)),
                    Err(e) => sp == Err::<(OwnerV, int), DecodeErrorV>(e@),
                }
            }),
            r matches Ok((x, j)) ==> x@.wf(),
    {
        let sn = s.len();
        if !(i < sn && s[i] == LBRACK) {
            return Err(DecodeError::root(ErrorKind::TextFormat));
        }
        let (tag, j1) = match read_json_u64(s, i + 1) {
            Ok(x) => x,
            Err(e) => {
                return Err(e);
            },
        };
        if tag == 0 {
            if !(j1 < sn && s[j1] == COMMA) {
                return Err(DecodeError::root(ErrorKind::TextFormat));
            }
            let (k_bytes, j2) = match read_hex_str(s, j1 + 1) {
                Ok(x) => x,
                Err(e) => {
                    return Err(e.in_field(FieldId::PKH));
                },
            };
            let k = match KeyHash::new(k_bytes) {
                Some(k) => k,
                None => {
                    return Err(DecodeError::root(ErrorKind::Shape).in_field(FieldId::PKH));
                },
            };
            if !(j2 < sn && s[j2] == RBRACK) {
                return Err(DecodeError::root(ErrorKind::TextFormat));
            }
            Ok((Owner::PKH(k), j2 + 1))
        } else if tag == 1 {
            if !(j1 < sn && s[j1] == COMMA) {
                return Err(DecodeError::root(ErrorKind::TextFormat));
            }
            let (p_bytes, j2) = match read_hex_str(s, j1 + 1) {
                Ok(x) => x,
                Err(e) => {
                    return Err(e.in_field(FieldId::PolicyId));
                },
            };
            let policy_id = match PolicyId::new(p_bytes) {
                Some(p) => p,
                None => {
                    return Err(DecodeError::root(ErrorKind::Shape).in_field(FieldId::PolicyId));
                },
            };
            if !(j2 < sn && s[j2] == COMMA) {
                return Err(DecodeError::root(ErrorKind::TextFormat));
            }
            let (a_bytes, j3) = match read_hex_str(s, j2 + 1) {
                Ok(x) => x,
                Err(e) => {
                    return Err(e.in_field(FieldId::AssetName));
                },
            };
            let asset_name = match AssetName::new(a_bytes) {
                Some(a) => a,
                None => {
                    return Err(DecodeError::root(ErrorKind::Shape).in_field(FieldId::AssetName));
                },
            };
            if !(j3 < sn && s[j3] == RBRACK) {
                return Err(DecodeError::root(ErrorKind::TextFormat));
            }
            let x = Owner::NFT(NFT { policy_id, asset_name });
            proof {
                assert(x@ =~= spec_parse_owner_json(s@, i as int)->Ok_0.0);
            }
            Ok((x, j3 + 1))
        } else if tag == 2 {
            if !(j1 < sn && s[j1] == COMMA) {
                return Err(DecodeError::root(ErrorKind::TextFormat));
            }
            let (a_bytes, j2) = match read_hex_str(s, j1 + 1) {
                Ok(x) => x,
                Err(e) => {
                    return Err(e.in_field(FieldId::AssetName));
                },
            };
            let a = match AssetName::new(a_bytes) {
                Some(a) => a,
                None => {
                    return Err(DecodeError::root(ErrorKind::Shape).in_field(FieldId::AssetName));
                },
            };
            if !(j2 < sn && s[j2] == RBRACK) {
                return Err(DecodeError::root(ErrorKind::TextFormat));
            }
            Ok((Owner::Receipt(a), j2 + 1))
        } else {
            Err(DecodeError::root(ErrorKind::UnknownVariant(tag)))
        }
    }

    /// Encodes the owner as its canonical JSON text.
    pub fn to_json(&self) -> (r: Result<String, crate::err::EncodeError>)
        ensures
            (r matches Ok(t) && t@ == chars_of_bytes(spec_owner_json(self@))),
    {
        let mut out: Vec<u8> = Vec::new();
        self.write_json(&mut out);
        proof {
            lemma_owner_json_ascii(self@);
        }
        Ok(string_from_ascii(out))
    }

    /// Decodes an owner from JSON text, as [`spec_owner_from_json`]
    /// describes; text outside the ASCII range is malformed.
    pub fn from_json(json: &str) -> (r: Result<Owner, DecodeError>)
        ensures
            ({
                let sp = spec_owner_from_json(bytes_of_chars(json@));
                if vstd::string::is_ascii(json) {
                    match r {
                        Ok(x) => sp == Ok::<OwnerV, DecodeErrorV>(x@) && x@.wf(),
                        Err(e) => sp == Err::<OwnerV, DecodeErrorV>(e@),
                    }
                } else {
                    (r matches Err(e) && e@ == DecodeErrorV::root(ErrorKind::TextFormat))
                }
            }),
    {
        if !json.is_ascii() {
            return Err(DecodeError::root(ErrorKind::TextFormat));
        }
        let bytes = json.as_bytes_vec();
        proof {
            broadcast use vstd::string::is_ascii_spec_bytes;
            assert(bytes@ =~= bytes_of_chars(json@));
        }
        match Owner::read_json(bytes.as_slice(), 0) {
            Err(e) => Err(e),
            Ok((x, j)) => {
                if j == bytes.len() {
                    Ok(x)
                } else {
                    Err(DecodeError::root(ErrorKind::Shape))
                }
            },
        }
    }
}

/// The canonical text of an unlocking payload.
pub open spec fn spec_unlocking_json(m: UnlockingV) -> Seq<u8> {
    spec_lit_unl_open() + spec_txin_json(m.out_ref) + spec_lit_unl_mid() + spec_dec_i64(
        m.for_how_long,
    ) + seq![RBRACE]
}

/// Reads the text of an unlocking payload at position `i` of `s`.
pub open spec fn spec_parse_unlocking_json(s: Seq<u8>, i: int) -> Result<
    (UnlockingV, int),
    DecodeErrorV,
> {
    if !spec_match_lit(s, i, spec_lit_unl_open()) {
        Err(DecodeErrorV::root(ErrorKind::TextFormat))
    } else {
        let j1 = i + spec_lit_unl_open().len();
        match spec_parse_txin_json(s, j1) {
            Err(e) => Err(e.in_field(FieldId::OutRef)),
            Ok((t, j2)) => {
                if !spec_match_lit(s, j2, spec_lit_unl_mid()) {
                    Err(DecodeErrorV::root(ErrorKind::TextFormat))
                } else {
                    let j3 = j2 + spec_lit_unl_mid().len();
                    match spec_parse_json_i64(s, j3) {
                        Err(e) => Err(e.in_field(FieldId::ForHowLong)),
                        Ok((d, j4)) => {
                            if !(j4 < s.len() && s[j4] == RBRACE) {
                                Err(DecodeErrorV::root(ErrorKind::TextFormat))
                            } else {
                                Ok((UnlockingV { out_ref: t, for_how_long: d }, j4 + 1))
                            }
                        },
                    }
                }
            },
        }
    }
}

/// The text of an unlocking payload is ASCII.
pub proof fn lemma_unlocking_json_ascii(m: UnlockingV)
    ensures
        ascii_seq(spec_unlocking_json(m)),
{
    lemma_txin_json_ascii(m.out_ref);
    lemma_dec_i64_ascii(m.for_how_long);
    assert(ascii_seq(spec_lit_unl_open()));
    assert(ascii_seq(spec_lit_unl_mid()));
    assert(ascii_seq(spec_unlocking_json(m)));
}

/// Reading a buffer that carries the text of an unlocking payload yields
/// that payload and stops right after it.
pub proof fn lemma_parse_unlocking_json_prefix(s: Seq<u8>, i: int, m: UnlockingV)
    requires
        m.wf(),
        0 <= i,
        i + spec_unlocking_json(m).len() <= s.len(),
        s.subrange(i, i + spec_unlocking_json(m).len() as int) == spec_unlocking_json(m),
    ensures
        spec_parse_unlocking_json(s, i) == Ok::<(UnlockingV, int), DecodeErrorV>(
            (m, i + spec_unlocking_json(m).len() as int),
        ),
{
    let p1 = spec_lit_unl_open();
    let p2 = spec_txin_json(m.out_ref);
    let p3 = spec_lit_unl_mid();
    let p4 = spec_dec_i64(m.for_how_long);
    let p5 = seq![RBRACE];
    assert(spec_unlocking_json(m) =~= p1 + (p2 + (p3 + (p4 + p5))));
    lemma_subrange_split(s, i, p1, p2 + (p3 + (p4 + p5)));
    let j1 = i + p1.len() as int;
    lemma_subrange_split(s, j1, p2, p3 + (p4 + p5));
    lemma_parse_txin_json_prefix(s, j1, m.out_ref);
    let j2 = j1 + p2.len() as int;
    lemma_subrange_split(s, j2, p3, p4 + p5);
    let j3 = j2 + p3.len() as int;
    lemma_subrange_split(s, j3, p4, p5);
    let j4 = j3 + p4.len() as int;
    assert(s.subrange(j4, j4 + 1 as int)[0] == s[j4 + 0]);
    assert(s[j4] == RBRACE);
    lemma_parse_json_i64_prefix(s, j3, m.for_how_long);
    assert(spec_parse_unlocking_json(s, i)->Ok_0.0 =~= m);
}

/// Top-level decode of an unlocking payload from text.
pub open spec fn spec_unlocking_from_json(s: Seq<u8>) -> Result<UnlockingV, DecodeErrorV> {
    match spec_parse_unlocking_json(s, 0) {
        Err(e) => Err(e),
        Ok((m, j)) => {
            if j == s.len() {
                Ok(m)
            } else {
                Err(DecodeErrorV::root(ErrorKind::Shape))
            }
        },
    }
}

impl Unlocking {
    /// Writes the canonical text of the unlocking payload onto `out`.
    pub(crate) fn write_json(&self, out: &mut Vec<u8>)
        ensures
            final(out)@ == old(out)@ + spec_unlocking_json(self@),
    {
        let open = lit_unl_open();
        push_lit(out, &open);
        self.out_ref.write_json(out);
        let mid = lit_unl_mid();
        push_lit(out, &mid);
        push_dec_i64(out, self.for_how_long);
        out.push(RBRACE);
        proof {
            assert(out@ =~= old(out)@ + spec_unlocking_json(self@));
        }
    }

    /// Reads an unlocking payload at position `i` of `s`, as
    /// [`spec_parse_unlocking_json`] describes.
    pub(crate) fn read_json(s: &[u8], i: usize) -> (r: Result<(Unlocking, usize), DecodeError>)
        ensures
            ({
                let sp = spec_parse_unlocking_json(s@, i as int);
                match r {
                    Ok((x, j)) => sp == Ok::<(UnlockingV, int), DecodeErrorV>((x@, j as int)),
                    Err(e) => sp == Err::<(UnlockingV, int), DecodeErrorV>(e@),
                }
            }),
            r matches Ok((x, j)) ==> x@.wf(),
    {
        let sn = s.len();
        let open = lit_unl_open();
        if !expect_lit(s, i, &open) {
            return Err(DecodeError::root(ErrorKind::TextFormat));
        }
        let j1 = i + open.len();
        let (out_ref, j2) = match TransactionInput::read_json(s, j1) {
            Ok(x) => x,
            Err(e) => {
                return Err(e.in_field(FieldId::OutRef));
            },
        };
        let mid = lit_unl_mid();
        if !expect_lit(s, j2, &mid) {
            return Err(DecodeError::root(ErrorKind::TextFormat));
        }
        let j3 = j2 + mid.len();
        let (for_how_long, j4) = match read_json_i64(s, j3) {
            Ok(x) => x,
            Err(e) => {
                return Err(e.in_field(FieldId::ForHowLong));
            },
        };
        if !(j4 < sn && s[j4] == RBRACE) {
            return Err(DecodeError::root(ErrorKind::TextFormat));
        }
        let x = Unlocking { out_ref, for_how_long };
        proof {
            assert(x@ =~= spec_parse_unlocking_json(s@, i as int)->Ok_0.0);
        }
        Ok((x, j4 + 1))
    }

    /// Encodes the unlocking payload as its canonical JSON text.
    pub fn to_json(&self) -> (r: Result<String, crate::err::EncodeError>)
        ensures
            (r matches Ok(t) && t@ == chars_of_bytes(spec_unlocking_json(self@))),
    {
        let mut out: Vec<u8> = Vec::new();
        self.write_json(&mut out);
        proof {
            lemma_unlocking_json_ascii(self@);
        }
        Ok(string_from_ascii(out))
    }

    /// Decodes an unlocking payload from JSON text, as
    /// [`spec_unlocking_from_json`] describes; text outside the ASCII range
    /// is malformed.
    pub fn from_json(json: &str) -> (r: Result<Unlocking, DecodeError>)
        ensures
            ({
                let sp = spec_unlocking_from_json(bytes_of_chars(json@));
                if vstd::string::is_ascii(json) {
                    match r {
                        Ok(x) => sp == Ok::<UnlockingV, DecodeErrorV>(x@) && x@.wf(),
                        Err(e) => sp == Err::<UnlockingV, DecodeErrorV>(e@),
                    }
                } else {
                    (r matches Err(e) && e@ == DecodeErrorV::root(ErrorKind::TextFormat))
                }
            }),
    {
        if !json.is_ascii() {
            return Err(DecodeError::root(ErrorKind::TextFormat));
        }
        let bytes = json.as_bytes_vec();
        proof {
            broadcast use vstd::string::is_ascii_spec_bytes;
            assert(bytes@ =~= bytes_of_chars(json@));
        }
        match Unlocking::read_json(bytes.as_slice(), 0) {
            Err(e) => Err(e),
            Ok((x, j)) => {
                if j == bytes.len() {
                    Ok(x)
                } else {
                    Err(DecodeError::root(ErrorKind::Shape))
                }
            },
        }
    }
}

/// The canonical text of a status.
pub open spec fn spec_status_json(m: StatusV) -> Seq<u8> {
    match m {
        StatusV::Locked => seq![LBRACK] + spec_dec_u64(0) + seq![RBRACK],
        StatusV::Unlocking(u) => seq![LBRACK] + spec_dec_u64(1) + seq![COMMA] + spec_txin_json(
            u.out_ref,
        ) + seq![COMMA] + spec_dec_i64(u.for_how_long) + seq![RBRACK],
    }
}

/// Reads the text of a status at position `i` of `s`. A discriminant outside
/// 0, 1 is an unknown-variant failure.
pub open spec fn spec_parse_status_json(s: Seq<u8>, i: int) -> Result<
    (StatusV, int),
    DecodeErrorV,
> {
    if !(0 <= i < s.len() && s[i] == LBRACK) {
        Err(DecodeErrorV::root(ErrorKind::TextFormat))
    } else {
        match spec_parse_json_u64(s, i + 1) {
            Err(e) => Err(e),
            Ok((tag, j1)) => {
                if tag == 0 {
                    if !(j1 < s.len() && s[j1] == RBRACK) {
                        Err(DecodeErrorV::root(ErrorKind::TextFormat))
                    } else {
                        Ok((StatusV::Locked, j1 + 1))
                    }
                } else if tag == 1 {
                    if !(j1 < s.len() && s[j1] == COMMA) {
                        Err(DecodeErrorV::root(ErrorKind::TextFormat))
                    } else {
                        match spec_parse_txin_json(s, j1 + 1) {
                            Err(e) => Err(e.in_field(FieldId::OutRef)),
                            Ok((t, j2)) => {
                                if !(j2 < s.len() && s[j2] == COMMA) {
                                    Err(DecodeErrorV::root(ErrorKind::TextFormat))
                                } else {
                                    match spec_parse_json_i64(s, j2 + 1) {
                                        Err(e) => Err(e.in_field(FieldId::ForHowLong)),
                                        Ok((d, j3)) => {
                                            if !(j3 < s.len() && s[j3] == RBRACK) {
                                                Err(DecodeErrorV::root(ErrorKind::TextFormat))
                                            } else {
                                                Ok(
                                                    (
                                                        StatusV::Unlocking(
                                                            UnlockingV {
                                                                out_ref: t,
                                                                for_how_long: d,
                                                            },
                                                        ),
                                                        j3 + 1,
                                                    ),
                                                )
                                            }
                                        },
                                    }
                                }
                            },
                        }
                    }
                } else {
                    Err(DecodeErrorV::root(ErrorKind::UnknownVariant(tag)))
                }
            },
        }
    }
}

/// The text of a status is ASCII.
pub proof fn lemma_status_json_ascii(m: StatusV)
    ensures
        ascii_seq(spec_status_json(m)),
{
    match m {
        StatusV::Locked => {
            lemma_dec_ascii(0);
        },
        StatusV::Unlocking(u) => {
            lemma_dec_ascii(1);
            lemma_txin_json_ascii(u.out_ref);
            lemma_dec_i64_ascii(u.for_how_long);
        },
    }
    assert(ascii_seq(spec_status_json(m)));
}

/// Reading a buffer that carries the text of a status yields that status and
/// stops right after it.
pub proof fn lemma_parse_status_json_prefix(s: Seq<u8>, i: int, m: StatusV)
    requires
        m.wf(),
        0 <= i,
        i + spec_status_json(m).len() <= s.len(),
        s.subrange(i, i + spec_status_json(m).len() as int) == spec_status_json(m),
    ensures
        spec_parse_status_json(s, i) == Ok::<(StatusV, int), DecodeErrorV>(
            (m, i + spec_status_json(m).len() as int),
        ),
{
    match m {
        StatusV::Locked => {
            let p1 = seq![LBRACK];
            let p2 = spec_dec_u64(0);
            let p3 = seq![RBRACK];
            assert(spec_status_json(m) =~= p1 + (p2 + p3));
            lemma_subrange_split(s, i, p1, p2 + p3);
            assert(s.subrange(i, i + 1 as int)[0] == s[i + 0]);
            let j0 = i + 1;
            lemma_subrange_split(s, j0, p2, p3);
            let j1 = j0 + p2.len() as int;
            assert(s.subrange(j1, j1 + 1 as int)[0] == s[j1 + 0]);
            assert(s[j1] == RBRACK);
            lemma_parse_json_udec_prefix(s, j0, 0);
        },
        StatusV::Unlocking(u) => {
            let p1 = seq![LBRACK];
            let p2 = spec_dec_u64(1);
            let p3 = seq![COMMA];
            let p4 = spec_txin_json(u.out_ref);
            let p5 = seq![COMMA];
            let p6 = spec_dec_i64(u.for_how_long);
            let p7 = seq![RBRACK];
            assert(spec_status_json(m) =~= p1 + (p2 + (p3 + (p4 + (p5 + (p6 + p7))))));
            lemma_subrange_split(s, i, p1, p2 + (p3 + (p4 + (p5 + (p6 + p7)))));
            assert(s.subrange(i, i + 1 as int)[0] == s[i + 0]);
            let j0 = i + 1;
            lemma_subrange_split(s, j0, p2, p3 + (p4 + (p5 + (p6 + p7))));
            let j1 = j0 + p2.len() as int;
            lemma_subrange_split(s, j1, p3, p4 + (p5 + (p6 + p7)));
            assert(s.subrange(j1, j1 + 1 as int)[0] == s[j1 + 0]);
            lemma_parse_json_udec_prefix(s, j0, 1);
            let j2 = j1 + 1;
            lemma_subrange_split(s, j2, p4, p5 + (p6 + p7));
            lemma_parse_txin_json_prefix(s, j2, u.out_ref);
            let j3 = j2 + p4.len() as int;
            lemma_subrange_split(s, j3, p5, p6 + p7);
            assert(s.subrange(j3, j3 + 1 as int)[0] == s[j3 + 0]);
            assert(s[j3] == COMMA);
            let j4 = j3 + 1;
            lemma_subrange_split(s, j4, p6, p7);
            let j5 = j4 + p6.len() as int;
            assert(s.subrange(j5, j5 + 1 as int)[0] == s[j5 + 0]);
            assert(s[j5] == RBRACK);
            lemma_parse_json_i64_prefix(s, j4, u.for_how_long);
            assert(spec_parse_status_json(s, i)->Ok_0.0 =~= m);
        },
    }
}

/// Top-level decode of a status from text.
pub open spec fn spec_status_from_json(s: Seq<u8>) -> Result<StatusV, DecodeErrorV> {
    match spec_parse_status_json(s, 0) {
        Err(e) => Err(e),
        Ok((m, j)) => {
            if j == s.len() {
                Ok(m)
            } else {
                Err(DecodeErrorV::root(ErrorKind::Shape))
            }
        },
    }
}

impl Status {
    /// Writes the canonical text of the status onto `out`.
    pub(crate) fn write_json(&self, out: &mut Vec<u8>)
        ensures
            final(out)@ == old(out)@ + spec_status_json(self@),
    {
        match self {
            Status::Locked => {
                out.push(LBRACK);
                push_dec_u64(out, 0);
                out.push(RBRACK);
            },
            Status::Unlocking(u) => {
                out.push(LBRACK);
                push_dec_u64(out, 1);
                out.push(COMMA);
                u.out_ref.write_json(out);
                out.push(COMMA);
                push_dec_i64(out, u.for_how_long);
                out.push(RBRACK);
            },
        }
        proof {
            assert(out@ =~= old(out)@ + spec_status_json(self@));
        }
    }

    /// Reads a status at position `i` of `s`, as [`spec_parse_status_json`]
    /// describes.
    pub(crate) fn read_json(s: &[u8], i: usize) -> (r: Result<(Status, usize), DecodeError>)
        ensures
            ({
                let sp = spec_parse_status_json(s@, i as int);
                match r {
                    Ok((x, j)) => sp == Ok::<(StatusV, int), DecodeErrorV>((x@, j as int)),
                    Err(e) => sp == Err::<(StatusV, int), DecodeErrorV>(e@),
                }
            }),
            r matches Ok((x, j)) ==> x@.wf(),
    {
        let sn = s.len();
        if !(i < sn && s[i] == LBRACK) {
            return Err(DecodeError::root(ErrorKind::TextFormat));
        }
        let (tag, j1) = match read_json_u64(s, i + 1) {
            Ok(x) => x,
            Err(e) => {
                return Err(e);
            },
        };
        if tag == 0 {
            if !(j1 < sn && s[j1] == RBRACK) {
                return Err(DecodeError::root(ErrorKind::TextFormat));
            }
            Ok((Status::Locked, j1 + 1))
        } else if tag == 1 {
            if !(j1 < sn && s[j1] == COMMA) {
                return Err(DecodeError::root(ErrorKind::TextFormat));
            }
            let (out_ref, j2) = match TransactionInput::read_json(s, j1 + 1) {
                Ok(x) => x,
                Err(e) => {
                    return Err(e.in_field(FieldId::OutRef));
                },
            };
            if !(j2 < sn && s[j2] == COMMA) {
                return Err(DecodeError::root(ErrorKind::TextFormat));
            }
            let (for_how_long, j3) = match read_json_i64(s, j2 + 1) {
                Ok(x) => x,
                Err(e) => {
                    return Err(e.in_field(FieldId::ForHowLong));
                },
            };
            if !(j3 < sn && s[j3] == RBRACK) {
                return Err(DecodeError::root(ErrorKind::TextFormat));
            }
            let x = Status::Unlocking(Unlocking { out_ref, for_how_long });
            proof {
                assert(x@ =~= spec_parse_status_json(s@, i as int)->Ok_0.0);
            }
            Ok((x, j3 + 1))
        } else {
            Err(DecodeError::root(ErrorKind::UnknownVariant(tag)))
        }
    }

    /// Encodes the status as its canonical JSON text.
    pub fn to_json(&self) -> (r: Result<String, crate::err::EncodeError>)
        ensures
            (r matches Ok(t) && t@ == chars_of_bytes(spec_status_json(self@))),
    {
        let mut out: Vec<u8> = Vec::new();
        self.write_json(&mut out);
        proof {
            lemma_status_json_ascii(self@);
        }
        Ok(string_from_ascii(out))
    }

    /// Decodes a status from JSON text, as [`spec_status_from_json`]
    /// describes; text outside the ASCII range is malformed.
    pub fn from_json(json: &str) -> (r: Result<Status, DecodeError>)
        ensures
            ({
                let sp = spec_status_from_json(bytes_of_chars(json@));
                if vstd::string::is_ascii(json) {
                    match r {
                        Ok(x) => sp == Ok::<StatusV, DecodeErrorV>(x@) && x@.wf(),
                        Err(e) => sp == Err::<StatusV, DecodeErrorV>(e@),
                    }
                } else {
                    (r matches Err(e) && e@ == DecodeErrorV::root(ErrorKind::TextFormat))
                }
            }),
    {
        if !json.is_ascii() {
            return Err(DecodeError::root(ErrorKind::TextFormat));
        }
        let bytes = json.as_bytes_vec();
        proof {
            broadcast use vstd::string::is_ascii_spec_bytes;
            assert(bytes@ =~= bytes_of_chars(json@));
        }
        match Status::read_json(bytes.as_slice(), 0) {
            Err(e) => Err(e),
            Ok((x, j)) => {
                if j == bytes.len() {
                    Ok(x)
                } else {
                    Err(DecodeError::root(ErrorKind::Shape))
                }
            },
        }
    }
}

/// The canonical text of a state.
pub open spec fn spec_state_json(m: StateV) -> Seq<u8> {
    spec_lit_state_open() + spec_owner_json(m.owner) + spec_lit_state_mid() + spec_status_json(
        m.status,
    ) + seq![RBRACE]
}

/// Reads the text of a state at position `i` of `s`.
pub open spec fn spec_parse_state_json(s: Seq<u8>, i: int) -> Result<(StateV, int), DecodeErrorV> {
    if !spec_match_lit(s, i, spec_lit_state_open()) {
        Err(DecodeErrorV::root(ErrorKind::TextFormat))
    } else {
        let j1 = i + spec_lit_state_open().len();
        match spec_parse_owner_json(s, j1) {
            Err(e) => Err(e.in_field(FieldId::Owner)),
            Ok((o, j2)) => {
                if !spec_match_lit(s, j2, spec_lit_state_mid()) {
                    Err(DecodeErrorV::root(ErrorKind::TextFormat))
                } else {
                    let j3 = j2 + spec_lit_state_mid().len();
                    match spec_parse_status_json(s, j3) {
                        Err(e) => Err(e.in_field(FieldId::Status)),
                        Ok((st, j4)) => {
                            if !(j4 < s.len() && s[j4] == RBRACE) {
                                Err(DecodeErrorV::root(ErrorKind::TextFormat))
                            } else {
                                Ok((StateV { owner: o, status: st }, j4 + 1))
                            }
                        },
                    }
                }
            },
        }
    }
}

/// The text of a state is ASCII.
pub proof fn lemma_state_json_ascii(m: StateV)
    ensures
        ascii_seq(spec_state_json(m)),
{
    lemma_owner_json_ascii(m.owner);
    lemma_status_json_ascii(m.status);
    assert(ascii_seq(spec_lit_state_open()));
    assert(ascii_seq(spec_lit_state_mid()));
    assert(ascii_seq(spec_state_json(m)));
}

/// Reading a buffer that carries the text of a state yields that state and
/// stops right after it.
pub proof fn lemma_parse_state_json_prefix(s: Seq<u8>, i: int, m: StateV)
    requires
        m.wf(),
        0 <= i,
        i + spec_state_json(m).len() <= s.len(),
        s.subrange(i, i + spec_state_json(m).len() as int) == spec_state_json(m),
    ensures
        spec_parse_state_json(s, i) == Ok::<(StateV, int), DecodeErrorV>(
            (m, i + spec_state_json(m).len() as int),
        ),
{
    let p1 = spec_lit_state_open();
    let p2 = spec_owner_json(m.owner);
    let p3 = spec_lit_state_mid();
    let p4 = spec_status_json(m.status);
    let p5 = seq![RBRACE];
    assert(spec_state_json(m) =~= p1 + (p2 + (p3 + (p4 + p5))));
    lemma_subrange_split(s, i, p1, p2 + (p3 + (p4 + p5)));
    let j1 = i + p1.len() as int;
    lemma_subrange_split(s, j1, p2, p3 + (p4 + p5));
    lemma_parse_owner_json_prefix(s, j1, m.owner);
    let j2 = j1 + p2.len() as int;
    lemma_subrange_split(s, j2, p3, p4 + p5);
    let j3 = j2 + p3.len() as int;
    lemma_subrange_split(s, j3, p4, p5);
    lemma_parse_status_json_prefix(s, j3, m.status);
    let j4 = j3 + p4.len() as int;
    assert(s.subrange(j4, j4 + 1 as int)[0] == s[j4 + 0]);
    assert(s[j4] == RBRACE);
    assert(spec_parse_state_json(s, i)->Ok_0.0 =~= m);
}

/// Top-level decode of a state from text.
pub open spec fn spec_state_from_json(s: Seq<u8>) -> Result<StateV, DecodeErrorV> {
    match spec_parse_state_json(s, 0) {
        Err(e) => Err(e),
        Ok((m, j)) => {
            if j == s.len() {
                Ok(m)
            } else {
                Err(DecodeErrorV::root(ErrorKind::Shape))
            }
        },
    }
}

impl State {
    /// Writes the canonical text of the state onto `out`.
    pub(crate) fn write_json(&self, out: &mut Vec<u8>)
        ensures
            final(out)@ == old(out)@ + spec_state_json(self@),
    {
        let open = lit_state_open();
        push_lit(out, &open);
        self.owner.write_json(out);
        let mid = lit_state_mid();
        push_lit(out, &mid);
        self.status.write_json(out);
        out.push(RBRACE);
        proof {
            assert(out@ =~= old(out)@ + spec_state_json(self@));
        }
    }

    /// Reads a state at position `i` of `s`, as [`spec_parse_state_json`]
    /// describes.
    pub(crate) fn read_json(s: &[u8], i: usize) -> (r: Result<(State, usize), DecodeError>)
        ensures
            ({
                let sp = spec_parse_state_json(s@, i as int);
                match r {
                    Ok((x, j)) => sp == Ok::<(StateV, int), DecodeErrorV>((x@, j as int)),
                    Err(e) => sp == Err::<(StateV, int), DecodeErrorV>(e@),
                }
            }),
            r matches Ok((x, j)) ==> x@.wf(),
    {
        let sn = s.len();
        let open = lit_state_open();
        if !expect_lit(s, i, &open) {
            return Err(DecodeError::root(ErrorKind::TextFormat));
        }
        let j1 = i + open.len();
        let (owner, j2) = match Owner::read_json(s, j1) {
            Ok(x) => x,
            Err(e) => {
                return Err(e.in_field(FieldId::Owner));
            },
        };
        let mid = lit_state_mid();
        if !expect_lit(s, j2, &mid) {
            return Err(DecodeError::root(ErrorKind::TextFormat));
        }
        let j3 = j2 + mid.len();
        let (status, j4) = match Status::read_json(s, j3) {
            Ok(x) => x,
            Err(e) => {
                return Err(e.in_field(FieldId::Status));
            },
        };
        if !(j4 < sn && s[j4] == RBRACE) {
            return Err(DecodeError::root(ErrorKind::TextFormat));
        }
        let x = State { owner, status };
        proof {
            assert(x@ =~= spec_parse_state_json(s@, i as int)->Ok_0.0);
        }
        Ok((x, j4 + 1))
    }

    /// Encodes the state as its canonical JSON text.
    pub fn to_json(&self) -> (r: Result<String, crate::err::EncodeError>)
        ensures
            (r matches Ok(t) && t@ == chars_of_bytes(spec_state_json(self@))),
    {
        let mut out: Vec<u8> = Vec::new();
        self.write_json(&mut out);
        proof {
            lemma_state_json_ascii(self@);
        }
        Ok(string_from_ascii(out))
    }

    /// Decodes a state from JSON text, as [`spec_state_from_json`]
    /// describes; text outside the ASCII range is malformed.
    pub fn from_json(json: &str) -> (r: Result<State, DecodeError>)
        ensures
            ({
                let sp = spec_state_from_json(bytes_of_chars(json@));
                if vstd::string::is_ascii(json) {
                    match r {
                        Ok(x) => sp == Ok::<StateV, DecodeErrorV>(x@) && x@.wf(),
                        Err(e) => sp == Err::<StateV, DecodeErrorV>(e@),
                    }
                } else {
                    (r matches Err(e) && e@ == DecodeErrorV::root(ErrorKind::TextFormat))
                }
            }),
    {
        if !json.is_ascii() {
            return Err(DecodeError::root(ErrorKind::TextFormat));
        }
        let bytes = json.as_bytes_vec();
        proof {
            broadcast use vstd::string::is_ascii_spec_bytes;
            assert(bytes@ =~= bytes_of_chars(json@));
        }
        match State::read_json(bytes.as_slice(), 0) {
            Err(e) => Err(e),
            Ok((x, j)) => {
                if j == bytes.len() {
                    Ok(x)
                } else {
                    Err(DecodeError::root(ErrorKind::Shape))
                }
            },
        }
    }
}

/// The canonical text of an optional transaction input: `null` when absent.
pub open spec fn spec_opt_txin_json(o: Option<TransactionInputV>) -> Seq<u8> {
    match o {
        None => spec_lit_null(),
        Some(t) => spec_txin_json(t),
    }
}

/// The canonical text of an optional asset name: `null` when absent.
pub open spec fn spec_opt_name_json(o: Option<Seq<u8>>) -> Seq<u8> {
    match o {
        None => spec_lit_null(),
        Some(b) => spec_hex_str(b),
    }
}

/// The canonical text of a redeem.
pub open spec fn spec_redeem_json(m: RedeemV) -> Seq<u8> {
    spec_lit_red_open() + spec_json_bool(m.partial_withdraw) + spec_lit_red_mid1()
        + spec_opt_txin_json(m.nft_input_owner) + spec_lit_red_mid2() + spec_opt_name_json(
        m.new_receipt_owner,
    ) + seq![RBRACE]
}

/// Reads the text of a redeem at position `i` of `s`.
pub open spec fn spec_parse_redeem_json(s: Seq<u8>, i: int) -> Result<
    (RedeemV, int),
    DecodeErrorV,
> {
    if !spec_match_lit(s, i, spec_lit_red_open()) {
        Err(DecodeErrorV::root(ErrorKind::TextFormat))
    } else {
        let j1 = i + spec_lit_red_open().len();
        match spec_parse_json_bool(s, j1) {
            Err(e) => Err(e.in_field(FieldId::PartialWithdraw)),
            Ok((pw, j2)) => {
                if !spec_match_lit(s, j2, spec_lit_red_mid1()) {
                    Err(DecodeErrorV::root(ErrorKind::TextFormat))
                } else {
                    let j3 = j2 + spec_lit_red_mid1().len();
                    let nio_step: Result<(Option<TransactionInputV>, int), DecodeErrorV> = if
                    spec_match_lit(s, j3, spec_lit_null()) {
                        Ok((None, j3 + 4))
                    } else {
                        match spec_parse_txin_json(s, j3) {
                            Err(e) => Err(e.in_field(FieldId::NftInputOwner)),
                            Ok((t, j4)) => Ok((Some(t), j4)),
                        }
                    };
                    match nio_step {
                        Err(e) => Err(e),
                        Ok((nio, j4)) => {
                            if !spec_match_lit(s, j4, spec_lit_red_mid2()) {
                                Err(DecodeErrorV::root(ErrorKind::TextFormat))
                            } else {
                                let j5 = j4 + spec_lit_red_mid2().len();
                                let nro_step: Result<
                                    (Option<Seq<u8>>, int),
                                    DecodeErrorV,
                                > = if spec_match_lit(s, j5, spec_lit_null()) {
                                    Ok((None, j5 + 4))
                                } else {
                                    match spec_parse_hex_str(s, j5) {
                                        Err(e) => Err(e.in_field(FieldId::NewReceiptOwner)),
                                        Ok((b, j6)) => {
                                            if b.len() > ASSET_NAME_MAX_LEN {
                                                Err(
                                                    DecodeErrorV::root(ErrorKind::Shape).in_field(
                                                        FieldId::NewReceiptOwner,
                                                    ),
                                                )
                                            } else {
                                                Ok((Some(b), j6))
                                            }
                                        },
                                    }
                                };
                                match nro_step {
                                    Err(e) => Err(e),
                                    Ok((nro, j6)) => {
                                        if !(j6 < s.len() && s[j6] == RBRACE) {
                                            Err(DecodeErrorV::root(ErrorKind::TextFormat))
                                        } else {
                                            Ok(
                                                (
                                                    RedeemV {
                                                        partial_withdraw: pw,
                                                        nft_input_owner: nio,
                                                        new_receipt_owner: nro,
                                                    },
                                                    j6 + 1,
                                                ),
                                            )
                                        }
                                    },
                                }
                            }
                        },
                    }
                }
            },
        }
    }
}

/// The text of a redeem is ASCII.
pub proof fn lemma_redeem_json_ascii(m: RedeemV)
    ensures
        ascii_seq(spec_redeem_json(m)),
{
    match m.nft_input_owner {
        None => {
        },
        Some(t) => {
            lemma_txin_json_ascii(t);
        },
    }
    match m.new_receipt_owner {
        None => {
        },
        Some(b) => {
            lemma_hex_ascii(b);
        },
    }
    assert(ascii_seq(spec_lit_red_open()));
    assert(ascii_seq(spec_lit_red_mid1()));
    assert(ascii_seq(spec_lit_red_mid2()));
    assert(ascii_seq(spec_lit_null()));
    assert(ascii_seq(spec_json_bool(m.partial_withdraw)));
    assert(ascii_seq(spec_redeem_json(m)));
}

/// Reading a buffer that carries the text of a redeem yields that redeem and
/// stops right after it; each of the four combinations of present and absent
/// optional fields reads back as written.
#[verifier::rlimit(60)]
pub proof fn lemma_parse_redeem_json_prefix(s: Seq<u8>, i: int, m: RedeemV)
    requires
        m.wf(),
        0 <= i,
        i + spec_redeem_json(m).len() <= s.len(),
        s.subrange(i, i + spec_redeem_json(m).len() as int) == spec_redeem_json(m),
    ensures
        spec_parse_redeem_json(s, i) == Ok::<(RedeemV, int), DecodeErrorV>(
            (m, i + spec_redeem_json(m).len() as int),
        ),
{
    let p1 = spec_lit_red_open();
    let p2 = spec_json_bool(m.partial_withdraw);
    let p3 = spec_lit_red_mid1();
    let p4 = spec_opt_txin_json(m.nft_input_owner);
    let p5 = spec_lit_red_mid2();
    let p6 = spec_opt_name_json(m.new_receipt_owner);
    let p7 = seq![RBRACE];
    assert(spec_redeem_json(m) =~= p1 + (p2 + (p3 + (p4 + (p5 + (p6 + p7))))));
    lemma_subrange_split(s, i, p1, p2 + (p3 + (p4 + (p5 + (p6 + p7)))));
    let j1 = i + p1.len() as int;
    lemma_subrange_split(s, j1, p2, p3 + (p4 + (p5 + (p6 + p7))));
    lemma_parse_json_bool_prefix(s, j1, m.partial_withdraw);
    let j2 = j1 + p2.len() as int;
    lemma_subrange_split(s, j2, p3, p4 + (p5 + (p6 + p7)));
    let j3 = j2 + p3.len() as int;
    lemma_subrange_split(s, j3, p4, p5 + (p6 + p7));
    let j4 = j3 + p4.len() as int;
    match m.nft_input_owner {
        None => {
            assert(spec_match_lit(s, j3, spec_lit_null()));
        },
        Some(t) => {
            assert(s.subrange(j3, j3 + p4.len() as int)[0] == s[j3 + 0]);
            if spec_match_lit(s, j3, spec_lit_null()) {
                assert(s.subrange(j3, j3 + 4)[0] == s[j3 + 0]);
                assert(false);
            }
            lemma_parse_txin_json_prefix(s, j3, t);
        },
    }
    lemma_subrange_split(s, j4, p5, p6 + p7);
    let j5 = j4 + p5.len() as int;
    lemma_subrange_split(s, j5, p6, p7);
    let j6 = j5 + p6.len() as int;
    match m.new_receipt_owner {
        None => {
            assert(spec_match_lit(s, j5, spec_lit_null()));
        },
        Some(b) => {
            assert(s.subrange(j5, j5 + p6.len() as int)[0] == s[j5 + 0]);
            if spec_match_lit(s, j5, spec_lit_null()) {
                assert(s.subrange(j5, j5 + 4)[0] == s[j5 + 0]);
                assert(false);
            }
            lemma_parse_hex_str_prefix(s, j5, b);
        },
    }
    assert(s.subrange(j6, j6 + 1 as int)[0] == s[j6 + 0]);
    assert(s[j6] == RBRACE);
    assert(spec_parse_redeem_json(s, i)->Ok_0.0 =~= m);
}

/// Top-level decode of a redeem from text.
pub open spec fn spec_redeem_from_json(s: Seq<u8>) -> Result<RedeemV, DecodeErrorV> {
    match spec_parse_redeem_json(s, 0) {
        Err(e) => Err(e),
        Ok((m, j)) => {
            if j == s.len() {
                Ok(m)
            } else {
                Err(DecodeErrorV::root(ErrorKind::Shape))
            }
        },
    }
}

impl Redeem {
    /// Writes the canonical text of the redeem onto `out`.
    #[verifier::rlimit(60)]
    pub(crate) fn write_json(&self, out: &mut Vec<u8>)
        ensures
            final(out)@ == old(out)@ + spec_redeem_json(self@),
    {
        let open = lit_red_open();
        push_lit(out, &open);
        if self.partial_withdraw {
            out.push(116);
            out.push(114);
            out.push(117);
            out.push(101);
        } else {
            out.push(102);
            out.push(97);
            out.push(108);
            out.push(115);
            out.push(101);
        }
        let mid1 = lit_red_mid1();
        push_lit(out, &mid1);
        match &self.nft_input_owner {
            None => {
                out.push(110);
                out.push(117);
                out.push(108);
                out.push(108);
            },
            Some(t) => {
                t.write_json(out);
            },
        }
        let mid2 = lit_red_mid2();
        push_lit(out, &mid2);
        match &self.new_receipt_owner {
            None => {
                out.push(110);
                out.push(117);
                out.push(108);
                out.push(108);
            },
            Some(a) => {
                push_hex_str(out, a.to_raw_bytes());
            },
        }
        out.push(RBRACE);
        proof {
            assert(out@ =~= old(out)@ + spec_redeem_json(self@));
        }
    }

    /// Reads a redeem at position `i` of `s`, as [`spec_parse_redeem_json`]
    /// describes.
    pub(crate) fn read_json(s: &[u8], i: usize) -> (r: Result<(Redeem, usize), DecodeError>)
        ensures
            ({
                let sp = spec_parse_redeem_json(s@, i as int);
                match r {
                    Ok((x, j)) => sp == Ok::<(RedeemV, int), DecodeErrorV>((x@, j as int)),
                    Err(e) => sp == Err::<(RedeemV, int), DecodeErrorV>(e@),
                }
            }),
            r matches Ok((x, j)) ==> x@.wf(),
    {
        let sn = s.len();
        let open = lit_red_open();
        if !expect_lit(s, i, &open) {
            return Err(DecodeError::root(ErrorKind::TextFormat));
        }
        let j1 = i + open.len();
        let lit_t = lit_true_text();
        let lit_f = lit_false_text();
        let (pw, j2): (bool, usize) = if expect_lit(s, j1, &lit_t) {
            (true, j1 + 4)
        } else if expect_lit(s, j1, &lit_f) {
            (false, j1 + 5)
        } else {
            return Err(DecodeError::root(ErrorKind::TextFormat).in_field(FieldId::PartialWithdraw),
            );
        };
        let mid1 = lit_red_mid1();
        if !expect_lit(s, j2, &mid1) {
            return Err(DecodeError::root(ErrorKind::TextFormat));
        }
        let j3 = j2 + mid1.len();
        let lit_n = lit_null_text();
        let (nft_input_owner, j4): (Option<TransactionInput>, usize) = if expect_lit(
            s,
            j3,
            &lit_n,
        ) {
            (None, j3 + 4)
        } else {
            match TransactionInput::read_json(s, j3) {
                Ok((t, j4)) => (Some(t), j4),
                Err(e) => {
                    return Err(e.in_field(FieldId::NftInputOwner));
                },
            }
        };
        let mid2 = lit_red_mid2();
        if !expect_lit(s, j4, &mid2) {
            return Err(DecodeError::root(ErrorKind::TextFormat));
        }
        let j5 = j4 + mid2.len();
        let (new_receipt_owner, j6): (Option<AssetName>, usize) = if expect_lit(s, j5, &lit_n) {
            (None, j5 + 4)
        } else {
            match read_hex_str(s, j5) {
                Ok((b, j6)) => {
                    match AssetName::new(b) {
                        Some(a) => (Some(a), j6),
                        None => {
                            return Err(
                                DecodeError::root(ErrorKind::Shape).in_field(
                                    FieldId::NewReceiptOwner,
                                ),
                            );
                        },
                    }
                },
                Err(e) => {
                    return Err(e.in_field(FieldId::NewReceiptOwner));
                },
            }
        };
        if !(j6 < sn && s[j6] == RBRACE) {
            return Err(DecodeError::root(ErrorKind::TextFormat));
        }
        let x = Redeem { partial_withdraw: pw, nft_input_owner, new_receipt_owner };
        proof {
            assert(x@ =~= spec_parse_redeem_json(s@, i as int)->Ok_0.0);
        }
        Ok((x, j6 + 1))
    }

    /// Encodes the redeem as its canonical JSON text.
    pub fn to_json(&self) -> (r: Result<String, crate::err::EncodeError>)
        ensures
            (r matches Ok(t) && t@ == chars_of_bytes(spec_redeem_json(self@))),
    {
        let mut out: Vec<u8> = Vec::new();
        self.write_json(&mut out);
        proof {
            lemma_redeem_json_ascii(self@);
        }
        Ok(string_from_ascii(out))
    }

    /// Decodes a redeem from JSON text, as [`spec_redeem_from_json`]
    /// describes; text outside the ASCII range is malformed.
    pub fn from_json(json: &str) -> (r: Result<Redeem, DecodeError>)
        ensures
            ({
                let sp = spec_redeem_from_json(bytes_of_chars(json@));
                if vstd::string::is_ascii(json) {
                    match r {
                        Ok(x) => sp == Ok::<RedeemV, DecodeErrorV>(x@) && x@.wf(),
                        Err(e) => sp == Err::<RedeemV, DecodeErrorV>(e@),
                    }
                } else {
                    (r matches Err(e) && e@ == DecodeErrorV::root(ErrorKind::TextFormat))
                }
            }),
    {
        if !json.is_ascii() {
            return Err(DecodeError::root(ErrorKind::TextFormat));
        }
        let bytes = json.as_bytes_vec();
        proof {
            broadcast use vstd::string::is_ascii_spec_bytes;
            assert(bytes@ =~= bytes_of_chars(json@));
        }
        match Redeem::read_json(bytes.as_slice(), 0) {
            Err(e) => Err(e),
            Ok((x, j)) => {
                if j == bytes.len() {
                    Ok(x)
                } else {
                    Err(DecodeError::root(ErrorKind::Shape))
                }
            },
        }
    }
}

/// Builds the text `true`.
pub(crate) fn lit_true_text() -> (r: Vec<u8>)
    ensures
        r@ == crate::json::spec_lit_true(),
{
    let mut v: Vec<u8> = Vec::new();
    v.push(116);
    v.push(114);
    v.push(117);
    v.push(101);
    proof {
        assert(v@ =~= crate::json::spec_lit_true());
    }
    v
}

/// Builds the text `false`.
pub(crate) fn lit_false_text() -> (r: Vec<u8>)
    ensures
        r@ == crate::json::spec_lit_false(),
{
    let mut v: Vec<u8> = Vec::new();
    v.push(102);
    v.push(97);
    v.push(108);
    v.push(115);
    v.push(101);
    proof {
        assert(v@ =~= crate::json::spec_lit_false());
    }
    v
}

/// Builds the text `null`.
pub(crate) fn lit_null_text() -> (r: Vec<u8>)
    ensures
        r@ == spec_lit_null(),
{
    let mut v: Vec<u8> = Vec::new();
    v.push(110);
    v.push(117);
    v.push(108);
    v.push(108);
    proof {
        assert(v@ =~= spec_lit_null());
    }
    v
}

/// The canonical text of a mint redeemer.
pub open spec fn spec_mint_redeemer_json(m: MintRedeemerV) -> Seq<u8> {
    match m {
        MintRedeemerV::MintTokens(t) => seq![LBRACK] + spec_dec_u64(0) + seq![COMMA]
            + spec_dec_i64(t.total) + seq![RBRACK],
        MintRedeemerV::BurnTokens => seq![LBRACK] + spec_dec_u64(1) + seq![RBRACK],
    }
}

/// Reads the text of a mint redeemer at position `i` of `s`. A discriminant
/// outside 0, 1 is an unknown-variant failure.
pub open spec fn spec_parse_mint_redeemer_json(s: Seq<u8>, i: int) -> Result<
    (MintRedeemerV, int),
    DecodeErrorV,
> {
    if !(0 <= i < s.len() && s[i] == LBRACK) {
        Err(DecodeErrorV::root(ErrorKind::TextFormat))
    } else {
        match spec_parse_json_u64(s, i + 1) {
            Err(e) => Err(e),
            Ok((tag, j1)) => {
                if tag == 0 {
                    if !(j1 < s.len() && s[j1] == COMMA) {
                        Err(DecodeErrorV::root(ErrorKind::TextFormat))
                    } else {
                        match spec_parse_json_i64(s, j1 + 1) {
                            Err(e) => Err(e.in_field(FieldId::Total)),
                            Ok((t, j2)) => {
                                if !(j2 < s.len() && s[j2] == RBRACK) {
                                    Err(DecodeErrorV::root(ErrorKind::TextFormat))
                                } else {
                                    Ok(
                                        (
                                            MintRedeemerV::MintTokens(MintTokensV { total: t }),
                                            j2 + 1,
                                        ),
                                    )
                                }
                            },
                        }
                    }
                } else if tag == 1 {
                    if !(j1 < s.len() && s[j1] == RBRACK) {
                        Err(DecodeErrorV::root(ErrorKind::TextFormat))
                    } else {
                        Ok((MintRedeemerV::BurnTokens, j1 + 1))
                    }
                } else {
                    Err(DecodeErrorV::root(ErrorKind::UnknownVariant(tag)))
                }
            },
        }
    }
}

/// The text of a mint redeemer is ASCII.
pub proof fn lemma_mint_redeemer_json_ascii(m: MintRedeemerV)
    ensures
        ascii_seq(spec_mint_redeemer_json(m)),
{
    match m {
        MintRedeemerV::MintTokens(t) => {
            lemma_dec_ascii(0);
            lemma_dec_i64_ascii(t.total);
        },
        MintRedeemerV::BurnTokens => {
            lemma_dec_ascii(1);
        },
    }
    assert(ascii_seq(spec_mint_redeemer_json(m)));
}

/// Reading a buffer that carries the text of a mint redeemer yields that
/// redeemer and stops right after it.
pub proof fn lemma_parse_mint_redeemer_json_prefix(s: Seq<u8>, i: int, m: MintRedeemerV)
    requires
        m.wf(),
        0 <= i,
        i + spec_mint_redeemer_json(m).len() <= s.len(),
        s.subrange(i, i + spec_mint_redeemer_json(m).len() as int) == spec_mint_redeemer_json(m),
    ensures
        spec_parse_mint_redeemer_json(s, i) == Ok::<(MintRedeemerV, int), DecodeErrorV>(
            (m, i + spec_mint_redeemer_json(m).len() as int),
        ),
{
    match m {
        MintRedeemerV::MintTokens(t) => {
            let p1 = seq![LBRACK];
            let p2 = spec_dec_u64(0);
            let p3 = seq![COMMA];
            let p4 = spec_dec_i64(t.total);
            let p5 = seq![RBRACK];
            assert(spec_mint_redeemer_json(m) =~= p1 + (p2 + (p3 + (p4 + p5))));
            lemma_subrange_split(s, i, p1, p2 + (p3 + (p4 + p5)));
            assert(s.subrange(i, i + 1 as int)[0] == s[i + 0]);
            let j0 = i + 1;
            lemma_subrange_split(s, j0, p2, p3 + (p4 + p5));
            let j1 = j0 + p2.len() as int;
            lemma_subrange_split(s, j1, p3, p4 + p5);
            assert(s.subrange(j1, j1 + 1 as int)[0] == s[j1 + 0]);
            lemma_parse_json_udec_prefix(s, j0, 0);
            let j2 = j1 + 1;
            lemma_subrange_split(s, j2, p4, p5);
            let j3 = j2 + p4.len() as int;
            assert(s.subrange(j3, j3 + 1 as int)[0] == s[j3 + 0]);
            assert(s[j3] == RBRACK);
            lemma_parse_json_i64_prefix(s, j2, t.total);
            assert(spec_parse_mint_redeemer_json(s, i)->Ok_0.0 =~= m);
        },
        MintRedeemerV::BurnTokens => {
            let p1 = seq![LBRACK];
            let p2 = spec_dec_u64(1);
            let p3 = seq![RBRACK];
            assert(spec_mint_redeemer_json(m) =~= p1 + (p2 + p3));
            lemma_subrange_split(s, i, p1, p2 + p3);
            assert(s.subrange(i, i + 1 as int)[0] == s[i + 0]);
            let j0 = i + 1;
            lemma_subrange_split(s, j0, p2, p3);
            let j1 = j0 + p2.len() as int;
            assert(s.subrange(j1, j1 + 1 as int)[0] == s[j1 + 0]);
            assert(s[j1] == RBRACK);
            lemma_parse_json_udec_prefix(s, j0, 1);
        },
    }
}

/// Top-level decode of a mint redeemer from text.
pub open spec fn spec_mint_redeemer_from_json(s: Seq<u8>) -> Result<MintRedeemerV, DecodeErrorV> {
    match spec_parse_mint_redeemer_json(s, 0) {
        Err(e) => Err(e),
        Ok((m, j)) => {
            if j == s.len() {
                Ok(m)
            } else {
                Err(DecodeErrorV::root(ErrorKind::Shape))
            }
        },
    }
}

impl MintRedeemer {
    /// Writes the canonical text of the mint redeemer onto `out`.
    pub(crate) fn write_json(&self, out: &mut Vec<u8>)
        ensures
            final(out)@ == old(out)@ + spec_mint_redeemer_json(self@),
    {
        match self {
            MintRedeemer::MintTokens(t) => {
                out.push(LBRACK);
                push_dec_u64(out, 0);
                out.push(COMMA);
                push_dec_i64(out, t.total);
                out.push(RBRACK);
            },
            MintRedeemer::BurnTokens => {
                out.push(LBRACK);
                push_dec_u64(out, 1);
                out.push(RBRACK);
            },
        }
        proof {
            assert(out@ =~= old(out)@ + spec_mint_redeemer_json(self@));
        }
    }

    /// Reads a mint redeemer at position `i` of `s`, as
    /// [`spec_parse_mint_redeemer_json`] describes.
    pub(crate) fn read_json(s: &[u8], i: usize) -> (r: Result<
        (MintRedeemer, usize),
        DecodeError,
    >)
        ensures
            ({
                let sp = spec_parse_mint_redeemer_json(s@, i as int);
                match r {
                    Ok((x, j)) => sp == Ok::<(MintRedeemerV, int), DecodeErrorV>((x@, j as int)),
                    Err(e) => sp == Err::<(MintRedeemerV, int), DecodeErrorV>(e@),
                }
            }),
    {
        let sn = s.len();
        if !(i < sn && s[i] == LBRACK) {
            return Err(DecodeError::root(ErrorKind::TextFormat));
        }
        let (tag, j1) = match read_json_u64(s, i + 1) {
            Ok(x) => x,
            Err(e) => {
                return Err(e);
            },
        };
        if tag == 0 {
            if !(j1 < sn && s[j1] == COMMA) {
                return Err(DecodeError::root(ErrorKind::TextFormat));
            }
            let (t, j2) = match read_json_i64(s, j1 + 1) {
                Ok(x) => x,
                Err(e) => {
                    return Err(e.in_field(FieldId::Total));
                },
            };
            if !(j2 < sn && s[j2] == RBRACK) {
                return Err(DecodeError::root(ErrorKind::TextFormat));
            }
            Ok((MintRedeemer::MintTokens(MintTokens { total: t }), j2 + 1))
        } else if tag == 1 {
            if !(j1 < sn && s[j1] == RBRACK) {
                return Err(DecodeError::root(ErrorKind::TextFormat));
            }
            Ok((MintRedeemer::BurnTokens, j1 + 1))
        } else {
            Err(DecodeError::root(ErrorKind::UnknownVariant(tag)))
        }
    }

    /// Encodes the mint redeemer as its canonical JSON text.
    pub fn to_json(&self) -> (r: Result<String, crate::err::EncodeError>)
        ensures
            (r matches Ok(t) && t@ == chars_of_bytes(spec_mint_redeemer_json(self@))),
    {
        let mut out: Vec<u8> = Vec::new();
        self.write_json(&mut out);
        proof {
            lemma_mint_redeemer_json_ascii(self@);
        }
        Ok(string_from_ascii(out))
    }

    /// Decodes a mint redeemer from JSON text, as
    /// [`spec_mint_redeemer_from_json`] describes; text outside the ASCII
    /// range is malformed.
    pub fn from_json(json: &str) -> (r: Result<MintRedeemer, DecodeError>)
        ensures
            ({
                let sp = spec_mint_redeemer_from_json(bytes_of_chars(json@));
                if vstd::string::is_ascii(json) {
                    match r {
                        Ok(x) => sp == Ok::<MintRedeemerV, DecodeErrorV>(x@) && x@.wf(),
                        Err(e) => sp == Err::<MintRedeemerV, DecodeErrorV>(e@),
                    }
                } else {
                    (r matches Err(e) && e@ == DecodeErrorV::root(ErrorKind::TextFormat))
                }
            }),
    {
        if !json.is_ascii() {
            return Err(DecodeError::root(ErrorKind::TextFormat));
        }
        let bytes = json.as_bytes_vec();
        proof {
            broadcast use vstd::string::is_ascii_spec_bytes;
            assert(bytes@ =~= bytes_of_chars(json@));
        }
        match MintRedeemer::read_json(bytes.as_slice(), 0) {
            Err(e) => Err(e),
            Ok((x, j)) => {
                if j == bytes.len() {
                    proof {
                        assert(x@.wf());
                    }
                    Ok(x)
                } else {
                    Err(DecodeError::root(ErrorKind::Shape))
                }
            },
        }
    }
}

} // verus!
