//! The laws of the codec: round trips, cross-format agreement, discriminant
//! exhaustiveness, arity rejection and canonical-form acceptance, each proved
//! over the mathematical encodings that the entity contracts are stated in.

use vstd::prelude::*;

use crate::cbor::{lemma_parse_head_prefix, lemma_subrange_split, spec_head};
use crate::json::{is_digit, lemma_parse_json_udec_prefix, spec_dec_u64, LBRACK};
use crate::cbor_codec::{
    lemma_parse_mint_redeemer_canonical, lemma_parse_mint_redeemer_prefix,
    lemma_parse_mint_tokens_canonical, lemma_parse_mint_tokens_prefix, lemma_parse_nft_canonical,
    lemma_parse_nft_prefix, lemma_parse_owner_canonical, lemma_parse_owner_prefix,
    lemma_parse_redeem_canonical, lemma_parse_redeem_prefix, lemma_parse_state_canonical,
    lemma_parse_state_prefix, lemma_parse_status_canonical, lemma_parse_status_prefix,
    lemma_parse_unlocking_canonical, lemma_parse_unlocking_prefix, spec_mint_redeemer_cbor,
    spec_mint_redeemer_from_cbor, spec_mint_tokens_cbor, spec_mint_tokens_from_cbor,
    spec_nft_cbor, spec_nft_from_cbor, spec_owner_cbor, spec_owner_from_cbor, spec_redeem_cbor,
    spec_redeem_from_cbor, spec_state_cbor, spec_state_from_cbor, spec_status_cbor,
    spec_status_from_cbor, spec_unlocking_cbor, spec_unlocking_from_cbor,
};
use crate::entity::{
    MintRedeemerV, MintTokensV, NFTV, OwnerV, RedeemV, StateV, StatusV, UnlockingV,
};
use crate::err::{DecodeErrorV, ErrorKind};
use crate::json_codec::{
    lemma_parse_mint_redeemer_json_prefix, lemma_parse_mint_tokens_json_prefix,
    lemma_parse_nft_json_prefix, lemma_parse_owner_json_prefix, lemma_parse_redeem_json_prefix,
    lemma_parse_state_json_prefix, lemma_parse_status_json_prefix,
    lemma_parse_unlocking_json_prefix, spec_mint_redeemer_from_json, spec_mint_redeemer_json,
    spec_mint_tokens_from_json, spec_mint_tokens_json, spec_nft_from_json, spec_nft_json,
    spec_owner_from_json, spec_owner_json, spec_redeem_from_json, spec_redeem_json,
    spec_state_from_json, spec_state_json, spec_status_from_json, spec_status_json,
    spec_unlocking_from_json, spec_unlocking_json,
};

verus! {

/// Binary round trip: decoding the canonical binary encoding of a
/// well-formed asset identity yields the same value.
pub proof fn lemma_nft_cbor_round_trip(m: NFTV)
    requires
        m.wf(),
    ensures
        spec_nft_from_cbor(spec_nft_cbor(m)) == Ok::<NFTV, DecodeErrorV>(m),
{
    let s = spec_nft_cbor(m);
    assert(s.subrange(0, s.len() as int) =~= s);
    lemma_parse_nft_prefix(s, 0, m);
}

/// Textual round trip: decoding the canonical JSON text of a well-formed
/// asset identity yields the same value.
pub proof fn lemma_nft_json_round_trip(m: NFTV)
    requires
        m.wf(),
    ensures
        spec_nft_from_json(spec_nft_json(m)) == Ok::<NFTV, DecodeErrorV>(m),
{
    let s = spec_nft_json(m);
    assert(s.subrange(0, s.len() as int) =~= s);
    lemma_parse_nft_json_prefix(s, 0, m);
}

/// Cross-format equivalence: the binary and the textual decoding of
/// independently produced encodings of one well-formed asset identity agree
/// on the same value.
pub proof fn lemma_nft_cross_format(m: NFTV)
    requires
        m.wf(),
    ensures
        spec_nft_from_cbor(spec_nft_cbor(m)) == Ok::<NFTV, DecodeErrorV>(m),
        spec_nft_from_json(spec_nft_json(m)) == Ok::<NFTV, DecodeErrorV>(m),
{
    lemma_nft_cbor_round_trip(m);
    lemma_nft_json_round_trip(m);
}

/// Canonical-form acceptance: any byte sequence the binary decoder accepts
/// as a asset identity is exactly the canonical encoding of the decoded
/// value, so every other rendering of that value is rejected.
pub proof fn lemma_nft_cbor_canonical_acceptance(s: Seq<u8>)
    requires
        spec_nft_from_cbor(s) is Ok,
    ensures
        spec_nft_from_cbor(s)->Ok_0.wf(),
        s == spec_nft_cbor(spec_nft_from_cbor(s)->Ok_0),
{
    lemma_parse_nft_canonical(s, 0);
    assert(s.subrange(0, s.len() as int) =~= s);
}

/// Binary round trip: decoding the canonical binary encoding of a
/// well-formed mint count yields the same value.
pub proof fn lemma_mint_tokens_cbor_round_trip(m: MintTokensV)
    requires
        m.wf(),
    ensures
        spec_mint_tokens_from_cbor(spec_mint_tokens_cbor(m)) == Ok::<MintTokensV, DecodeErrorV>(m),
{
    let s = spec_mint_tokens_cbor(m);
    assert(s.subrange(0, s.len() as int) =~= s);
    lemma_parse_mint_tokens_prefix(s, 0, m);
}

/// Textual round trip: decoding the canonical JSON text of a well-formed
/// mint count yields the same value.
pub proof fn lemma_mint_tokens_json_round_trip(m: MintTokensV)
    requires
        m.wf(),
    ensures
        spec_mint_tokens_from_json(spec_mint_tokens_json(m)) == Ok::<MintTokensV, DecodeErrorV>(m),
{
    let s = spec_mint_tokens_json(m);
    assert(s.subrange(0, s.len() as int) =~= s);
    lemma_parse_mint_tokens_json_prefix(s, 0, m);
}

/// Cross-format equivalence: the binary and the textual decoding of
/// independently produced encodings of one well-formed mint count agree
/// on the same value.
pub proof fn lemma_mint_tokens_cross_format(m: MintTokensV)
    requires
        m.wf(),
    ensures
        spec_mint_tokens_from_cbor(spec_mint_tokens_cbor(m)) == Ok::<MintTokensV, DecodeErrorV>(m),
        spec_mint_tokens_from_json(spec_mint_tokens_json(m)) == Ok::<MintTokensV, DecodeErrorV>(m),
{
    lemma_mint_tokens_cbor_round_trip(m);
    lemma_mint_tokens_json_round_trip(m);
}

/// Canonical-form acceptance: any byte sequence the binary decoder accepts
/// as a mint count is exactly the canonical encoding of the decoded
/// value, so every other rendering of that value is rejected.
pub proof fn lemma_mint_tokens_cbor_canonical_acceptance(s: Seq<u8>)
    requires
        spec_mint_tokens_from_cbor(s) is Ok,
    ensures
        spec_mint_tokens_from_cbor(s)->Ok_0.wf(),
        s == spec_mint_tokens_cbor(spec_mint_tokens_from_cbor(s)->Ok_0),
{
    lemma_parse_mint_tokens_canonical(s, 0);
    assert(s.subrange(0, s.len() as int) =~= s);
}

/// Binary round trip: decoding the canonical binary encoding of a
/// well-formed owner yields the same value.
pub proof fn lemma_owner_cbor_round_trip(m: OwnerV)
    requires
        m.wf(),
    ensures
        spec_owner_from_cbor(spec_owner_cbor(m)) == Ok::<OwnerV, DecodeErrorV>(m),
{
    let s = spec_owner_cbor(m);
    assert(s.subrange(0, s.len() as int) =~= s);
    lemma_parse_owner_prefix(s, 0, m);
}

/// Textual round trip: decoding the canonical JSON text of a well-formed
/// owner yields the same value.
pub proof fn lemma_owner_json_round_trip(m: OwnerV)
    requires
        m.wf(),
    ensures
        spec_owner_from_json(spec_owner_json(m)) == Ok::<OwnerV, DecodeErrorV>(m),
{
    let s = spec_owner_json(m);
    assert(s.subrange(0, s.len() as int) =~= s);
    lemma_parse_owner_json_prefix(s, 0, m);
}

/// Cross-format equivalence: the binary and the textual decoding of
/// independently produced encodings of one well-formed owner agree
/// on the same value.
pub proof fn lemma_owner_cross_format(m: OwnerV)
    requires
        m.wf(),
    ensures
        spec_owner_from_cbor(spec_owner_cbor(m)) == Ok::<OwnerV, DecodeErrorV>(m),
        spec_owner_from_json(spec_owner_json(m)) == Ok::<OwnerV, DecodeErrorV>(m),
{
    lemma_owner_cbor_round_trip(m);
    lemma_owner_json_round_trip(m);
}

/// Canonical-form acceptance: any byte sequence the binary decoder accepts
/// as a owner is exactly the canonical encoding of the decoded
/// value, so every other rendering of that value is rejected.
pub proof fn lemma_owner_cbor_canonical_acceptance(s: Seq<u8>)
    requires
        spec_owner_from_cbor(s) is Ok,
    ensures
        spec_owner_from_cbor(s)->Ok_0.wf(),
        s == spec_owner_cbor(spec_owner_from_cbor(s)->Ok_0),
{
    lemma_parse_owner_canonical(s, 0);
    assert(s.subrange(0, s.len() as int) =~= s);
}

/// Binary round trip: decoding the canonical binary encoding of a
/// well-formed unlocking payload yields the same value.
pub proof fn lemma_unlocking_cbor_round_trip(m: UnlockingV)
    requires
        m.wf(),
    ensures
        spec_unlocking_from_cbor(spec_unlocking_cbor(m)) == Ok::<UnlockingV, DecodeErrorV>(m),
{
    let s = spec_unlocking_cbor(m);
    assert(s.subrange(0, s.len() as int) =~= s);
    lemma_parse_unlocking_prefix(s, 0, m);
}

/// Textual round trip: decoding the canonical JSON text of a well-formed
/// unlocking payload yields the same value.
pub proof fn lemma_unlocking_json_round_trip(m: UnlockingV)
    requires
        m.wf(),
    ensures
        spec_unlocking_from_json(spec_unlocking_json(m)) == Ok::<UnlockingV, DecodeErrorV>(m),
{
    let s = spec_unlocking_json(m);
    assert(s.subrange(0, s.len() as int) =~= s);
    lemma_parse_unlocking_json_prefix(s, 0, m);
}

/// Cross-format equivalence: the binary and the textual decoding of
/// independently produced encodings of one well-formed unlocking payload agree
/// on the same value.
pub proof fn lemma_unlocking_cross_format(m: UnlockingV)
    requires
        m.wf(),
    ensures
        spec_unlocking_from_cbor(spec_unlocking_cbor(m)) == Ok::<UnlockingV, DecodeErrorV>(m),
        spec_unlocking_from_json(spec_unlocking_json(m)) == Ok::<UnlockingV, DecodeErrorV>(m),
{
    lemma_unlocking_cbor_round_trip(m);
    lemma_unlocking_json_round_trip(m);
}

/// Canonical-form acceptance: any byte sequence the binary decoder accepts
/// as a unlocking payload is exactly the canonical encoding of the decoded
/// value, so every other rendering of that value is rejected.
pub proof fn lemma_unlocking_cbor_canonical_acceptance(s: Seq<u8>)
    requires
        spec_unlocking_from_cbor(s) is Ok,
    ensures
        spec_unlocking_from_cbor(s)->Ok_0.wf(),
        s == spec_unlocking_cbor(spec_unlocking_from_cbor(s)->Ok_0),
{
    lemma_parse_unlocking_canonical(s, 0);
    assert(s.subrange(0, s.len() as int) =~= s);
}

/// Binary round trip: decoding the canonical binary encoding of a
/// well-formed status yields the same value.
pub proof fn lemma_status_cbor_round_trip(m: StatusV)
    requires
        m.wf(),
    ensures
        spec_status_from_cbor(spec_status_cbor(m)) == Ok::<StatusV, DecodeErrorV>(m),
{
    let s = spec_status_cbor(m);
    assert(s.subrange(0, s.len() as int) =~= s);
    lemma_parse_status_prefix(s, 0, m);
}

/// Textual round trip: decoding the canonical JSON text of a well-formed
/// status yields the same value.
pub proof fn lemma_status_json_round_trip(m: StatusV)
    requires
        m.wf(),
    ensures
        spec_status_from_json(spec_status_json(m)) == Ok::<StatusV, DecodeErrorV>(m),
{
    let s = spec_status_json(m);
    assert(s.subrange(0, s.len() as int) =~= s);
    lemma_parse_status_json_prefix(s, 0, m);
}

/// Cross-format equivalence: the binary and the textual decoding of
/// independently produced encodings of one well-formed status agree
/// on the same value.
pub proof fn lemma_status_cross_format(m: StatusV)
    requires
        m.wf(),
    ensures
        spec_status_from_cbor(spec_status_cbor(m)) == Ok::<StatusV, DecodeErrorV>(m),
        spec_status_from_json(spec_status_json(m)) == Ok::<StatusV, DecodeErrorV>(m),
{
    lemma_status_cbor_round_trip(m);
    lemma_status_json_round_trip(m);
}

/// Canonical-form acceptance: any byte sequence the binary decoder accepts
/// as a status is exactly the canonical encoding of the decoded
/// value, so every other rendering of that value is rejected.
pub proof fn lemma_status_cbor_canonical_acceptance(s: Seq<u8>)
    requires
        spec_status_from_cbor(s) is Ok,
    ensures
        spec_status_from_cbor(s)->Ok_0.wf(),
        s == spec_status_cbor(spec_status_from_cbor(s)->Ok_0),
{
    lemma_parse_status_canonical(s, 0);
    assert(s.subrange(0, s.len() as int) =~= s);
}

/// Binary round trip: decoding the canonical binary encoding of a
/// well-formed state yields the same value.
pub proof fn lemma_state_cbor_round_trip(m: StateV)
    requires
        m.wf(),
    ensures
        spec_state_from_cbor(spec_state_cbor(m)) == Ok::<StateV, DecodeErrorV>(m),
{
    let s = spec_state_cbor(m);
    assert(s.subrange(0, s.len() as int) =~= s);
    lemma_parse_state_prefix(s, 0, m);
}

/// Textual round trip: decoding the canonical JSON text of a well-formed
/// state yields the same value.
pub proof fn lemma_state_json_round_trip(m: StateV)
    requires
        m.wf(),
    ensures
        spec_state_from_json(spec_state_json(m)) == Ok::<StateV, DecodeErrorV>(m),
{
    let s = spec_state_json(m);
    assert(s.subrange(0, s.len() as int) =~= s);
    lemma_parse_state_json_prefix(s, 0, m);
}

/// Cross-format equivalence: the binary and the textual decoding of
/// independently produced encodings of one well-formed state agree
/// on the same value.
pub proof fn lemma_state_cross_format(m: StateV)
    requires
        m.wf(),
    ensures
        spec_state_from_cbor(spec_state_cbor(m)) == Ok::<StateV, DecodeErrorV>(m),
        spec_state_from_json(spec_state_json(m)) == Ok::<StateV, DecodeErrorV>(m),
{
    lemma_state_cbor_round_trip(m);
    lemma_state_json_round_trip(m);
}

/// Canonical-form acceptance: any byte sequence the binary decoder accepts
/// as a state is exactly the canonical encoding of the decoded
/// value, so every other rendering of that value is rejected.
pub proof fn lemma_state_cbor_canonical_acceptance(s: Seq<u8>)
    requires
        spec_state_from_cbor(s) is Ok,
    ensures
        spec_state_from_cbor(s)->Ok_0.wf(),
        s == spec_state_cbor(spec_state_from_cbor(s)->Ok_0),
{
    lemma_parse_state_canonical(s, 0);
    assert(s.subrange(0, s.len() as int) =~= s);
}

/// Binary round trip: decoding the canonical binary encoding of a
/// well-formed redeem yields the same value.
pub proof fn lemma_redeem_cbor_round_trip(m: RedeemV)
    requires
        m.wf(),
    ensures
        spec_redeem_from_cbor(spec_redeem_cbor(m)) == Ok::<RedeemV, DecodeErrorV>(m),
{
    let s = spec_redeem_cbor(m);
    assert(s.subrange(0, s.len() as int) =~= s);
    lemma_parse_redeem_prefix(s, 0, m);
}

/// Textual round trip: decoding the canonical JSON text of a well-formed
/// redeem yields the same value.
pub proof fn lemma_redeem_json_round_trip(m: RedeemV)
    requires
        m.wf(),
    ensures
        spec_redeem_from_json(spec_redeem_json(m)) == Ok::<RedeemV, DecodeErrorV>(m),
{
    let s = spec_redeem_json(m);
    assert(s.subrange(0, s.len() as int) =~= s);
    lemma_parse_redeem_json_prefix(s, 0, m);
}

/// Cross-format equivalence: the binary and the textual decoding of
/// independently produced encodings of one well-formed redeem agree
/// on the same value.
pub proof fn lemma_redeem_cross_format(m: RedeemV)
    requires
        m.wf(),
    ensures
        spec_redeem_from_cbor(spec_redeem_cbor(m)) == Ok::<RedeemV, DecodeErrorV>(m),
        spec_redeem_from_json(spec_redeem_json(m)) == Ok::<RedeemV, DecodeErrorV>(m),
{
    lemma_redeem_cbor_round_trip(m);
    lemma_redeem_json_round_trip(m);
}

/// Canonical-form acceptance: any byte sequence the binary decoder accepts
/// as a redeem is exactly the canonical encoding of the decoded
/// value, so every other rendering of that value is rejected.
pub proof fn lemma_redeem_cbor_canonical_acceptance(s: Seq<u8>)
    requires
        spec_redeem_from_cbor(s) is Ok,
    ensures
        spec_redeem_from_cbor(s)->Ok_0.wf(),
        s == spec_redeem_cbor(spec_redeem_from_cbor(s)->Ok_0),
{
    lemma_parse_redeem_canonical(s, 0);
    assert(s.subrange(0, s.len() as int) =~= s);
}

/// Binary round trip: decoding the canonical binary encoding of a
/// well-formed mint redeemer yields the same value.
pub proof fn lemma_mint_redeemer_cbor_round_trip(m: MintRedeemerV)
    requires
        m.wf(),
    ensures
        spec_mint_redeemer_from_cbor(spec_mint_redeemer_cbor(m)) == Ok::<MintRedeemerV, DecodeErrorV>(m),
{
    let s = spec_mint_redeemer_cbor(m);
    assert(s.subrange(0, s.len() as int) =~= s);
    lemma_parse_mint_redeemer_prefix(s, 0, m);
}

/// Textual round trip: decoding the canonical JSON text of a well-formed
/// mint redeemer yields the same value.
pub proof fn lemma_mint_redeemer_json_round_trip(m: MintRedeemerV)
    requires
        m.wf(),
    ensures
        spec_mint_redeemer_from_json(spec_mint_redeemer_json(m)) == Ok::<MintRedeemerV, DecodeErrorV>(m),
{
    let s = spec_mint_redeemer_json(m);
    assert(s.subrange(0, s.len() as int) =~= s);
    lemma_parse_mint_redeemer_json_prefix(s, 0, m);
}

/// Cross-format equivalence: the binary and the textual decoding of
/// independently produced encodings of one well-formed mint redeemer agree
/// on the same value.
pub proof fn lemma_mint_redeemer_cross_format(m: MintRedeemerV)
    requires
        m.wf(),
    ensures
        spec_mint_redeemer_from_cbor(spec_mint_redeemer_cbor(m)) == Ok::<MintRedeemerV, DecodeErrorV>(m),
        spec_mint_redeemer_from_json(spec_mint_redeemer_json(m)) == Ok::<MintRedeemerV, DecodeErrorV>(m),
{
    lemma_mint_redeemer_cbor_round_trip(m);
    lemma_mint_redeemer_json_round_trip(m);
}

/// Canonical-form acceptance: any byte sequence the binary decoder accepts
/// as a mint redeemer is exactly the canonical encoding of the decoded
/// value, so every other rendering of that value is rejected.
pub proof fn lemma_mint_redeemer_cbor_canonical_acceptance(s: Seq<u8>)
    requires
        spec_mint_redeemer_from_cbor(s) is Ok,
    ensures
        spec_mint_redeemer_from_cbor(s)->Ok_0.wf(),
        s == spec_mint_redeemer_cbor(spec_mint_redeemer_from_cbor(s)->Ok_0),
{
    lemma_parse_mint_redeemer_canonical(s, 0);
    assert(s.subrange(0, s.len() as int) =~= s);
}
/// Discriminant exhaustiveness for owners: a binary array whose discriminant
/// lies outside 0, 1, 2 always fails with that unknown variant, whatever
/// follows it.
pub proof fn lemma_owner_cbor_unknown_variant(s: Seq<u8>, n: u64, tag: u64, rest: Seq<u8>)
    requires
        tag > 2,
        s == spec_head(4, n) + spec_head(0, tag) + rest,
    ensures
        spec_owner_from_cbor(s) == Err::<OwnerV, DecodeErrorV>(
            DecodeErrorV::root(ErrorKind::UnknownVariant(tag)),
        ),
{
    let h1 = spec_head(4, n);
    let h2 = spec_head(0, tag);
    assert(s.subrange(0, s.len() as int) =~= s);
    assert(s.subrange(0, s.len() as int) =~= h1 + (h2 + rest));
    lemma_subrange_split(s, 0, h1, h2 + rest);
    lemma_parse_head_prefix(s, 0, 4, n);
    let j = h1.len() as int;
    lemma_subrange_split(s, j, h2, rest);
    lemma_parse_head_prefix(s, j, 0, tag);
}

/// Discriminant exhaustiveness for statuses: a binary array whose
/// discriminant lies outside 0, 1 always fails with that unknown variant.
pub proof fn lemma_status_cbor_unknown_variant(s: Seq<u8>, n: u64, tag: u64, rest: Seq<u8>)
    requires
        tag > 1,
        s == spec_head(4, n) + spec_head(0, tag) + rest,
    ensures
        spec_status_from_cbor(s) == Err::<StatusV, DecodeErrorV>(
            DecodeErrorV::root(ErrorKind::UnknownVariant(tag)),
        ),
{
    let h1 = spec_head(4, n);
    let h2 = spec_head(0, tag);
    assert(s.subrange(0, s.len() as int) =~= s);
    assert(s.subrange(0, s.len() as int) =~= h1 + (h2 + rest));
    lemma_subrange_split(s, 0, h1, h2 + rest);
    lemma_parse_head_prefix(s, 0, 4, n);
    let j = h1.len() as int;
    lemma_subrange_split(s, j, h2, rest);
    lemma_parse_head_prefix(s, j, 0, tag);
}

/// Discriminant exhaustiveness for mint redeemers: a binary array whose
/// discriminant lies outside 0, 1 always fails with that unknown variant.
pub proof fn lemma_mint_redeemer_cbor_unknown_variant(s: Seq<u8>, n: u64, tag: u64, rest: Seq<u8>)
    requires
        tag > 1,
        s == spec_head(4, n) + spec_head(0, tag) + rest,
    ensures
        spec_mint_redeemer_from_cbor(s) == Err::<MintRedeemerV, DecodeErrorV>(
            DecodeErrorV::root(ErrorKind::UnknownVariant(tag)),
        ),
{
    let h1 = spec_head(4, n);
    let h2 = spec_head(0, tag);
    assert(s.subrange(0, s.len() as int) =~= s);
    assert(s.subrange(0, s.len() as int) =~= h1 + (h2 + rest));
    lemma_subrange_split(s, 0, h1, h2 + rest);
    lemma_parse_head_prefix(s, 0, 4, n);
    let j = h1.len() as int;
    lemma_subrange_split(s, j, h2, rest);
    lemma_parse_head_prefix(s, j, 0, tag);
}

/// Arity rejection for states: a binary array of any arity other than two
/// fails with a shape error, whatever its elements are.
pub proof fn lemma_state_cbor_arity(s: Seq<u8>, n: u64, rest: Seq<u8>)
    requires
        n != 2,
        s == spec_head(4, n) + rest,
    ensures
        spec_state_from_cbor(s) == Err::<StateV, DecodeErrorV>(
            DecodeErrorV::root(ErrorKind::Shape),
        ),
{
    let h1 = spec_head(4, n);
    assert(s.subrange(0, s.len() as int) =~= s);
    assert(s.subrange(0, s.len() as int) =~= h1 + rest);
    lemma_subrange_split(s, 0, h1, rest);
    lemma_parse_head_prefix(s, 0, 4, n);
}

/// Discriminant exhaustiveness for owners in the textual format: an array
/// whose discriminant lies outside 0, 1, 2 always fails with that unknown
/// variant, whatever follows the discriminant.
pub proof fn lemma_owner_json_unknown_variant(s: Seq<u8>, tag: u64, rest: Seq<u8>)
    requires
        tag > 2,
        s == seq![LBRACK] + spec_dec_u64(tag) + rest,
        rest.len() == 0 || !is_digit(rest[0]),
    ensures
        spec_owner_from_json(s) == Err::<OwnerV, DecodeErrorV>(
            DecodeErrorV::root(ErrorKind::UnknownVariant(tag)),
        ),
{
    let p1 = seq![LBRACK];
    let p2 = spec_dec_u64(tag);
    assert(s.subrange(0, s.len() as int) =~= s);
    assert(s.subrange(0, s.len() as int) =~= p1 + (p2 + rest));
    lemma_subrange_split(s, 0, p1, p2 + rest);
    assert(s.subrange(0int, 1int)[0] == s[0int + 0]);
    lemma_subrange_split(s, 1, p2, rest);
    if rest.len() > 0 {
        let e = 1 + p2.len() as int;
        assert(s.subrange(e, e + rest.len() as int)[0] == s[e + 0]);
    }
    lemma_parse_json_udec_prefix(s, 1, tag);
}

/// Discriminant exhaustiveness for statuses in the textual format: an array
/// whose discriminant lies outside 0, 1 always fails with that unknown
/// variant.
pub proof fn lemma_status_json_unknown_variant(s: Seq<u8>, tag: u64, rest: Seq<u8>)
    requires
        tag > 1,
        s == seq![LBRACK] + spec_dec_u64(tag) + rest,
        rest.len() == 0 || !is_digit(rest[0]),
    ensures
        spec_status_from_json(s) == Err::<StatusV, DecodeErrorV>(
            DecodeErrorV::root(ErrorKind::UnknownVariant(tag)),
        ),
{
    let p1 = seq![LBRACK];
    let p2 = spec_dec_u64(tag);
    assert(s.subrange(0, s.len() as int) =~= s);
    assert(s.subrange(0, s.len() as int) =~= p1 + (p2 + rest));
    lemma_subrange_split(s, 0, p1, p2 + rest);
    assert(s.subrange(0int, 1int)[0] == s[0int + 0]);
    lemma_subrange_split(s, 1, p2, rest);
    if rest.len() > 0 {
        let e = 1 + p2.len() as int;
        assert(s.subrange(e, e + rest.len() as int)[0] == s[e + 0]);
    }
    lemma_parse_json_udec_prefix(s, 1, tag);
}

/// Discriminant exhaustiveness for mint redeemers in the textual format: an
/// array whose discriminant lies outside 0, 1 always fails with that unknown
/// variant.
pub proof fn lemma_mint_redeemer_json_unknown_variant(s: Seq<u8>, tag: u64, rest: Seq<u8>)
    requires
        tag > 1,
        s == seq![LBRACK] + spec_dec_u64(tag) + rest,
        rest.len() == 0 || !is_digit(rest[0]),
    ensures
        spec_mint_redeemer_from_json(s) == Err::<MintRedeemerV, DecodeErrorV>(
            DecodeErrorV::root(ErrorKind::UnknownVariant(tag)),
        ),
{
    let p1 = seq![LBRACK];
    let p2 = spec_dec_u64(tag);
    assert(s.subrange(0, s.len() as int) =~= s);
    assert(s.subrange(0, s.len() as int) =~= p1 + (p2 + rest));
    lemma_subrange_split(s, 0, p1, p2 + rest);
    assert(s.subrange(0int, 1int)[0] == s[0int + 0]);
    lemma_subrange_split(s, 1, p2, rest);
    if rest.len() > 0 {
        let e = 1 + p2.len() as int;
        assert(s.subrange(e, e + rest.len() as int)[0] == s[e + 0]);
    }
    lemma_parse_json_udec_prefix(s, 1, tag);
}

} // verus!
