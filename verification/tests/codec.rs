use projected_nft::{
    AssetName, DecodeError, ErrorKind, FieldId, KeyHash, MintRedeemer, MintRedeemerKind,
    MintTokens, Owner, OwnerKind, PolicyId, Redeem, State, Status, StatusKind, TransactionHash,
    TransactionInput, Unlocking, NFT,
};

fn key_hash() -> KeyHash {
    KeyHash::new(vec![0x11; 28]).unwrap()
}

fn policy_id() -> PolicyId {
    PolicyId::new(vec![0x22; 28]).unwrap()
}

fn asset_name(bytes: &[u8]) -> AssetName {
    AssetName::new(bytes.to_vec()).unwrap()
}

fn tx_input(fill: u8, index: u64) -> TransactionInput {
    let hash = TransactionHash::new(vec![fill; 32]).unwrap();
    TransactionInput::new(&hash, index)
}

fn sample_nft() -> NFT {
    NFT::new(&policy_id(), &asset_name(b"tok"))
}

fn sample_unlocking() -> Unlocking {
    Unlocking::new(&tx_input(0x33, 7), -42)
}

fn sample_state() -> State {
    let owner = Owner::new_p_k_h(&key_hash());
    let status = Status::new_unlocking(&sample_unlocking());
    State::new(&owner, &status)
}

#[test]
fn nft_cbor_round_trip() {
    let n = sample_nft();
    let bytes = n.to_cbor_bytes();
    let back = NFT::from_cbor_bytes(&bytes).unwrap();
    assert_eq!(back, n);
}

#[test]
fn nft_json_round_trip() {
    let n = sample_nft();
    let text = n.to_json().unwrap();
    let back = NFT::from_json(&text).unwrap();
    assert_eq!(back, n);
}

#[test]
fn nft_json_exact_text() {
    let n = sample_nft();
    let text = n.to_json().unwrap();
    let expected = format!(
        "{{\"policy_id\":\"{}\",\"asset_name\":\"{}\"}}",
        "22".repeat(28),
        "746f6b"
    );
    assert_eq!(text, expected);
}

#[test]
fn mint_tokens_cbor_round_trip_total_1000() {
    let m = MintTokens::new(1000);
    let bytes = m.to_cbor_bytes();
    assert_eq!(bytes, vec![0x81, 0x19, 0x03, 0xe8]);
    let back = MintTokens::from_cbor_bytes(&bytes).unwrap();
    assert_eq!(back.total(), 1000);
}

#[test]
fn mint_tokens_json_single_numeric_field() {
    let m = MintTokens::new(1000);
    let text = m.to_json().unwrap();
    assert_eq!(text, "{\"total\":1000}");
    let back = MintTokens::from_json(&text).unwrap();
    assert_eq!(back.total(), 1000);
}

#[test]
fn mint_tokens_negative_round_trip() {
    for total in [-1i64, -1000, i64::MIN, i64::MAX, 0] {
        let m = MintTokens::new(total);
        let back = MintTokens::from_cbor_bytes(&m.to_cbor_bytes()).unwrap();
        assert_eq!(back.total(), total);
        let back = MintTokens::from_json(&m.to_json().unwrap()).unwrap();
        assert_eq!(back.total(), total);
    }
}

#[test]
fn owner_receipt_accessors() {
    let o = Owner::new_receipt(&asset_name(b"abc"));
    assert_eq!(o.kind(), OwnerKind::Receipt);
    assert!(o.as_p_k_h().is_none());
    assert!(o.as_n_f_t().is_none());
    assert_eq!(o.as_receipt().unwrap(), asset_name(b"abc"));
}

#[test]
fn owner_all_variants_round_trip() {
    let variants = vec![
        Owner::new_p_k_h(&key_hash()),
        Owner::new_n_f_t(&sample_nft()),
        Owner::new_receipt(&asset_name(b"abc")),
    ];
    for o in variants {
        let back = Owner::from_cbor_bytes(&o.to_cbor_bytes()).unwrap();
        assert_eq!(back, o);
        let back = Owner::from_json(&o.to_json().unwrap()).unwrap();
        assert_eq!(back, o);
    }
}

#[test]
fn owner_receipt_exact_encodings() {
    let o = Owner::new_receipt(&asset_name(b"abc"));
    assert_eq!(o.to_cbor_bytes(), vec![0x82, 0x02, 0x43, 0x61, 0x62, 0x63]);
    assert_eq!(o.to_json().unwrap(), "[2,\"616263\"]");
}

#[test]
fn owner_unknown_discriminant_cbor() {
    // A 2-element array whose discriminant is 5.
    let blob = vec![0x82, 0x05, 0x41, 0x00];
    let err = Owner::from_cbor_bytes(&blob).unwrap_err();
    assert_eq!(err.kind(), ErrorKind::UnknownVariant(5));
}

#[test]
fn owner_unknown_discriminant_json() {
    let err = Owner::from_json("[7,\"616263\"]").unwrap_err();
    assert_eq!(err.kind(), ErrorKind::UnknownVariant(7));
}

#[test]
fn status_locked_round_trip() {
    let s = Status::new_locked();
    let back = Status::from_cbor_bytes(&s.to_cbor_bytes()).unwrap();
    assert_eq!(back.kind(), StatusKind::Locked);
    assert!(back.as_unlocking().is_none());
    let back = Status::from_json(&s.to_json().unwrap()).unwrap();
    assert_eq!(back.kind(), StatusKind::Locked);
    assert!(back.as_unlocking().is_none());
}

#[test]
fn status_unlocking_round_trip() {
    let s = Status::new_unlocking(&sample_unlocking());
    let back = Status::from_cbor_bytes(&s.to_cbor_bytes()).unwrap();
    assert_eq!(back, s);
    assert_eq!(back.kind(), StatusKind::Unlocking);
    let u = back.as_unlocking().unwrap();
    assert_eq!(u.for_how_long(), -42);
    assert_eq!(u.out_ref().index(), 7);
    let back = Status::from_json(&s.to_json().unwrap()).unwrap();
    assert_eq!(back, s);
}

#[test]
fn status_unknown_discriminant() {
    // A 1-element array whose discriminant is 2.
    let blob = vec![0x81, 0x02];
    let err = Status::from_cbor_bytes(&blob).unwrap_err();
    assert_eq!(err.kind(), ErrorKind::UnknownVariant(2));
}

#[test]
fn unlocking_round_trip() {
    let u = sample_unlocking();
    assert_eq!(sample_unlocking(), Unlocking::from_cbor_bytes(&u.to_cbor_bytes()).unwrap());
    assert_eq!(sample_unlocking(), Unlocking::from_json(&u.to_json().unwrap()).unwrap());
}

#[test]
fn state_round_trip() {
    let st = sample_state();
    let back = State::from_cbor_bytes(&st.to_cbor_bytes()).unwrap();
    assert_eq!(back, st);
    let back = State::from_json(&st.to_json().unwrap()).unwrap();
    assert_eq!(back, st);
    assert_eq!(back.owner(), st.owner());
    assert_eq!(back.status(), st.status());
}

#[test]
fn state_arity_two_succeeds_one_and_three_fail() {
    let owner = Owner::new_p_k_h(&key_hash());
    let status = Status::new_locked();
    let owner_bytes = owner.to_cbor_bytes();
    let status_bytes = status.to_cbor_bytes();

    let mut two = vec![0x82];
    two.extend_from_slice(&owner_bytes);
    two.extend_from_slice(&status_bytes);
    assert!(State::from_cbor_bytes(&two).is_ok());

    let mut one = vec![0x81];
    one.extend_from_slice(&owner_bytes);
    one.extend_from_slice(&status_bytes);
    let err = State::from_cbor_bytes(&one).unwrap_err();
    assert_eq!(err.kind(), ErrorKind::Shape);

    let mut three = vec![0x83];
    three.extend_from_slice(&owner_bytes);
    three.extend_from_slice(&status_bytes);
    let err = State::from_cbor_bytes(&three).unwrap_err();
    assert_eq!(err.kind(), ErrorKind::Shape);
}

#[test]
fn redeem_all_optional_combinations() {
    let txin = Some(tx_input(0x44, 1));
    let name = Some(asset_name(b"rcpt"));
    let combos = vec![
        Redeem::new(false, None, None),
        Redeem::new(false, txin.clone(), None),
        Redeem::new(true, None, name.clone()),
        Redeem::new(true, txin.clone(), name.clone()),
    ];
    for r in combos {
        let back = Redeem::from_cbor_bytes(&r.to_cbor_bytes()).unwrap();
        assert_eq!(back, r);
        let back = Redeem::from_json(&r.to_json().unwrap()).unwrap();
        assert_eq!(back, r);
    }
}

#[test]
fn redeem_accessors() {
    let r = Redeem::new(true, Some(tx_input(0x44, 9)), None);
    assert!(r.partial_withdraw());
    assert_eq!(r.nft_input_owner().unwrap().index(), 9);
    assert!(r.new_receipt_owner().is_none());
}

#[test]
fn mint_redeemer_round_trip() {
    let mint = MintRedeemer::new_mint_tokens(&MintTokens::new(-5));
    assert_eq!(mint.kind(), MintRedeemerKind::MintTokens);
    assert_eq!(mint.as_mint_tokens().unwrap().total(), -5);
    let back = MintRedeemer::from_cbor_bytes(&mint.to_cbor_bytes()).unwrap();
    assert_eq!(back, mint);
    let back = MintRedeemer::from_json(&mint.to_json().unwrap()).unwrap();
    assert_eq!(back, mint);

    let burn = MintRedeemer::new_burn_tokens();
    assert_eq!(burn.kind(), MintRedeemerKind::BurnTokens);
    assert!(burn.as_mint_tokens().is_none());
    let back = MintRedeemer::from_cbor_bytes(&burn.to_cbor_bytes()).unwrap();
    assert_eq!(back, burn);
    assert_eq!(burn.to_json().unwrap(), "[1]");
}

#[test]
fn non_minimal_integer_rejected() {
    // MintTokens 1000 encodes as [0x81, 0x19, 0x03, 0xe8]; re-encode the
    // integer on four bytes instead of two.
    let blob = vec![0x81, 0x1a, 0x00, 0x00, 0x03, 0xe8];
    let err = MintTokens::from_cbor_bytes(&blob).unwrap_err();
    assert_eq!(err.kind(), ErrorKind::CanonicalForm);
    assert_eq!(err.path(), &vec![FieldId::Total]);
}

#[test]
fn non_minimal_array_header_rejected() {
    // The same 1-element array with its header argument padded to two bytes.
    let blob = vec![0x98, 0x01, 0x19, 0x03, 0xe8];
    let err = MintTokens::from_cbor_bytes(&blob).unwrap_err();
    assert_eq!(err.kind(), ErrorKind::CanonicalForm);
}

#[test]
fn indefinite_length_array_rejected() {
    let blob = vec![0x9f, 0x19, 0x03, 0xe8, 0xff];
    let err = MintTokens::from_cbor_bytes(&blob).unwrap_err();
    assert_eq!(err.kind(), ErrorKind::CanonicalForm);
}

#[test]
fn truncated_input_rejected() {
    let err = MintTokens::from_cbor_bytes(&[0x81]).unwrap_err();
    assert_eq!(err.kind(), ErrorKind::Shape);
    let err = MintTokens::from_cbor_bytes(&[]).unwrap_err();
    assert_eq!(err.kind(), ErrorKind::Shape);
}

#[test]
fn trailing_bytes_rejected() {
    let mut bytes = MintTokens::new(3).to_cbor_bytes();
    bytes.push(0x00);
    let err = MintTokens::from_cbor_bytes(&bytes).unwrap_err();
    assert_eq!(err.kind(), ErrorKind::Shape);
}

#[test]
fn field_error_path_reports_nesting() {
    // A state whose status payload carries a malformed inner input: the
    // second element of the status array is an unlocking whose transaction
    // hash has the wrong length.
    let owner = Owner::new_p_k_h(&key_hash());
    let owner_bytes = owner.to_cbor_bytes();
    let mut blob = vec![0x82];
    blob.extend_from_slice(&owner_bytes);
    // status: [1, [31-byte hash, 0], 5] -- hash too short
    blob.extend_from_slice(&[0x83, 0x01, 0x82, 0x58, 0x1f]);
    blob.extend_from_slice(&[0xaa; 31]);
    blob.extend_from_slice(&[0x00, 0x05]);
    let err = State::from_cbor_bytes(&blob).unwrap_err();
    assert_eq!(err.kind(), ErrorKind::Shape);
    assert_eq!(
        err.path(),
        &vec![FieldId::Status, FieldId::OutRef, FieldId::TransactionId]
    );
}

#[test]
fn json_malformed_text_rejected() {
    let err = MintTokens::from_json("{\"total\" : 1000}").unwrap_err();
    assert_eq!(err.kind(), ErrorKind::TextFormat);
    let err = MintTokens::from_json("not json").unwrap_err();
    assert_eq!(err.kind(), ErrorKind::TextFormat);
    let err = MintTokens::from_json("{\"total\":01}").unwrap_err();
    assert_eq!(err.kind(), ErrorKind::TextFormat);
}

#[test]
fn json_out_of_range_number_rejected() {
    let err = MintTokens::from_json("{\"total\":9223372036854775808}").unwrap_err();
    assert_eq!(err.kind(), ErrorKind::Shape);
}

#[test]
fn cross_format_equivalence_state() {
    let st = sample_state();
    let from_binary = State::from_cbor_bytes(&st.to_cbor_bytes()).unwrap();
    let from_text = State::from_json(&st.to_json().unwrap()).unwrap();
    assert_eq!(from_binary, from_text);
}

#[test]
fn primitive_length_rules() {
    assert!(KeyHash::new(vec![0; 27]).is_none());
    assert!(KeyHash::new(vec![0; 28]).is_some());
    assert!(PolicyId::new(vec![0; 29]).is_none());
    assert!(AssetName::new(vec![0; 33]).is_none());
    assert!(AssetName::new(vec![]).is_some());
    assert!(TransactionHash::new(vec![0; 31]).is_none());
}

#[test]
fn empty_asset_name_round_trip() {
    let o = Owner::new_receipt(&asset_name(b""));
    let back = Owner::from_cbor_bytes(&o.to_cbor_bytes()).unwrap();
    assert_eq!(back, o);
    assert_eq!(o.to_json().unwrap(), "[2,\"\"]");
    let back = Owner::from_json(&o.to_json().unwrap()).unwrap();
    assert_eq!(back, o);
}

#[test]
fn max_asset_name_round_trip() {
    let o = Owner::new_receipt(&asset_name(&[0xffu8; 32]));
    let back = Owner::from_cbor_bytes(&o.to_cbor_bytes()).unwrap();
    assert_eq!(back, o);
    let back = Owner::from_json(&o.to_json().unwrap()).unwrap();
    assert_eq!(back, o);
}

#[test]
fn oversized_name_in_wire_rejected() {
    // Receipt owner with a 33-byte name on the wire.
    let mut blob = vec![0x82, 0x02, 0x58, 0x21];
    blob.extend_from_slice(&[0x01; 33]);
    let err = Owner::from_cbor_bytes(&blob).unwrap_err();
    assert_eq!(err.kind(), ErrorKind::Shape);
    assert_eq!(err.path(), &vec![FieldId::AssetName]);
}

#[test]
fn large_index_round_trip() {
    let u = Unlocking::new(&tx_input(0x55, u64::MAX), i64::MAX);
    let back = Unlocking::from_cbor_bytes(&u.to_cbor_bytes()).unwrap();
    assert_eq!(back, u);
    let back = Unlocking::from_json(&u.to_json().unwrap()).unwrap();
    assert_eq!(back, u);
}

#[test]
fn decode_error_equality_and_clone() {
    let e = DecodeError::root(ErrorKind::Shape).in_field(FieldId::Owner);
    let f = e.clone();
    assert_eq!(e, f);
    assert_eq!(e.path(), &vec![FieldId::Owner]);
}

#[test]
fn json_hex_must_be_lowercase_pairs() {
    let err = Owner::from_json("[2,\"6A\"]").unwrap_err();
    assert_eq!(err.kind(), ErrorKind::TextFormat);
    let err = Owner::from_json("[2,\"616\"]").unwrap_err();
    assert_eq!(err.kind(), ErrorKind::TextFormat);
}

#[test]
fn json_trailing_text_rejected() {
    let err = MintTokens::from_json("{\"total\":1} ").unwrap_err();
    assert_eq!(err.kind(), ErrorKind::Shape);
}

#[test]
fn json_negative_zero_rejected() {
    let err = MintTokens::from_json("{\"total\":-0}").unwrap_err();
    assert_eq!(err.kind(), ErrorKind::TextFormat);
}

#[test]
fn unlocking_json_exact_text() {
    let u = Unlocking::new(&tx_input(0xab, 3), -7);
    let expected = format!(
        "{{\"out_ref\":{{\"transaction_id\":\"{}\",\"index\":3}},\"for_how_long\":-7}}",
        "ab".repeat(32)
    );
    assert_eq!(u.to_json().unwrap(), expected);
}
