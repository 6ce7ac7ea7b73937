//! The entity set: the immutable value types the codec serializes.
//!
//! Every entity has a mathematical model (its `View`) over plain byte
//! sequences and integers; the codec contracts and the laws are stated over
//! those models.

use vstd::prelude::*;

use crate::prim::{
    asset_name_wf, key_hash_wf, policy_id_wf, AssetName, KeyHash, PolicyId, TransactionInput,
    TransactionInputV,
};

verus! {

/// Mathematical value of an [`NFT`].
#[verifier::ext_equal]
pub struct NFTV {
    pub policy_id: Seq<u8>,
    pub asset_name: Seq<u8>,
}

impl NFTV {
    /// Well-formed asset identity: a 28-byte policy id and a name of at most
    /// 32 bytes.
    pub open spec fn wf(self) -> bool {
        policy_id_wf(self.policy_id) && asset_name_wf(self.asset_name)
    }
}

/// One on-chain asset: the pairing of a minting policy and an asset name.
#[derive(Debug, PartialEq, Eq)]
pub struct NFT {
    pub policy_id: PolicyId,
    pub asset_name: AssetName,
}

impl View for NFT {
    type V = NFTV;

    open spec fn view(&self) -> NFTV {
        NFTV { policy_id: self.policy_id@, asset_name: self.asset_name@ }
    }
}

impl Clone for NFT {
    fn clone(&self) -> (r: Self)
        ensures
            r@ == self@,
    {
        let r = NFT { policy_id: self.policy_id.clone(), asset_name: self.asset_name.clone() };
        proof {
            assert(r@ =~= self@);
        }
        r
    }
}

impl NFT {
    /// Pairs a policy id with an asset name.
    pub fn new(policy_id: &PolicyId, asset_name: &AssetName) -> (r: NFT)
        ensures
            r@ == (NFTV { policy_id: policy_id@, asset_name: asset_name@ }),
    {
        let r = NFT { policy_id: policy_id.clone(), asset_name: asset_name.clone() };
        proof {
            assert(r@ =~= NFTV { policy_id: policy_id@, asset_name: asset_name@ });
        }
        r
    }

    /// The minting policy of the asset.
    pub fn policy_id(&self) -> (r: PolicyId)
        ensures
            r@ == self@.policy_id,
    {
        self.policy_id.clone()
    }

    /// The name of the asset under that policy.
    pub fn asset_name(&self) -> (r: AssetName)
        ensures
            r@ == self@.asset_name,
    {
        self.asset_name.clone()
    }
}

/// Mathematical value of a [`MintTokens`].
#[verifier::ext_equal]
pub struct MintTokensV {
    pub total: i64,
}

impl MintTokensV {
    /// Every signed 64-bit total is well formed.
    pub open spec fn wf(self) -> bool {
        true
    }
}

/// The signed count of tokens a mint action creates (negative for burns).
#[derive(Debug, PartialEq, Eq)]
pub struct MintTokens {
    pub total: i64,
}

impl View for MintTokens {
    type V = MintTokensV;

    open spec fn view(&self) -> MintTokensV {
        MintTokensV { total: self.total }
    }
}

impl Clone for MintTokens {
    fn clone(&self) -> (r: Self)
        ensures
            r@ == self@,
    {
        MintTokens { total: self.total }
    }
}

impl MintTokens {
    /// Wraps a signed token count.
    pub fn new(total: i64) -> (r: MintTokens)
        ensures
            r@ == (MintTokensV { total }),
    {
        MintTokens { total }
    }

    /// The signed token count.
    pub fn total(&self) -> (r: i64)
        ensures
            r == self@.total,
    {
        self.total
    }
}

/// Which variant of a [`MintRedeemer`] is active.
#[derive(Debug, Clone, Copy, PartialEq, Eq, Structural)]
pub enum MintRedeemerKind {
    MintTokens,
    BurnTokens,
}

/// Mathematical value of a [`MintRedeemer`].
#[verifier::ext_equal]
pub enum MintRedeemerV {
    MintTokens(MintTokensV),
    BurnTokens,
}

impl MintRedeemerV {
    /// Well-formed redeemer: the mint payload, when present, is well formed.
    pub open spec fn wf(self) -> bool {
        match self {
            MintRedeemerV::MintTokens(m) => m.wf(),
            MintRedeemerV::BurnTokens => true,
        }
    }
}

/// The action a mint transaction asks for: minting a counted batch of tokens,
/// or burning.
#[derive(Debug, PartialEq, Eq)]
pub enum MintRedeemer {
    MintTokens(MintTokens),
    BurnTokens,
}

impl View for MintRedeemer {
    type V = MintRedeemerV;

    open spec fn view(&self) -> MintRedeemerV {
        match self {
            MintRedeemer::MintTokens(m) => MintRedeemerV::MintTokens(m@),
            MintRedeemer::BurnTokens => MintRedeemerV::BurnTokens,
        }
    }
}

impl Clone for MintRedeemer {
    fn clone(&self) -> (r: Self)
        ensures
            r@ == self@,
    {
        match self {
            MintRedeemer::MintTokens(m) => MintRedeemer::MintTokens(m.clone()),
            MintRedeemer::BurnTokens => MintRedeemer::BurnTokens,
        }
    }
}

impl MintRedeemer {
    /// Builds the minting variant around a token count.
    pub fn new_mint_tokens(mint_tokens: &MintTokens) -> (r: MintRedeemer)
        ensures
            r@ == MintRedeemerV::MintTokens(mint_tokens@),
    {
        MintRedeemer::MintTokens(mint_tokens.clone())
    }

    /// Builds the burning variant.
    pub fn new_burn_tokens() -> (r: MintRedeemer)
        ensures
            r@ == MintRedeemerV::BurnTokens,
    {
        MintRedeemer::BurnTokens
    }

    /// Which variant is active; total, never fails.
    pub fn kind(&self) -> (r: MintRedeemerKind)
        ensures
            r == MintRedeemerKind::MintTokens <==> self@ is MintTokens,
            r == MintRedeemerKind::BurnTokens <==> self@ is BurnTokens,
    {
        match self {
            MintRedeemer::MintTokens(_) => MintRedeemerKind::MintTokens,
            MintRedeemer::BurnTokens => MintRedeemerKind::BurnTokens,
        }
    }

    /// The mint payload when the minting variant is active, `None` otherwise.
    pub fn as_mint_tokens(&self) -> (r: Option<MintTokens>)
        ensures
            self@ is MintTokens ==> (r matches Some(m) && m@ == self@->MintTokens_0),
            !(self@ is MintTokens) ==> r is None,
    {
        match self {
            MintRedeemer::MintTokens(m) => Some(m.clone()),
            MintRedeemer::BurnTokens => None,
        }
    }
}

/// Which variant of an [`Owner`] is active.
#[derive(Debug, Clone, Copy, PartialEq, Eq, Structural)]
pub enum OwnerKind {
    PKH,
    NFT,
    Receipt,
}

/// Mathematical value of an [`Owner`].
#[verifier::ext_equal]
pub enum OwnerV {
    PKH(Seq<u8>),
    NFT(NFTV),
    Receipt(Seq<u8>),
}

impl OwnerV {
    /// Well-formed owner: the active payload meets its length rule.
    pub open spec fn wf(self) -> bool {
        match self {
            OwnerV::PKH(k) => key_hash_wf(k),
            OwnerV::NFT(n) => n.wf(),
            OwnerV::Receipt(n) => asset_name_wf(n),
        }
    }
}

/// Who may unlock a projected asset: a key hash, the holder of another NFT,
/// or the holder of a receipt token.
#[derive(Debug, PartialEq, Eq)]
pub enum Owner {
    PKH(KeyHash),
    NFT(NFT),
    Receipt(AssetName),
}

impl View for Owner {
    type V = OwnerV;

    open spec fn view(&self) -> OwnerV {
        match self {
            Owner::PKH(k) => OwnerV::PKH(k@),
            Owner::NFT(n) => OwnerV::NFT(n@),
            Owner::Receipt(n) => OwnerV::Receipt(n@),
        }
    }
}

impl Clone for Owner {
    fn clone(&self) -> (r: Self)
        ensures
            r@ == self@,
    {
        match self {
            Owner::PKH(k) => Owner::PKH(k.clone()),
            Owner::NFT(n) => Owner::NFT(n.clone()),
            Owner::Receipt(n) => Owner::Receipt(n.clone()),
        }
    }
}

impl Owner {
    /// Builds the key-hash variant.
    pub fn new_p_k_h(p_k_h: &KeyHash) -> (r: Owner)
        ensures
            r@ == OwnerV::PKH(p_k_h@),
    {
        Owner::PKH(p_k_h.clone())
    }

    /// Builds the NFT-holder variant.
    pub fn new_n_f_t(n_f_t: &NFT) -> (r: Owner)
        ensures
            r@ == OwnerV::NFT(n_f_t@),
    {
        Owner::NFT(n_f_t.clone())
    }

    /// Builds the receipt-holder variant.
    pub fn new_receipt(receipt: &AssetName) -> (r: Owner)
        ensures
            r@ == OwnerV::Receipt(receipt@),
    {
        Owner::Receipt(receipt.clone())
    }

    /// Which variant is active; total, never fails.
    pub fn kind(&self) -> (r: OwnerKind)
        ensures
            r == OwnerKind::PKH <==> self@ is PKH,
            r == OwnerKind::NFT <==> self@ is NFT,
            r == OwnerKind::Receipt <==> self@ is Receipt,
    {
        match self {
            Owner::PKH(_) => OwnerKind::PKH,
            Owner::NFT(_) => OwnerKind::NFT,
            Owner::Receipt(_) => OwnerKind::Receipt,
        }
    }

    /// The key hash when the key-hash variant is active, `None` otherwise.
    pub fn as_p_k_h(&self) -> (r: Option<KeyHash>)
        ensures
            self@ is PKH ==> (r matches Some(k) && k@ == self@->PKH_0),
            !(self@ is PKH) ==> r is None,
    {
        match self {
            Owner::PKH(k) => Some(k.clone()),
            _ => None,
        }
    }

    /// The asset identity when the NFT-holder variant is active, `None`
    /// otherwise.
    pub fn as_n_f_t(&self) -> (r: Option<NFT>)
        ensures
            self@ is NFT ==> (r matches Some(n) && n@ == self@->NFT_0),
            !(self@ is NFT) ==> r is None,
    {
        match self {
            Owner::NFT(n) => Some(n.clone()),
            _ => None,
        }
    }

    /// The receipt name when the receipt-holder variant is active, `None`
    /// otherwise.
    pub fn as_receipt(&self) -> (r: Option<AssetName>)
        ensures
            self@ is Receipt ==> (r matches Some(n) && n@ == self@->Receipt_0),
            !(self@ is Receipt) ==> r is None,
    {
        match self {
            Owner::Receipt(n) => Some(n.clone()),
            _ => None,
        }
    }
}

/// Mathematical value of an [`Unlocking`].
#[verifier::ext_equal]
pub struct UnlockingV {
    pub out_ref: TransactionInputV,
    pub for_how_long: i64,
}

impl UnlockingV {
    /// Well-formed unlocking: the referenced input is well formed.
    pub open spec fn wf(self) -> bool {
        self.out_ref.wf()
    }
}

/// An unlock in progress: which input asked for it and until when it lasts.
#[derive(Debug, PartialEq, Eq)]
pub struct Unlocking {
    pub out_ref: TransactionInput,
    pub for_how_long: i64,
}

impl View for Unlocking {
    type V = UnlockingV;

    open spec fn view(&self) -> UnlockingV {
        UnlockingV { out_ref: self.out_ref@, for_how_long: self.for_how_long }
    }
}

impl Clone for Unlocking {
    fn clone(&self) -> (r: Self)
        ensures
            r@ == self@,
    {
        let r = Unlocking { out_ref: self.out_ref.clone(), for_how_long: self.for_how_long };
        proof {
            assert(r@ =~= self@);
        }
        r
    }
}

impl Unlocking {
    /// Pairs the unlocking input reference with its deadline.
    pub fn new(out_ref: &TransactionInput, for_how_long: i64) -> (r: Unlocking)
        ensures
            r@ == (UnlockingV { out_ref: out_ref@, for_how_long }),
    {
        let r = Unlocking { out_ref: out_ref.clone(), for_how_long };
        proof {
            assert(r@ =~= UnlockingV { out_ref: out_ref@, for_how_long });
        }
        r
    }

    /// The input that started the unlock.
    pub fn out_ref(&self) -> (r: TransactionInput)
        ensures
            r@ == self@.out_ref,
    {
        self.out_ref.clone()
    }

    /// The unlock deadline.
    pub fn for_how_long(&self) -> (r: i64)
        ensures
            r == self@.for_how_long,
    {
        self.for_how_long
    }
}

/// Which variant of a [`Status`] is active.
#[derive(Debug, Clone, Copy, PartialEq, Eq, Structural)]
pub enum StatusKind {
    Locked,
    Unlocking,
}

/// Mathematical value of a [`Status`].
#[verifier::ext_equal]
pub enum StatusV {
    Locked,
    Unlocking(UnlockingV),
}

impl StatusV {
    /// Well-formed status: the unlocking payload, when present, is well
    /// formed.
    pub open spec fn wf(self) -> bool {
        match self {
            StatusV::Locked => true,
            StatusV::Unlocking(u) => u.wf(),
        }
    }
}

/// Whether a projected asset is locked or being unlocked.
#[derive(Debug, PartialEq, Eq)]
pub enum Status {
    Locked,
    Unlocking(Unlocking),
}

impl View for Status {
    type V = StatusV;

    open spec fn view(&self) -> StatusV {
        match self {
            Status::Locked => StatusV::Locked,
            Status::Unlocking(u) => StatusV::Unlocking(u@),
        }
    }
}

impl Clone for Status {
    fn clone(&self) -> (r: Self)
        ensures
            r@ == self@,
    {
        match self {
            Status::Locked => Status::Locked,
            Status::Unlocking(u) => Status::Unlocking(u.clone()),
        }
    }
}

impl Status {
    /// Builds the locked variant.
    pub fn new_locked() -> (r: Status)
        ensures
            r@ == StatusV::Locked,
    {
        Status::Locked
    }

    /// Builds the unlocking variant.
    pub fn new_unlocking(unlocking: &Unlocking) -> (r: Status)
        ensures
            r@ == StatusV::Unlocking(unlocking@),
    {
        Status::Unlocking(unlocking.clone())
    }

    /// Which variant is active; total, never fails.
    pub fn kind(&self) -> (r: StatusKind)
        ensures
            r == StatusKind::Locked <==> self@ is Locked,
            r == StatusKind::Unlocking <==> self@ is Unlocking,
    {
        match self {
            Status::Locked => StatusKind::Locked,
            Status::Unlocking(_) => StatusKind::Unlocking,
        }
    }

    /// The unlocking payload when the unlocking variant is active, `None`
    /// otherwise.
    pub fn as_unlocking(&self) -> (r: Option<Unlocking>)
        ensures
            self@ is Unlocking ==> (r matches Some(u) && u@ == self@->Unlocking_0),
            !(self@ is Unlocking) ==> r is None,
    {
        match self {
            Status::Unlocking(u) => Some(u.clone()),
            Status::Locked => None,
        }
    }
}

/// Mathematical value of a [`State`].
#[verifier::ext_equal]
pub struct StateV {
    pub owner: OwnerV,
    pub status: StatusV,
}

impl StateV {
    /// Well-formed state: both fields are well formed.
    pub open spec fn wf(self) -> bool {
        self.owner.wf() && self.status.wf()
    }
}

/// The full on-chain datum of one locked asset: its owner and its status.
#[derive(Debug, PartialEq, Eq)]
pub struct State {
    pub owner: Owner,
    pub status: Status,
}

impl View for State {
    type V = StateV;

    open spec fn view(&self) -> StateV {
        StateV { owner: self.owner@, status: self.status@ }
    }
}

impl Clone for State {
    fn clone(&self) -> (r: Self)
        ensures
            r@ == self@,
    {
        let r = State { owner: self.owner.clone(), status: self.status.clone() };
        proof {
            assert(r@ =~= self@);
        }
        r
    }
}

impl State {
    /// Pairs an owner with a status.
    pub fn new(owner: &Owner, status: &Status) -> (r: State)
        ensures
            r@ == (StateV { owner: owner@, status: status@ }),
    {
        let r = State { owner: owner.clone(), status: status.clone() };
        proof {
            assert(r@ =~= StateV { owner: owner@, status: status@ });
        }
        r
    }

    /// The owner of the locked asset.
    pub fn owner(&self) -> (r: Owner)
        ensures
            r@ == self@.owner,
    {
        self.owner.clone()
    }

    /// The lock status of the asset.
    pub fn status(&self) -> (r: Status)
        ensures
            r@ == self@.status,
    {
        self.status.clone()
    }
}

/// Mathematical value of a [`Redeem`].
#[verifier::ext_equal]
pub struct RedeemV {
    pub partial_withdraw: bool,
    pub nft_input_owner: Option<TransactionInputV>,
    pub new_receipt_owner: Option<Seq<u8>>,
}

impl RedeemV {
    /// Well-formed redeem: each optional payload, when present, is well
    /// formed. The two optional fields are independent.
    pub open spec fn wf(self) -> bool {
        &&& match self.nft_input_owner {
            Some(t) => t.wf(),
            None => true,
        }
        &&& match self.new_receipt_owner {
            Some(n) => asset_name_wf(n),
            None => true,
        }
    }
}

/// The spending redeemer of an unlock transaction.
#[derive(Debug, PartialEq, Eq)]
pub struct Redeem {
    pub partial_withdraw: bool,
    pub nft_input_owner: Option<TransactionInput>,
    pub new_receipt_owner: Option<AssetName>,
}

impl View for Redeem {
    type V = RedeemV;

    open spec fn view(&self) -> RedeemV {
        RedeemV {
            partial_withdraw: self.partial_withdraw,
            nft_input_owner: match self.nft_input_owner {
                Some(t) => Some(t@),
                None => None,
            },
            new_receipt_owner: match self.new_receipt_owner {
                Some(n) => Some(n@),
                None => None,
            },
        }
    }
}

impl Clone for Redeem {
    fn clone(&self) -> (r: Self)
        ensures
            r@ == self@,
    {
        let r = Redeem {
            partial_withdraw: self.partial_withdraw,
            nft_input_owner: match &self.nft_input_owner {
                Some(t) => Some(t.clone()),
                None => None,
            },
            new_receipt_owner: match &self.new_receipt_owner {
                Some(n) => Some(n.clone()),
                None => None,
            },
        };
        proof {
            assert(r@ =~= self@);
        }
        r
    }
}

impl Redeem {
    /// Builds a redeem; the two optional fields are independently nullable.
    pub fn new(
        partial_withdraw: bool,
        nft_input_owner: Option<TransactionInput>,
        new_receipt_owner: Option<AssetName>,
    ) -> (r: Redeem)
        ensures
            r@.partial_withdraw == partial_withdraw,
            r@.nft_input_owner == (match nft_input_owner {
                Some(t) => Some(t@),
                None => None::<TransactionInputV>,
            }),
            r@.new_receipt_owner == (match new_receipt_owner {
                Some(n) => Some(n@),
                None => None::<Seq<u8>>,
            }),
    {
        Redeem { partial_withdraw, nft_input_owner, new_receipt_owner }
    }

    /// Whether the withdraw is partial.
    pub fn partial_withdraw(&self) -> (r: bool)
        ensures
            r == self@.partial_withdraw,
    {
        self.partial_withdraw
    }

    /// The input owning the NFT, when one was given.
    pub fn nft_input_owner(&self) -> (r: Option<TransactionInput>)
        ensures
            self@.nft_input_owner matches Some(t) ==> (r matches Some(e) && e@ == t),
            self@.nft_input_owner is None ==> r is None,
    {
        match &self.nft_input_owner {
            Some(t) => Some(t.clone()),
            None => None,
        }
    }

    /// The receipt name for the new owner, when one was given.
    pub fn new_receipt_owner(&self) -> (r: Option<AssetName>)
        ensures
            self@.new_receipt_owner matches Some(n) ==> (r matches Some(e) && e@ == n),
            self@.new_receipt_owner is None ==> r is None,
    {
        match &self.new_receipt_owner {
            Some(n) => Some(n.clone()),
            None => None,
        }
    }
}

} // verus!
