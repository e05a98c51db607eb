//! The proxy farm module: the storage it reads, the laws of its set of
//! intermediated farms, and the decisions of the endpoints that enter a
//! farm with wrapped LP or locked asset tokens, exit it, claim its rewards
//! or compound them.
//!
//! An endpoint alternates checks and decisions with work done elsewhere:
//! reading token attributes, calling the farm contract, minting and burning,
//! merging wrapped tokens, logging events. Each endpoint is therefore a
//! sequence of steps: a step takes the contract storage, the inputs and the
//! results of the work done so far, and returns either the error the
//! endpoint fails with or what is to be done next.

use vstd::prelude::*;

use crate::amount::Amount;
use crate::payment::{bytes_eq, copy_bytes, copy_payments, payments_view, PaymentView, TokenPayment};
use crate::token_send::{MultiTransfer, TokenSendModule};

verus! {

/// Why a proxy endpoint fails.
#[derive(Debug, Clone, PartialEq, Eq)]
pub enum ProxyError {
    /// The farm is not one of the intermediated farms.
    NotIntermediatedFarm,
    /// The wrapped farm token is not issued yet.
    EmptyTokenId,
    /// No payment was received.
    BadPaymentLen,
    /// The payment has amount zero.
    ZeroPaymentAmount,
    /// The payment is neither wrapped LP tokens nor locked asset tokens.
    UnknownInputToken,
    /// The farm returned no farm tokens.
    ZeroFarmTokenAmount,
    /// The payment is not in wrapped farm tokens.
    NotWrappedFarmToken,
    /// A check or computation of another module failed with this message.
    External(Vec<u8>),
}

impl ProxyError {
    /// The message the endpoint fails with; `None` for the error of another
    /// module, whose message it carries.
    pub fn message(&self) -> (m: Option<&'static str>)
        ensures
            m is None <==> self is External,
            self is NotIntermediatedFarm ==> m == Some("Not an intermediated farm"),
            self is EmptyTokenId ==> m == Some("Empty token id"),
            self is BadPaymentLen ==> m == Some("bad payment len"),
            self is ZeroPaymentAmount ==> m == Some("Payment amount cannot be zero"),
            self is UnknownInputToken ==> m == Some("Unknown input Token"),
            self is ZeroFarmTokenAmount ==> m == Some("Farm token amount received should be greater than 0"),
            self is NotWrappedFarmToken ==> m == Some("Should only be used with wrapped farm tokens"),
    {
        match self {
            ProxyError::NotIntermediatedFarm => Some("Not an intermediated farm"),
            ProxyError::EmptyTokenId => Some("Empty token id"),
            ProxyError::BadPaymentLen => Some("bad payment len"),
            ProxyError::ZeroPaymentAmount => Some("Payment amount cannot be zero"),
            ProxyError::UnknownInputToken => Some("Unknown input Token"),
            ProxyError::ZeroFarmTokenAmount => Some("Farm token amount received should be greater than 0"),
            ProxyError::NotWrappedFarmToken => Some("Should only be used with wrapped farm tokens"),
            ProxyError::External(_) => None,
        }
    }
}

/// The attributes of a wrapped farm token: the farm position it stands for,
/// and the tokens that were paid to enter the farm.
#[derive(Debug, PartialEq, Eq)]
pub struct WrappedFarmTokenAttributes {
    pub farm_token_id: Vec<u8>,
    pub farm_token_nonce: u64,
    pub farm_token_amount: Amount,
    pub farming_token_id: Vec<u8>,
    pub farming_token_nonce: u64,
    pub farming_token_amount: Amount,
}

/// The mathematical value of [`WrappedFarmTokenAttributes`].
pub struct AttributesView {
    pub farm_token_id: Seq<u8>,
    pub farm_token_nonce: u64,
    pub farm_token_amount: nat,
    pub farming_token_id: Seq<u8>,
    pub farming_token_nonce: u64,
    pub farming_token_amount: nat,
}

impl View for WrappedFarmTokenAttributes {
    type V = AttributesView;

    open spec fn view(&self) -> AttributesView {
        AttributesView {
            farm_token_id: self.farm_token_id@,
            farm_token_nonce: self.farm_token_nonce,
            farm_token_amount: self.farm_token_amount@,
            farming_token_id: self.farming_token_id@,
            farming_token_nonce: self.farming_token_nonce,
            farming_token_amount: self.farming_token_amount@,
        }
    }
}

impl WrappedFarmTokenAttributes {
    /// A copy of the attributes.
    pub fn duplicate(&self) -> (r: Self)
        ensures
            r@ == self@,
    {
        WrappedFarmTokenAttributes {
            farm_token_id: copy_bytes(&self.farm_token_id),
            farm_token_nonce: self.farm_token_nonce,
            farm_token_amount: self.farm_token_amount.clone(),
            farming_token_id: copy_bytes(&self.farming_token_id),
            farming_token_nonce: self.farming_token_nonce,
            farming_token_amount: self.farming_token_amount.clone(),
        }
    }
}

/// A wrapped farm token to create: the payment of it and its attributes.
#[derive(Debug, PartialEq, Eq)]
pub struct WrappedFarmToken {
    pub token_amount: TokenPayment,
    pub attributes: WrappedFarmTokenAttributes,
}

/// A request to the wrapped-farm-token merge module: merge `new_token` with
/// the wrapped farm tokens in `additional_payments` and send the result to
/// `caller`.
#[derive(Debug, PartialEq, Eq)]
pub struct MergeRequest {
    pub caller: Vec<u8>,
    pub farm_address: Vec<u8>,
    pub additional_payments: Vec<TokenPayment>,
    pub new_token: WrappedFarmToken,
}

/// A call of an endpoint of a farm contract.
#[derive(Debug, PartialEq, Eq)]
pub enum FarmCall {
    /// Enter the farm with `payment`, transferred along.
    EnterFarm { payment: TokenPayment },
    /// Enter the farm with `payment`, transferred along, locking the rewards.
    EnterFarmAndLockRewards { payment: TokenPayment },
    /// Exit the farm position `farm_token`, named in the arguments.
    ExitFarm { farm_token: TokenPayment },
    /// Claim the rewards of `payment`, farm tokens transferred along.
    ClaimRewards { payment: TokenPayment },
    /// Compound the rewards of `payment`, farm tokens transferred along.
    CompoundRewards { payment: TokenPayment },
}

/// A call of the farm at `farm_address`.
#[derive(Debug, PartialEq, Eq)]
pub struct FarmRequest {
    pub farm_address: Vec<u8>,
    pub call: FarmCall,
}

/// The work of entering a farm: mint asset tokens first when
/// `asset_mint` says so, then make the call.
#[derive(Debug, PartialEq, Eq)]
pub struct EnterFarmCall {
    pub asset_mint: Option<Amount>,
    pub request: FarmRequest,
}

/// Where the farming token of an entry comes from.
#[derive(Debug, PartialEq, Eq)]
pub enum FarmingToken {
    /// The LP token in the attributes of the wrapped LP tokens paid, which
    /// the pair module reads.
    LpTokenOfPayment,
    /// The asset token, for a payment of locked asset tokens.
    Asset(Vec<u8>),
}

/// An entry into a farm whose checks passed.
#[derive(Debug, PartialEq, Eq)]
pub struct EnterFarmPlan {
    pub farm_address: Vec<u8>,
    pub with_lock_rewards: bool,
    /// The payment to enter with.
    pub payment: TokenPayment,
    pub farming_token: FarmingToken,
    /// The other payments received: wrapped farm tokens to merge with the
    /// new one.
    pub additional_payments: Vec<TokenPayment>,
}

/// An exit from a farm whose checks passed: the wrapped farm tokens paid.
#[derive(Debug, PartialEq, Eq)]
pub struct ExitFarmPlan {
    pub farm_address: Vec<u8>,
    pub payment: TokenPayment,
}

/// What remains to do once the farm has been exited, in this order.
#[derive(Debug, PartialEq, Eq)]
pub struct ExitFarmSettlement {
    /// Return the farming tokens to the caller.
    pub farming_token_transfer: Option<MultiTransfer>,
    /// Send the rewards to the caller.
    pub reward_token_transfer: Option<MultiTransfer>,
    /// Burn the wrapped farm tokens paid.
    pub wrapped_farm_token_burn: TokenPayment,
    /// Burn this amount of asset tokens, when the farm returned asset tokens.
    pub asset_token_burn: Option<Amount>,
}

/// A claim or a compounding of rewards whose checks passed: the wrapped
/// farm tokens paid first, and the other payments.
#[derive(Debug, PartialEq, Eq)]
pub struct RewardsPlan {
    pub farm_address: Vec<u8>,
    pub payment: TokenPayment,
    pub additional_payments: Vec<TokenPayment>,
}

/// What remains to do once the rewards are claimed or compounded, in this
/// order: merge and send the new wrapped farm tokens, burn the old ones.
#[derive(Debug, PartialEq, Eq)]
pub struct RewardsSettlement {
    pub merge: MergeRequest,
    pub wrapped_farm_token_burn: TokenPayment,
}

/// The storage that the proxy farm endpoints read; a token identifier
/// that is not set is empty, and the intermediated farms are in the order
/// they were added.
pub struct ProxyStorageView {
    pub transfer_exec_gas_limit: u64,
    pub intermediated_farms: Seq<Seq<u8>>,
    pub wrapped_farm_token_id: Seq<u8>,
    pub wrapped_lp_token_id: Seq<u8>,
    pub locked_asset_token_id: Seq<u8>,
    pub asset_token_id: Seq<u8>,
}

/// The views of a sequence of byte strings.
pub open spec fn bytes_seq_view(s: Seq<Vec<u8>>) -> Seq<Seq<u8>> {
    s.map_values(|b: Vec<u8>| b@)
}

/// The intermediated farms after `farm` is added: unchanged when it is
/// there already, else with `farm` last.
pub open spec fn farms_with(farms: Seq<Seq<u8>>, farm: Seq<u8>) -> Seq<Seq<u8>> {
    if farms.contains(farm) {
        farms
    } else {
        farms.push(farm)
    }
}

/// The intermediated farms after `farm` is removed; the others keep their order.
pub open spec fn farms_without(farms: Seq<Seq<u8>>, farm: Seq<u8>) -> Seq<Seq<u8>> {
    farms.remove(farms.index_of(farm))
}

/// The check that all proxy endpoints make first: the farm is intermediated,
/// the wrapped farm token is issued, and the wrapped LP token check of the
/// pair module passes.
pub open spec fn endpoint_check(
    s: ProxyStorageView,
    farm_address: Seq<u8>,
    wrapped_lp_token_id_check: Result<(), ProxyError>,
) -> Result<(), ProxyError> {
    if !s.intermediated_farms.contains(farm_address) {
        Err(ProxyError::NotIntermediatedFarm)
    } else if s.wrapped_farm_token_id.len() == 0 {
        Err(ProxyError::EmptyTokenId)
    } else {
        wrapped_lp_token_id_check
    }
}

/// `t` is the transfer of `amount` of `token` with `nonce` to `to`, with no
/// call after it; there is none when the amount is zero.
pub open spec fn is_plain_transfer(
    t: Option<MultiTransfer>,
    to: Seq<u8>,
    token: Seq<u8>,
    nonce: u64,
    amount: nat,
) -> bool {
    &&& t is None <==> amount == 0
    &&& t matches Some(t) ==> {
        &&& t.destination@ == to
        &&& payments_view(t.payments@) == seq![
            PaymentView { token_identifier: token, token_nonce: nonce, amount },
        ]
        &&& t.endpoint_name@ == Seq::<u8>::empty()
        &&& t.gas_limit == 0
    }
}

/// `m` asks to merge a new wrapped farm token, of `amount` with
/// `attributes`, with the wrapped farm tokens of `additional_payments`.
pub open spec fn is_merge_request(
    m: MergeRequest,
    s: ProxyStorageView,
    attributes: AttributesView,
    amount: nat,
    farm_address: Seq<u8>,
    caller: Seq<u8>,
    additional_payments: Seq<PaymentView>,
) -> bool {
    &&& m.caller@ == caller
    &&& m.farm_address@ == farm_address
    &&& payments_view(m.additional_payments@) == additional_payments
    &&& m.new_token.token_amount@ == (PaymentView {
        token_identifier: s.wrapped_farm_token_id,
        token_nonce: 0,
        amount,
    })
    &&& m.new_token.attributes@ == attributes
}

/// The attributes of the wrapped farm token of a position that went on
/// into `new_farm_token`: the farming token stays, its amount becomes
/// `farming_token_amount`.
pub open spec fn rewarded_attributes(
    old_attributes: AttributesView,
    new_farm_token: PaymentView,
    farming_token_amount: nat,
) -> AttributesView {
    AttributesView {
        farm_token_id: new_farm_token.token_identifier,
        farm_token_nonce: new_farm_token.token_nonce,
        farm_token_amount: new_farm_token.amount,
        farming_token_id: old_attributes.farming_token_id,
        farming_token_nonce: old_attributes.farming_token_nonce,
        farming_token_amount,
    }
}

/// `settlement` merges and sends the wrapped farm token of the position
/// that went on into `new_farm_token`, and burns the wrapped farm tokens
/// paid.
pub open spec fn is_rewards_settlement(
    settlement: RewardsSettlement,
    s: ProxyStorageView,
    plan: RewardsPlan,
    old_attributes: AttributesView,
    new_farm_token: PaymentView,
    farming_token_amount: nat,
    caller: Seq<u8>,
) -> bool {
    &&& is_merge_request(
        settlement.merge,
        s,
        rewarded_attributes(old_attributes, new_farm_token, farming_token_amount),
        new_farm_token.amount,
        plan.farm_address@,
        caller,
        payments_view(plan.additional_payments@),
    )
    &&& settlement.wrapped_farm_token_burn@ == plan.payment@
}

/// The outcome of the checks of a claim or a compounding of rewards.
pub open spec fn rewards_checks(
    s: ProxyStorageView,
    farm_address: Seq<u8>,
    wrapped_lp_token_id_check: Result<(), ProxyError>,
    payments: Seq<PaymentView>,
) -> Result<(), ProxyError> {
    match endpoint_check(s, farm_address, wrapped_lp_token_id_check) {
        Err(e) => Err(e),
        Ok(_) => if payments.len() == 0 {
            Err(ProxyError::BadPaymentLen)
        } else if payments[0].amount == 0 {
            Err(ProxyError::ZeroPaymentAmount)
        } else if payments[0].token_identifier != s.wrapped_farm_token_id {
            Err(ProxyError::NotWrappedFarmToken)
        } else {
            Ok(())
        },
    }
}

/// `plan` is the claim or compounding of the first of `payments` at
/// `farm_address`.
pub open spec fn is_rewards_plan(plan: RewardsPlan, farm_address: Seq<u8>, payments: Seq<PaymentView>) -> bool {
    &&& plan.farm_address@ == farm_address
    &&& plan.payment@ == payments[0]
    &&& payments_view(plan.additional_payments@) == payments.skip(1)
}

/// The outcome of the checks of an entry into a farm.
pub open spec fn enter_checks(
    s: ProxyStorageView,
    farm_address: Seq<u8>,
    wrapped_lp_token_id_check: Result<(), ProxyError>,
    payments: Seq<PaymentView>,
) -> Result<(), ProxyError> {
    match endpoint_check(s, farm_address, wrapped_lp_token_id_check) {
        Err(e) => Err(e),
        Ok(_) => if payments.len() == 0 {
            Err(ProxyError::BadPaymentLen)
        } else if payments[0].amount == 0 {
            Err(ProxyError::ZeroPaymentAmount)
        } else if payments[0].token_identifier != s.wrapped_lp_token_id
            && payments[0].token_identifier != s.locked_asset_token_id {
            Err(ProxyError::UnknownInputToken)
        } else {
            Ok(())
        },
    }
}

/// `plan` is the entry into the farm at `farm_address` with the first of
/// `payments`; its farming token is the LP token behind wrapped LP tokens,
/// and the asset token for locked asset tokens.
pub open spec fn is_enter_plan(
    plan: EnterFarmPlan,
    s: ProxyStorageView,
    farm_address: Seq<u8>,
    with_lock_rewards: bool,
    payments: Seq<PaymentView>,
) -> bool {
    &&& plan.farm_address@ == farm_address
    &&& plan.with_lock_rewards == with_lock_rewards
    &&& plan.payment@ == payments[0]
    &&& payments_view(plan.additional_payments@) == payments.skip(1)
    &&& if payments[0].token_identifier == s.wrapped_lp_token_id {
        plan.farming_token is LpTokenOfPayment
    } else {
        plan.farming_token matches FarmingToken::Asset(t) && t@ == s.asset_token_id
    }
}

/// An entry is planned only for a first payment of wrapped LP tokens or of
/// locked asset tokens; once the endpoint's own checks pass, a non-zero first
/// payment of any other token is refused as an unknown input token,
/// whatever its nonce.
pub proof fn lemma_entry_takes_only_known_tokens(
    s: ProxyStorageView,
    farm_address: Seq<u8>,
    wrapped_lp_token_id_check: Result<(), ProxyError>,
    payments: Seq<PaymentView>,
)
    ensures
        enter_checks(s, farm_address, wrapped_lp_token_id_check, payments) is Ok ==> {
            &&& s.intermediated_farms.contains(farm_address)
            &&& s.wrapped_farm_token_id.len() > 0
            &&& wrapped_lp_token_id_check is Ok
            &&& payments.len() >= 1
            &&& payments[0].amount > 0
            &&& (payments[0].token_identifier == s.wrapped_lp_token_id || payments[0].token_identifier
                == s.locked_asset_token_id)
        },
        ({
            &&& s.intermediated_farms.contains(farm_address)
            &&& s.wrapped_farm_token_id.len() > 0
            &&& wrapped_lp_token_id_check is Ok
            &&& payments.len() >= 1
            &&& payments[0].amount > 0
            &&& payments[0].token_identifier != s.wrapped_lp_token_id
            &&& payments[0].token_identifier != s.locked_asset_token_id
        }) ==> enter_checks(s, farm_address, wrapped_lp_token_id_check, payments) == Err::<(), ProxyError>(
            ProxyError::UnknownInputToken,
        ),
{
}

/// A claim or a compounding takes any number of wrapped farm tokens after
/// the first one to merge: once the endpoint's own checks pass, it is
/// refused for its number of payments exactly when there is none, and a
/// non-zero first payment of the wrapped farm token is accepted, with all
/// the other payments to merge, in their order.
pub proof fn lemma_rewards_take_any_number_of_payments(
    s: ProxyStorageView,
    farm_address: Seq<u8>,
    wrapped_lp_token_id_check: Result<(), ProxyError>,
    payments: Seq<PaymentView>,
    plan: RewardsPlan,
)
    ensures
        ({
            &&& s.intermediated_farms.contains(farm_address)
            &&& s.wrapped_farm_token_id.len() > 0
            &&& wrapped_lp_token_id_check is Ok
        }) ==> (rewards_checks(s, farm_address, wrapped_lp_token_id_check, payments) == Err::<(), ProxyError>(
            ProxyError::BadPaymentLen,
        ) <==> payments.len() == 0),
        ({
            &&& s.intermediated_farms.contains(farm_address)
            &&& s.wrapped_farm_token_id.len() > 0
            &&& wrapped_lp_token_id_check is Ok
            &&& payments.len() >= 1
            &&& payments[0].amount > 0
            &&& payments[0].token_identifier == s.wrapped_farm_token_id
        }) ==> rewards_checks(s, farm_address, wrapped_lp_token_id_check, payments) is Ok,
        payments.len() >= 1 && is_rewards_plan(plan, farm_address, payments) ==> {
            &&& plan.additional_payments.len() + 1 == payments.len()
            &&& forall|k: int|
                0 <= k < plan.additional_payments.len() ==> (#[trigger] plan.additional_payments@[k])@
                    == payments[k + 1]
        },
{
    if payments.len() >= 1 && is_rewards_plan(plan, farm_address, payments) {
        let ap = payments_view(plan.additional_payments@);
        assert(ap.len() == plan.additional_payments.len());
        assert forall|k: int| 0 <= k < plan.additional_payments.len() implies (
        #[trigger] plan.additional_payments@[k])@ == payments[k + 1] by {
            assert(ap[k] == plan.additional_payments@[k]@);
            assert(payments.skip(1)[k] == payments[k + 1]);
        }
    }
}

/// A farm that is added is intermediated afterwards, the farms that were
/// intermediated still are, and no farm is there twice.
pub proof fn lemma_added_farm_is_intermediated(farms: Seq<Seq<u8>>, farm: Seq<u8>)
    requires
        farms.no_duplicates(),
    ensures
        farms_with(farms, farm).contains(farm),
        farms_with(farms, farm).no_duplicates(),
        forall|f: Seq<u8>| farms.contains(f) ==> #[trigger] farms_with(farms, farm).contains(f),
{
    if !farms.contains(farm) {
        let added = farms.push(farm);
        assert(added[farms.len() as int] == farm);
        assert forall|f: Seq<u8>| farms.contains(f) implies #[trigger] added.contains(f) by {
            let i = choose|i: int| 0 <= i < farms.len() && farms[i] == f;
            assert(added[i] == f);
        }
    }
}

/// A farm that is removed is no longer intermediated, every other farm is
/// intermediated exactly when it was before, and no farm is there twice.
pub proof fn lemma_removed_farm_is_not_intermediated(farms: Seq<Seq<u8>>, farm: Seq<u8>)
    requires
        farms.no_duplicates(),
        farms.contains(farm),
    ensures
        !farms_without(farms, farm).contains(farm),
        farms_without(farms, farm).no_duplicates(),
        forall|f: Seq<u8>| f != farm ==> (#[trigger] farms_without(farms, farm).contains(f) <==> farms.contains(f)),
{
    let k = farms.index_of(farm);
    let rest = farms_without(farms, farm);
    assert(rest.len() == farms.len() - 1);
    assert forall|i: int| 0 <= i < rest.len() implies #[trigger] rest[i] == (if i < k {
        farms[i]
    } else {
        farms[i + 1]
    }) by {}
    if rest.contains(farm) {
        let i = choose|i: int| 0 <= i < rest.len() && rest[i] == farm;
        if i < k {
            assert(farms[i] == farms[k]);
        } else {
            assert(farms[i + 1] == farms[k]);
        }
    }
    assert forall|f: Seq<u8>| f != farm implies (#[trigger] rest.contains(f) <==> farms.contains(f)) by {
        if farms.contains(f) {
            let j = choose|j: int| 0 <= j < farms.len() && farms[j] == f;
            if j < k {
                assert(rest[j] == f);
            } else {
                assert(j != k);
                assert(rest[j - 1] == f);
            }
        }
        if rest.contains(f) {
            let i = choose|i: int| 0 <= i < rest.len() && rest[i] == f;
            if i < k {
                assert(farms[i] == f);
            } else {
                assert(farms[i + 1] == f);
            }
        }
    }
    assert forall|a: int, b: int| 0 <= a < rest.len() && 0 <= b < rest.len() && a != b implies rest[a]
        != rest[b] by {
        let fa = if a < k { a } else { a + 1 };
        let fb = if b < k { b } else { b + 1 };
        assert(rest[a] == farms[fa]);
        assert(rest[b] == farms[fb]);
    }
}

/// Adding a farm that is not intermediated and then removing it leaves the
/// intermediated farms as they were.
pub proof fn lemma_add_then_remove_farm(farms: Seq<Seq<u8>>, farm: Seq<u8>)
    requires
        farms.no_duplicates(),
        !farms.contains(farm),
    ensures
        farms_without(farms_with(farms, farm), farm) == farms,
{
    let added = farms.push(farm);
    assert(added[farms.len() as int] == farm);
    assert(added.contains(farm));
    let k = added.index_of(farm);
    if k < farms.len() {
        assert(farms[k] == farm);
    }
    assert(added.remove(k) =~= farms);
}

/// The farming token of an entry: the LP token read from the attributes of
/// the wrapped LP tokens paid, or the asset token.
pub open spec fn entry_farming_token(farming_token: FarmingToken, lp_token_id: Seq<u8>) -> Seq<u8> {
    match farming_token {
        FarmingToken::LpTokenOfPayment => lp_token_id,
        FarmingToken::Asset(t) => t@,
    }
}

/// `payment` is `amount` of the farm position recorded in `attributes`:
/// that farm token, with that nonce.
pub open spec fn is_position_payment(payment: PaymentView, attributes: AttributesView, amount: nat) -> bool {
    payment == (PaymentView {
        token_identifier: attributes.farm_token_id,
        token_nonce: attributes.farm_token_nonce,
        amount,
    })
}

/// The attributes of the wrapped farm token of a new position: the farm
/// tokens received, and the tokens paid to enter.
pub open spec fn entry_attributes(farm_token_received: PaymentView, payment: PaymentView) -> AttributesView {
    AttributesView {
        farm_token_id: farm_token_received.token_identifier,
        farm_token_nonce: farm_token_received.token_nonce,
        farm_token_amount: farm_token_received.amount,
        farming_token_id: payment.token_identifier,
        farming_token_nonce: payment.token_nonce,
        farming_token_amount: payment.amount,
    }
}

/// The attributes of a position after its rewards were claimed or
/// compounded into each of `new_farm_tokens` in turn, with the farming
/// token amounts `farming_token_amounts`.
pub open spec fn attributes_after_rewards(
    attributes: AttributesView,
    new_farm_tokens: Seq<PaymentView>,
    farming_token_amounts: Seq<nat>,
) -> AttributesView
    decreases new_farm_tokens.len(),
{
    if new_farm_tokens.len() == 0 || farming_token_amounts.len() == 0 {
        attributes
    } else {
        rewarded_attributes(
            attributes_after_rewards(attributes, new_farm_tokens.drop_last(), farming_token_amounts.drop_last()),
            new_farm_tokens.last(),
            farming_token_amounts.last(),
        )
    }
}

/// A position keeps the token it was entered with through any number of
/// claims and compoundings of its rewards, so that exiting it gives back
/// that token with that nonce.
pub proof fn lemma_position_keeps_farming_token(
    farm_token_received: PaymentView,
    payment: PaymentView,
    new_farm_tokens: Seq<PaymentView>,
    farming_token_amounts: Seq<nat>,
)
    ensures
        attributes_after_rewards(
            entry_attributes(farm_token_received, payment),
            new_farm_tokens,
            farming_token_amounts,
        ).farming_token_id == payment.token_identifier,
        attributes_after_rewards(
            entry_attributes(farm_token_received, payment),
            new_farm_tokens,
            farming_token_amounts,
        ).farming_token_nonce == payment.token_nonce,
    decreases new_farm_tokens.len(),
{
    if new_farm_tokens.len() > 0 && farming_token_amounts.len() > 0 {
        lemma_position_keeps_farming_token(
            farm_token_received,
            payment,
            new_farm_tokens.drop_last(),
            farming_token_amounts.drop_last(),
        );
    }
}

/// A farm that is not intermediated, such as one just removed, is refused
/// by every proxy endpoint before anything else is checked.
pub proof fn lemma_unknown_farm_is_refused(
    s: ProxyStorageView,
    farm_address: Seq<u8>,
    wrapped_lp_token_id_check: Result<(), ProxyError>,
    payments: Seq<PaymentView>,
)
    requires
        !s.intermediated_farms.contains(farm_address),
    ensures
        endpoint_check(s, farm_address, wrapped_lp_token_id_check) == Err::<(), ProxyError>(
            ProxyError::NotIntermediatedFarm,
        ),
        enter_checks(s, farm_address, wrapped_lp_token_id_check, payments) == Err::<(), ProxyError>(
            ProxyError::NotIntermediatedFarm,
        ),
        rewards_checks(s, farm_address, wrapped_lp_token_id_check, payments) == Err::<(), ProxyError>(
            ProxyError::NotIntermediatedFarm,
        ),
{
}

/// The checks that every proxy endpoint makes first pass exactly when the
/// farm is intermediated, the wrapped farm token is issued and the pair
/// module's check passed; an intermediated farm with an unissued wrapped
/// farm token is refused for the token, and otherwise the pair module's
/// error is given back.
pub proof fn lemma_endpoint_check_passes(
    s: ProxyStorageView,
    farm_address: Seq<u8>,
    wrapped_lp_token_id_check: Result<(), ProxyError>,
)
    ensures
        endpoint_check(s, farm_address, wrapped_lp_token_id_check) is Ok <==> ({
            &&& s.intermediated_farms.contains(farm_address)
            &&& s.wrapped_farm_token_id.len() > 0
            &&& wrapped_lp_token_id_check is Ok
        }),
        s.intermediated_farms.contains(farm_address) && s.wrapped_farm_token_id.len() == 0 ==> endpoint_check(
            s,
            farm_address,
            wrapped_lp_token_id_check,
        ) == Err::<(), ProxyError>(ProxyError::EmptyTokenId),
        s.intermediated_farms.contains(farm_address) && s.wrapped_farm_token_id.len() > 0
            && wrapped_lp_token_id_check is Err ==> endpoint_check(s, farm_address, wrapped_lp_token_id_check)
            == wrapped_lp_token_id_check,
{
}

/// The proxy farm module of the contract: the endpoints that enter a farm
/// through the proxy with wrapped LP or locked asset tokens, exit it, and
/// claim or compound its rewards, holding the farm position in wrapped farm
/// tokens. Its storage is reached through the first methods.
///
/// The first step of each endpoint takes `wrapped_lp_token_id_check`, the
/// outcome of the pair module's check that the wrapped LP token is issued,
/// and fails with it in its turn among the other checks.
pub trait ProxyFarmModule: TokenSendModule {
    /// The storage that the endpoints read.
    spec fn proxy_storage(&self) -> ProxyStorageView;

    /// Whether `address` is an intermediated farm.
    fn intermediated_farms_contains(&self, address: &Vec<u8>) -> (r: bool)
        ensures
            r == self.proxy_storage().intermediated_farms.contains(address@),
    ;

    /// Adds `address` to the intermediated farms when it is not one yet.
    fn intermediated_farms_insert(&mut self, address: Vec<u8>)
        ensures
            final(self).proxy_storage() == (ProxyStorageView {
                intermediated_farms: farms_with(old(self).proxy_storage().intermediated_farms, address@),
                ..old(self).proxy_storage()
            }),
            final(self).spec_transfer_exec_gas_limit() == old(self).spec_transfer_exec_gas_limit(),
    ;

    /// Removes `address` from the intermediated farms when it is one.
    fn intermediated_farms_remove(&mut self, address: &Vec<u8>)
        ensures
            final(self).proxy_storage() == (if old(self).proxy_storage().intermediated_farms.contains(address@) {
                ProxyStorageView {
                    intermediated_farms: farms_without(old(self).proxy_storage().intermediated_farms, address@),
                    ..old(self).proxy_storage()
                }
            } else {
                old(self).proxy_storage()
            }),
            final(self).spec_transfer_exec_gas_limit() == old(self).spec_transfer_exec_gas_limit(),
    ;

    /// The identifier of the wrapped farm token; empty when not issued.
    fn wrapped_farm_token_id(&self) -> (t: &Vec<u8>)
        ensures
            t@ == self.proxy_storage().wrapped_farm_token_id,
    ;

    /// The identifier of the wrapped LP token.
    fn wrapped_lp_token_id(&self) -> (t: &Vec<u8>)
        ensures
            t@ == self.proxy_storage().wrapped_lp_token_id,
    ;

    /// The identifier of the locked asset token.
    fn locked_asset_token_id(&self) -> (t: &Vec<u8>)
        ensures
            t@ == self.proxy_storage().locked_asset_token_id,
    ;

    /// The identifier of the asset token.
    fn asset_token_id(&self) -> (t: &Vec<u8>)
        ensures
            t@ == self.proxy_storage().asset_token_id,
    ;

    /// Adds a farm to the intermediated farms (owner only).
    fn add_farm_to_intermediate(&mut self, farm_address: Vec<u8>)
        ensures
            final(self).proxy_storage() == (ProxyStorageView {
                intermediated_farms: farms_with(old(self).proxy_storage().intermediated_farms, farm_address@),
                ..old(self).proxy_storage()
            }),
            final(self).spec_transfer_exec_gas_limit() == old(self).spec_transfer_exec_gas_limit(),
    {
        self.intermediated_farms_insert(farm_address);
    }

    /// Removes a farm from the intermediated farms (owner only); fails when
    /// it is not one of them.
    fn remove_intermediated_farm(&mut self, farm_address: &Vec<u8>) -> (r: Result<(), ProxyError>)
        ensures
            old(self).proxy_storage().intermediated_farms.contains(farm_address@) ==> r is Ok
                && final(self).proxy_storage() == (ProxyStorageView {
                intermediated_farms: farms_without(old(self).proxy_storage().intermediated_farms, farm_address@),
                ..old(self).proxy_storage()
            }),
            !old(self).proxy_storage().intermediated_farms.contains(farm_address@) ==> r == Err::<
                (),
                ProxyError,
            >(ProxyError::NotIntermediatedFarm) && final(self).proxy_storage() == old(self).proxy_storage(),
            final(self).spec_transfer_exec_gas_limit() == old(self).spec_transfer_exec_gas_limit(),
    {
        self.require_is_intermediated_farm(farm_address)?;
        self.intermediated_farms_remove(farm_address);
        Ok(())
    }

    /// Fails unless `address` is an intermediated farm.
    fn require_is_intermediated_farm(&self, address: &Vec<u8>) -> (r: Result<(), ProxyError>)
        ensures
            r == (if self.proxy_storage().intermediated_farms.contains(address@) {
                Ok::<(), ProxyError>(())
            } else {
                Err(ProxyError::NotIntermediatedFarm)
            }),
    {
        if self.intermediated_farms_contains(address) {
            Ok(())
        } else {
            Err(ProxyError::NotIntermediatedFarm)
        }
    }

    /// Fails when the wrapped farm token is not issued.
    fn require_wrapped_farm_token_id_not_empty(&self) -> (r: Result<(), ProxyError>)
        ensures
            r == (if self.proxy_storage().wrapped_farm_token_id.len() == 0 {
                Err(ProxyError::EmptyTokenId)
            } else {
                Ok::<(), ProxyError>(())
            }),
    {
        if self.wrapped_farm_token_id().len() == 0 {
            Err(ProxyError::EmptyTokenId)
        } else {
            Ok(())
        }
    }

    /// Checks an entry into the farm at `farm_address` with the first of
    /// `payments`, which must be wrapped LP tokens or locked asset tokens.
    fn enter_farm_proxy(
        &self,
        farm_address: &Vec<u8>,
        with_lock_rewards: bool,
        wrapped_lp_token_id_check: Result<(), ProxyError>,
        payments: &Vec<TokenPayment>,
    ) -> (r: Result<EnterFarmPlan, ProxyError>)
        ensures
            match enter_checks(self.proxy_storage(), farm_address@, wrapped_lp_token_id_check, payments_view(payments@)) {
                Err(e) => r == Err::<EnterFarmPlan, ProxyError>(e),
                Ok(_) => r matches Ok(plan) && is_enter_plan(
                    plan,
                    self.proxy_storage(),
                    farm_address@,
                    with_lock_rewards,
                    payments_view(payments@),
                ),
            },
            r is Ok ==> payments.len() >= 1 && payments@[0].amount@ > 0 && (payments@[0].token_identifier@
                == self.proxy_storage().wrapped_lp_token_id || payments@[0].token_identifier@
                == self.proxy_storage().locked_asset_token_id),
            ({
                &&& self.proxy_storage().intermediated_farms.contains(farm_address@)
                &&& self.proxy_storage().wrapped_farm_token_id.len() > 0
                &&& wrapped_lp_token_id_check is Ok
                &&& payments.len() >= 1
                &&& payments@[0].amount@ > 0
                &&& payments@[0].token_identifier@ != self.proxy_storage().wrapped_lp_token_id
                &&& payments@[0].token_identifier@ != self.proxy_storage().locked_asset_token_id
            }) ==> r == Err::<EnterFarmPlan, ProxyError>(ProxyError::UnknownInputToken),
            r matches Ok(plan) ==> (plan.farming_token is LpTokenOfPayment <==> payments@[0].token_identifier@
                == self.proxy_storage().wrapped_lp_token_id),
    {
        self.require_is_intermediated_farm(farm_address)?;
        self.require_wrapped_farm_token_id_not_empty()?;
        wrapped_lp_token_id_check?;
        if payments.len() < 1 {
            return Err(ProxyError::BadPaymentLen);
        }
        let payment = &payments[0];
        assert(payments_view(payments@)[0] == payment@);
        if payment.amount.is_zero() {
            return Err(ProxyError::ZeroPaymentAmount);
        }
        let farming_token = if bytes_eq(&payment.token_identifier, self.wrapped_lp_token_id()) {
            FarmingToken::LpTokenOfPayment
        } else if bytes_eq(&payment.token_identifier, self.locked_asset_token_id()) {
            FarmingToken::Asset(copy_bytes(self.asset_token_id()))
        } else {
            return Err(ProxyError::UnknownInputToken);
        };
        Ok(EnterFarmPlan {
            farm_address: copy_bytes(farm_address),
            with_lock_rewards,
            payment: payment.clone(),
            farming_token,
            additional_payments: copy_payments(payments, 1),
        })
    }

    /// The `enterFarmProxy` endpoint: an entry that leaves the rewards unlocked.
    fn enter_farm_proxy_endpoint(
        &self,
        farm_address: &Vec<u8>,
        wrapped_lp_token_id_check: Result<(), ProxyError>,
        payments: &Vec<TokenPayment>,
    ) -> (r: Result<EnterFarmPlan, ProxyError>)
        ensures
            match enter_checks(self.proxy_storage(), farm_address@, wrapped_lp_token_id_check, payments_view(payments@)) {
                Err(e) => r == Err::<EnterFarmPlan, ProxyError>(e),
                Ok(_) => r matches Ok(plan) && is_enter_plan(plan, self.proxy_storage(), farm_address@, false, payments_view(payments@)),
            },
    {
        self.enter_farm_proxy(farm_address, false, wrapped_lp_token_id_check, payments)
    }

    /// The `enterFarmAndLockRewardsProxy` endpoint: an entry that locks the
    /// rewards.
    fn enter_farm_and_lock_rewards_proxy_endpoint(
        &self,
        farm_address: &Vec<u8>,
        wrapped_lp_token_id_check: Result<(), ProxyError>,
        payments: &Vec<TokenPayment>,
    ) -> (r: Result<EnterFarmPlan, ProxyError>)
        ensures
            match enter_checks(self.proxy_storage(), farm_address@, wrapped_lp_token_id_check, payments_view(payments@)) {
                Err(e) => r == Err::<EnterFarmPlan, ProxyError>(e),
                Ok(_) => r matches Ok(plan) && is_enter_plan(plan, self.proxy_storage(), farm_address@, true, payments_view(payments@)),
            },
    {
        self.enter_farm_proxy(farm_address, true, wrapped_lp_token_id_check, payments)
    }

    /// The work of entering the farm at `farm_address` with `amount` of
    /// `farming_token_id`: asset tokens are minted first, then the farm is
    /// called with the tokens transferred along.
    fn actual_enter_farm(
        &self,
        farm_address: &Vec<u8>,
        farming_token_id: &Vec<u8>,
        amount: &Amount,
        with_locked_rewards: bool,
    ) -> (r: EnterFarmCall)
        ensures
            r.asset_mint is Some <==> farming_token_id@ == self.proxy_storage().asset_token_id,
            r.asset_mint matches Some(m) ==> m@ == amount@,
            r.request.farm_address@ == farm_address@,
            with_locked_rewards ==> (r.request.call matches FarmCall::EnterFarmAndLockRewards { payment }
                && payment@ == (PaymentView { token_identifier: farming_token_id@, token_nonce: 0, amount: amount@ })),
            !with_locked_rewards ==> (r.request.call matches FarmCall::EnterFarm { payment } && payment@
                == (PaymentView { token_identifier: farming_token_id@, token_nonce: 0, amount: amount@ })),
    {
        let asset_mint = if bytes_eq(farming_token_id, self.asset_token_id()) {
            Some(amount.clone())
        } else {
            None
        };
        let payment = self.create_payment(farming_token_id, 0, amount);
        let call = if with_locked_rewards {
            FarmCall::EnterFarmAndLockRewards { payment }
        } else {
            FarmCall::EnterFarm { payment }
        };
        EnterFarmCall { asset_mint, request: FarmRequest { farm_address: copy_bytes(farm_address), call } }
    }

    /// The work of an entry whose checks passed: the farming token, which
    /// for wrapped LP tokens is `lp_token_id` as read from their attributes,
    /// enters the farm in the amount of the first payment only.
    fn enter_farm_proxy_call(&self, plan: &EnterFarmPlan, lp_token_id: &Vec<u8>) -> (r: EnterFarmCall)
        ensures
            r.asset_mint is Some <==> entry_farming_token(plan.farming_token, lp_token_id@)
                == self.proxy_storage().asset_token_id,
            r.asset_mint matches Some(m) ==> m@ == plan.payment.amount@,
            r.request.farm_address@ == plan.farm_address@,
            plan.with_lock_rewards ==> (r.request.call matches FarmCall::EnterFarmAndLockRewards {
                payment,
            } && payment@ == (PaymentView {
                token_identifier: entry_farming_token(plan.farming_token, lp_token_id@),
                token_nonce: 0,
                amount: plan.payment.amount@,
            })),
            !plan.with_lock_rewards ==> (r.request.call matches FarmCall::EnterFarm { payment }
                && payment@ == (PaymentView {
                token_identifier: entry_farming_token(plan.farming_token, lp_token_id@),
                token_nonce: 0,
                amount: plan.payment.amount@,
            })),
    {
        let farming_token_id = match &plan.farming_token {
            FarmingToken::LpTokenOfPayment => lp_token_id,
            FarmingToken::Asset(t) => t,
        };
        self.actual_enter_farm(
            &plan.farm_address,
            farming_token_id,
            &plan.payment.amount,
            plan.with_lock_rewards,
        )
    }

    /// The new wrapped farm token of `amount` with `attributes`, to merge
    /// with the wrapped farm tokens of `additional_payments` and send to
    /// `caller`.
    fn create_wrapped_farm_tokens_by_merging_and_send(
        &self,
        attributes: &WrappedFarmTokenAttributes,
        amount: &Amount,
        farm_address: &Vec<u8>,
        caller: &Vec<u8>,
        additional_payments: &Vec<TokenPayment>,
    ) -> (m: MergeRequest)
        ensures
            is_merge_request(
                m,
                self.proxy_storage(),
                attributes@,
                amount@,
                farm_address@,
                caller@,
                payments_view(additional_payments@),
            ),
    {
        let additional = copy_payments(additional_payments, 0);
        assert(payments_view(additional_payments@).skip(0) =~= payments_view(additional_payments@));
        MergeRequest {
            caller: copy_bytes(caller),
            farm_address: copy_bytes(farm_address),
            additional_payments: additional,
            new_token: WrappedFarmToken {
                token_amount: self.create_payment(self.wrapped_farm_token_id(), 0, amount),
                attributes: attributes.duplicate(),
            },
        }
    }

    /// Settles an entry once the farm returned `farm_token_received`: fails
    /// when it returned none; else the wrapped farm token records the farm
    /// tokens received and the tokens paid.
    fn enter_farm_proxy_finish(
        &self,
        plan: &EnterFarmPlan,
        farm_token_received: &TokenPayment,
        caller: &Vec<u8>,
    ) -> (r: Result<MergeRequest, ProxyError>)
        ensures
            farm_token_received.amount@ == 0 ==> r == Err::<MergeRequest, ProxyError>(
                ProxyError::ZeroFarmTokenAmount,
            ),
            farm_token_received.amount@ > 0 ==> (r matches Ok(m) && is_merge_request(
                m,
                self.proxy_storage(),
                entry_attributes(farm_token_received@, plan.payment@),
                farm_token_received.amount@,
                plan.farm_address@,
                caller@,
                payments_view(plan.additional_payments@),
            )),
    {
        if farm_token_received.amount.is_zero() {
            return Err(ProxyError::ZeroFarmTokenAmount);
        }
        let attributes = WrappedFarmTokenAttributes {
            farm_token_id: copy_bytes(&farm_token_received.token_identifier),
            farm_token_nonce: farm_token_received.token_nonce,
            farm_token_amount: farm_token_received.amount.clone(),
            farming_token_id: copy_bytes(&plan.payment.token_identifier),
            farming_token_nonce: plan.payment.token_nonce,
            farming_token_amount: plan.payment.amount.clone(),
        };
        Ok(self.create_wrapped_farm_tokens_by_merging_and_send(
            &attributes,
            &farm_token_received.amount,
            &plan.farm_address,
            caller,
            &plan.additional_payments,
        ))
    }

    /// Checks an exit from the farm at `farm_address` with `amount` of the
    /// wrapped farm token `token_id` with `token_nonce`.
    fn exit_farm_proxy(
        &self,
        token_id: &Vec<u8>,
        token_nonce: u64,
        amount: &Amount,
        farm_address: &Vec<u8>,
        wrapped_lp_token_id_check: Result<(), ProxyError>,
    ) -> (r: Result<ExitFarmPlan, ProxyError>)
        ensures
            match endpoint_check(self.proxy_storage(), farm_address@, wrapped_lp_token_id_check) {
                Err(e) => r == Err::<ExitFarmPlan, ProxyError>(e),
                Ok(_) => if amount@ == 0 {
                    r == Err::<ExitFarmPlan, ProxyError>(ProxyError::ZeroPaymentAmount)
                } else if token_id@ != self.proxy_storage().wrapped_farm_token_id {
                    r == Err::<ExitFarmPlan, ProxyError>(ProxyError::NotWrappedFarmToken)
                } else {
                    r matches Ok(plan) && plan.farm_address@ == farm_address@ && plan.payment@ == (
                    PaymentView { token_identifier: token_id@, token_nonce, amount: amount@ })
                },
            },
    {
        self.require_is_intermediated_farm(farm_address)?;
        self.require_wrapped_farm_token_id_not_empty()?;
        wrapped_lp_token_id_check?;
        if amount.is_zero() {
            return Err(ProxyError::ZeroPaymentAmount);
        }
        if !bytes_eq(token_id, self.wrapped_farm_token_id()) {
            return Err(ProxyError::NotWrappedFarmToken);
        }
        Ok(ExitFarmPlan {
            farm_address: copy_bytes(farm_address),
            payment: self.create_payment(token_id, token_nonce, amount),
        })
    }

    /// The call that exits `amount` of the farm position `farm_token_id`
    /// with `farm_token_nonce` from the farm at `farm_address`.
    fn actual_exit_farm(
        &self,
        farm_address: &Vec<u8>,
        farm_token_id: &Vec<u8>,
        farm_token_nonce: u64,
        amount: &Amount,
    ) -> (r: FarmRequest)
        ensures
            r.farm_address@ == farm_address@,
            r.call matches FarmCall::ExitFarm { farm_token } && farm_token@ == (PaymentView {
                token_identifier: farm_token_id@,
                token_nonce: farm_token_nonce,
                amount: amount@,
            }),
    {
        FarmRequest {
            farm_address: copy_bytes(farm_address),
            call: FarmCall::ExitFarm {
                farm_token: self.create_payment(farm_token_id, farm_token_nonce, amount),
            },
        }
    }

    /// The farm call of an exit whose checks passed: the farm position recorded
    /// in the `attributes` of the wrapped farm tokens paid, in their amount.
    fn exit_farm_proxy_call(&self, plan: &ExitFarmPlan, attributes: &WrappedFarmTokenAttributes) -> (r: FarmRequest)
        ensures
            r.farm_address@ == plan.farm_address@,
            r.call matches FarmCall::ExitFarm { farm_token } && is_position_payment(
                farm_token@,
                attributes@,
                plan.payment.amount@,
            ),
    {
        self.actual_exit_farm(
            &plan.farm_address,
            &attributes.farm_token_id,
            attributes.farm_token_nonce,
            &plan.payment.amount,
        )
    }

    /// Settles an exit once the farm returned `farming_token_returned` and
    /// `reward_token_returned`: the caller gets back the farming tokens
    /// recorded in the `attributes` of the wrapped farm token, in the amount
    /// the farm returned, and the rewards; the wrapped farm tokens paid are
    /// burnt, and so are asset tokens that the farm returned.
    fn exit_farm_proxy_finish(
        &self,
        plan: &ExitFarmPlan,
        attributes: &WrappedFarmTokenAttributes,
        farming_token_returned: &TokenPayment,
        reward_token_returned: &TokenPayment,
        caller: &Vec<u8>,
    ) -> (r: ExitFarmSettlement)
        ensures
            is_plain_transfer(
                r.farming_token_transfer,
                caller@,
                attributes.farming_token_id@,
                attributes.farming_token_nonce,
                farming_token_returned.amount@,
            ),
            is_plain_transfer(
                r.reward_token_transfer,
                caller@,
                reward_token_returned.token_identifier@,
                reward_token_returned.token_nonce,
                reward_token_returned.amount@,
            ),
            r.wrapped_farm_token_burn@ == plan.payment@,
            r.asset_token_burn is Some <==> farming_token_returned.token_identifier@
                == self.proxy_storage().asset_token_id,
            r.asset_token_burn matches Some(b) ==> b@ == farming_token_returned.amount@,
    {
        let farming_token_transfer = self.transfer_execute_custom(
            caller,
            &attributes.farming_token_id,
            attributes.farming_token_nonce,
            &farming_token_returned.amount,
            &None,
        );
        let reward_token_transfer = self.transfer_execute_custom(
            caller,
            &reward_token_returned.token_identifier,
            reward_token_returned.token_nonce,
            &reward_token_returned.amount,
            &None,
        );
        let asset_token_burn = if bytes_eq(&farming_token_returned.token_identifier, self.asset_token_id()) {
            Some(farming_token_returned.amount.clone())
        } else {
            None
        };
        ExitFarmSettlement {
            farming_token_transfer,
            reward_token_transfer,
            wrapped_farm_token_burn: plan.payment.clone(),
            asset_token_burn,
        }
    }

    /// Checks a claim of the rewards of the farm at `farm_address` for the
    /// wrapped farm tokens paid first in `payments`.
    fn claim_rewards_proxy(
        &self,
        farm_address: &Vec<u8>,
        wrapped_lp_token_id_check: Result<(), ProxyError>,
        payments: &Vec<TokenPayment>,
    ) -> (r: Result<RewardsPlan, ProxyError>)
        ensures
            match rewards_checks(self.proxy_storage(), farm_address@, wrapped_lp_token_id_check, payments_view(payments@)) {
                Err(e) => r == Err::<RewardsPlan, ProxyError>(e),
                Ok(_) => r matches Ok(plan) && is_rewards_plan(plan, farm_address@, payments_view(payments@)),
            },
            ({
                &&& self.proxy_storage().intermediated_farms.contains(farm_address@)
                &&& self.proxy_storage().wrapped_farm_token_id.len() > 0
                &&& wrapped_lp_token_id_check is Ok
            }) ==> (r == Err::<RewardsPlan, ProxyError>(ProxyError::BadPaymentLen) <==> payments.len() == 0),
            ({
                &&& self.proxy_storage().intermediated_farms.contains(farm_address@)
                &&& self.proxy_storage().wrapped_farm_token_id.len() > 0
                &&& wrapped_lp_token_id_check is Ok
                &&& payments.len() >= 1
                &&& payments@[0].amount@ > 0
                &&& payments@[0].token_identifier@ == self.proxy_storage().wrapped_farm_token_id
            }) ==> (r matches Ok(plan) && plan.payment@ == payments@[0]@ && plan.additional_payments.len() + 1
                == payments.len() && forall|k: int|
                0 <= k < plan.additional_payments.len() ==> (#[trigger] plan.additional_payments@[k])@
                    == payments@[k + 1]@),
    {
        self.require_is_intermediated_farm(farm_address)?;
        self.require_wrapped_farm_token_id_not_empty()?;
        wrapped_lp_token_id_check?;
        if payments.len() < 1 {
            return Err(ProxyError::BadPaymentLen);
        }
        let payment = &payments[0];
        assert(payments_view(payments@)[0] == payment@);
        if payment.amount.is_zero() {
            return Err(ProxyError::ZeroPaymentAmount);
        }
        if !bytes_eq(&payment.token_identifier, self.wrapped_farm_token_id()) {
            return Err(ProxyError::NotWrappedFarmToken);
        }
        let plan = RewardsPlan {
            farm_address: copy_bytes(farm_address),
            payment: payment.clone(),
            additional_payments: copy_payments(payments, 1),
        };
        proof {
            lemma_rewards_take_any_number_of_payments(
                self.proxy_storage(),
                farm_address@,
                wrapped_lp_token_id_check,
                payments_view(payments@),
                plan,
            );
            assert forall|k: int| 0 <= k < plan.additional_payments.len() implies (
            #[trigger] plan.additional_payments@[k])@ == payments@[k + 1]@ by {
                assert(payments_view(payments@)[k + 1] == payments@[k + 1]@);
            }
        }
        Ok(plan)
    }

    /// The call that claims the rewards of `amount` of the farm position
    /// `farm_token_id` with `farm_token_nonce`, transferred along.
    fn actual_claim_rewards(
        &self,
        farm_address: &Vec<u8>,
        farm_token_id: &Vec<u8>,
        farm_token_nonce: u64,
        amount: &Amount,
    ) -> (r: FarmRequest)
        ensures
            r.farm_address@ == farm_address@,
            r.call matches FarmCall::ClaimRewards { payment } && payment@ == (PaymentView {
                token_identifier: farm_token_id@,
                token_nonce: farm_token_nonce,
                amount: amount@,
            }),
    {
        FarmRequest {
            farm_address: copy_bytes(farm_address),
            call: FarmCall::ClaimRewards {
                payment: self.create_payment(farm_token_id, farm_token_nonce, amount),
            },
        }
    }

    /// The farm call of a claim whose checks passed: the farm position recorded
    /// in the `attributes` of the wrapped farm tokens paid, in their amount.
    fn claim_rewards_proxy_call(&self, plan: &RewardsPlan, attributes: &WrappedFarmTokenAttributes) -> (r: FarmRequest)
        ensures
            r.farm_address@ == plan.farm_address@,
            r.call matches FarmCall::ClaimRewards { payment } && is_position_payment(
                payment@,
                attributes@,
                plan.payment.amount@,
            ),
    {
        self.actual_claim_rewards(
            &plan.farm_address,
            &attributes.farm_token_id,
            attributes.farm_token_nonce,
            &plan.payment.amount,
        )
    }

    /// The first step after the farm answered a claim with
    /// `new_farm_token` and `reward_token_returned`: fails when it returned
    /// no farm tokens, else the rewards go to the caller.
    fn claim_rewards_proxy_reward(
        &self,
        new_farm_token: &TokenPayment,
        reward_token_returned: &TokenPayment,
        caller: &Vec<u8>,
    ) -> (r: Result<Option<MultiTransfer>, ProxyError>)
        ensures
            new_farm_token.amount@ == 0 ==> r == Err::<Option<MultiTransfer>, ProxyError>(
                ProxyError::ZeroFarmTokenAmount,
            ),
            new_farm_token.amount@ > 0 ==> (r matches Ok(t) && is_plain_transfer(
                t,
                caller@,
                reward_token_returned.token_identifier@,
                reward_token_returned.token_nonce,
                reward_token_returned.amount@,
            )),
    {
        if new_farm_token.amount.is_zero() {
            return Err(ProxyError::ZeroFarmTokenAmount);
        }
        Ok(self.transfer_execute_custom(
            caller,
            &reward_token_returned.token_identifier,
            reward_token_returned.token_nonce,
            &reward_token_returned.amount,
            &None,
        ))
    }

    /// The last step of a claim: the farming token amount of the new
    /// position is `farming_token_amount`, as the rule of three of the
    /// common module computed it from the wrapped farm tokens paid and the
    /// old `attributes`, or its error.
    fn claim_rewards_proxy_finish(
        &self,
        plan: &RewardsPlan,
        attributes: &WrappedFarmTokenAttributes,
        new_farm_token: &TokenPayment,
        farming_token_amount: Result<Amount, ProxyError>,
        caller: &Vec<u8>,
    ) -> (r: Result<RewardsSettlement, ProxyError>)
        ensures
            match farming_token_amount {
                Err(e) => r == Err::<RewardsSettlement, ProxyError>(e),
                Ok(a) => r matches Ok(settlement) && is_rewards_settlement(
                    settlement,
                    self.proxy_storage(),
                    *plan,
                    attributes@,
                    new_farm_token@,
                    a@,
                    caller@,
                ),
            },
    {
        let amount = farming_token_amount?;
        let new_attributes = WrappedFarmTokenAttributes {
            farm_token_id: copy_bytes(&new_farm_token.token_identifier),
            farm_token_nonce: new_farm_token.token_nonce,
            farm_token_amount: new_farm_token.amount.clone(),
            farming_token_id: copy_bytes(&attributes.farming_token_id),
            farming_token_nonce: attributes.farming_token_nonce,
            farming_token_amount: amount,
        };
        let merge = self.create_wrapped_farm_tokens_by_merging_and_send(
            &new_attributes,
            &new_farm_token.amount,
            &plan.farm_address,
            caller,
            &plan.additional_payments,
        );
        Ok(RewardsSettlement { merge, wrapped_farm_token_burn: plan.payment.clone() })
    }

    /// Checks a compounding of the rewards of the farm at `farm_address`
    /// for the wrapped farm tokens paid first in `payments`.
    fn compound_rewards_proxy(
        &self,
        farm_address: &Vec<u8>,
        wrapped_lp_token_id_check: Result<(), ProxyError>,
        payments: &Vec<TokenPayment>,
    ) -> (r: Result<RewardsPlan, ProxyError>)
        ensures
            match rewards_checks(self.proxy_storage(), farm_address@, wrapped_lp_token_id_check, payments_view(payments@)) {
                Err(e) => r == Err::<RewardsPlan, ProxyError>(e),
                Ok(_) => r matches Ok(plan) && is_rewards_plan(plan, farm_address@, payments_view(payments@)),
            },
            ({
                &&& self.proxy_storage().intermediated_farms.contains(farm_address@)
                &&& self.proxy_storage().wrapped_farm_token_id.len() > 0
                &&& wrapped_lp_token_id_check is Ok
            }) ==> (r == Err::<RewardsPlan, ProxyError>(ProxyError::BadPaymentLen) <==> payments.len() == 0),
            ({
                &&& self.proxy_storage().intermediated_farms.contains(farm_address@)
                &&& self.proxy_storage().wrapped_farm_token_id.len() > 0
                &&& wrapped_lp_token_id_check is Ok
                &&& payments.len() >= 1
                &&& payments@[0].amount@ > 0
                &&& payments@[0].token_identifier@ == self.proxy_storage().wrapped_farm_token_id
            }) ==> (r matches Ok(plan) && plan.payment@ == payments@[0]@ && plan.additional_payments.len() + 1
                == payments.len() && forall|k: int|
                0 <= k < plan.additional_payments.len() ==> (#[trigger] plan.additional_payments@[k])@
                    == payments@[k + 1]@),
    {
        self.require_is_intermediated_farm(farm_address)?;
        self.require_wrapped_farm_token_id_not_empty()?;
        wrapped_lp_token_id_check?;
        if payments.len() < 1 {
            return Err(ProxyError::BadPaymentLen);
        }
        let payment = &payments[0];
        assert(payments_view(payments@)[0] == payment@);
        if payment.amount.is_zero() {
            return Err(ProxyError::ZeroPaymentAmount);
        }
        if !bytes_eq(&payment.token_identifier, self.wrapped_farm_token_id()) {
            return Err(ProxyError::NotWrappedFarmToken);
        }
        let plan = RewardsPlan {
            farm_address: copy_bytes(farm_address),
            payment: payment.clone(),
            additional_payments: copy_payments(payments, 1),
        };
        proof {
            lemma_rewards_take_any_number_of_payments(
                self.proxy_storage(),
                farm_address@,
                wrapped_lp_token_id_check,
                payments_view(payments@),
                plan,
            );
            assert forall|k: int| 0 <= k < plan.additional_payments.len() implies (
            #[trigger] plan.additional_payments@[k])@ == payments@[k + 1]@ by {
                assert(payments_view(payments@)[k + 1] == payments@[k + 1]@);
            }
        }
        Ok(plan)
    }

    /// The call that compounds the rewards of `amount` of the farm position
    /// `farm_token_id` with `farm_token_nonce`, transferred along.
    fn actual_compound_rewards(
        &self,
        farm_address: &Vec<u8>,
        farm_token_id: &Vec<u8>,
        farm_token_nonce: u64,
        amount: &Amount,
    ) -> (r: FarmRequest)
        ensures
            r.farm_address@ == farm_address@,
            r.call matches FarmCall::CompoundRewards { payment } && payment@ == (PaymentView {
                token_identifier: farm_token_id@,
                token_nonce: farm_token_nonce,
                amount: amount@,
            }),
    {
        FarmRequest {
            farm_address: copy_bytes(farm_address),
            call: FarmCall::CompoundRewards {
                payment: self.create_payment(farm_token_id, farm_token_nonce, amount),
            },
        }
    }

    /// The farm call of a compounding whose checks passed: the farm position
    /// recorded in the `attributes` of the wrapped farm tokens paid, in their
    /// amount.
    fn compound_rewards_proxy_call(&self, plan: &RewardsPlan, attributes: &WrappedFarmTokenAttributes) -> (r: FarmRequest)
        ensures
            r.farm_address@ == plan.farm_address@,
            r.call matches FarmCall::CompoundRewards { payment } && is_position_payment(
                payment@,
                attributes@,
                plan.payment.amount@,
            ),
    {
        self.actual_compound_rewards(
            &plan.farm_address,
            &attributes.farm_token_id,
            attributes.farm_token_nonce,
            &plan.payment.amount,
        )
    }

    /// The first step after the farm answered a compounding with
    /// `new_farm_token`: fails when it returned no farm tokens.
    fn compound_rewards_proxy_received(&self, new_farm_token: &TokenPayment) -> (r: Result<(), ProxyError>)
        ensures
            r == (if new_farm_token.amount@ == 0 {
                Err(ProxyError::ZeroFarmTokenAmount)
            } else {
                Ok::<(), ProxyError>(())
            }),
    {
        if new_farm_token.amount.is_zero() {
            Err(ProxyError::ZeroFarmTokenAmount)
        } else {
            Ok(())
        }
    }

    /// The operands of the rule of three that gives the farming token
    /// amount of the new position after a claim or a compounding: the
    /// wrapped farm tokens paid, and the farm and farming token amounts
    /// recorded in the `attributes` of the old position.
    fn rewards_operands(&self, plan: &RewardsPlan, attributes: &WrappedFarmTokenAttributes) -> (r: (
        Amount,
        Amount,
        Amount,
    ))
        ensures
            r.0@ == plan.payment.amount@,
            r.1@ == attributes.farm_token_amount@,
            r.2@ == attributes.farming_token_amount@,
    {
        (plan.payment.amount.clone(), attributes.farm_token_amount.clone(), attributes.farming_token_amount.clone())
    }

    /// Settles a compounding once the farm returned `new_farm_token`: fails
    /// when it returned no farm tokens, then with the error of the rule of
    /// three that gave `farming_token_amount`.
    fn compound_rewards_proxy_finish(
        &self,
        plan: &RewardsPlan,
        attributes: &WrappedFarmTokenAttributes,
        new_farm_token: &TokenPayment,
        farming_token_amount: Result<Amount, ProxyError>,
        caller: &Vec<u8>,
    ) -> (r: Result<RewardsSettlement, ProxyError>)
        ensures
            new_farm_token.amount@ == 0 ==> r == Err::<RewardsSettlement, ProxyError>(
                ProxyError::ZeroFarmTokenAmount,
            ),
            new_farm_token.amount@ > 0 ==> match farming_token_amount {
                Err(e) => r == Err::<RewardsSettlement, ProxyError>(e),
                Ok(a) => r matches Ok(settlement) && is_rewards_settlement(
                    settlement,
                    self.proxy_storage(),
                    *plan,
                    attributes@,
                    new_farm_token@,
                    a@,
                    caller@,
                ),
            },
    {
        if new_farm_token.amount.is_zero() {
            return Err(ProxyError::ZeroFarmTokenAmount);
        }
        let amount = farming_token_amount?;
        let new_attributes = WrappedFarmTokenAttributes {
            farm_token_id: copy_bytes(&new_farm_token.token_identifier),
            farm_token_nonce: new_farm_token.token_nonce,
            farm_token_amount: new_farm_token.amount.clone(),
            farming_token_id: copy_bytes(&attributes.farming_token_id),
            farming_token_nonce: attributes.farming_token_nonce,
            farming_token_amount: amount,
        };
        let merge = self.create_wrapped_farm_tokens_by_merging_and_send(
            &new_attributes,
            &new_farm_token.amount,
            &plan.farm_address,
            caller,
            &plan.additional_payments,
        );
        Ok(RewardsSettlement { merge, wrapped_farm_token_burn: plan.payment.clone() })
    }
}

} // verus!
