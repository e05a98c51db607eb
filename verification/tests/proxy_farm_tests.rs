use proxy_dex::amount::Amount;
use proxy_dex::payment::TokenPayment;
use proxy_dex::proxy_farm::{
    FarmCall, FarmingToken, ProxyError, ProxyFarmModule, WrappedFarmTokenAttributes,
};
use proxy_dex::proxy_storage::ProxyStorage;
use proxy_dex::token_send::TokenSendModule;

const FARM: &[u8] = b"farm-address-0000000000000000001";
const OTHER_FARM: &[u8] = b"farm-address-0000000000000000002";
const CALLER: &[u8] = b"caller-address-00000000000000001";
const WFARM: &[u8] = b"WFARM-abcdef";
const WLP: &[u8] = b"WLPTOK-abcdef";
const LKMEX: &[u8] = b"LKMEX-abcdef";
const MEX: &[u8] = b"MEX-abcdef";
const LP: &[u8] = b"EGLDMEX-abcdef";
const FARM_TOKEN: &[u8] = b"FARM-abcdef";

fn tp(token: &[u8], nonce: u64, amount: u128) -> TokenPayment {
    TokenPayment { token_identifier: token.to_vec(), token_nonce: nonce, amount: Amount::from_u128(amount) }
}

fn module() -> ProxyStorage {
    let mut m = ProxyStorage::new(1_000, WFARM.to_vec(), WLP.to_vec(), LKMEX.to_vec(), MEX.to_vec());
    m.add_farm_to_intermediate(FARM.to_vec());
    m
}

fn attributes(farm_nonce: u64, farm_amount: u128, farming: &[u8], farming_nonce: u64, farming_amount: u128) -> WrappedFarmTokenAttributes {
    WrappedFarmTokenAttributes {
        farm_token_id: FARM_TOKEN.to_vec(),
        farm_token_nonce: farm_nonce,
        farm_token_amount: Amount::from_u128(farm_amount),
        farming_token_id: farming.to_vec(),
        farming_token_nonce: farming_nonce,
        farming_token_amount: Amount::from_u128(farming_amount),
    }
}

#[test]
fn add_farm_makes_it_intermediated_once() {
    let mut m = module();
    assert_eq!(m.require_is_intermediated_farm(&FARM.to_vec()), Ok(()));
    assert_eq!(m.require_is_intermediated_farm(&OTHER_FARM.to_vec()), Err(ProxyError::NotIntermediatedFarm));
    m.add_farm_to_intermediate(FARM.to_vec());
    assert_eq!(m.intermediated_farms(), &vec![FARM.to_vec()]);
    m.add_farm_to_intermediate(OTHER_FARM.to_vec());
    assert_eq!(m.intermediated_farms(), &vec![FARM.to_vec(), OTHER_FARM.to_vec()]);
}

#[test]
fn remove_farm_refuses_unknown_farm() {
    let mut m = module();
    assert_eq!(m.remove_intermediated_farm(&OTHER_FARM.to_vec()), Err(ProxyError::NotIntermediatedFarm));
    assert_eq!(m.intermediated_farms(), &vec![FARM.to_vec()]);
}

#[test]
fn add_then_remove_restores_farms() {
    let mut m = module();
    m.add_farm_to_intermediate(OTHER_FARM.to_vec());
    assert_eq!(m.remove_intermediated_farm(&OTHER_FARM.to_vec()), Ok(()));
    assert_eq!(m.intermediated_farms(), &vec![FARM.to_vec()]);
}

#[test]
fn removed_farm_is_refused_by_endpoints() {
    let mut m = module();
    assert_eq!(m.remove_intermediated_farm(&FARM.to_vec()), Ok(()));
    assert_eq!(m.require_is_intermediated_farm(&FARM.to_vec()), Err(ProxyError::NotIntermediatedFarm));
    let payments = vec![tp(WFARM, 1, 10)];
    assert_eq!(
        m.enter_farm_proxy_endpoint(&FARM.to_vec(), Ok(()), &vec![tp(LKMEX, 1, 10)]),
        Err(ProxyError::NotIntermediatedFarm)
    );
    assert_eq!(m.claim_rewards_proxy(&FARM.to_vec(), Ok(()), &payments), Err(ProxyError::NotIntermediatedFarm));
    assert_eq!(m.compound_rewards_proxy(&FARM.to_vec(), Ok(()), &payments), Err(ProxyError::NotIntermediatedFarm));
    assert_eq!(
        m.exit_farm_proxy(&WFARM.to_vec(), 1, &Amount::from_u128(10), &FARM.to_vec(), Ok(())).map(|_| ()),
        Err(ProxyError::NotIntermediatedFarm)
    );
}

#[test]
fn enter_checks_come_in_order() {
    let m = module();
    let lp_err = ProxyError::External(b"Empty token id".to_vec());
    let unset = ProxyStorage::new(0, vec![], WLP.to_vec(), LKMEX.to_vec(), MEX.to_vec());
    let mut unset = unset;
    unset.add_farm_to_intermediate(FARM.to_vec());
    assert_eq!(
        unset.enter_farm_proxy(&FARM.to_vec(), false, Err(lp_err.clone()), &vec![]),
        Err(ProxyError::EmptyTokenId)
    );
    assert_eq!(
        m.enter_farm_proxy(&FARM.to_vec(), false, Err(lp_err.clone()), &vec![]),
        Err(lp_err.clone())
    );
    assert_eq!(m.enter_farm_proxy(&FARM.to_vec(), false, Ok(()), &vec![]), Err(ProxyError::BadPaymentLen));
    assert_eq!(
        m.enter_farm_proxy(&FARM.to_vec(), false, Ok(()), &vec![tp(WLP, 1, 0)]),
        Err(ProxyError::ZeroPaymentAmount)
    );
    assert_eq!(
        m.enter_farm_proxy(&FARM.to_vec(), false, Ok(()), &vec![tp(MEX, 0, 5)]),
        Err(ProxyError::UnknownInputToken)
    );
}

#[test]
fn enter_with_wrapped_lp_needs_lp_token_of_payment() {
    let m = module();
    let payments = vec![tp(WLP, 4, 100), tp(WFARM, 2, 30), tp(WFARM, 3, 1)];
    let plan = m.enter_farm_proxy_endpoint(&FARM.to_vec(), Ok(()), &payments).unwrap();
    assert_eq!(plan.farm_address, FARM.to_vec());
    assert!(!plan.with_lock_rewards);
    assert_eq!(plan.payment, tp(WLP, 4, 100));
    assert_eq!(plan.farming_token, FarmingToken::LpTokenOfPayment);
    assert_eq!(plan.additional_payments, vec![tp(WFARM, 2, 30), tp(WFARM, 3, 1)]);
}

#[test]
fn enter_with_locked_asset_farms_the_asset_token() {
    let m = module();
    let plan = m
        .enter_farm_and_lock_rewards_proxy_endpoint(&FARM.to_vec(), Ok(()), &vec![tp(LKMEX, 7, 50)])
        .unwrap();
    assert!(plan.with_lock_rewards);
    assert_eq!(plan.farming_token, FarmingToken::Asset(MEX.to_vec()));
    assert!(plan.additional_payments.is_empty());
}

#[test]
fn actual_enter_farm_mints_asset_tokens_only() {
    let m = module();
    let call = m.actual_enter_farm(&FARM.to_vec(), &MEX.to_vec(), &Amount::from_u128(50), true);
    assert_eq!(call.asset_mint, Some(Amount::from_u128(50)));
    assert_eq!(call.request.farm_address, FARM.to_vec());
    assert_eq!(call.request.call, FarmCall::EnterFarmAndLockRewards { payment: tp(MEX, 0, 50) });
    let call = m.actual_enter_farm(&FARM.to_vec(), &LP.to_vec(), &Amount::from_u128(50), false);
    assert_eq!(call.asset_mint, None);
    assert_eq!(call.request.call, FarmCall::EnterFarm { payment: tp(LP, 0, 50) });
}

#[test]
fn enter_finish_refuses_zero_farm_tokens() {
    let m = module();
    let plan = m.enter_farm_proxy_endpoint(&FARM.to_vec(), Ok(()), &vec![tp(WLP, 4, 100)]).unwrap();
    assert_eq!(
        m.enter_farm_proxy_finish(&plan, &tp(FARM_TOKEN, 9, 0), &CALLER.to_vec()),
        Err(ProxyError::ZeroFarmTokenAmount)
    );
}

#[test]
fn enter_finish_records_the_position() {
    let m = module();
    let payments = vec![tp(WLP, 4, 100), tp(WFARM, 2, 30)];
    let plan = m.enter_farm_proxy_endpoint(&FARM.to_vec(), Ok(()), &payments).unwrap();
    let merge = m.enter_farm_proxy_finish(&plan, &tp(FARM_TOKEN, 9, 80), &CALLER.to_vec()).unwrap();
    assert_eq!(merge.caller, CALLER.to_vec());
    assert_eq!(merge.farm_address, FARM.to_vec());
    assert_eq!(merge.additional_payments, vec![tp(WFARM, 2, 30)]);
    assert_eq!(merge.new_token.token_amount, tp(WFARM, 0, 80));
    assert_eq!(merge.new_token.attributes, attributes(9, 80, WLP, 4, 100));
}

#[test]
fn exit_checks_come_in_order() {
    let m = module();
    let lp_err = ProxyError::External(b"lp".to_vec());
    assert_eq!(
        m.exit_farm_proxy(&WFARM.to_vec(), 1, &Amount::from_u128(10), &OTHER_FARM.to_vec(), Ok(())).map(|_| ()),
        Err(ProxyError::NotIntermediatedFarm)
    );
    assert_eq!(
        m.exit_farm_proxy(&WFARM.to_vec(), 1, &Amount::from_u128(0), &FARM.to_vec(), Err(lp_err.clone())).map(|_| ()),
        Err(lp_err)
    );
    assert_eq!(
        m.exit_farm_proxy(&WFARM.to_vec(), 1, &Amount::from_u128(0), &FARM.to_vec(), Ok(())).map(|_| ()),
        Err(ProxyError::ZeroPaymentAmount)
    );
    assert_eq!(
        m.exit_farm_proxy(&WLP.to_vec(), 1, &Amount::from_u128(10), &FARM.to_vec(), Ok(())).map(|_| ()),
        Err(ProxyError::NotWrappedFarmToken)
    );
    let plan = m.exit_farm_proxy(&WFARM.to_vec(), 1, &Amount::from_u128(10), &FARM.to_vec(), Ok(())).unwrap();
    assert_eq!(plan.farm_address, FARM.to_vec());
    assert_eq!(plan.payment, tp(WFARM, 1, 10));
}

#[test]
fn exit_returns_farming_token_and_rewards() {
    let m = module();
    let plan = m.exit_farm_proxy(&WFARM.to_vec(), 1, &Amount::from_u128(10), &FARM.to_vec(), Ok(())).unwrap();
    let attrs = attributes(9, 80, LKMEX, 7, 100);
    let request = m.actual_exit_farm(&FARM.to_vec(), &attrs.farm_token_id, attrs.farm_token_nonce, &Amount::from_u128(10));
    assert_eq!(request.call, FarmCall::ExitFarm { farm_token: tp(FARM_TOKEN, 9, 10) });
    let settlement = m.exit_farm_proxy_finish(&plan, &attrs, &tp(MEX, 0, 12), &tp(MEX, 0, 3), &CALLER.to_vec());
    let farming = settlement.farming_token_transfer.unwrap();
    assert_eq!(farming.destination, CALLER.to_vec());
    assert_eq!(farming.payments, vec![tp(LKMEX, 7, 12)]);
    assert_eq!(farming.gas_limit, 0);
    assert!(farming.endpoint_name.is_empty());
    assert_eq!(settlement.reward_token_transfer.unwrap().payments, vec![tp(MEX, 0, 3)]);
    assert_eq!(settlement.wrapped_farm_token_burn, tp(WFARM, 1, 10));
    assert_eq!(settlement.asset_token_burn, Some(Amount::from_u128(12)));
}

#[test]
fn exit_without_rewards_sends_no_reward() {
    let m = module();
    let plan = m.exit_farm_proxy(&WFARM.to_vec(), 1, &Amount::from_u128(10), &FARM.to_vec(), Ok(())).unwrap();
    let attrs = attributes(9, 80, WLP, 4, 100);
    let settlement = m.exit_farm_proxy_finish(&plan, &attrs, &tp(LP, 0, 12), &tp(MEX, 0, 0), &CALLER.to_vec());
    assert_eq!(settlement.farming_token_transfer.unwrap().payments, vec![tp(WLP, 4, 12)]);
    assert_eq!(settlement.reward_token_transfer, None);
    assert_eq!(settlement.asset_token_burn, None);
}

#[test]
fn claim_checks_come_in_order() {
    let m = module();
    assert_eq!(m.claim_rewards_proxy(&FARM.to_vec(), Ok(()), &vec![]), Err(ProxyError::BadPaymentLen));
    assert_eq!(
        m.claim_rewards_proxy(&FARM.to_vec(), Ok(()), &vec![tp(WFARM, 1, 0)]),
        Err(ProxyError::ZeroPaymentAmount)
    );
    assert_eq!(
        m.claim_rewards_proxy(&FARM.to_vec(), Ok(()), &vec![tp(WLP, 1, 5)]),
        Err(ProxyError::NotWrappedFarmToken)
    );
    assert_eq!(
        m.compound_rewards_proxy(&FARM.to_vec(), Ok(()), &vec![tp(WLP, 1, 5)]),
        Err(ProxyError::NotWrappedFarmToken)
    );
}

#[test]
fn claim_rewards_moves_the_position() {
    let m = module();
    let payments = vec![tp(WFARM, 1, 40), tp(WFARM, 5, 2)];
    let plan = m.claim_rewards_proxy(&FARM.to_vec(), Ok(()), &payments).unwrap();
    assert_eq!(plan.payment, tp(WFARM, 1, 40));
    assert_eq!(plan.additional_payments, vec![tp(WFARM, 5, 2)]);
    let attrs = attributes(9, 80, WLP, 4, 100);
    let request = m.actual_claim_rewards(&FARM.to_vec(), &attrs.farm_token_id, attrs.farm_token_nonce, &Amount::from_u128(40));
    assert_eq!(request.call, FarmCall::ClaimRewards { payment: tp(FARM_TOKEN, 9, 40) });
    assert_eq!(
        m.claim_rewards_proxy_reward(&tp(FARM_TOKEN, 11, 0), &tp(MEX, 0, 6), &CALLER.to_vec()),
        Err(ProxyError::ZeroFarmTokenAmount)
    );
    let reward = m.claim_rewards_proxy_reward(&tp(FARM_TOKEN, 11, 40), &tp(MEX, 0, 6), &CALLER.to_vec()).unwrap();
    assert_eq!(reward.unwrap().payments, vec![tp(MEX, 0, 6)]);
    let err = ProxyError::External(b"zero".to_vec());
    assert_eq!(
        m.claim_rewards_proxy_finish(&plan, &attrs, &tp(FARM_TOKEN, 11, 40), Err(err.clone()), &CALLER.to_vec()),
        Err(err)
    );
    let settlement = m
        .claim_rewards_proxy_finish(&plan, &attrs, &tp(FARM_TOKEN, 11, 40), Ok(Amount::from_u128(50)), &CALLER.to_vec())
        .unwrap();
    assert_eq!(settlement.wrapped_farm_token_burn, tp(WFARM, 1, 40));
    assert_eq!(settlement.merge.new_token.token_amount, tp(WFARM, 0, 40));
    assert_eq!(settlement.merge.new_token.attributes, attributes(11, 40, WLP, 4, 50));
    assert_eq!(settlement.merge.additional_payments, vec![tp(WFARM, 5, 2)]);
}

#[test]
fn compound_refuses_zero_farm_tokens_before_rule_of_three() {
    let m = module();
    let plan = m.compound_rewards_proxy(&FARM.to_vec(), Ok(()), &vec![tp(WFARM, 1, 40)]).unwrap();
    let attrs = attributes(9, 80, LKMEX, 7, 100);
    let request = m.actual_compound_rewards(&FARM.to_vec(), &attrs.farm_token_id, attrs.farm_token_nonce, &Amount::from_u128(40));
    assert_eq!(request.call, FarmCall::CompoundRewards { payment: tp(FARM_TOKEN, 9, 40) });
    let err = ProxyError::External(b"zero".to_vec());
    assert_eq!(
        m.compound_rewards_proxy_finish(&plan, &attrs, &tp(FARM_TOKEN, 12, 0), Err(err.clone()), &CALLER.to_vec()),
        Err(ProxyError::ZeroFarmTokenAmount)
    );
    assert_eq!(
        m.compound_rewards_proxy_finish(&plan, &attrs, &tp(FARM_TOKEN, 12, 45), Err(err.clone()), &CALLER.to_vec()),
        Err(err)
    );
    let settlement = m
        .compound_rewards_proxy_finish(&plan, &attrs, &tp(FARM_TOKEN, 12, 45), Ok(Amount::from_u128(50)), &CALLER.to_vec())
        .unwrap();
    assert_eq!(settlement.merge.new_token.attributes, attributes(12, 45, LKMEX, 7, 50));
    assert!(settlement.merge.additional_payments.is_empty());
}

#[test]
fn position_keeps_farming_token_from_entry_to_exit() {
    let m = module();
    let plan = m.enter_farm_proxy_endpoint(&FARM.to_vec(), Ok(()), &vec![tp(LKMEX, 7, 100)]).unwrap();
    let merge = m.enter_farm_proxy_finish(&plan, &tp(FARM_TOKEN, 9, 80), &CALLER.to_vec()).unwrap();
    let attrs = merge.new_token.attributes;
    let claim = m.claim_rewards_proxy(&FARM.to_vec(), Ok(()), &vec![tp(WFARM, 20, 80)]).unwrap();
    let settled = m
        .claim_rewards_proxy_finish(&claim, &attrs, &tp(FARM_TOKEN, 10, 80), Ok(Amount::from_u128(100)), &CALLER.to_vec())
        .unwrap();
    let attrs = settled.merge.new_token.attributes;
    let exit = m.exit_farm_proxy(&WFARM.to_vec(), 21, &Amount::from_u128(80), &FARM.to_vec(), Ok(())).unwrap();
    let settlement = m.exit_farm_proxy_finish(&exit, &attrs, &tp(MEX, 0, 100), &tp(MEX, 0, 0), &CALLER.to_vec());
    assert_eq!(settlement.farming_token_transfer.unwrap().payments, vec![tp(LKMEX, 7, 100)]);
}

#[test]
fn error_messages() {
    assert_eq!(ProxyError::NotIntermediatedFarm.message(), Some("Not an intermediated farm"));
    assert_eq!(ProxyError::EmptyTokenId.message(), Some("Empty token id"));
    assert_eq!(ProxyError::BadPaymentLen.message(), Some("bad payment len"));
    assert_eq!(ProxyError::ZeroPaymentAmount.message(), Some("Payment amount cannot be zero"));
    assert_eq!(ProxyError::UnknownInputToken.message(), Some("Unknown input Token"));
    assert_eq!(
        ProxyError::ZeroFarmTokenAmount.message(),
        Some("Farm token amount received should be greater than 0")
    );
    assert_eq!(ProxyError::NotWrappedFarmToken.message(), Some("Should only be used with wrapped farm tokens"));
    assert_eq!(ProxyError::External(b"x".to_vec()).message(), None);
}

#[test]
fn proxy_storage_keeps_its_gas_limit() {
    let m = module();
    assert_eq!(m.transfer_exec_gas_limit(), 1_000);
    assert_eq!(m.wrapped_farm_token_id(), &WFARM.to_vec());
    assert_eq!(m.wrapped_lp_token_id(), &WLP.to_vec());
    assert_eq!(m.locked_asset_token_id(), &LKMEX.to_vec());
    assert_eq!(m.asset_token_id(), &MEX.to_vec());
    let t = m.transfer_execute_custom(&CALLER.to_vec(), &MEX.to_vec(), 0, &Amount::from_u128(5), &Some(b"acceptPay".to_vec())).unwrap();
    assert_eq!(t.gas_limit, 1_000);
}

#[test]
fn claim_rewards_call_redeems_the_recorded_farm_token() {
    let m = module();
    let plan = m.claim_rewards_proxy(&FARM.to_vec(), Ok(()), &vec![tp(WFARM, 3, 50)]).unwrap();
    let attrs = attributes(7, 100, LKMEX, 1, 200);
    let request = m.claim_rewards_proxy_call(&plan, &attrs);
    assert_eq!(request.farm_address, FARM.to_vec());
    assert_eq!(request.call, FarmCall::ClaimRewards { payment: tp(FARM_TOKEN, 7, 50) });
    let reward = m.claim_rewards_proxy_reward(&tp(FARM_TOKEN, 8, 50), &tp(MEX, 0, 10), &CALLER.to_vec()).unwrap();
    let reward = reward.unwrap();
    assert_eq!(reward.destination, CALLER.to_vec());
    assert_eq!(reward.payments, vec![tp(MEX, 0, 10)]);
    let settlement = m
        .claim_rewards_proxy_finish(&plan, &attrs, &tp(FARM_TOKEN, 8, 50), Ok(Amount::from_u128(100)), &CALLER.to_vec())
        .unwrap();
    assert_eq!(settlement.merge.new_token.token_amount, tp(WFARM, 0, 50));
    assert_eq!(settlement.merge.new_token.attributes, attributes(8, 50, LKMEX, 1, 100));
    assert!(settlement.merge.additional_payments.is_empty());
    assert_eq!(settlement.wrapped_farm_token_burn, tp(WFARM, 3, 50));
}

#[test]
fn compound_rewards_call_redeems_the_recorded_farm_token() {
    let m = module();
    let plan = m.compound_rewards_proxy(&FARM.to_vec(), Ok(()), &vec![tp(WFARM, 3, 50)]).unwrap();
    let attrs = attributes(7, 100, LKMEX, 1, 200);
    let request = m.compound_rewards_proxy_call(&plan, &attrs);
    assert_eq!(request.farm_address, FARM.to_vec());
    assert_eq!(request.call, FarmCall::CompoundRewards { payment: tp(FARM_TOKEN, 7, 50) });
    let settlement = m
        .compound_rewards_proxy_finish(&plan, &attrs, &tp(FARM_TOKEN, 9, 60), Ok(Amount::from_u128(100)), &CALLER.to_vec())
        .unwrap();
    assert_eq!(settlement.merge.new_token.token_amount, tp(WFARM, 0, 60));
    assert_eq!(settlement.merge.new_token.attributes, attributes(9, 60, LKMEX, 1, 100));
    assert_eq!(settlement.wrapped_farm_token_burn, tp(WFARM, 3, 50));
}

#[test]
fn exit_call_redeems_the_recorded_farm_token() {
    let m = module();
    let plan = m.exit_farm_proxy(&WFARM.to_vec(), 3, &Amount::from_u128(50), &FARM.to_vec(), Ok(())).unwrap();
    let attrs = attributes(7, 100, LKMEX, 1, 200);
    let request = m.exit_farm_proxy_call(&plan, &attrs);
    assert_eq!(request.farm_address, FARM.to_vec());
    assert_eq!(request.call, FarmCall::ExitFarm { farm_token: tp(FARM_TOKEN, 7, 50) });
}

#[test]
fn enter_call_with_locked_asset_mints_and_farms_the_asset() {
    let m = module();
    let payments = vec![tp(LKMEX, 5, 1000)];
    let plan = m.enter_farm_proxy_endpoint(&FARM.to_vec(), Ok(()), &payments).unwrap();
    let call = m.enter_farm_proxy_call(&plan, &vec![]);
    assert_eq!(call.asset_mint, Some(Amount::from_u128(1000)));
    assert_eq!(call.request.farm_address, FARM.to_vec());
    assert_eq!(call.request.call, FarmCall::EnterFarm { payment: tp(MEX, 0, 1000) });
    let merge = m.enter_farm_proxy_finish(&plan, &tp(FARM_TOKEN, 2, 1000), &CALLER.to_vec()).unwrap();
    assert_eq!(merge.new_token.token_amount, tp(WFARM, 0, 1000));
    assert_eq!(merge.new_token.attributes, attributes(2, 1000, LKMEX, 5, 1000));
    assert!(merge.additional_payments.is_empty());
}

#[test]
fn enter_call_with_wrapped_lp_farms_only_the_first_amount_of_lp() {
    let m = module();
    let payments = vec![tp(WLP, 4, 100), tp(WFARM, 2, 30)];
    let plan = m.enter_farm_and_lock_rewards_proxy_endpoint(&FARM.to_vec(), Ok(()), &payments).unwrap();
    let call = m.enter_farm_proxy_call(&plan, &LP.to_vec());
    assert_eq!(call.asset_mint, None);
    assert_eq!(call.request.call, FarmCall::EnterFarmAndLockRewards { payment: tp(LP, 0, 100) });
}

#[test]
fn rewards_operands_are_the_paid_amount_and_recorded_amounts() {
    let m = module();
    let plan = m.claim_rewards_proxy(&FARM.to_vec(), Ok(()), &vec![tp(WFARM, 3, 50)]).unwrap();
    let attrs = attributes(7, 100, LKMEX, 1, 200);
    let (paid, farm_amount, farming_amount) = m.rewards_operands(&plan, &attrs);
    assert_eq!(paid, Amount::from_u128(50));
    assert_eq!(farm_amount, Amount::from_u128(100));
    assert_eq!(farming_amount, Amount::from_u128(200));
}

#[test]
fn compound_refuses_zero_farm_tokens_received() {
    let m = module();
    assert_eq!(m.compound_rewards_proxy_received(&tp(FARM_TOKEN, 9, 0)), Err(ProxyError::ZeroFarmTokenAmount));
    assert_eq!(m.compound_rewards_proxy_received(&tp(FARM_TOKEN, 9, 60)), Ok(()));
}

#[test]
fn farm_set_changes_keep_the_gas_limit() {
    let mut m = module();
    m.add_farm_to_intermediate(OTHER_FARM.to_vec());
    assert_eq!(m.transfer_exec_gas_limit(), 1_000);
    assert_eq!(m.remove_intermediated_farm(&OTHER_FARM.to_vec()), Ok(()));
    assert_eq!(m.transfer_exec_gas_limit(), 1_000);
    assert_eq!(m.remove_intermediated_farm(&OTHER_FARM.to_vec()), Err(ProxyError::NotIntermediatedFarm));
    assert_eq!(m.transfer_exec_gas_limit(), 1_000);
}
