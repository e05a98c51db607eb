use proxy_dex::amount::Amount;
use proxy_dex::payment::TokenPayment;
use proxy_dex::token_send::{compact_payments, TokenSendModule, TokenSendStorage};

fn tp(token: &[u8], nonce: u64, amount: u128) -> TokenPayment {
    TokenPayment { token_identifier: token.to_vec(), token_nonce: nonce, amount: Amount::from_u128(amount) }
}

#[test]
fn send_multiple_tokens_with_accept_funds_func_uses_stored_gas() {
    let module = TokenSendStorage { transfer_exec_gas_limit: 5_000_000 };
    let payments = vec![tp(b"WLPTOK-abcdef", 3, 10), tp(b"MEX-123456", 0, 7)];
    let t = module.send_multiple_tokens(&b"dest".to_vec(), &payments, &Some(b"acceptPay".to_vec()));
    assert_eq!(t.destination, b"dest".to_vec());
    assert_eq!(t.payments, payments);
    assert_eq!(t.gas_limit, 5_000_000);
    assert_eq!(t.endpoint_name, b"acceptPay".to_vec());
}

#[test]
fn send_multiple_tokens_without_func_calls_nothing() {
    let module = TokenSendStorage { transfer_exec_gas_limit: 5_000_000 };
    let payments = vec![tp(b"MEX-123456", 0, 7)];
    let t = module.send_multiple_tokens(&b"dest".to_vec(), &payments, &None);
    assert_eq!(t.gas_limit, 0);
    assert!(t.endpoint_name.is_empty());
    assert_eq!(t.payments, payments);
}

#[test]
fn compact_merges_same_token_and_nonce_in_first_order() {
    let payments = vec![
        tp(b"A", 1, 5),
        tp(b"B", 0, 3),
        tp(b"A", 1, 7),
        tp(b"A", 2, 4),
        tp(b"B", 0, 1),
    ];
    let r = compact_payments(&payments);
    assert_eq!(r, vec![tp(b"A", 1, 12), tp(b"B", 0, 4), tp(b"A", 2, 4)]);
}

#[test]
fn compact_drops_zero_amounts() {
    let payments = vec![tp(b"A", 0, 0), tp(b"B", 0, 2), tp(b"A", 0, 0), tp(b"C", 0, 0), tp(b"C", 0, 9)];
    let r = compact_payments(&payments);
    assert_eq!(r, vec![tp(b"B", 0, 2), tp(b"C", 0, 9)]);
}

#[test]
fn compact_is_idempotent() {
    let payments = vec![tp(b"A", 1, 5), tp(b"B", 0, 0), tp(b"A", 1, 7), tp(b"C", 4, 1)];
    let once = compact_payments(&payments);
    let twice = compact_payments(&once);
    assert_eq!(once, twice);
}

#[test]
fn compact_keeps_the_total_of_each_token() {
    let payments = vec![tp(b"A", 1, 5), tp(b"B", 0, 6), tp(b"A", 1, 7), tp(b"B", 0, 1)];
    let r = compact_payments(&payments);
    let total = |ps: &Vec<TokenPayment>, t: &[u8]| -> Amount {
        ps.iter().filter(|p| p.token_identifier == t).fold(Amount::zero(), |acc, p| acc.add(&p.amount))
    };
    assert_eq!(total(&r, b"A"), total(&payments, b"A"));
    assert_eq!(total(&r, b"B"), total(&payments, b"B"));
}

#[test]
fn send_multiple_tokens_compact_sends_the_compaction() {
    let module = TokenSendStorage { transfer_exec_gas_limit: 100 };
    let payments = vec![tp(b"A", 0, 1), tp(b"A", 0, 2), tp(b"B", 0, 0)];
    let t = module
        .send_multiple_tokens_compact(&b"to".to_vec(), &payments, &Some(b"f".to_vec()))
        .unwrap();
    assert_eq!(t.payments, vec![tp(b"A", 0, 3)]);
    assert_eq!(t.gas_limit, 100);
    assert_eq!(t.endpoint_name, b"f".to_vec());
    assert_eq!(t.destination, b"to".to_vec());
}

#[test]
fn send_multiple_tokens_compact_sends_nothing_for_zero_amounts() {
    let module = TokenSendStorage { transfer_exec_gas_limit: 100 };
    let payments = vec![tp(b"A", 0, 0), tp(b"B", 3, 0)];
    assert_eq!(module.send_multiple_tokens_compact(&b"to".to_vec(), &payments, &None), None);
    assert_eq!(module.send_multiple_tokens_compact(&b"to".to_vec(), &vec![], &None), None);
}

#[test]
fn transfer_execute_custom_skips_zero_amount() {
    let module = TokenSendStorage { transfer_exec_gas_limit: 100 };
    assert_eq!(module.transfer_execute_custom(&b"to".to_vec(), &b"A".to_vec(), 1, &Amount::zero(), &None), None);
}

#[test]
fn transfer_execute_custom_sends_one_payment() {
    let module = TokenSendStorage { transfer_exec_gas_limit: 100 };
    let t = module
        .transfer_execute_custom(&b"to".to_vec(), &b"A".to_vec(), 1, &Amount::from_u128(42), &Some(b"f".to_vec()))
        .unwrap();
    assert_eq!(t.destination, b"to".to_vec());
    assert_eq!(t.payments, vec![tp(b"A", 1, 42)]);
    assert_eq!(t.gas_limit, 100);
    assert_eq!(t.endpoint_name, b"f".to_vec());
    let t = module.transfer_execute_custom(&b"to".to_vec(), &b"A".to_vec(), 1, &Amount::from_u128(42), &None).unwrap();
    assert_eq!(t.gas_limit, 0);
    assert!(t.endpoint_name.is_empty());
}

#[test]
fn create_payment_builds_the_payment() {
    let module = TokenSendStorage { transfer_exec_gas_limit: 0 };
    assert_eq!(module.create_payment(&b"WFARM-aaaaaa".to_vec(), 0, &Amount::from_u128(9)), tp(b"WFARM-aaaaaa", 0, 9));
}

#[test]
fn compact_sums_beyond_u128() {
    let payments = vec![tp(b"A", 0, u128::MAX), tp(b"B", 0, 1), tp(b"A", 0, 1)];
    let r = compact_payments(&payments);
    let mut big = vec![1u8];
    big.extend_from_slice(&[0u8; 16]);
    assert_eq!(r[0].amount, Amount::from_be_bytes(&big));
    assert_eq!(r[0].amount.to_be_bytes(), big);
    assert_eq!(r[1], tp(b"B", 0, 1));
}

#[test]
fn amount_from_be_bytes_reads_big_endian() {
    assert_eq!(Amount::from_be_bytes(&[]), Amount::zero());
    assert_eq!(Amount::from_be_bytes(&[1, 0]), Amount::from_u128(256));
    assert_eq!(Amount::from_be_bytes(&[0, 0, 0x12, 0x34]), Amount::from_u128(0x1234));
    assert_eq!(Amount::from_be_bytes(&[0xff; 16]), Amount::from_u128(u128::MAX));
    assert_eq!(Amount::from_u128(0x1234).to_be_bytes(), vec![0x12, 0x34]);
    assert!(Amount::from_be_bytes(&[0, 0, 0]).is_zero());
    assert!(!Amount::from_u128(1).is_zero());
}

#[test]
fn amount_addition_carries() {
    assert_eq!(Amount::from_u128(255).add(&Amount::from_u128(1)), Amount::from_u128(256));
    assert_eq!(Amount::from_u128(0x1ffff).add(&Amount::from_u128(0xff01)), Amount::from_u128(0x2ff00));
    assert_eq!(Amount::zero().add(&Amount::zero()), Amount::zero());
    let max = Amount::from_u128(u128::MAX);
    let doubled = max.add(&max);
    let mut expected = vec![1u8];
    expected.extend_from_slice(&[0xff; 15]);
    expected.push(0xfe);
    assert_eq!(doubled.to_be_bytes(), expected);
}

#[test]
fn compact_of_reordered_payments_has_the_same_payments() {
    let payments = vec![tp(b"A", 1, 5), tp(b"B", 0, 3), tp(b"A", 1, 7), tp(b"C", 2, 0), tp(b"C", 2, 4)];
    let reordered = vec![tp(b"C", 2, 4), tp(b"A", 1, 7), tp(b"C", 2, 0), tp(b"B", 0, 3), tp(b"A", 1, 5)];
    let r1 = compact_payments(&payments);
    let r2 = compact_payments(&reordered);
    assert_eq!(r1, vec![tp(b"A", 1, 12), tp(b"B", 0, 3), tp(b"C", 2, 4)]);
    assert_eq!(r2, vec![tp(b"C", 2, 4), tp(b"A", 1, 12), tp(b"B", 0, 3)]);
    for p in r1.iter() {
        assert!(r2.contains(p));
    }
    assert_eq!(r1.len(), r2.len());
}

#[test]
fn compact_of_a_longer_list_extends_the_shorter_compaction() {
    let first = vec![tp(b"A", 1, 5), tp(b"B", 0, 3)];
    let mut longer = first.clone();
    longer.push(tp(b"A", 1, 2));
    longer.push(tp(b"D", 0, 1));
    assert_eq!(compact_payments(&first), vec![tp(b"A", 1, 5), tp(b"B", 0, 3)]);
    assert_eq!(compact_payments(&longer), vec![tp(b"A", 1, 7), tp(b"B", 0, 3), tp(b"D", 0, 1)]);
}
