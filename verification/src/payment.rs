//! ESDT payments as plain values, and byte-string equality.

use vstd::prelude::*;

use crate::amount::Amount;

verus! {

/// An ESDT transfer: which token (its identifier bytes), which nonce (0 for
/// a fungible token) and how much of it.
#[derive(Debug, PartialEq, Eq)]
pub struct TokenPayment {
    pub token_identifier: Vec<u8>,
    pub token_nonce: u64,
    pub amount: Amount,
}

/// The mathematical value of a [`TokenPayment`].
pub struct PaymentView {
    pub token_identifier: Seq<u8>,
    pub token_nonce: u64,
    pub amount: nat,
}

impl View for TokenPayment {
    type V = PaymentView;

    open spec fn view(&self) -> PaymentView {
        PaymentView {
            token_identifier: self.token_identifier@,
            token_nonce: self.token_nonce,
            amount: self.amount@,
        }
    }
}

/// The views of a sequence of payments.
pub open spec fn payments_view(ps: Seq<TokenPayment>) -> Seq<PaymentView> {
    ps.map_values(|p: TokenPayment| p@)
}

/// Byte-wise equality of two byte strings.
pub fn bytes_eq(a: &Vec<u8>, b: &Vec<u8>) -> (r: bool)
    ensures
        r == (a@ == b@),
{
    if a.len() != b.len() {
        return false;
    }
    let mut i: usize = 0;
    while i < a.len()
        invariant
            a.len() == b.len(),
            i <= a.len(),
            forall|j: int| 0 <= j < i ==> a@[j] == b@[j],
        decreases a.len() - i,
    {
        if a[i] != b[i] {
            return false;
        }
        i = i + 1;
    }
    assert(a@ =~= b@);
    true
}

/// A copy of a byte string.
pub fn copy_bytes(a: &Vec<u8>) -> (r: Vec<u8>)
    ensures
        r@ == a@,
{
    let r = a.clone();
    assert(r@ =~= a@);
    r
}

impl Clone for TokenPayment {
    fn clone(&self) -> (r: Self)
        ensures
            r@ == self@,
    {
        TokenPayment {
            token_identifier: copy_bytes(&self.token_identifier),
            token_nonce: self.token_nonce,
            amount: self.amount.clone(),
        }
    }
}


/// A copy of the payments of `ps` from position `start` on.
pub fn copy_payments(ps: &Vec<TokenPayment>, start: usize) -> (r: Vec<TokenPayment>)
    requires
        start <= ps.len(),
    ensures
        payments_view(r@) == payments_view(ps@).skip(start as int),
{
    let mut r: Vec<TokenPayment> = Vec::new();
    let mut i: usize = start;
    while i < ps.len()
        invariant
            start <= i <= ps.len(),
            r.len() == i - start,
            forall|j: int| 0 <= j < i - start ==> (#[trigger] r@[j])@ == ps@[j + start]@,
        decreases ps.len() - i,
    {
        r.push(ps[i].clone());
        i = i + 1;
    }
    assert(payments_view(r@) =~= payments_view(ps@).skip(start as int));
    r
}

} // verus!
