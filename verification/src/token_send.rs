//! The token-send module: planning multi-token transfers, with and without
//! compacting the payments first.

use vstd::prelude::*;

use crate::amount::Amount;
use crate::payment::{bytes_eq, copy_bytes, copy_payments, payments_view, PaymentView, TokenPayment};

verus! {

/// A multi-token transfer to execute: send `payments` to `destination` and
/// then call `endpoint_name` there with `gas_limit` gas (no call when the name
/// is empty), with no arguments.
#[derive(Debug, PartialEq, Eq)]
pub struct MultiTransfer {
    pub destination: Vec<u8>,
    pub payments: Vec<TokenPayment>,
    pub gas_limit: u64,
    pub endpoint_name: Vec<u8>,
}

/// The view of an optional function name.
pub open spec fn opt_bytes_view(o: Option<Vec<u8>>) -> Option<Seq<u8>> {
    match o {
        Some(f) => Some(f@),
        None => None,
    }
}

/// The function called after a transfer and the gas given to it: the
/// accept-funds function with the stored gas limit when one is given, else
/// no function and no gas.
pub open spec fn transfer_call(opt_accept_funds_func: Option<Seq<u8>>, gas_limit: u64) -> (Seq<u8>, u64) {
    match opt_accept_funds_func {
        Some(f) => (f, gas_limit),
        None => (Seq::empty(), 0),
    }
}

/// Whether two payments are of the same token and the same nonce.
pub open spec fn same_token(a: PaymentView, b: PaymentView) -> bool {
    a.token_identifier == b.token_identifier && a.token_nonce == b.token_nonce
}

/// Whether `p` is a payment of `token` with `nonce`.
pub open spec fn is_token(p: PaymentView, token: Seq<u8>, nonce: u64) -> bool {
    p.token_identifier == token && p.token_nonce == nonce
}

/// The total amount that `ps` pays of `token` with `nonce`.
pub open spec fn amount_of(ps: Seq<PaymentView>, token: Seq<u8>, nonce: u64) -> nat
    decreases ps.len(),
{
    if ps.len() == 0 {
        0
    } else {
        amount_of(ps.drop_last(), token, nonce) + if is_token(ps.last(), token, nonce) {
            ps.last().amount
        } else {
            0
        }
    }
}

/// The position of the first payment of `ps` with a non-zero amount of `token`
/// with `nonce`, or `ps.len()` when there is none.
pub open spec fn first_positive(ps: Seq<PaymentView>, token: Seq<u8>, nonce: u64) -> nat
    decreases ps.len(),
{
    if ps.len() == 0 {
        0
    } else {
        let prev = first_positive(ps.drop_last(), token, nonce);
        if prev < ps.len() - 1 {
            prev
        } else if ps.last().amount > 0 && is_token(ps.last(), token, nonce) {
            (ps.len() - 1) as nat
        } else {
            ps.len()
        }
    }
}

/// Whether `r` holds a payment of `token` with `nonce`.
pub open spec fn has_token(r: Seq<PaymentView>, token: Seq<u8>, nonce: u64) -> bool {
    exists|i: int| 0 <= i < r.len() && is_token(#[trigger] r[i], token, nonce)
}

/// `r` is the compaction of `ps`: one payment per token and nonce that `ps`
/// pays a non-zero amount of, carrying the total amount of that token and
/// nonce, in the order in which those tokens first appear with a non-zero
/// amount; payments of amount zero are left out.
pub open spec fn is_compaction_of(r: Seq<PaymentView>, ps: Seq<PaymentView>) -> bool {
    &&& forall|i: int, j: int| 0 <= i < j < r.len() ==> !same_token(#[trigger] r[i], #[trigger] r[j])
    &&& forall|i: int|
        0 <= i < r.len() ==> (#[trigger] r[i]).amount > 0 && r[i].amount == amount_of(
            ps,
            r[i].token_identifier,
            r[i].token_nonce,
        )
    &&& forall|k: int|
        0 <= k < ps.len() && (#[trigger] ps[k]).amount > 0 ==> has_token(
            r,
            ps[k].token_identifier,
            ps[k].token_nonce,
        )
    &&& forall|i: int, j: int|
        0 <= i < j < r.len() ==> first_positive(ps, (#[trigger] r[i]).token_identifier, r[i].token_nonce)
            < first_positive(ps, (#[trigger] r[j]).token_identifier, r[j].token_nonce)
}

/// The first positive payment of a token, when there is one, is positive and
/// of that token.
pub proof fn lemma_first_positive(ps: Seq<PaymentView>, token: Seq<u8>, nonce: u64)
    ensures
        first_positive(ps, token, nonce) <= ps.len(),
        first_positive(ps, token, nonce) < ps.len() ==> ps[first_positive(ps, token, nonce) as int].amount
            > 0 && is_token(ps[first_positive(ps, token, nonce) as int], token, nonce),
        forall|k: int|
            0 <= k < first_positive(ps, token, nonce) ==> !((#[trigger] ps[k]).amount > 0 && is_token(
                ps[k],
                token,
                nonce,
            )),
    decreases ps.len(),
{
    if ps.len() > 0 {
        let prev = ps.drop_last();
        lemma_first_positive(prev, token, nonce);
        assert forall|k: int|
            0 <= k < first_positive(ps, token, nonce) implies !((#[trigger] ps[k]).amount > 0
            && is_token(ps[k], token, nonce)) by {
            if k < ps.len() - 1 {
                assert(ps[k] == prev[k]);
            }
        }
        if first_positive(prev, token, nonce) < prev.len() {
            assert(ps[first_positive(prev, token, nonce) as int] == prev[first_positive(
                prev,
                token,
                nonce,
            ) as int]);
        }
    }
}

/// A token with a non-zero total has a first positive payment.
pub proof fn lemma_amount_positive(ps: Seq<PaymentView>, token: Seq<u8>, nonce: u64)
    requires
        amount_of(ps, token, nonce) > 0,
    ensures
        first_positive(ps, token, nonce) < ps.len(),
    decreases ps.len(),
{
    let prev = ps.drop_last();
    if amount_of(prev, token, nonce) > 0 {
        lemma_amount_positive(prev, token, nonce);
    }
}

/// The position in `r` of a payment of the same token and nonce as `p`, if any.
fn find_same_token(r: &Vec<TokenPayment>, p: &TokenPayment) -> (found: Option<usize>)
    ensures
        match found {
            Some(idx) => idx < r.len() && same_token(r@[idx as int]@, p@),
            None => forall|j: int| 0 <= j < r.len() ==> !same_token((#[trigger] r@[j])@, p@),
        },
{
    let mut j: usize = 0;
    while j < r.len()
        invariant
            j <= r.len(),
            forall|k: int| 0 <= k < j ==> !same_token((#[trigger] r@[k])@, p@),
        decreases r.len() - j,
    {
        if r[j].token_nonce == p.token_nonce && bytes_eq(&r[j].token_identifier, &p.token_identifier) {
            return Some(j);
        }
        j = j + 1;
    }
    None
}

/// Merges the payments of each token and nonce into one, dropping those of
/// amount zero, in order of first appearance.
pub fn compact_payments(payments: &Vec<TokenPayment>) -> (r: Vec<TokenPayment>)
    ensures
        is_compaction_of(payments_view(r@), payments_view(payments@)),
        payments_view(r@) == compact_fold(payments_view(payments@)),
{
    let ghost pv = payments_view(payments@);
    let mut out: Vec<TokenPayment> = Vec::new();
    let mut i: usize = 0;
    assert(pv.take(0) =~= Seq::<PaymentView>::empty());
    assert(payments_view(out@) =~= Seq::<PaymentView>::empty());
    while i < payments.len()
        invariant
            i <= payments.len(),
            pv == payments_view(payments@),
            is_compaction_of(payments_view(out@), pv.take(i as int)),
        decreases payments.len() - i,
    {
        let ghost prev = pv.take(i as int);
        let ghost ov = payments_view(out@);
        let p = &payments[i];
        assert(p@ == pv[i as int]);
        assert(pv.take(i + 1) =~= prev.push(p@));
        proof {
            lemma_compaction_step(ov, prev, p@);
        }
        if !p.amount.is_zero() {
            match find_same_token(&out, p) {
                Some(idx) => {
                    assert(ov[idx as int] == out@[idx as int]@);
                    assert(has_token(ov, p@.token_identifier, p@.token_nonce)) by {
                        assert(is_token(ov[idx as int], p@.token_identifier, p@.token_nonce));
                    }
                    let ghost chosen = choose|j: int|
                        0 <= j < ov.len() && is_token(#[trigger] ov[j], p@.token_identifier, p@.token_nonce);
                    assert(chosen == idx) by {
                        if chosen < idx {
                            assert(!same_token(ov[chosen], ov[idx as int]));
                        } else if chosen > idx {
                            assert(!same_token(ov[idx as int], ov[chosen]));
                        }
                    }
                    let merged = TokenPayment {
                        token_identifier: copy_bytes(&out[idx].token_identifier),
                        token_nonce: out[idx].token_nonce,
                        amount: out[idx].amount.add(&p.amount),
                    };
                    out.set(idx, merged);
                    assert(payments_view(out@) =~= compact_step(ov, p@));
                },
                None => {
                    assert(!has_token(ov, p@.token_identifier, p@.token_nonce)) by {
                        if has_token(ov, p@.token_identifier, p@.token_nonce) {
                            let j = choose|j: int|
                                0 <= j < ov.len() && is_token(#[trigger] ov[j], p@.token_identifier, p@.token_nonce);
                            assert(ov[j] == out@[j]@);
                        }
                    }
                    out.push(p.clone());
                    assert(payments_view(out@) =~= compact_step(ov, p@));
                },
            }
        } else {
            assert(payments_view(out@) =~= compact_step(ov, p@));
        }
        i = i + 1;
    }
    assert(pv.take(payments.len() as int) =~= pv);
    proof {
        lemma_compaction_is_fold(payments_view(out@), pv);
    }
    out
}

/// One payment more, compacted: a payment of amount zero changes nothing; a
/// payment of a token already there adds its amount to that entry; a payment
/// of a new token comes last.
pub open spec fn compact_step(r: Seq<PaymentView>, p: PaymentView) -> Seq<PaymentView> {
    if p.amount == 0 {
        r
    } else if has_token(r, p.token_identifier, p.token_nonce) {
        let i = choose|i: int| 0 <= i < r.len() && is_token(#[trigger] r[i], p.token_identifier, p.token_nonce);
        r.update(
            i,
            PaymentView {
                token_identifier: r[i].token_identifier,
                token_nonce: r[i].token_nonce,
                amount: r[i].amount + p.amount,
            },
        )
    } else {
        r.push(p)
    }
}

/// Compacting payment by payment, from the first to the last.
pub open spec fn compact_fold(ps: Seq<PaymentView>) -> Seq<PaymentView>
    decreases ps.len(),
{
    if ps.len() == 0 {
        Seq::empty()
    } else {
        compact_step(compact_fold(ps.drop_last()), ps.last())
    }
}

/// A compaction of `ps`, compacted one payment more, is a compaction of `ps`
/// with that payment last.
pub proof fn lemma_compaction_step(r: Seq<PaymentView>, ps: Seq<PaymentView>, p: PaymentView)
    requires
        is_compaction_of(r, ps),
    ensures
        is_compaction_of(compact_step(r, p), ps.push(p)),
{
    let next = ps.push(p);
    let nv = compact_step(r, p);
    assert(next.drop_last() =~= ps);
    assert(next.last() == p);
    assert forall|k: int| 0 <= k < ps.len() implies next[k] == ps[k] by {}
    if p.amount == 0 {
        assert forall|j: int| 0 <= j < nv.len() implies (#[trigger] nv[j]).amount > 0
            && nv[j].amount == amount_of(next, nv[j].token_identifier, nv[j].token_nonce) by {}
        assert forall|k: int|
            0 <= k < next.len() && (#[trigger] next[k]).amount > 0 implies has_token(
            nv,
            next[k].token_identifier,
            next[k].token_nonce,
        ) by {
            assert(next[k] == ps[k]);
        }
        assert forall|a: int, b: int| 0 <= a < b < nv.len() implies first_positive(
            next,
            (#[trigger] nv[a]).token_identifier,
            nv[a].token_nonce,
        ) < first_positive(next, (#[trigger] nv[b]).token_identifier, nv[b].token_nonce) by {
            lemma_amount_positive(ps, nv[a].token_identifier, nv[a].token_nonce);
            lemma_amount_positive(ps, nv[b].token_identifier, nv[b].token_nonce);
        }
    } else if has_token(r, p.token_identifier, p.token_nonce) {
        let idx = choose|i: int| 0 <= i < r.len() && is_token(#[trigger] r[i], p.token_identifier, p.token_nonce);
        assert forall|j: int| 0 <= j < nv.len() implies (#[trigger] nv[j]).amount > 0
            && nv[j].amount == amount_of(next, nv[j].token_identifier, nv[j].token_nonce) by {
            if j != idx {
                assert(nv[j] == r[j]);
                if j < idx {
                    assert(!same_token(r[j], r[idx]));
                } else {
                    assert(!same_token(r[idx], r[j]));
                }
            }
        }
        assert forall|k: int|
            0 <= k < next.len() && (#[trigger] next[k]).amount > 0 implies has_token(
            nv,
            next[k].token_identifier,
            next[k].token_nonce,
        ) by {
            if k < ps.len() {
                assert(next[k] == ps[k]);
                let w = choose|w: int|
                    0 <= w < r.len() && is_token(#[trigger] r[w], ps[k].token_identifier, ps[k].token_nonce);
                assert(is_token(nv[w], next[k].token_identifier, next[k].token_nonce));
            } else {
                assert(is_token(nv[idx], next[k].token_identifier, next[k].token_nonce));
            }
        }
        assert forall|a: int, b: int| 0 <= a < b < nv.len() implies first_positive(
            next,
            (#[trigger] nv[a]).token_identifier,
            nv[a].token_nonce,
        ) < first_positive(next, (#[trigger] nv[b]).token_identifier, nv[b].token_nonce) by {
            assert(nv[a].token_identifier == r[a].token_identifier);
            assert(nv[b].token_identifier == r[b].token_identifier);
            lemma_amount_positive(ps, r[a].token_identifier, r[a].token_nonce);
            lemma_amount_positive(ps, r[b].token_identifier, r[b].token_nonce);
        }
        assert forall|a: int, b: int| 0 <= a < b < nv.len() implies !same_token(
            #[trigger] nv[a],
            #[trigger] nv[b],
        ) by {
            assert(nv[a].token_identifier == r[a].token_identifier);
            assert(nv[b].token_identifier == r[b].token_identifier);
        }
    } else {
        if amount_of(ps, p.token_identifier, p.token_nonce) > 0 {
            lemma_amount_positive(ps, p.token_identifier, p.token_nonce);
            lemma_first_positive(ps, p.token_identifier, p.token_nonce);
            let k = first_positive(ps, p.token_identifier, p.token_nonce) as int;
            assert(ps[k].amount > 0);
            assert(has_token(r, ps[k].token_identifier, ps[k].token_nonce));
        }
        lemma_first_positive(ps, p.token_identifier, p.token_nonce);
        if first_positive(ps, p.token_identifier, p.token_nonce) < ps.len() {
            let k = first_positive(ps, p.token_identifier, p.token_nonce) as int;
            assert(has_token(r, ps[k].token_identifier, ps[k].token_nonce));
        }
        assert(nv =~= r.push(p));
        assert forall|j: int| 0 <= j < nv.len() implies (#[trigger] nv[j]).amount > 0
            && nv[j].amount == amount_of(next, nv[j].token_identifier, nv[j].token_nonce) by {
            if j < r.len() {
                assert(nv[j] == r[j]);
                assert(!is_token(r[j], p.token_identifier, p.token_nonce));
            }
        }
        assert forall|k: int|
            0 <= k < next.len() && (#[trigger] next[k]).amount > 0 implies has_token(
            nv,
            next[k].token_identifier,
            next[k].token_nonce,
        ) by {
            if k < ps.len() {
                assert(next[k] == ps[k]);
                let w = choose|w: int|
                    0 <= w < r.len() && is_token(#[trigger] r[w], ps[k].token_identifier, ps[k].token_nonce);
                assert(nv[w] == r[w]);
            } else {
                assert(is_token(nv[r.len() as int], next[k].token_identifier, next[k].token_nonce));
            }
        }
        assert forall|a: int, b: int| 0 <= a < b < nv.len() implies first_positive(
            next,
            (#[trigger] nv[a]).token_identifier,
            nv[a].token_nonce,
        ) < first_positive(next, (#[trigger] nv[b]).token_identifier, nv[b].token_nonce) by {
            assert(nv[a] == r[a]);
            lemma_amount_positive(ps, r[a].token_identifier, r[a].token_nonce);
            if b < r.len() {
                assert(nv[b] == r[b]);
                lemma_amount_positive(ps, r[b].token_identifier, r[b].token_nonce);
            }
        }
        assert forall|a: int, b: int| 0 <= a < b < nv.len() implies !same_token(
            #[trigger] nv[a],
            #[trigger] nv[b],
        ) by {
            assert(nv[a] == r[a]);
            if b < r.len() {
                assert(nv[b] == r[b]);
            } else {
                assert(!is_token(r[a], p.token_identifier, p.token_nonce));
            }
        }
    }
}

/// Compacting payment by payment gives a compaction.
pub proof fn lemma_fold_is_compaction(ps: Seq<PaymentView>)
    ensures
        is_compaction_of(compact_fold(ps), ps),
    decreases ps.len(),
{
    if ps.len() == 0 {
        assert(compact_fold(ps) =~= Seq::<PaymentView>::empty());
    } else {
        lemma_fold_is_compaction(ps.drop_last());
        lemma_compaction_step(compact_fold(ps.drop_last()), ps.drop_last(), ps.last());
        assert(ps.drop_last().push(ps.last()) =~= ps);
    }
}

/// The compaction of a sequence of payments is what compacting it payment
/// by payment, from the first to the last, gives.
pub proof fn lemma_compaction_is_fold(r: Seq<PaymentView>, ps: Seq<PaymentView>)
    requires
        is_compaction_of(r, ps),
    ensures
        r == compact_fold(ps),
{
    lemma_fold_is_compaction(ps);
    lemma_compaction_unique(r, compact_fold(ps), ps);
}

/// Taking one payment out of a sequence takes its amount out of the total
/// of its token.
proof fn lemma_amount_remove(s: Seq<PaymentView>, j: int, token: Seq<u8>, nonce: u64)
    requires
        0 <= j < s.len(),
    ensures
        amount_of(s, token, nonce) == amount_of(s.remove(j), token, nonce) + if is_token(s[j], token, nonce) {
            s[j].amount
        } else {
            0
        },
    decreases s.len(),
{
    if j == s.len() - 1 {
        assert(s.remove(j) =~= s.drop_last());
    } else {
        let rest = s.remove(j);
        assert(rest.drop_last() =~= s.drop_last().remove(j));
        assert(rest.last() == s.last());
        lemma_amount_remove(s.drop_last(), j, token, nonce);
    }
}

/// The total of a token does not depend on the order of the payments.
proof fn lemma_amount_permutation(a: Seq<PaymentView>, b: Seq<PaymentView>, token: Seq<u8>, nonce: u64)
    requires
        a.to_multiset() == b.to_multiset(),
    ensures
        amount_of(a, token, nonce) == amount_of(b, token, nonce),
    decreases a.len(),
{
    broadcast use vstd::seq_lib::group_to_multiset_ensures;
    if a.len() == 0 {
        assert(a.to_multiset().len() == a.len());
        assert(b.to_multiset().len() == b.len());
        assert(b.len() == 0);
        assert(b =~= a);
    } else {
        let x = a.last();
        let init = a.drop_last();
        assert(init.push(x) =~= a);
        assert(a.to_multiset() =~= init.to_multiset().insert(x));
        assert(b.to_multiset().count(x) > 0);
        assert(b.contains(x));
        let j = choose|j: int| 0 <= j < b.len() && b[j] == x;
        assert(b.remove(j).to_multiset() =~= b.to_multiset().remove(x));
        assert(init.to_multiset() =~= init.to_multiset().insert(x).remove(x));
        lemma_amount_permutation(init, b.remove(j), token, nonce);
        lemma_amount_remove(b, j, token, nonce);
    }
}

/// A compaction holds a payment exactly when that payment has a non-zero
/// amount that is the total of its token and nonce.
proof fn lemma_compaction_contains(r: Seq<PaymentView>, ps: Seq<PaymentView>, x: PaymentView)
    requires
        is_compaction_of(r, ps),
    ensures
        r.contains(x) <==> (x.amount > 0 && x.amount == amount_of(ps, x.token_identifier, x.token_nonce)),
{
    if x.amount > 0 && x.amount == amount_of(ps, x.token_identifier, x.token_nonce) {
        lemma_amount_positive(ps, x.token_identifier, x.token_nonce);
        lemma_first_positive(ps, x.token_identifier, x.token_nonce);
        let k = first_positive(ps, x.token_identifier, x.token_nonce) as int;
        assert(has_token(r, ps[k].token_identifier, ps[k].token_nonce));
        let i = choose|i: int| 0 <= i < r.len() && is_token(#[trigger] r[i], x.token_identifier, x.token_nonce);
        assert(r[i] == x);
    }
    if r.contains(x) {
        let i = choose|i: int| 0 <= i < r.len() && r[i] == x;
        assert(r[i].amount > 0);
    }
}

/// A compaction holds no payment twice.
proof fn lemma_compaction_no_duplicates(r: Seq<PaymentView>, ps: Seq<PaymentView>)
    requires
        is_compaction_of(r, ps),
    ensures
        r.no_duplicates(),
{
    assert forall|i: int, j: int| 0 <= i < r.len() && 0 <= j < r.len() && i != j implies r[i] != r[j] by {
        if i < j {
            assert(!same_token(r[i], r[j]));
        } else {
            assert(!same_token(r[j], r[i]));
        }
    }
}

/// Payments in another order compact to the same payments, each once: the
/// same token, nonce and total amount for each token paid; only the order
/// may differ.
pub proof fn lemma_compaction_permutation(
    r1: Seq<PaymentView>,
    ps1: Seq<PaymentView>,
    r2: Seq<PaymentView>,
    ps2: Seq<PaymentView>,
)
    requires
        is_compaction_of(r1, ps1),
        is_compaction_of(r2, ps2),
        ps1.to_multiset() == ps2.to_multiset(),
    ensures
        forall|x: PaymentView| r1.contains(x) <==> r2.contains(x),
        r1.to_multiset() == r2.to_multiset(),
        r1.len() == r2.len(),
{
    broadcast use vstd::seq_lib::group_to_multiset_ensures;
    assert forall|x: PaymentView| r1.contains(x) <==> r2.contains(x) by {
        lemma_compaction_contains(r1, ps1, x);
        lemma_compaction_contains(r2, ps2, x);
        lemma_amount_permutation(ps1, ps2, x.token_identifier, x.token_nonce);
    }
    lemma_compaction_no_duplicates(r1, ps1);
    lemma_compaction_no_duplicates(r2, ps2);
    r1.lemma_multiset_has_no_duplicates();
    r2.lemma_multiset_has_no_duplicates();
    assert forall|x: PaymentView| r1.to_multiset().count(x) == r2.to_multiset().count(x) by {
        if r1.contains(x) {
            assert(r1.to_multiset().contains(x));
            assert(r2.to_multiset().contains(x));
        }
    }
    assert(r1.to_multiset() =~= r2.to_multiset());
    assert(r1.to_multiset().len() == r1.len());
    assert(r2.to_multiset().len() == r2.len());
}


/// The function to call after a transfer and its gas: the accept-funds
/// function with `gas_limit`, or no call and no gas.
fn accept_funds_call(opt_accept_funds_func: &Option<Vec<u8>>, gas_limit: u64) -> (r: (Vec<u8>, u64))
    ensures
        (r.0@, r.1) == transfer_call(opt_bytes_view(*opt_accept_funds_func), gas_limit),
{
    match opt_accept_funds_func {
        Some(accept_funds_func) => (copy_bytes(accept_funds_func), gas_limit),
        None => (Vec::new(), 0u64),
    }
}

/// The token-send module of a contract: the transfers it makes of several
/// tokens at once, or of one token, with an optional call after them.
pub trait TokenSendModule {
    /// The stored gas given to the function called after a transfer.
    spec fn spec_transfer_exec_gas_limit(&self) -> u64;

    /// The stored gas given to the function called after a transfer.
    fn transfer_exec_gas_limit(&self) -> (gas: u64)
        ensures
            gas == self.spec_transfer_exec_gas_limit(),
    ;

    /// The transfer of `payments` to `destination`, followed by a call of
    /// the accept-funds function when one is given.
    fn send_multiple_tokens(
        &self,
        destination: &Vec<u8>,
        payments: &Vec<TokenPayment>,
        opt_accept_funds_func: &Option<Vec<u8>>,
    ) -> (t: MultiTransfer)
        ensures
            t.destination@ == destination@,
            payments_view(t.payments@) == payments_view(payments@),
            (t.endpoint_name@, t.gas_limit) == transfer_call(
                opt_bytes_view(*opt_accept_funds_func),
                self.spec_transfer_exec_gas_limit(),
            ),
    {
        let (function, gas_limit) = accept_funds_call(opt_accept_funds_func, self.transfer_exec_gas_limit());
        assert(payments_view(payments@).skip(0) =~= payments_view(payments@));
        MultiTransfer {
            destination: copy_bytes(destination),
            payments: copy_payments(payments, 0),
            gas_limit,
            endpoint_name: function,
        }
    }

    /// The transfer of the compaction of `payments` to `destination`; none
    /// when every payment has amount zero.
    fn send_multiple_tokens_compact(
        &self,
        destination: &Vec<u8>,
        payments: &Vec<TokenPayment>,
        opt_accept_funds_func: &Option<Vec<u8>>,
    ) -> (t: Option<MultiTransfer>)
        ensures
            t is None <==> forall|k: int| 0 <= k < payments.len() ==> (#[trigger] payments@[k]).amount@ == 0,
            t matches Some(t) ==> {
                &&& t.destination@ == destination@
                &&& is_compaction_of(payments_view(t.payments@), payments_view(payments@))
                &&& (t.endpoint_name@, t.gas_limit) == transfer_call(
                    opt_bytes_view(*opt_accept_funds_func),
                    self.spec_transfer_exec_gas_limit(),
                )
            },
    {
        let compact = compact_payments(payments);
        let ghost pv = payments_view(payments@);
        let ghost cv = payments_view(compact@);
        if compact.len() == 0 {
            assert forall|k: int| 0 <= k < payments.len() implies (#[trigger] payments@[k]).amount@ == 0 by {
                assert(pv[k] == payments@[k]@);
                if pv[k].amount > 0 {
                    assert(has_token(cv, pv[k].token_identifier, pv[k].token_nonce));
                    let w = choose|w: int|
                        0 <= w < cv.len() && is_token(#[trigger] cv[w], pv[k].token_identifier, pv[k].token_nonce);
                    assert(false);
                }
            }
            None
        } else {
            proof {
                assert(cv[0].amount > 0);
                lemma_amount_positive(pv, cv[0].token_identifier, cv[0].token_nonce);
                lemma_first_positive(pv, cv[0].token_identifier, cv[0].token_nonce);
                let k = first_positive(pv, cv[0].token_identifier, cv[0].token_nonce) as int;
                assert(pv[k] == payments@[k]@);
            }
            Some(self.send_multiple_tokens(destination, &compact, opt_accept_funds_func))
        }
    }

    /// The transfer of `amount` of `token` with `nonce` to `to`; none when
    /// the amount is zero.
    fn transfer_execute_custom(
        &self,
        to: &Vec<u8>,
        token: &Vec<u8>,
        nonce: u64,
        amount: &Amount,
        opt_accept_funds_func: &Option<Vec<u8>>,
    ) -> (t: Option<MultiTransfer>)
        ensures
            t is None <==> amount@ == 0,
            t matches Some(t) ==> {
                &&& t.destination@ == to@
                &&& payments_view(t.payments@) == seq![
                    PaymentView { token_identifier: token@, token_nonce: nonce, amount: amount@ },
                ]
                &&& (t.endpoint_name@, t.gas_limit) == transfer_call(
                    opt_bytes_view(*opt_accept_funds_func),
                    self.spec_transfer_exec_gas_limit(),
                )
            },
    {
        if amount.is_zero() {
            return None;
        }
        let (function, gas_limit) = accept_funds_call(opt_accept_funds_func, self.transfer_exec_gas_limit());
        let mut payments: Vec<TokenPayment> = Vec::new();
        payments.push(self.create_payment(token, nonce, amount));
        assert(payments_view(payments@) =~= seq![
            PaymentView { token_identifier: token@, token_nonce: nonce, amount: amount@ },
        ]);
        Some(MultiTransfer { destination: copy_bytes(to), payments, gas_limit, endpoint_name: function })
    }

    /// The payment of `amount` of `token_id` with `nonce`.
    fn create_payment(&self, token_id: &Vec<u8>, nonce: u64, amount: &Amount) -> (p: TokenPayment)
        ensures
            p@ == (PaymentView { token_identifier: token_id@, token_nonce: nonce, amount: amount@ }),
    {
        TokenPayment { token_identifier: copy_bytes(token_id), token_nonce: nonce, amount: amount.clone() }
    }
}

/// The storage of a contract that has only the token-send module.
#[derive(Debug, PartialEq, Eq)]
pub struct TokenSendStorage {
    pub transfer_exec_gas_limit: u64,
}

impl TokenSendModule for TokenSendStorage {
    open spec fn spec_transfer_exec_gas_limit(&self) -> u64 {
        self.transfer_exec_gas_limit
    }

    fn transfer_exec_gas_limit(&self) -> (gas: u64) {
        self.transfer_exec_gas_limit
    }
}

/// A transfer with an accept-funds function is given the gas limit stored
/// in the storage it was planned from, unchanged; one without calls nothing
/// and is given no gas.
pub proof fn lemma_transfer_gas_is_stored_limit(g: u64, f: Seq<u8>)
    ensures
        (TokenSendStorage { transfer_exec_gas_limit: g }).spec_transfer_exec_gas_limit() == g,
        transfer_call(Some(f), (TokenSendStorage { transfer_exec_gas_limit: g }).spec_transfer_exec_gas_limit())
            == (f, g),
        transfer_call(None, g) == (Seq::<u8>::empty(), 0u64),
{
}

/// A token that a sequence does not hold has total zero in it.
pub proof fn lemma_amount_absent(r: Seq<PaymentView>, token: Seq<u8>, nonce: u64)
    requires
        forall|i: int| 0 <= i < r.len() ==> !is_token(#[trigger] r[i], token, nonce),
    ensures
        amount_of(r, token, nonce) == 0,
    decreases r.len(),
{
    if r.len() > 0 {
        let prev = r.drop_last();
        assert forall|i: int| 0 <= i < prev.len() implies !is_token(#[trigger] prev[i], token, nonce) by {
            assert(prev[i] == r[i]);
        }
        lemma_amount_absent(prev, token, nonce);
    }
}

/// In a sequence with one payment per token, the total of a token it holds
/// is the amount of that payment, and that payment comes first among the
/// positive ones when all are positive.
pub proof fn lemma_distinct_amounts(r: Seq<PaymentView>, i: int)
    requires
        0 <= i < r.len(),
        forall|a: int, b: int| 0 <= a < b < r.len() ==> !same_token(#[trigger] r[a], #[trigger] r[b]),
    ensures
        amount_of(r, r[i].token_identifier, r[i].token_nonce) == r[i].amount,
        r[i].amount > 0 ==> first_positive(r, r[i].token_identifier, r[i].token_nonce) == i,
    decreases r.len(),
{
    let prev = r.drop_last();
    let t = r[i].token_identifier;
    let n = r[i].token_nonce;
    if i == r.len() - 1 {
        assert forall|j: int| 0 <= j < prev.len() implies !is_token(#[trigger] prev[j], t, n) by {
            assert(prev[j] == r[j]);
            assert(!same_token(r[j], r[i]));
        }
        lemma_amount_absent(prev, t, n);
        lemma_first_positive(prev, t, n);
        if first_positive(prev, t, n) < prev.len() {
            let k = first_positive(prev, t, n) as int;
            assert(prev[k] == r[k]);
            assert(!same_token(r[k], r[i]));
        }
    } else {
        assert(prev[i] == r[i]);
        assert(!same_token(r[i], r[r.len() - 1]));
        lemma_distinct_amounts(prev, i);
    }
}

/// Two compactions of one sequence agree at `i` when they agree before it.
proof fn lemma_compaction_agree_at(r1: Seq<PaymentView>, r2: Seq<PaymentView>, ps: Seq<PaymentView>, i: int)
    requires
        is_compaction_of(r1, ps),
        is_compaction_of(r2, ps),
        0 <= i < r1.len(),
        i <= r2.len(),
        forall|j: int| 0 <= j < i ==> r1[j] == r2[j],
    ensures
        i < r2.len(),
        r1[i] == r2[i],
{
    let t = r1[i].token_identifier;
    let n = r1[i].token_nonce;
    lemma_amount_positive(ps, t, n);
    lemma_first_positive(ps, t, n);
    let k = first_positive(ps, t, n) as int;
    assert(ps[k].amount > 0);
    assert(has_token(r2, ps[k].token_identifier, ps[k].token_nonce));
    let m = choose|m: int| 0 <= m < r2.len() && is_token(#[trigger] r2[m], t, n);
    if m < i {
        assert(r1[m] == r2[m]);
        assert(!same_token(r1[m], r1[i]));
    }
    assert(i < r2.len());
    let u = r2[i].token_identifier;
    let v = r2[i].token_nonce;
    lemma_amount_positive(ps, u, v);
    lemma_first_positive(ps, u, v);
    let k2 = first_positive(ps, u, v) as int;
    assert(ps[k2].amount > 0);
    assert(has_token(r1, ps[k2].token_identifier, ps[k2].token_nonce));
    let m2 = choose|m2: int| 0 <= m2 < r1.len() && is_token(#[trigger] r1[m2], u, v);
    if m2 < i {
        assert(r1[m2] == r2[m2]);
        assert(!same_token(r2[m2], r2[i]));
    }
    if m != i {
        assert(!same_token(r2[i], r2[m]));
        assert(first_positive(ps, u, v) < first_positive(ps, t, n));
        if m2 == i {
            assert(same_token(r1[i], r2[i]));
            assert(false);
        } else {
            assert(!same_token(r1[i], r1[m2]));
            assert(first_positive(ps, t, n) < first_positive(ps, u, v));
        }
    }
    assert(same_token(r1[i], r2[i]));
}

/// Two compactions of one sequence agree on their first `n` payments.
proof fn lemma_compaction_prefix(r1: Seq<PaymentView>, r2: Seq<PaymentView>, ps: Seq<PaymentView>, n: int)
    requires
        is_compaction_of(r1, ps),
        is_compaction_of(r2, ps),
        0 <= n <= r1.len(),
    ensures
        n <= r2.len(),
        forall|j: int| 0 <= j < n ==> r1[j] == r2[j],
    decreases n,
{
    if n > 0 {
        lemma_compaction_prefix(r1, r2, ps, n - 1);
        lemma_compaction_agree_at(r1, r2, ps, n - 1);
    }
}

/// A sequence of payments has one compaction only.
pub proof fn lemma_compaction_unique(r1: Seq<PaymentView>, r2: Seq<PaymentView>, ps: Seq<PaymentView>)
    requires
        is_compaction_of(r1, ps),
        is_compaction_of(r2, ps),
    ensures
        r1 == r2,
{
    lemma_compaction_prefix(r1, r2, ps, r1.len() as int);
    if r2.len() > r1.len() {
        let i = r1.len() as int;
        let t = r2[i].token_identifier;
        let n = r2[i].token_nonce;
        lemma_amount_positive(ps, t, n);
        lemma_first_positive(ps, t, n);
        let k = first_positive(ps, t, n) as int;
        assert(ps[k].amount > 0);
        assert(has_token(r1, ps[k].token_identifier, ps[k].token_nonce));
        let m = choose|m: int| 0 <= m < r1.len() && is_token(#[trigger] r1[m], t, n);
        assert(r1[m] == r2[m]);
        assert(!same_token(r2[m], r2[i]));
    }
    assert(r1 =~= r2);
}


/// Compacting is idempotent: a compacted sequence of payments is its own
/// compaction.
pub proof fn lemma_compaction_idempotent(r: Seq<PaymentView>, ps: Seq<PaymentView>)
    requires
        is_compaction_of(r, ps),
    ensures
        is_compaction_of(r, r),
{
    assert forall|i: int| 0 <= i < r.len() implies (#[trigger] r[i]).amount > 0 && r[i].amount
        == amount_of(r, r[i].token_identifier, r[i].token_nonce) by {
        lemma_distinct_amounts(r, i);
    }
    assert forall|k: int| 0 <= k < r.len() && (#[trigger] r[k]).amount > 0 implies has_token(
        r,
        r[k].token_identifier,
        r[k].token_nonce,
    ) by {
        assert(is_token(r[k], r[k].token_identifier, r[k].token_nonce));
    }
    assert forall|a: int, b: int| 0 <= a < b < r.len() implies first_positive(
        r,
        (#[trigger] r[a]).token_identifier,
        r[a].token_nonce,
    ) < first_positive(r, (#[trigger] r[b]).token_identifier, r[b].token_nonce) by {
        lemma_distinct_amounts(r, a);
        lemma_distinct_amounts(r, b);
    }
}

/// Compacting keeps the total paid of every token and nonce.
pub proof fn lemma_compaction_preserves_amounts(
    r: Seq<PaymentView>,
    ps: Seq<PaymentView>,
    token: Seq<u8>,
    nonce: u64,
)
    requires
        is_compaction_of(r, ps),
    ensures
        amount_of(r, token, nonce) == amount_of(ps, token, nonce),
{
    if has_token(r, token, nonce) {
        let i = choose|i: int| 0 <= i < r.len() && is_token(#[trigger] r[i], token, nonce);
        lemma_distinct_amounts(r, i);
    } else {
        lemma_amount_absent(r, token, nonce);
        if amount_of(ps, token, nonce) > 0 {
            lemma_amount_positive(ps, token, nonce);
            lemma_first_positive(ps, token, nonce);
            let k = first_positive(ps, token, nonce) as int;
            assert(ps[k].amount > 0);
        }
    }
}

} // verus!
