//! Token amounts of any size: unsigned integers held as their big-endian
//! digits in base 256, with no leading zero.

use vstd::prelude::*;

verus! {

/// `256` to the power `n`.
pub open spec fn pow256(n: nat) -> nat
    decreases n,
{
    if n == 0 {
        1
    } else {
        256 * pow256((n - 1) as nat)
    }
}

/// The number that a big-endian byte string stands for.
pub open spec fn be_value(bytes: Seq<u8>) -> nat
    decreases bytes.len(),
{
    if bytes.len() == 0 {
        0
    } else {
        be_value(bytes.drop_last()) * 256 + bytes.last() as nat
    }
}

/// Powers of 256 are positive.
pub proof fn lemma_pow256_positive(n: nat)
    ensures
        pow256(n) > 0,
    decreases n,
{
    if n > 0 {
        lemma_pow256_positive((n - 1) as nat);
    }
}

/// The value of a concatenation: the high digits shifted by the length of
/// the low ones, plus the low ones.
pub proof fn lemma_be_value_concat(high: Seq<u8>, low: Seq<u8>)
    ensures
        be_value(high + low) == be_value(high) * pow256(low.len()) + be_value(low),
    decreases low.len(),
{
    if low.len() == 0 {
        assert(high + low =~= high);
        assert(pow256(0) == 1);
        assert(be_value(low) == 0);
    } else {
        let joined = high + low;
        assert(joined.drop_last() =~= high + low.drop_last());
        assert(joined.last() == low.last());
        lemma_be_value_concat(high, low.drop_last());
        let h = be_value(high);
        let p = pow256((low.len() - 1) as nat);
        let l = be_value(low.drop_last());
        assert(be_value(joined) == be_value(high + low.drop_last()) * 256 + low.last() as nat);
        assert(be_value(low) == l * 256 + low.last() as nat);
        assert(pow256(low.len()) == 256 * p);
        assert((h * p + l) * 256 + low.last() as nat == h * (256 * p) + (l * 256 + low.last() as nat))
            by (nonlinear_arith);
    }
}

/// The value of the last `k + 1` digits: digit `k` from the end, shifted,
/// plus the value of the last `k` digits.
pub proof fn lemma_be_value_skip(s: Seq<u8>, k: int)
    requires
        0 <= k < s.len(),
    ensures
        be_value(s.skip(s.len() - k - 1)) == s[s.len() - k - 1] * pow256(k as nat) + be_value(
            s.skip(s.len() - k),
        ),
{
    let d = seq![s[s.len() - k - 1]];
    assert(s.skip(s.len() - k - 1) =~= d + s.skip(s.len() - k));
    lemma_be_value_concat(d, s.skip(s.len() - k));
    assert(d.drop_last() =~= Seq::<u8>::empty());
    assert(be_value(Seq::<u8>::empty()) == 0);
    assert(be_value(d) == s[s.len() - k - 1] as nat);
    assert(s.skip(s.len() - k).len() == k);
}

/// A string of zero digits stands for zero.
pub proof fn lemma_be_value_zeros(s: Seq<u8>)
    requires
        forall|i: int| 0 <= i < s.len() ==> s[i] == 0,
    ensures
        be_value(s) == 0,
    decreases s.len(),
{
    if s.len() > 0 {
        lemma_be_value_zeros(s.drop_last());
    }
}

/// A string whose first digit is not zero stands for a positive number.
pub proof fn lemma_be_value_leading(s: Seq<u8>)
    requires
        s.len() > 0,
        s[0] != 0,
    ensures
        be_value(s) > 0,
{
    let first = seq![s[0]];
    assert(s =~= first + s.skip(1));
    lemma_be_value_concat(first, s.skip(1));
    assert(first.drop_last() =~= Seq::<u8>::empty());
    assert(be_value(Seq::<u8>::empty()) == 0);
    assert(be_value(first) == s[0] as nat);
    lemma_pow256_positive((s.len() - 1) as nat);
    assert(s[0] as nat * pow256((s.len() - 1) as nat) > 0) by (nonlinear_arith)
        requires
            s[0] as nat > 0,
            pow256((s.len() - 1) as nat) > 0,
    ;
}

/// The value of the last `k` digits of `s`, all of them when `k` exceeds
/// its length.
pub open spec fn low_value(s: Seq<u8>, k: nat) -> nat {
    if k >= s.len() {
        be_value(s)
    } else {
        be_value(s.skip(s.len() - k))
    }
}

/// The digit of `s` of weight `256^k`, zero beyond its length.
pub open spec fn digit(s: Seq<u8>, k: nat) -> nat {
    if k < s.len() {
        s[s.len() - 1 - k] as nat
    } else {
        0
    }
}

/// One more low digit: the value grows by that digit, shifted.
pub proof fn lemma_low_value_step(s: Seq<u8>, k: nat)
    ensures
        low_value(s, k + 1) == low_value(s, k) + digit(s, k) * pow256(k),
{
    if k < s.len() {
        lemma_be_value_skip(s, k as int);
        if k + 1 >= s.len() {
            assert(s.skip(s.len() - k - 1) =~= s);
        }
    }
}

/// An unsigned integer of any size, as its big-endian digits in base 256
/// with no leading zero.
#[derive(Debug, PartialEq, Eq)]
pub struct Amount {
    digits: Vec<u8>,
}

impl View for Amount {
    type V = nat;

    closed spec fn view(&self) -> nat {
        be_value(self.digits@)
    }
}

/// The amount that the digits of `digits` stand for, dropping leading zeros.
fn canonical(digits: &Vec<u8>) -> (r: Amount)
    ensures
        r@ == be_value(digits@),
{
    let mut k: usize = 0;
    while k < digits.len() && digits[k] == 0
        invariant
            k <= digits.len(),
            forall|i: int| 0 <= i < k ==> digits@[i] == 0,
        decreases digits.len() - k,
    {
        k = k + 1;
    }
    let mut out: Vec<u8> = Vec::new();
    let mut i: usize = k;
    while i < digits.len()
        invariant
            k <= i <= digits.len(),
            out@ == digits@.subrange(k as int, i as int),
        decreases digits.len() - i,
    {
        out.push(digits[i]);
        i = i + 1;
        assert(out@ =~= digits@.subrange(k as int, i as int));
    }
    proof {
        assert(out@ =~= digits@.skip(k as int));
        assert(digits@ =~= digits@.take(k as int) + digits@.skip(k as int));
        lemma_be_value_concat(digits@.take(k as int), digits@.skip(k as int));
        lemma_be_value_zeros(digits@.take(k as int));
        let p = pow256(digits@.skip(k as int).len());
        assert(be_value(digits@.take(k as int)) * p == 0) by (nonlinear_arith)
            requires
                be_value(digits@.take(k as int)) == 0,
        ;
    }
    Amount { digits: out }
}

impl Amount {
    #[verifier::type_invariant]
    spec fn no_leading_zero(&self) -> bool {
        self.digits@.len() == 0 || self.digits@[0] != 0
    }

    /// Zero.
    pub fn zero() -> (r: Self)
        ensures
            r@ == 0,
    {
        Amount { digits: Vec::new() }
    }

    /// The amount that the big-endian bytes `bytes` stand for.
    pub fn from_be_bytes(bytes: &[u8]) -> (r: Self)
        ensures
            r@ == be_value(bytes@),
    {
        let mut copy: Vec<u8> = Vec::new();
        let mut i: usize = 0;
        while i < bytes.len()
            invariant
                i <= bytes.len(),
                copy@ == bytes@.take(i as int),
            decreases bytes.len() - i,
        {
            copy.push(bytes[i]);
            i = i + 1;
            assert(copy@ =~= bytes@.take(i as int));
        }
        assert(copy@ =~= bytes@);
        canonical(&copy)
    }

    /// The big-endian bytes of the amount, with no leading zero.
    pub fn to_be_bytes(&self) -> (r: Vec<u8>)
        ensures
            be_value(r@) == self@,
            r@.len() == 0 || r@[0] != 0,
    {
        proof {
            use_type_invariant(self);
        }
        let r = self.digits.clone();
        assert(r@ =~= self.digits@);
        r
    }

    /// The amount `value`.
    pub fn from_u128(value: u128) -> (r: Self)
        ensures
            r@ == value,
    {
        let mut digits: Vec<u8> = vec![0u8; 16];
        assert(digits@ =~= Seq::new(16, |i: int| 0u8));
        let mut cur: u128 = value;
        let mut k: usize = 0;
        assert(digits@.skip(16) =~= Seq::<u8>::empty());
        assert(be_value(Seq::<u8>::empty()) == 0);
        assert(pow256(0) == 1);
        while k < 16
            invariant
                k <= 16,
                digits.len() == 16,
                forall|i: int| 0 <= i < 16 - k ==> digits@[i] == 0,
                be_value(digits@.skip(16 - k)) + cur * pow256(k as nat) == value,
            decreases 16 - k,
        {
            let d: u8 = (cur % 256) as u8;
            let next: u128 = cur / 256;
            let ghost before = digits@;
            digits.set(15 - k, d);
            proof {
                assert(digits@.skip(16 - k) =~= before.skip(16 - k));
                lemma_be_value_skip(digits@, k as int);
                let p = pow256(k as nat);
                assert(cur * p == d * p + next * (256 * p)) by (nonlinear_arith)
                    requires
                        d == cur % 256,
                        next == cur / 256,
                ;
            }
            cur = next;
            k = k + 1;
        }
        proof {
            assert(digits@.skip(0) =~= digits@);
            assert(pow256(16) == 0x1_0000_0000_0000_0000_0000_0000_0000_0000) by {
                reveal_with_fuel(pow256, 17);
            }
            if cur > 0 {
                assert(cur * pow256(16) >= pow256(16)) by (nonlinear_arith)
                    requires
                        cur > 0,
                ;
            }
        }
        canonical(&digits)
    }

    /// Whether the amount is zero.
    pub fn is_zero(&self) -> (r: bool)
        ensures
            r == (self@ == 0),
    {
        proof {
            use_type_invariant(self);
            if self.digits@.len() > 0 {
                lemma_be_value_leading(self.digits@);
            }
        }
        self.digits.len() == 0
    }

    /// The sum of two amounts.
    pub fn add(&self, other: &Self) -> (r: Self)
        ensures
            r@ == self@ + other@,
    {
        let a = &self.digits;
        let b = &other.digits;
        let n: usize = if a.len() < b.len() {
            b.len()
        } else {
            a.len()
        };
        let mut res: Vec<u8> = vec![0u8; n];
        assert(res@ =~= Seq::new(n as nat, |i: int| 0u8));
        let mut carry: u8 = 0;
        let mut k: usize = 0;
        assert(res@.skip(n as int) =~= Seq::<u8>::empty());
        assert(be_value(Seq::<u8>::empty()) == 0);
        assert(pow256(0) == 1);
        assert(low_value(a@, 0) == 0);
        assert(low_value(b@, 0) == 0);
        while k < n
            invariant
                k <= n,
                n == a.len() || n == b.len(),
                a.len() <= n,
                b.len() <= n,
                res.len() == n,
                carry <= 1,
                be_value(res@.skip(n - k)) + carry * pow256(k as nat) == low_value(a@, k as nat)
                    + low_value(b@, k as nat),
            decreases n - k,
        {
            let da: u16 = if k < a.len() {
                a[a.len() - 1 - k] as u16
            } else {
                0
            };
            let db: u16 = if k < b.len() {
                b[b.len() - 1 - k] as u16
            } else {
                0
            };
            let s: u16 = da + db + carry as u16;
            let d: u8 = (s % 256) as u8;
            let next: u8 = (s / 256) as u8;
            let ghost before = res@;
            res.set(n - 1 - k, d);
            proof {
                assert(res@.skip(n - k) =~= before.skip(n - k));
                lemma_be_value_skip(res@, k as int);
                lemma_low_value_step(a@, k as nat);
                lemma_low_value_step(b@, k as nat);
                assert(da == digit(a@, k as nat));
                assert(db == digit(b@, k as nat));
                let p = pow256(k as nat);
                assert(d * p + next * (256 * p) == (da + db + carry) * p) by (nonlinear_arith)
                    requires
                        d == s % 256,
                        next == s / 256,
                        s == da + db + carry,
                ;
                assert((da + db + carry) * p == da * p + db * p + carry * p) by (nonlinear_arith);
            }
            carry = next;
            k = k + 1;
        }
        proof {
            assert(res@.skip(0) =~= res@);
            assert(low_value(a@, n as nat) == be_value(a@));
            assert(low_value(b@, n as nat) == be_value(b@));
            assert(be_value(res@) + carry * pow256(n as nat) == self@ + other@);
        }
        if carry > 0 {
            let ghost before = res@;
            res.insert(0, carry);
            proof {
                assert(res@ =~= seq![carry] + before);
                lemma_be_value_concat(seq![carry], before);
                assert(seq![carry].drop_last() =~= Seq::<u8>::empty());
                assert(be_value(Seq::<u8>::empty()) == 0);
                assert(be_value(seq![carry]) == carry as nat);
                assert(res@.len() == n + 1);
                assert(before.len() == n);
                assert(be_value(res@) == self@ + other@);
            }
        } else {
            assert(carry * pow256(n as nat) == 0) by (nonlinear_arith)
                requires
                    carry == 0,
            ;
        }
        canonical(&res)
    }
}

impl Clone for Amount {
    fn clone(&self) -> (r: Self)
        ensures
            r@ == self@,
    {
        proof {
            use_type_invariant(self);
        }
        let digits = self.digits.clone();
        assert(digits@ =~= self.digits@);
        Amount { digits }
    }
}

} // verus!
