//! Natural numbers of any size, as far as reading decimal fractions needs
//! them.
use vstd::prelude::*;

use vstd::arithmetic::power2::pow2;

verus! {

/// Number of values that a limb can have.
spec fn base() -> nat {
    0x1_0000_0000
}

/// The weight of the limb at `i`.
spec fn weight(i: nat) -> nat
    decreases i,
{
    if i == 0 {
        1
    } else {
        base() * weight((i - 1) as nat)
    }
}

/// What the first `count` limbs add up to.
spec fn low(limbs: Seq<u32>, count: nat) -> nat
    decreases count,
{
    if count == 0 {
        0
    } else {
        low(limbs, (count - 1) as nat) + limbs[count - 1] as nat * weight((count - 1) as nat)
    }
}

/// The number that the limbs from `i` on denote by themselves.
spec fn high(limbs: Seq<u32>, i: nat) -> nat
    decreases limbs.len() - i,
{
    if i >= limbs.len() {
        0
    } else {
        limbs[i as int] as nat + base() * high(limbs, i + 1)
    }
}

proof fn lemma_split(limbs: Seq<u32>, i: nat)
    requires
        i <= limbs.len(),
    ensures
        low(limbs, limbs.len()) == low(limbs, i) + weight(i) * high(limbs, i),
    decreases limbs.len() - i,
{
    if i < limbs.len() {
        lemma_split(limbs, i + 1);
        let w = weight(i);
        let h = high(limbs, i + 1);
        let x = limbs[i as int] as nat;
        assert(base() * w * h + x * w == w * (x + base() * h)) by (nonlinear_arith)
            requires
                base() == 0x1_0000_0000,
        ;
        assert(weight(i + 1) == base() * w);
        assert(low(limbs, i + 1) == low(limbs, i) + x * w);
    } else {
        assert(weight(i) * 0 == 0) by (nonlinear_arith);
    }
}

proof fn lemma_low_same(a: Seq<u32>, b: Seq<u32>, count: nat)
    requires
        count <= a.len(),
        count <= b.len(),
        forall|k: int| 0 <= k < count ==> a[k] == b[k],
    ensures
        low(a, count) == low(b, count),
    decreases count,
{
    if count > 0 {
        lemma_low_same(a, b, (count - 1) as nat);
    }
}

/// A natural number, least significant limb first.
pub struct Big {
    limbs: Vec<u32>,
}

impl Big {
    pub closed spec fn value(self) -> nat {
        low(self.limbs@, self.limbs@.len())
    }

    pub fn zero() -> (big: Self)
        ensures
            big.value() == 0,
    {
        Big { limbs: Vec::new() }
    }

    /// Another number of the same value.
    pub fn copy(&self) -> (big: Self)
        ensures
            big.value() == self.value(),
    {
        let mut limbs: Vec<u32> = Vec::new();
        let mut i: usize = 0;
        while i < self.limbs.len()
            invariant
                i <= self.limbs@.len(),
                limbs@ == self.limbs@.take(i as int),
            decreases self.limbs@.len() - i,
        {
            limbs.push(self.limbs[i]);
            assert(limbs@ =~= self.limbs@.take(i + 1));
            i = i + 1;
        }
        assert(limbs@ =~= self.limbs@);
        Big { limbs }
    }

    /// Multiplies by `factor`, then adds `addend`.
    pub fn multiply_add(&mut self, factor: u32, addend: u32)
        ensures
            final(self).value() == old(self).value() * factor + addend,
    {
        let ghost before = self.limbs@;
        let mut carry: u64 = addend as u64;
        let mut i: usize = 0;
        proof {
            lemma_split(before, 0);
            assert(1 * high(before, 0) == high(before, 0));
            assert(1 * (carry + factor * high(before, 0)) == carry + factor * high(before, 0))
                by (nonlinear_arith);
        }
        let count: usize = self.limbs.len();
        while i < count
            invariant
                i <= count,
                count == before.len(),
                self.limbs@.len() == before.len(),
                carry <= 0xffff_ffff,
                forall|k: int| i <= k < before.len() ==> self.limbs@[k] == before[k],
                low(self.limbs@, i as nat) + weight(i as nat) * (carry + factor * high(
                    before,
                    i as nat,
                )) == factor * high(before, 0) + addend,
            decreases count - i,
        {
            let limb: u32 = self.limbs[i];
            assert(limb as u64 * factor as u64 <= 0xffff_ffff * 0xffff_ffff) by (nonlinear_arith)
                requires
                    limb <= 0xffff_ffff,
                    factor <= 0xffff_ffff,
            ;
            let sum: u64 = limb as u64 * factor as u64 + carry;
            let kept: u32 = (sum % 0x1_0000_0000) as u32;
            let ghost old_limbs = self.limbs@;
            let ghost old_carry = carry;
            self.limbs[i] = kept;
            carry = sum / 0x1_0000_0000;
            proof {
                lemma_low_same(old_limbs, self.limbs@, i as nat);
                let w = weight(i as nat);
                let h = high(before, i as nat + 1);
                let x = limb as nat;
                let f = factor as nat;
                let c = carry as nat;
                let oc = old_carry as nat;
                let kn = kept as nat;
                assert(high(before, i as nat) == x + base() * h);
                assert(x * f + oc == kn + base() * c) by {
                    assert(sum == base() * c + kn);
                }
                assert(w * (oc + f * (x + base() * h)) == kn * w + (base() * w) * (c + f * h))
                    by (nonlinear_arith)
                    requires
                        x * f + oc == kn + base() * c,
                ;
                assert(weight(i as nat + 1) == base() * w);
                assert(low(self.limbs@, i as nat + 1) == low(self.limbs@, i as nat) + kn * w);
            }
            i = i + 1;
        }
        proof {
            assert(high(before, count as nat) == 0);
            assert(factor * 0 == 0);
        }
        let ghost done = self.limbs@;
        self.limbs.push(carry as u32);
        proof {
            lemma_low_same(done, self.limbs@, done.len());
            let w = weight(count as nat);
            assert(w * carry == carry * w) by (nonlinear_arith);
            assert(high(before, 0) == low(before, before.len()));
            assert(factor * high(before, 0) == high(before, 0) * factor) by (nonlinear_arith);
        }
    }

    /// The limb at `i`, where those beyond the last are zero.
    fn limb(&self, i: usize) -> (limb: u32)
        ensures
            limb == if i < self.limbs@.len() {
                self.limbs@[i as int]
            } else {
                0
            },
    {
        if i < self.limbs.len() {
            self.limbs[i]
        } else {
            0
        }
    }

    /// Compares two numbers.
    pub fn compare(&self, other: &Big) -> (relation: Relation)
        ensures
            relation == relation_of(self.value() as int, other.value() as int),
    {
        let mut i: usize = if self.limbs.len() > other.limbs.len() {
            self.limbs.len()
        } else {
            other.limbs.len()
        };
        let mut relation = Relation::Equal;
        while i > 0
            invariant
                relation == relation_of(
                    high(self.limbs@, i as nat) as int,
                    high(other.limbs@, i as nat) as int,
                ),
            decreases i,
        {
            i = i - 1;
            let a: u32 = self.limb(i);
            let b: u32 = other.limb(i);
            proof {
                let ha = high(self.limbs@, i as nat + 1);
                let hb = high(other.limbs@, i as nat + 1);
                assert(high(self.limbs@, i as nat) == a + base() * ha);
                assert(high(other.limbs@, i as nat) == b + base() * hb);
            }
            if relation == Relation::Equal {
                if a < b {
                    relation = Relation::Less;
                } else if a > b {
                    relation = Relation::Greater;
                }
            }
        }
        proof {
            lemma_split(self.limbs@, 0);
            lemma_split(other.limbs@, 0);
            assert(1 * high(self.limbs@, 0) == high(self.limbs@, 0));
            assert(1 * high(other.limbs@, 0) == high(other.limbs@, 0));
        }
        relation
    }

    /// Multiplies by two to the power of `exponent`.
    pub fn shift_left(&mut self, exponent: u32)
        ensures
            final(self).value() == old(self).value() * pow2(exponent as nat),
    {
        let mut left: u32 = exponent;
        proof {
            assert(old(self).value() * pow2(exponent as nat) == self.value() * pow2(left as nat));
        }
        while left >= 16
            invariant
                left <= exponent,
                self.value() * pow2(left as nat) == old(self).value() * pow2(exponent as nat),
            decreases left,
        {
            let ghost v = self.value();
            self.multiply_add(0x1_0000, 0);
            proof {
                vstd::arithmetic::power2::lemma_pow2_adds((left - 16) as nat, 16);
                vstd::arithmetic::power2::lemma2_to64();
                let p = pow2((left - 16) as nat);
                assert(v * (p * 0x1_0000) == (v * 0x1_0000 + 0) * p) by (nonlinear_arith);
            }
            left = left - 16;
        }
        while left > 0
            invariant
                left <= exponent,
                self.value() * pow2(left as nat) == old(self).value() * pow2(exponent as nat),
            decreases left,
        {
            let ghost v = self.value();
            self.multiply_add(2, 0);
            proof {
                vstd::arithmetic::power2::lemma_pow2_adds((left - 1) as nat, 1);
                vstd::arithmetic::power2::lemma2_to64();
                let p = pow2((left - 1) as nat);
                assert(v * (p * 2) == (v * 2 + 0) * p) by (nonlinear_arith);
            }
            left = left - 1;
        }
        proof {
            vstd::arithmetic::power2::lemma2_to64();
            assert(self.value() * 1 == self.value());
        }
    }
}

/// How a number relates to another.
#[derive(Clone, Copy, Debug, PartialEq, Eq, Structural)]
pub enum Relation {
    Less,
    Equal,
    Greater,
}

pub open spec fn relation_of(a: int, b: int) -> Relation {
    if a < b {
        Relation::Less
    } else if a == b {
        Relation::Equal
    } else {
        Relation::Greater
    }
}

} // verus!
