//! Natural numbers of bounded size, as little-endian sequences of 64-bit limbs.
//!
//! The ledger keeps the product of the prime representatives of all live
//! outputs. That product outgrows every machine integer, so it is held as a
//! [`Natural`]. Multiplication and division are done by `rug`; everything
//! else (construction, normalisation, comparison with zero) is done here.

use rug::integer::Order;
use rug::Integer;
use vstd::prelude::*;

verus! {

/// The largest number of limbs a [`Natural`] may have.
pub const MAX_LIMBS: usize = 0x10_0000;

/// The number of values one limb can take, `2^64`.
pub open spec fn radix() -> nat {
    0x1_0000_0000_0000_0000
}

/// The number that a little-endian sequence of limbs stands for.
pub open spec fn limbs_value(limbs: Seq<u64>) -> nat
    decreases limbs.len(),
{
    if limbs.len() == 0 {
        0
    } else {
        limbs[0] as nat + radix() * limbs_value(limbs.skip(1))
    }
}

/// A sequence of limbs is canonical when its most significant limb is not zero.
pub open spec fn canonical(limbs: Seq<u64>) -> bool {
    limbs.len() > 0 ==> limbs.last() != 0
}

/// The number of limbs that the canonical form of `value` has.
pub open spec fn limb_count(value: nat) -> nat
    decreases value,
{
    if value == 0 {
        0
    } else {
        1 + limb_count(value / radix())
    }
}

/// A most significant limb of zero does not change the value.
pub proof fn lemma_value_push_zero(limbs: Seq<u64>)
    ensures
        limbs_value(limbs.push(0)) == limbs_value(limbs),
    decreases limbs.len(),
{
    let longer = limbs.push(0);
    if limbs.len() == 0 {
        assert(longer.skip(1) =~= Seq::<u64>::empty());
        assert(limbs_value(longer.skip(1)) == 0);
        assert(limbs_value(longer) == longer[0] as nat + radix() * limbs_value(longer.skip(1)));
    } else {
        lemma_value_push_zero(limbs.skip(1));
        assert(longer.skip(1) =~= limbs.skip(1).push(0));
        assert(limbs_value(longer) == longer[0] as nat + radix() * limbs_value(longer.skip(1)));
    }
}

/// A canonical sequence stands for zero only when it is empty.
pub proof fn lemma_canonical_positive(limbs: Seq<u64>)
    requires
        canonical(limbs),
        limbs.len() > 0,
    ensures
        limbs_value(limbs) > 0,
    decreases limbs.len(),
{
    let rest = limbs.skip(1);
    if rest.len() == 0 {
        assert(limbs[0] == limbs.last());
        assert(limbs_value(rest) == 0);
    } else {
        assert(rest.last() == limbs.last());
        lemma_canonical_positive(rest);
        assert(radix() * limbs_value(rest) > 0) by (nonlinear_arith)
            requires
                limbs_value(rest) > 0,
                radix() > 0,
        ;
    }
}

/// The value of a canonical sequence fixes its length.
pub proof fn lemma_canonical_len(limbs: Seq<u64>)
    requires
        canonical(limbs),
    ensures
        limbs.len() == limb_count(limbs_value(limbs)),
    decreases limbs.len(),
{
    if limbs.len() > 0 {
        let rest = limbs.skip(1);
        let low = limbs[0] as nat;
        let high = limbs_value(rest);
        lemma_canonical_positive(limbs);
        if rest.len() > 0 {
            assert(rest.last() == limbs.last());
        }
        lemma_canonical_len(rest);
        assert((low + radix() * high) / radix() == high) by (nonlinear_arith)
            requires
                low < radix(),
                radix() > 0,
        ;
    }
}

/// Two canonical sequences with the same value are the same sequence.
pub proof fn lemma_canonical_unique(a: Seq<u64>, b: Seq<u64>)
    requires
        canonical(a),
        canonical(b),
        limbs_value(a) == limbs_value(b),
    ensures
        a == b,
    decreases a.len(),
{
    lemma_canonical_len(a);
    lemma_canonical_len(b);
    if a.len() > 0 {
        let ra = a.skip(1);
        let rb = b.skip(1);
        if ra.len() > 0 {
            assert(ra.last() == a.last());
            assert(rb.last() == b.last());
        }
        assert(a[0] == b[0] && limbs_value(ra) == limbs_value(rb)) by (nonlinear_arith)
            requires
                a[0] as nat + radix() * limbs_value(ra) == b[0] as nat + radix() * limbs_value(rb),
                (a[0] as nat) < radix(),
                (b[0] as nat) < radix(),
        ;
        lemma_canonical_unique(ra, rb);
        assert(a =~= seq![a[0]] + ra);
        assert(b =~= seq![b[0]] + rb);
    } else {
        assert(a =~= b);
    }
}

/// A larger number has at least as many limbs.
pub proof fn lemma_limb_count_monotone(small: nat, large: nat)
    requires
        small <= large,
    ensures
        limb_count(small) <= limb_count(large),
    decreases large,
{
    if small > 0 {
        assert(small / radix() <= large / radix()) by (nonlinear_arith)
            requires
                small <= large,
                radix() > 0,
        ;
        assert(large / radix() < large) by (nonlinear_arith)
            requires
                large > 0,
                radix() > 1,
        ;
        lemma_limb_count_monotone(small / radix(), large / radix());
    }
}

/// Multiplies two numbers given by their limbs.
///
/// Trusted: the body hands both operands to `rug` with
/// `Integer::from_digits`, multiplies them with `Integer`'s `*`, and reads the
/// product back with `Integer::to_digits`, all least significant limb first.
/// The contract claims that the limbs handed back stand for the product of
/// the two values. The bound on the operands keeps them far below the size at
/// which the conversion or the multiplication would give up.
#[verifier::external_body]
fn rug_mul(a: &Vec<u64>, b: &Vec<u64>) -> (product: Vec<u64>)
    requires
        a@.len() <= MAX_LIMBS,
        b@.len() <= MAX_LIMBS,
    ensures
        limbs_value(product@) == limbs_value(a@) * limbs_value(b@),
{
    let x = Integer::from_digits(a.as_slice(), Order::Lsf);
    let y = Integer::from_digits(b.as_slice(), Order::Lsf);
    (x * y).to_digits::<u64>(Order::Lsf)
}

/// Divides one number by another, both given by their limbs.
///
/// Trusted: the body hands both operands to `rug` with
/// `Integer::from_digits`, calls `Integer::div_rem`, and reads quotient and
/// remainder back with `Integer::to_digits`. The contract claims that, for a
/// divisor that is not zero, the first component stands for the quotient
/// rounded down and the second for the remainder. `Integer::div_rem` panics
/// on a zero divisor, which `requires` rules out.
#[verifier::external_body]
fn rug_div_rem(a: &Vec<u64>, b: &Vec<u64>) -> (parts: (Vec<u64>, Vec<u64>))
    requires
        a@.len() <= MAX_LIMBS,
        b@.len() <= MAX_LIMBS,
        limbs_value(b@) != 0,
    ensures
        limbs_value(parts.0@) == limbs_value(a@) / limbs_value(b@),
        limbs_value(parts.1@) == limbs_value(a@) % limbs_value(b@),
{
    let x = Integer::from_digits(a.as_slice(), Order::Lsf);
    let y = Integer::from_digits(b.as_slice(), Order::Lsf);
    let (quotient, remainder) = x.div_rem(y);
    (quotient.to_digits::<u64>(Order::Lsf), remainder.to_digits::<u64>(Order::Lsf))
}

/// Drops the most significant limbs that are zero.
fn normalize(limbs: Vec<u64>) -> (trimmed: Vec<u64>)
    ensures
        canonical(trimmed@),
        limbs_value(trimmed@) == limbs_value(limbs@),
        trimmed@.len() <= limbs@.len(),
{
    let mut trimmed = limbs;
    while trimmed.len() > 0 && trimmed[trimmed.len() - 1] == 0
        invariant
            limbs_value(trimmed@) == limbs_value(limbs@),
            trimmed@.len() <= limbs@.len(),
        decreases trimmed.len(),
    {
        proof {
            lemma_value_push_zero(trimmed@.drop_last());
            assert(trimmed@ =~= trimmed@.drop_last().push(0));
        }
        trimmed.pop();
    }
    trimmed
}

/// A natural number below `radix()` to the power [`MAX_LIMBS`].
#[derive(Debug, PartialEq, Eq)]
pub struct Natural {
    limbs: Vec<u64>,
}

impl View for Natural {
    type V = nat;

    open spec fn view(&self) -> nat {
        limbs_value(self.spec_limbs())
    }
}

impl Clone for Natural {
    fn clone(&self) -> (copy: Self)
        ensures
            copy.spec_limbs() == self.spec_limbs(),
    {
        proof {
            use_type_invariant(self);
        }
        let limbs = self.limbs.clone();
        assert(limbs@ =~= self.limbs@);
        Natural { limbs }
    }
}

impl Natural {
    /// The limbs, least significant first.
    pub closed spec fn spec_limbs(&self) -> Seq<u64> {
        self.limbs@
    }

    /// The representation is canonical and within the size bound. This holds
    /// of every number that a program holds.
    #[verifier::type_invariant]
    pub open spec fn wf(&self) -> bool {
        &&& canonical(self.spec_limbs())
        &&& self.spec_limbs().len() <= MAX_LIMBS
    }

    /// Whether a value is small enough to be held.
    pub open spec fn fits(value: nat) -> bool {
        limb_count(value) <= MAX_LIMBS
    }

    /// A well-formed number fits, and its limbs are fixed by its value.
    pub proof fn lemma_wf_fits(&self)
        requires
            self.wf(),
        ensures
            Self::fits(self@),
            self.spec_limbs().len() == limb_count(self@),
    {
        lemma_canonical_len(self.spec_limbs());
    }

    /// Well-formed numbers with the same value have the same limbs, so that
    /// `==`, which compares the limbs, compares the values.
    pub proof fn lemma_value_determines(&self, other: &Natural)
        requires
            self.wf(),
            other.wf(),
            self@ == other@,
        ensures
            self.spec_limbs() == other.spec_limbs(),
    {
        lemma_canonical_unique(self.spec_limbs(), other.spec_limbs());
    }

    /// The number zero.
    pub fn zero() -> (n: Natural)
        ensures
            n@ == 0,
    {
        Natural { limbs: Vec::new() }
    }

    /// The number with the given value.
    pub fn from_u64(value: u64) -> (n: Natural)
        ensures
            n@ == value,
    {
        let mut limbs: Vec<u64> = Vec::new();
        if value != 0 {
            limbs.push(value);
            assert(limbs@.skip(1) =~= Seq::<u64>::empty());
            assert(limbs_value(limbs@) == limbs@[0] as nat + radix() * limbs_value(limbs@.skip(1)));
        }
        Natural { limbs }
    }

    /// The number one.
    pub fn one() -> (n: Natural)
        ensures
            n@ == 1,
    {
        Natural::from_u64(1)
    }

    /// The number that the given limbs stand for, least significant limb
    /// first, or `None` when it is too large to be held.
    pub fn from_limbs(limbs: Vec<u64>) -> (n: Option<Natural>)
        ensures
            n is Some <==> Self::fits(limbs_value(limbs@)),
            n matches Some(number) ==> number@ == limbs_value(limbs@),
    {
        let trimmed = normalize(limbs);
        proof {
            lemma_canonical_len(trimmed@);
        }
        if trimmed.len() <= MAX_LIMBS {
            Some(Natural { limbs: trimmed })
        } else {
            None
        }
    }

    /// The limbs of the number, least significant first; none for zero.
    pub fn limbs(&self) -> (limbs: &Vec<u64>)
        ensures
            limbs@ == self.spec_limbs(),
    {
        &self.limbs
    }

    /// Whether the number is zero.
    pub fn is_zero(&self) -> (zero: bool)
        ensures
            zero == (self@ == 0),
    {
        proof {
            use_type_invariant(self);
            if self.limbs@.len() > 0 {
                lemma_canonical_positive(self.limbs@);
            }
        }
        self.limbs.len() == 0
    }

    /// The product of two numbers, or `None` when it is too large to be held.
    pub fn checked_mul(&self, other: &Natural) -> (product: Option<Natural>)
        ensures
            product is Some <==> Self::fits(self@ * other@),
            product matches Some(p) ==> p@ == self@ * other@,
    {
        proof {
            use_type_invariant(self);
            use_type_invariant(other);
        }
        Natural::from_limbs(rug_mul(&self.limbs, &other.limbs))
    }

    /// Quotient and remainder of a division, or `None` when the divisor is
    /// zero.
    pub fn checked_div_rem(&self, divisor: &Natural) -> (parts: Option<(Natural, Natural)>)
        ensures
            parts is Some <==> divisor@ != 0,
            parts matches Some((quotient, remainder)) ==> {
                &&& quotient@ == self@ / divisor@
                &&& remainder@ == self@ % divisor@
            },
    {
        proof {
            use_type_invariant(self);
            use_type_invariant(divisor);
        }
        if divisor.is_zero() {
            return None;
        }
        let (q, r) = rug_div_rem(&self.limbs, &divisor.limbs);
        let q = normalize(q);
        let r = normalize(r);
        proof {
            let n = self@;
            let d = divisor@;
            assert(n / d <= n && n % d <= n) by (nonlinear_arith)
                requires
                    d > 0,
            ;
            lemma_canonical_len(self.limbs@);
            lemma_canonical_len(q@);
            lemma_canonical_len(r@);
            lemma_limb_count_monotone(n / d, n);
            lemma_limb_count_monotone(n % d, n);
        }
        Some((Natural { limbs: q }, Natural { limbs: r }))
    }

    /// The quotient of a division that leaves no remainder, or `None` when the
    /// divisor is zero or does not divide the number.
    pub fn exact_quotient(&self, divisor: &Natural) -> (quotient: Option<Natural>)
        ensures
            quotient is Some <==> divisor@ != 0 && self@ % divisor@ == 0,
            quotient matches Some(q) ==> q@ == self@ / divisor@,
    {
        match self.checked_div_rem(divisor) {
            Some((quotient, remainder)) => {
                if remainder.is_zero() {
                    Some(quotient)
                } else {
                    None
                }
            },
            None => None,
        }
    }
}

} // verus!
