//! Products of sequences of natural numbers, and what divides them.
//!
//! The accumulator stands for a set of outputs by the product of their
//! primes. The facts about such products that the ledger rests on are proved
//! here: a factor can be taken out, a prime divides a product of primes only
//! if it is one of them, and the exponent that a batch of witnesses leaves
//! for one of its members is the one that a request for it alone would use.

use vstd::prelude::*;

verus! {

/// The product of a sequence of numbers; one for the empty sequence.
pub open spec fn product_of(factors: Seq<nat>) -> nat
    decreases factors.len(),
{
    if factors.len() == 0 {
        1
    } else {
        product_of(factors.drop_last()) * factors.last()
    }
}

/// The product is zero exactly when a factor is.
pub proof fn lemma_product_zero(factors: Seq<nat>)
    ensures
        product_of(factors) == 0 <==> factors.contains(0),
    decreases factors.len(),
{
    if factors.len() > 0 {
        let front = factors.drop_last();
        lemma_product_zero(front);
        assert(product_of(front) * factors.last() == 0 <==> product_of(front) == 0
            || factors.last() == 0) by (nonlinear_arith);
        if front.contains(0) {
            let i = choose|i: int| 0 <= i < front.len() && front[i] == 0;
            assert(factors[i] == 0);
        }
        if factors.contains(0) {
            let i = choose|i: int| 0 <= i < factors.len() && factors[i] == 0;
            if i < front.len() {
                assert(front[i] == 0);
            }
        }
    }
}

/// Without a zero among the factors, the product of a prefix is at most the
/// product of the whole.
pub proof fn lemma_product_prefix(factors: Seq<nat>, len: int)
    requires
        0 <= len <= factors.len(),
        !factors.contains(0),
    ensures
        product_of(factors.take(len)) <= product_of(factors),
    decreases factors.len() - len,
{
    if len == factors.len() {
        assert(factors.take(len) =~= factors);
    } else {
        let longer = factors.take(len + 1);
        assert(longer.drop_last() =~= factors.take(len));
        assert(longer.last() == factors[len]);
        assert(factors.contains(factors[len]));
        assert(product_of(factors.take(len)) <= product_of(factors.take(len)) * factors[len])
            by (nonlinear_arith)
            requires
                factors[len] >= 1,
        ;
        lemma_product_prefix(factors, len + 1);
    }
}

/// Taking one factor out divides the product by it.
pub proof fn lemma_product_remove(factors: Seq<nat>, index: int)
    requires
        0 <= index < factors.len(),
    ensures
        product_of(factors) == factors[index] * product_of(factors.remove(index)),
    decreases factors.len(),
{
    let front = factors.drop_last();
    if index == factors.len() - 1 {
        assert(factors.remove(index) =~= front);
        assert(product_of(front) * factors.last() == factors.last() * product_of(front))
            by (nonlinear_arith);
    } else {
        lemma_product_remove(front, index);
        let rest = factors.remove(index);
        assert(rest.drop_last() =~= front.remove(index));
        assert(rest.last() == factors.last());
        let a = factors[index];
        let b = product_of(front.remove(index));
        let c = factors.last();
        assert((a * b) * c == a * (b * c)) by (nonlinear_arith);
    }
}

/// A number of at least two that no smaller number but one divides.
pub open spec fn is_prime(number: nat) -> bool {
    &&& number >= 2
    &&& forall|divisor: nat| 1 < divisor < number ==> #[trigger] (number % divisor) != 0
}

/// Every factor is prime.
pub open spec fn all_prime(factors: Seq<nat>) -> bool {
    forall|i: int| 0 <= i < factors.len() ==> is_prime(#[trigger] factors[i])
}

/// A multiple of the divisor leaves no remainder, and dividing it gives the
/// other factor back.
pub proof fn lemma_multiple(divisor: nat, factor: nat)
    requires
        divisor != 0,
    ensures
        (divisor * factor) % divisor == 0,
        (divisor * factor) / divisor == factor,
{
    assert(divisor * factor == factor * divisor + 0) by (nonlinear_arith);
    vstd::arithmetic::div_mod::lemma_fundamental_div_mod_converse(
        (divisor * factor) as int,
        divisor as int,
        factor as int,
        0,
    );
}

/// A number that leaves no remainder is the divisor times the quotient.
pub proof fn lemma_exact(number: nat, divisor: nat)
    requires
        divisor != 0,
        number % divisor == 0,
    ensures
        number == divisor * (number / divisor),
{
    vstd::arithmetic::div_mod::lemma_fundamental_div_mod(number as int, divisor as int);
}

/// A prime that divides a product of two numbers divides one of them.
pub proof fn lemma_prime_divides_one(prime: nat, left: nat, right: nat)
    requires
        is_prime(prime),
        left > 0,
        (left * right) % prime == 0,
    ensures
        left % prime == 0 || right % prime == 0,
    decreases left,
{
    if left == 1 {
        assert(left * right == right) by (nonlinear_arith)
            requires
                left == 1,
        ;
    } else if left >= prime {
        let rest = left % prime;
        if rest != 0 {
            // left * right == (left / prime) * prime * right + rest * right
            let quotient = left / prime;
            lemma_exact(left * right, prime);
            let whole = (left * right) / prime;
            vstd::arithmetic::div_mod::lemma_fundamental_div_mod(left as int, prime as int);
            assert(rest * right == prime * (whole - quotient * right)) by (nonlinear_arith)
                requires
                    left == prime * quotient + rest,
                    left * right == prime * whole,
            ;
            assert(whole >= quotient * right) by (nonlinear_arith)
                requires
                    rest * right == prime * (whole - quotient * right),
                    prime > 0,
                    rest >= 0,
                    right >= 0,
            ;
            lemma_multiple(prime, (whole - quotient * right) as nat);
            lemma_prime_divides_one(prime, rest, right);
            vstd::arithmetic::div_mod::lemma_small_mod(rest, prime);
        }
    } else {
        // 1 < left < prime: the remainder of the prime by left is smaller still.
        let rest = prime % left;
        assert(rest != 0);
        let quotient = prime / left;
        lemma_exact(left * right, prime);
        let whole = (left * right) / prime;
        vstd::arithmetic::div_mod::lemma_fundamental_div_mod(prime as int, left as int);
        assert(rest * right == prime * (right - quotient * whole)) by (nonlinear_arith)
            requires
                prime == left * quotient + rest,
                left * right == prime * whole,
        ;
        assert(right >= quotient * whole) by (nonlinear_arith)
            requires
                rest * right == prime * (right - quotient * whole),
                prime > 0,
                rest >= 0,
                right >= 0,
        ;
        lemma_multiple(prime, (right - quotient * whole) as nat);
        lemma_prime_divides_one(prime, rest, right);
        vstd::arithmetic::div_mod::lemma_small_mod(rest, prime);
    }
}

/// A prime that divides a product of primes is one of them.
pub proof fn lemma_prime_factor(prime: nat, factors: Seq<nat>)
    requires
        is_prime(prime),
        all_prime(factors),
        product_of(factors) % prime == 0,
    ensures
        factors.contains(prime),
    decreases factors.len(),
{
    if factors.len() == 0 {
        vstd::arithmetic::div_mod::lemma_small_mod(1, prime);
    } else {
        let front = factors.drop_last();
        let last = factors.last();
        assert(is_prime(last));
        assert(all_prime(front)) by {
            assert forall|i: int| 0 <= i < front.len() implies is_prime(#[trigger] front[i]) by {
                assert(front[i] == factors[i]);
            }
        }
        assert(product_of(front) * last == last * product_of(front)) by (nonlinear_arith);
        lemma_prime_divides_one(prime, last, product_of(front));
        if last % prime == 0 {
            if prime < last {
                assert(last % prime != 0);
            } else if prime > last {
                vstd::arithmetic::div_mod::lemma_small_mod(last, prime);
            }
            assert(factors[factors.len() - 1] == prime);
        } else {
            lemma_prime_factor(prime, front);
            let i = choose|i: int| 0 <= i < front.len() && front[i] == prime;
            assert(factors[i] == prime);
        }
    }
}

/// What divides a divisor of a number divides the number.
pub proof fn lemma_divides_transitive(number: nat, middle: nat, divisor: nat)
    requires
        middle != 0,
        divisor != 0,
        number % middle == 0,
        middle % divisor == 0,
    ensures
        number % divisor == 0,
{
    lemma_exact(number, middle);
    lemma_exact(middle, divisor);
    let a = number / middle;
    let b = middle / divisor;
    assert(number == divisor * (b * a)) by (nonlinear_arith)
        requires
            number == middle * a,
            middle == divisor * b,
    ;
    lemma_multiple(divisor, b * a);
}

/// One member of a batch and the batch as a whole.
///
/// Let `product` stand for a set and let the product of `factors`, a batch
/// of its members, divide it. Then each member divides `product` by itself;
/// and the quotient by the whole batch, times the other members of the
/// batch, is the quotient by that member alone. Raised to the former
/// exponent a witness of the set proves the batch, split up it proves the
/// member, and it is the very witness that a request for the member alone
/// yields.
pub proof fn lemma_batch_member(product: nat, factors: Seq<nat>, index: int)
    requires
        0 <= index < factors.len(),
        product_of(factors) != 0,
        product % product_of(factors) == 0,
    ensures
        factors[index] != 0,
        product % factors[index] == 0,
        (product / product_of(factors)) * product_of(factors.remove(index)) == product
            / factors[index],
{
    let member = factors[index];
    let others = product_of(factors.remove(index));
    let batch = product_of(factors);
    let quotient = product / batch;
    lemma_product_remove(factors, index);
    lemma_product_zero(factors);
    assert(factors.contains(member));
    lemma_exact(product, batch);
    assert(product == member * (quotient * others)) by (nonlinear_arith)
        requires
            product == batch * quotient,
            batch == member * others,
    ;
    lemma_multiple(member, quotient * others);
}

} // verus!
