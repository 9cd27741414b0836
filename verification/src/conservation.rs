//! Why the product that a bridge keeps stands for the live outputs.
//!
//! The bridge never sees the hash that turns an output into its prime; it is
//! handed the primes. The statements here are made for any such hash `h`: if
//! the primes handed in are those of `h`, the product follows the list of
//! live outputs change by change, and a request that names an output which
//! is not live is refused.

use crate::bridge::apply_changes;
use crate::bridge::BridgeError;
use crate::bridge::BridgeState;
use crate::natural::lemma_limb_count_monotone;
use crate::natural::Natural;
use crate::product::all_prime;
use crate::product::is_prime;
use crate::product::lemma_divides_transitive;
use crate::product::lemma_exact;
use crate::product::lemma_multiple;
use crate::product::lemma_prime_factor;
use crate::product::lemma_product_remove;
use crate::product::lemma_product_zero;
use crate::product::product_of;
use crate::protocol::Block;
use crate::protocol::Change;
use crate::protocol::Utxo;
use vstd::prelude::*;

verus! {

/// The primes of a list of outputs under the hash `h`.
pub open spec fn hashes(h: spec_fn(Utxo) -> nat, outputs: Seq<Utxo>) -> Seq<nat> {
    outputs.map_values(h)
}

/// The live outputs after one change: a spent output leaves the list once, a
/// created one joins it.
pub open spec fn live_after_change(live: Seq<Utxo>, change: Change) -> Seq<Utxo> {
    match change {
        Change::Spent(utxo) => if live.contains(utxo) {
            live.remove(live.index_of(utxo))
        } else {
            live
        },
        Change::Created(utxo) => live.push(utxo),
    }
}

/// The live outputs after a sequence of changes, applied in order.
pub open spec fn live_after(live: Seq<Utxo>, changes: Seq<Change>) -> Seq<Utxo>
    decreases changes.len(),
{
    if changes.len() == 0 {
        live
    } else {
        live_after_change(live_after(live, changes.drop_last()), changes.last())
    }
}

/// Every output that the changes spend is live at the time it is spent.
pub open spec fn spends_live(live: Seq<Utxo>, changes: Seq<Change>) -> bool
    decreases changes.len(),
{
    changes.len() > 0 ==> {
        &&& spends_live(live, changes.drop_last())
        &&& changes.last() matches Change::Spent(utxo) ==> live_after(
            live,
            changes.drop_last(),
        ).contains(utxo)
    }
}

/// `primes` holds the prime of the output of each change, in order.
pub open spec fn primes_follow(h: spec_fn(Utxo) -> nat, changes: Seq<Change>, primes: Seq<nat>) -> bool {
    &&& primes.len() == changes.len()
    &&& forall|i: int| 0 <= i < changes.len() ==> #[trigger] primes[i] == h(changes[i].utxo())
}

/// The hash never yields zero.
pub open spec fn never_zero(h: spec_fn(Utxo) -> nat) -> bool {
    forall|utxo: Utxo| #[trigger] h(utxo) != 0
}

/// The hash yields primes only.
pub open spec fn always_prime(h: spec_fn(Utxo) -> nat) -> bool {
    forall|utxo: Utxo| is_prime(#[trigger] h(utxo))
}

/// The hash yields no prime twice.
pub open spec fn collision_free(h: spec_fn(Utxo) -> nat) -> bool {
    forall|one: Utxo, other: Utxo| #[trigger] h(one) == #[trigger] h(other) ==> one == other
}

/// The product of the state is the product of the primes of `live`.
pub open spec fn conserved<W>(state: BridgeState<W>, h: spec_fn(Utxo) -> nat, live: Seq<Utxo>) -> bool {
    state.product == product_of(hashes(h, live))
}

/// The product follows the live outputs through a sequence of changes.
///
/// Start from the product of the primes of `live` and apply changes whose
/// primes are those of `h`, each spent output being live when it is spent.
/// Then no division fails, and the outcome is the product of the primes of
/// the outputs that are live afterwards, unless a product on the way is too
/// large to be held.
pub proof fn lemma_product_follows(
    h: spec_fn(Utxo) -> nat,
    live: Seq<Utxo>,
    changes: Seq<Change>,
    primes: Seq<nat>,
)
    requires
        never_zero(h),
        primes_follow(h, changes, primes),
        spends_live(live, changes),
    ensures
        match apply_changes(product_of(hashes(h, live)), changes, primes) {
            Ok(product) => product == product_of(hashes(h, live_after(live, changes))),
            Err(error) => error == BridgeError::Capacity,
        },
    decreases changes.len(),
{
    if changes.len() > 0 {
        let front = changes.drop_last();
        let front_primes = primes.drop_last();
        assert(primes_follow(h, front, front_primes)) by {
            assert forall|i: int| 0 <= i < front.len() implies #[trigger] front_primes[i] == h(
                front[i].utxo(),
            ) by {
                assert(primes[i] == h(changes[i].utxo()));
            }
        }
        lemma_product_follows(h, live, front, front_primes);
        let start = product_of(hashes(h, live));
        if let Ok(before) = apply_changes(start, front, front_primes) {
            let held = live_after(live, front);
            let prime = primes.last();
            assert(prime == h(changes.last().utxo()));
            match changes.last() {
                Change::Spent(utxo) => {
                    let index = held.index_of(utxo);
                    assert(held[index] == utxo);
                    assert(hashes(h, held.remove(index)) =~= hashes(h, held).remove(index));
                    lemma_product_remove(hashes(h, held), index);
                    lemma_multiple(prime, product_of(hashes(h, held.remove(index))));
                },
                Change::Created(utxo) => {
                    assert(hashes(h, held.push(utxo)).drop_last() =~= hashes(h, held));
                },
            }
        }
    }
}

/// Conservation: a block keeps the product in step with the live outputs.
///
/// Let the product of a bridge stand for the outputs `live` under `h`, and
/// let a block come in with the primes of `h`, spending only what is live.
/// If the block applies, the product stands for the outputs that are live
/// after its changes; if it does not, product and live outputs are as
/// before. The only block that is the next one and yet does not apply is
/// one whose product is too large to be held.
pub proof fn lemma_conservation<W>(
    state: BridgeState<W>,
    h: spec_fn(Utxo) -> nat,
    live: Seq<Utxo>,
    block: Block<W>,
    primes: Seq<nat>,
    new_witness: W,
)
    requires
        conserved(state, h, live),
        never_zero(h),
        primes_follow(h, state.changes_of(block), primes),
        spends_live(live, state.changes_of(block)),
    ensures
        conserved(
            state.after(block, primes, new_witness),
            h,
            if state.applies(block, primes) {
                live_after(live, state.changes_of(block))
            } else {
                live
            },
        ),
        state.accepts(block.height) && !state.applies(block, primes) ==> state.product_after(
            block,
            primes,
        ) == Err::<nat, BridgeError>(BridgeError::Capacity),
{
    lemma_product_follows(h, live, state.changes_of(block), primes);
}

/// One delivery to a bridge: a block, the primes handed in with it, and the
/// witness of the product that it leads to.
pub struct Delivery<W> {
    pub block: Block<W>,
    pub primes: Seq<nat>,
    pub new_witness: W,
}

/// The state of a bridge after a sequence of deliveries, in order.
pub open spec fn state_after<W>(state: BridgeState<W>, deliveries: Seq<Delivery<W>>) -> BridgeState<
    W,
>
    decreases deliveries.len(),
{
    if deliveries.len() == 0 {
        state
    } else {
        let last = deliveries.last();
        state_after(state, deliveries.drop_last()).after(last.block, last.primes, last.new_witness)
    }
}

/// The live outputs after a sequence of deliveries: each block that applies
/// makes its changes, every other delivery leaves them as they are.
pub open spec fn live_after_deliveries<W>(
    state: BridgeState<W>,
    live: Seq<Utxo>,
    deliveries: Seq<Delivery<W>>,
) -> Seq<Utxo>
    decreases deliveries.len(),
{
    if deliveries.len() == 0 {
        live
    } else {
        let last = deliveries.last();
        let reached = state_after(state, deliveries.drop_last());
        let held = live_after_deliveries(state, live, deliveries.drop_last());
        if reached.applies(last.block, last.primes) {
            live_after(held, reached.changes_of(last.block))
        } else {
            held
        }
    }
}

/// Every block that comes at its turn comes with the primes of `h` and
/// spends only what is live at that time.
pub open spec fn faithful<W>(
    state: BridgeState<W>,
    h: spec_fn(Utxo) -> nat,
    live: Seq<Utxo>,
    deliveries: Seq<Delivery<W>>,
) -> bool
    decreases deliveries.len(),
{
    deliveries.len() > 0 ==> {
        let last = deliveries.last();
        let reached = state_after(state, deliveries.drop_last());
        let held = live_after_deliveries(state, live, deliveries.drop_last());
        &&& faithful(state, h, live, deliveries.drop_last())
        &&& reached.accepts(last.block.height) ==> {
            &&& primes_follow(h, reached.changes_of(last.block), last.primes)
            &&& spends_live(held, reached.changes_of(last.block))
        }
    }
}

/// Conservation in every reachable state: whatever blocks are delivered, in
/// whatever order and however often, the product stands for the outputs
/// that the applied blocks have left live.
pub proof fn lemma_conserved_throughout<W>(
    state: BridgeState<W>,
    h: spec_fn(Utxo) -> nat,
    live: Seq<Utxo>,
    deliveries: Seq<Delivery<W>>,
)
    requires
        conserved(state, h, live),
        never_zero(h),
        faithful(state, h, live, deliveries),
    ensures
        conserved(
            state_after(state, deliveries),
            h,
            live_after_deliveries(state, live, deliveries),
        ),
    decreases deliveries.len(),
{
    if deliveries.len() > 0 {
        let last = deliveries.last();
        let reached = state_after(state, deliveries.drop_last());
        let held = live_after_deliveries(state, live, deliveries.drop_last());
        lemma_conserved_throughout(state, h, live, deliveries.drop_last());
        if reached.accepts(last.block.height) {
            lemma_conservation(reached, h, held, last.block, last.primes, last.new_witness);
        }
    }
}

/// What is live is served: a request that names live outputs, none more
/// often than it is live, divides the product.
///
/// For a hash that never yields zero, the product of the primes of
/// `requested` is not zero, is at most the product of the primes of `live`,
/// and divides it.
pub proof fn lemma_live_is_served(h: spec_fn(Utxo) -> nat, live: Seq<Utxo>, requested: Seq<Utxo>)
    requires
        never_zero(h),
        requested.to_multiset().subset_of(live.to_multiset()),
    ensures
        product_of(hashes(h, requested)) != 0,
        product_of(hashes(h, requested)) <= product_of(hashes(h, live)),
        product_of(hashes(h, live)) % product_of(hashes(h, requested)) == 0,
    decreases requested.len(),
{
    let product = product_of(hashes(h, live));
    assert(product != 0) by {
        lemma_product_zero(hashes(h, live));
        if hashes(h, live).contains(0) {
            let i = choose|i: int| 0 <= i < live.len() && hashes(h, live)[i] == 0;
            assert(h(live[i]) != 0);
        }
    }
    if requested.len() == 0 {
        assert(product % 1 == 0);
    } else {
        let front = requested.drop_last();
        let last = requested.last();
        assert(requested =~= front.push(last));
        vstd::seq_lib::to_multiset_build(front, last);
        vstd::seq_lib::to_multiset_contains(live, last);
        assert(requested.to_multiset().count(last) > 0);
        assert(live.to_multiset().count(last) >= requested.to_multiset().count(last));
        let index = live.index_of(last);
        assert(live[index] == last);
        let rest = live.remove(index);
        vstd::seq_lib::to_multiset_remove(live, index);
        assert(front.to_multiset().subset_of(rest.to_multiset())) by {
            assert forall|utxo: Utxo|
                front.to_multiset().count(utxo) <= rest.to_multiset().count(utxo) by {
                assert(requested.to_multiset().count(utxo) <= live.to_multiset().count(utxo));
            }
        }
        lemma_live_is_served(h, rest, front);
        let prime = h(last);
        let small = product_of(hashes(h, front));
        let large = product_of(hashes(h, rest));
        assert(hashes(h, requested).drop_last() =~= hashes(h, front));
        assert(hashes(h, rest) =~= hashes(h, live).remove(index));
        lemma_product_remove(hashes(h, live), index);
        lemma_exact(large, small);
        let quotient = large / small;
        assert(product == (small * prime) * quotient) by (nonlinear_arith)
            requires
                product == prime * large,
                large == small * quotient,
        ;
        assert(small * prime != 0 && small * prime <= prime * large) by (nonlinear_arith)
            requires
                small != 0,
                prime != 0,
                small <= large,
        ;
        lemma_multiple(small * prime, quotient);
    }
}

/// What is served is live: a request that divides the product names live
/// outputs, none more often than it is live.
///
/// This holds for a hash that yields primes and none of them twice.
pub proof fn lemma_served_is_live(h: spec_fn(Utxo) -> nat, live: Seq<Utxo>, requested: Seq<Utxo>)
    requires
        always_prime(h),
        collision_free(h),
        product_of(hashes(h, live)) % product_of(hashes(h, requested)) == 0,
    ensures
        requested.to_multiset().subset_of(live.to_multiset()),
    decreases requested.len(),
{
    if requested.len() == 0 {
        assert forall|utxo: Utxo| requested.to_multiset().count(utxo) == 0 by {
            vstd::seq_lib::to_multiset_contains(requested, utxo);
        }
    } else {
        let front = requested.drop_last();
        let last = requested.last();
        let prime = h(last);
        let factors = hashes(h, requested);
        let batch = product_of(factors);
        let product = product_of(hashes(h, live));
        assert(is_prime(prime));
        assert(factors.drop_last() =~= hashes(h, front));
        let small = product_of(hashes(h, front));
        assert(batch != 0 && small != 0) by {
            lemma_product_zero(factors);
            if factors.contains(0) {
                let i = choose|i: int| 0 <= i < factors.len() && factors[i] == 0;
                assert(is_prime(h(requested[i])));
            }
            assert(small * prime != 0 ==> small != 0) by (nonlinear_arith);
        }
        // The prime of the last output divides the product, so it is live.
        assert(batch == prime * small) by (nonlinear_arith)
            requires
                batch == small * prime,
        ;
        lemma_multiple(prime, small);
        lemma_divides_transitive(product, batch, prime);
        assert(all_prime(hashes(h, live))) by {
            assert forall|i: int| 0 <= i < live.len() implies is_prime(
                #[trigger] hashes(h, live)[i],
            ) by {
                assert(is_prime(h(live[i])));
            }
        }
        lemma_prime_factor(prime, hashes(h, live));
        let index = choose|i: int| 0 <= i < live.len() && hashes(h, live)[i] == prime;
        assert(h(live[index]) == h(last));
        assert(live[index] == last);
        // Without it, the rest of the request divides the rest of the product.
        let rest = live.remove(index);
        let large = product_of(hashes(h, rest));
        assert(hashes(h, rest) =~= hashes(h, live).remove(index));
        lemma_product_remove(hashes(h, live), index);
        lemma_exact(product, batch);
        let quotient = product / batch;
        assert(large == small * quotient) by (nonlinear_arith)
            requires
                product == prime * large,
                product == batch * quotient,
                batch == prime * small,
                prime != 0,
        ;
        lemma_multiple(small, quotient);
        lemma_served_is_live(h, rest, front);
        assert(requested =~= front.push(last));
        vstd::seq_lib::to_multiset_build(front, last);
        vstd::seq_lib::to_multiset_remove(live, index);
        vstd::seq_lib::to_multiset_contains(live, last);
        assert(live.contains(last));
        assert forall|utxo: Utxo|
            requested.to_multiset().count(utxo) <= live.to_multiset().count(utxo) by {
            assert(front.to_multiset().count(utxo) <= rest.to_multiset().count(utxo));
        }
    }
}

/// Witnesses for the live outputs, and for them only.
///
/// Let the product of a bridge stand for the outputs `live` under a hash
/// that yields primes and none of them twice. Then a request that comes
/// with the primes of its outputs is served exactly when it names live
/// outputs, none more often than it is live. In particular a request that
/// names an output which is not live is refused.
pub proof fn lemma_served_exactly_when_live<W>(
    state: BridgeState<W>,
    h: spec_fn(Utxo) -> nat,
    live: Seq<Utxo>,
    requested: Seq<Utxo>,
)
    requires
        conserved(state, h, live),
        Natural::fits(state.product),
        always_prime(h),
        collision_free(h),
    ensures
        state.requested(requested.len(), hashes(h, requested)) is Ok
            <==> requested.to_multiset().subset_of(live.to_multiset()),
        state.requested(requested.len(), hashes(h, requested)) matches Ok(batch) ==> batch
            == product_of(hashes(h, requested)),
        (exists|i: int| 0 <= i < requested.len() && !live.contains(requested[i]))
            ==> state.requested(requested.len(), hashes(h, requested)) is Err,
{
    assert(never_zero(h)) by {
        assert forall|utxo: Utxo| #[trigger] h(utxo) != 0 by {
            assert(is_prime(h(utxo)));
        }
    }
    let batch = product_of(hashes(h, requested));
    if requested.to_multiset().subset_of(live.to_multiset()) {
        lemma_live_is_served(h, live, requested);
        lemma_limb_count_monotone(batch, state.product);
    }
    if state.requested(requested.len(), hashes(h, requested)) is Ok {
        lemma_served_is_live(h, live, requested);
    }
    if exists|i: int| 0 <= i < requested.len() && !live.contains(requested[i]) {
        let i = choose|i: int| 0 <= i < requested.len() && !live.contains(requested[i]);
        vstd::seq_lib::to_multiset_contains(live, requested[i]);
        vstd::seq_lib::to_multiset_contains(requested, requested[i]);
        assert(requested.contains(requested[i]));
    }
}

} // verus!
