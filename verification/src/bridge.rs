//! The bridge: the one source of truth on which outputs of its users are
//! unspent, and the one issuer of membership witnesses for them.
//!
//! A bridge keeps the product of the prime representatives of the live
//! outputs of its cohort, the aggregated witness of that product, and the
//! height of the last block it applied. The group operations and the hashing
//! of outputs to primes are done by the caller; the bridge decides what is
//! handed to them and what becomes of their results:
//!
//! * to apply a block, the caller hashes the outputs of
//!   [`Bridge::cohort_changes`], has [`Bridge::prepare_update`] work out the
//!   new product and the users' updates, deletes the new product from the
//!   block's accumulator, and hands the resulting witness to
//!   [`Bridge::commit_update`];
//! * to serve a request, the caller hashes the requested outputs, has
//!   [`Bridge::requested_product`] check that they are live, raises the
//!   witness to the quotient of the two products, splits the result, and has
//!   [`Bridge::respond`] pair the parts with the outputs.

use crate::natural::lemma_limb_count_monotone;
use crate::natural::Natural;
use crate::product::lemma_exact;
use crate::product::lemma_product_prefix;
use crate::product::lemma_product_zero;
use crate::product::product_of;
use crate::protocol::changes_for;
use crate::protocol::is_among;
use crate::protocol::owned_by;
use crate::protocol::select_changes;
use crate::protocol::select_owned;
use crate::protocol::Block;
use crate::protocol::Change;
use crate::protocol::UserUpdate;
use crate::protocol::Utxo;
use crate::protocol::WitnessRequest;
use crate::protocol::WitnessResponse;
use vstd::prelude::*;

verus! {

/// Why a bridge refused an operation. The state is unchanged in each case.
#[derive(Clone, Copy, Debug, PartialEq, Eq, Structural)]
pub enum BridgeError {
    /// The primes handed in are not one for each output to be hashed.
    PrimeCount,
    /// An output to be spent or proved is not part of the product: its prime
    /// is zero or does not divide it.
    NotLive,
    /// A product is too large to be held.
    Capacity,
}

/// The values of a sequence of numbers.
pub open spec fn values(numbers: Seq<Natural>) -> Seq<nat> {
    numbers.map_values(|number: Natural| number@)
}

/// The product after one change: a spent output's prime is divided out, and
/// must divide; a created output's prime is multiplied in, and the result
/// must fit.
pub open spec fn apply_change(product: nat, change: Change, prime: nat) -> Result<
    nat,
    BridgeError,
> {
    match change {
        Change::Spent(_) => if prime != 0 && product % prime == 0 {
            Ok(product / prime)
        } else {
            Err(BridgeError::NotLive)
        },
        Change::Created(_) => if Natural::fits(product * prime) {
            Ok(product * prime)
        } else {
            Err(BridgeError::Capacity)
        },
    }
}

/// The product after a sequence of changes, applied in order, where
/// `primes[i]` is the prime of the output of `changes[i]`; the error of the
/// first change that fails.
pub open spec fn apply_changes(product: nat, changes: Seq<Change>, primes: Seq<nat>) -> Result<
    nat,
    BridgeError,
>
    recommends
        changes.len() == primes.len(),
    decreases changes.len(),
{
    if changes.len() == 0 {
        Ok(product)
    } else {
        match apply_changes(product, changes.drop_last(), primes.drop_last()) {
            Ok(before) => apply_change(before, changes.last(), primes.last()),
            Err(error) => Err(error),
        }
    }
}

/// Once a prefix of the changes has failed, the whole sequence fails alike.
pub proof fn lemma_prefix_error(product: nat, changes: Seq<Change>, primes: Seq<nat>, len: int)
    requires
        changes.len() == primes.len(),
        0 <= len <= changes.len(),
        apply_changes(product, changes.take(len), primes.take(len)) is Err,
    ensures
        apply_changes(product, changes, primes) == apply_changes(
            product,
            changes.take(len),
            primes.take(len),
        ),
    decreases changes.len() - len,
{
    if len == changes.len() {
        assert(changes.take(len) =~= changes);
        assert(primes.take(len) =~= primes);
    } else {
        assert(changes.take(len + 1).drop_last() =~= changes.take(len));
        assert(primes.take(len + 1).drop_last() =~= primes.take(len));
        lemma_prefix_error(product, changes, primes, len + 1);
    }
}

/// Applies `changes` to `product` in order, with `primes[i]` the prime of the
/// output of `changes[i]`.
fn fold_changes(product: &Natural, changes: &Vec<Change>, primes: &Vec<Natural>) -> (result:
    Result<Natural, BridgeError>)
    requires
        changes@.len() == primes@.len(),
    ensures
        match result {
            Ok(after) => apply_changes(product@, changes@, values(primes@)) == Ok::<
                nat,
                BridgeError,
            >(after@),
            Err(error) => apply_changes(product@, changes@, values(primes@)) == Err::<
                nat,
                BridgeError,
            >(error),
        },
{
    let ghost numbers = values(primes@);
    let mut current = product.clone();
    let mut index: usize = 0;
    assert(changes@.take(0) =~= Seq::<Change>::empty());
    while index < changes.len()
        invariant
            index <= changes.len(),
            changes@.len() == primes@.len(),
            numbers == values(primes@),
            apply_changes(product@, changes@.take(index as int), numbers.take(index as int))
                == Ok::<nat, BridgeError>(current@),
        decreases changes.len() - index,
    {
        let prime = &primes[index];
        let ghost next = index as int + 1;
        proof {
            assert(changes@.take(next).drop_last() =~= changes@.take(index as int));
            assert(numbers.take(next).drop_last() =~= numbers.take(index as int));
            assert(numbers.take(next).last() == prime@);
            assert(changes@.take(next).last() == changes@[index as int]);
        }
        let step = match changes[index] {
            Change::Spent(_) => current.exact_quotient(prime),
            Change::Created(_) => current.checked_mul(prime),
        };
        match step {
            Some(after) => {
                current = after;
            },
            None => {
                let error = match changes[index] {
                    Change::Spent(_) => BridgeError::NotLive,
                    Change::Created(_) => BridgeError::Capacity,
                };
                proof {
                    lemma_prefix_error(product@, changes@, numbers, next);
                }
                return Err(error);
            },
        }
        index += 1;
    }
    assert(changes@.take(index as int) =~= changes@);
    assert(numbers.take(index as int) =~= numbers);
    Ok(current)
}

/// The product of `primes`; an error when a prime is zero, or else when the
/// product is too large to be held.
pub fn multiply_all(primes: &Vec<Natural>) -> (result: Result<Natural, BridgeError>)
    ensures
        result is Ok <==> product_of(values(primes@)) != 0 && Natural::fits(
            product_of(values(primes@)),
        ),
        result matches Ok(product) ==> product@ == product_of(values(primes@)),
        result matches Err(error) ==> error == if product_of(values(primes@)) == 0 {
            BridgeError::NotLive
        } else {
            BridgeError::Capacity
        },
{
    let ghost numbers = values(primes@);
    let mut index: usize = 0;
    while index < primes.len()
        invariant
            index <= primes.len(),
            numbers == values(primes@),
            !numbers.take(index as int).contains(0),
        decreases primes.len() - index,
    {
        if primes[index].is_zero() {
            proof {
                assert(numbers[index as int] == 0);
                lemma_product_zero(numbers);
            }
            return Err(BridgeError::NotLive);
        }
        assert(numbers.take(index as int + 1) =~= numbers.take(index as int).push(
            numbers[index as int],
        ));
        index += 1;
    }
    proof {
        assert(numbers.take(index as int) =~= numbers);
        lemma_product_zero(numbers);
    }
    let mut product = Natural::one();
    index = 0;
    assert(numbers.take(0) =~= Seq::<nat>::empty());
    while index < primes.len()
        invariant
            index <= primes.len(),
            numbers == values(primes@),
            !numbers.contains(0),
            product_of(numbers) != 0,
            product@ == product_of(numbers.take(index as int)),
        decreases primes.len() - index,
    {
        let ghost next = index as int + 1;
        proof {
            assert(numbers.take(next).drop_last() =~= numbers.take(index as int));
            assert(numbers.take(next).last() == primes@[index as int]@);
        }
        match product.checked_mul(&primes[index]) {
            Some(larger) => {
                product = larger;
            },
            None => {
                proof {
                    lemma_product_prefix(numbers, next);
                    lemma_limb_count_monotone(product_of(numbers.take(next)), product_of(numbers));
                }
                return Err(BridgeError::Capacity);
            },
        }
        index += 1;
    }
    proof {
        assert(numbers.take(index as int) =~= numbers);
        use_type_invariant(&product);
        product.lemma_wf_fits();
    }
    Ok(product)
}

/// The state that a block would bring about, worked out but not yet in force.
#[derive(Debug)]
pub struct PendingUpdate {
    /// The height of the block.
    pub height: u64,
    /// The product of the live outputs after the block.
    pub product: Natural,
    /// For each user of the cohort, what the block changed for it.
    pub updates: Vec<(u128, UserUpdate)>,
}

/// Each output with the witness at its position, as far as both sequences go.
pub open spec fn paired<W>(utxos: Seq<Utxo>, witnesses: Seq<W>) -> Seq<(Utxo, W)> {
    Seq::new(
        if utxos.len() <= witnesses.len() {
            utxos.len()
        } else {
            witnesses.len()
        },
        |i: int| (utxos[i], witnesses[i]),
    )
}

/// `updates` holds, for each user of `cohort` in order, the outputs of that
/// user which `block` spends and creates.
pub open spec fn delivers<W>(
    updates: Seq<(u128, UserUpdate)>,
    block: Block<W>,
    cohort: Seq<u128>,
) -> bool {
    &&& updates.len() == cohort.len()
    &&& forall|i: int|
        0 <= i < cohort.len() ==> {
            &&& (#[trigger] updates[i]).0 == cohort[i]
            &&& updates[i].1.utxos_deleted@ == owned_by(block.spent(), cohort[i])
            &&& updates[i].1.utxos_added@ == owned_by(block.created(), cohort[i])
        }
}

/// The identifiers of `ids` in the order of their first occurrence, each once.
pub open spec fn each_once(ids: Seq<u128>) -> Seq<u128>
    decreases ids.len(),
{
    if ids.len() == 0 {
        ids
    } else {
        let before = each_once(ids.drop_last());
        if before.contains(ids.last()) {
            before
        } else {
            before.push(ids.last())
        }
    }
}

/// `each_once` lists what `ids` lists, and nothing twice.
pub proof fn lemma_each_once(ids: Seq<u128>)
    ensures
        each_once(ids).no_duplicates(),
        forall|id: u128| each_once(ids).contains(id) <==> ids.contains(id),
    decreases ids.len(),
{
    if ids.len() > 0 {
        let front = ids.drop_last();
        let before = each_once(front);
        lemma_each_once(front);
        assert forall|id: u128| each_once(ids).contains(id) <==> ids.contains(id) by {
            if ids.contains(id) {
                let i = choose|i: int| 0 <= i < ids.len() && ids[i] == id;
                if i < front.len() {
                    assert(front[i] == id);
                    assert(front.contains(id));
                    assert(before.contains(id));
                    let j = choose|j: int| 0 <= j < before.len() && before[j] == id;
                    assert(each_once(ids)[j] == id);
                } else if !before.contains(id) {
                    assert(each_once(ids)[before.len() as int] == id);
                }
            }
            if each_once(ids).contains(id) {
                let j = choose|j: int| 0 <= j < each_once(ids).len() && each_once(ids)[j] == id;
                if j < before.len() {
                    assert(before[j] == id);
                    assert(before.contains(id));
                    assert(front.contains(id));
                    let i = choose|i: int| 0 <= i < front.len() && front[i] == id;
                    assert(ids[i] == id);
                } else {
                    assert(ids[ids.len() - 1] == id);
                }
            }
        }
    }
}

/// What a bridge has committed to, as plain mathematical values.
pub struct BridgeState<W> {
    /// The product of the primes of the live outputs of the cohort.
    pub product: nat,
    /// The aggregated witness of the product.
    pub witness: W,
    /// The height of the last block applied; zero before the first.
    pub height: u64,
    /// The users served, in a fixed order and each once.
    pub cohort: Seq<u128>,
}

impl<W> BridgeState<W> {
    /// Whether a block of the given height is the next one to apply.
    pub open spec fn accepts(self, height: u64) -> bool {
        height == self.height + 1
    }

    /// Those changes of `block` that are about an output of the cohort.
    pub open spec fn changes_of(self, block: Block<W>) -> Seq<Change> {
        changes_for(block.changes(), self.cohort)
    }

    /// The product that `block` leads to, where `primes[i]` is the prime of
    /// the output of the `i`-th change of the block that is about the cohort.
    pub open spec fn product_after(self, block: Block<W>, primes: Seq<nat>) -> Result<
        nat,
        BridgeError,
    > {
        if primes.len() != self.changes_of(block).len() {
            Err(BridgeError::PrimeCount)
        } else {
            apply_changes(self.product, self.changes_of(block), primes)
        }
    }

    /// What a request for `count` outputs with these primes comes to: the
    /// product of the primes if there is one prime for each output, none is
    /// zero, and their product can be held and divides the product of the
    /// live outputs.
    pub open spec fn requested(self, count: nat, primes: Seq<nat>) -> Result<nat, BridgeError> {
        let batch = product_of(primes);
        if primes.len() != count {
            Err(BridgeError::PrimeCount)
        } else if batch == 0 {
            Err(BridgeError::NotLive)
        } else if !Natural::fits(batch) {
            Err(BridgeError::Capacity)
        } else if self.product % batch != 0 {
            Err(BridgeError::NotLive)
        } else {
            Ok(batch)
        }
    }

    /// Whether `block` with these primes changes the state: it is the next
    /// block, and its changes can be applied.
    pub open spec fn applies(self, block: Block<W>, primes: Seq<nat>) -> bool {
        self.accepts(block.height) && self.product_after(block, primes) is Ok
    }

    /// The state after `block` was handed in with these primes and with the
    /// witness of the new product: the block's state if it applies, the old
    /// state if it does not. This is what [`Bridge::prepare_update`] and
    /// [`Bridge::commit_update`] bring about between them.
    pub open spec fn after(self, block: Block<W>, primes: Seq<nat>, new_witness: W) -> Self {
        if self.applies(block, primes) {
            BridgeState {
                product: self.product_after(block, primes)->Ok_0,
                witness: new_witness,
                height: block.height,
                cohort: self.cohort,
            }
        } else {
            self
        }
    }
}

/// The committed state of a bridge.
#[derive(Debug)]
pub struct Bridge<W> {
    utxo_set_product: Natural,
    utxo_set_witness: W,
    block_height: u64,
    user_ids: Vec<u128>,
}

impl<W> View for Bridge<W> {
    type V = BridgeState<W>;

    closed spec fn view(&self) -> BridgeState<W> {
        BridgeState {
            product: self.utxo_set_product@,
            witness: self.utxo_set_witness,
            height: self.block_height,
            cohort: self.user_ids@,
        }
    }
}

impl<W> Bridge<W> {
    /// No user is listed twice. This holds of every bridge that a program
    /// holds.
    #[verifier::type_invariant]
    pub closed spec fn wf(&self) -> bool {
        self.user_ids@.no_duplicates()
    }

    /// A bridge at height zero for the given users.
    pub fn start(utxo_set_witness: W, utxo_set_product: Natural, user_ids: Vec<u128>) -> (bridge:
        Bridge<W>)
        ensures
            bridge@ == (BridgeState {
                product: utxo_set_product@,
                witness: utxo_set_witness,
                height: 0,
                cohort: each_once(user_ids@),
            }),
    {
        let mut cohort: Vec<u128> = Vec::new();
        let mut index: usize = 0;
        while index < user_ids.len()
            invariant
                index <= user_ids.len(),
                cohort@ == each_once(user_ids@.take(index as int)),
            decreases user_ids.len() - index,
        {
            let user = user_ids[index];
            assert(user_ids@.take(index as int + 1).drop_last() =~= user_ids@.take(index as int));
            if !is_among(&cohort, user) {
                cohort.push(user);
            }
            index += 1;
        }
        proof {
            assert(user_ids@.take(index as int) =~= user_ids@);
            lemma_each_once(user_ids@);
        }
        Bridge { utxo_set_product, utxo_set_witness, block_height: 0, user_ids: cohort }
    }

    /// The product of the primes of the live outputs.
    pub fn utxo_set_product(&self) -> (product: &Natural)
        ensures
            product@ == self@.product,
    {
        &self.utxo_set_product
    }

    /// The aggregated witness of the product.
    pub fn utxo_set_witness(&self) -> (witness: &W)
        ensures
            *witness == self@.witness,
    {
        &self.utxo_set_witness
    }

    /// The height of the last block applied; zero before the first.
    pub fn block_height(&self) -> (height: u64)
        ensures
            height == self@.height,
    {
        self.block_height
    }

    /// The users served, each once.
    pub fn user_ids(&self) -> (users: &Vec<u128>)
        ensures
            users@ == self@.cohort,
            users@.no_duplicates(),
    {
        proof {
            use_type_invariant(self);
        }
        &self.user_ids
    }

    /// Whether the bridge serves `user`.
    pub fn serves(&self, user: u128) -> (served: bool)
        ensures
            served == self@.cohort.contains(user),
    {
        is_among(&self.user_ids, user)
    }

    /// Whether `block` is the next one to apply. Any other block, one already
    /// applied or one from further ahead, is to be dropped.
    pub fn is_next(&self, block: &Block<W>) -> (next: bool)
        ensures
            next == self@.accepts(block.height),
    {
        self.block_height < u64::MAX && block.height == self.block_height + 1
    }

    /// What each user of the cohort is to be told of `block`.
    pub fn user_updates(&self, block: &Block<W>) -> (updates: Vec<(u128, UserUpdate)>)
        ensures
            delivers(updates@, *block, self@.cohort),
    {
        let spent = block.spent_outputs();
        let created = block.created_outputs();
        let mut updates: Vec<(u128, UserUpdate)> = Vec::new();
        let mut index: usize = 0;
        while index < self.user_ids.len()
            invariant
                index <= self.user_ids.len(),
                spent@ == block.spent(),
                created@ == block.created(),
                delivers(updates@, *block, self.user_ids@.take(index as int)),
            decreases self.user_ids.len() - index,
        {
            let user = self.user_ids[index];
            let update = UserUpdate {
                utxos_added: select_owned(&created, user),
                utxos_deleted: select_owned(&spent, user),
            };
            updates.push((user, update));
            index += 1;
        }
        assert(self.user_ids@.take(index as int) =~= self.user_ids@);
        updates
    }

    /// Works out what applying `block` would do, without doing it.
    ///
    /// `primes` holds the prime of the output of each change that
    /// [`Bridge::cohort_changes`] lists for the block, in that order. A block
    /// that is not the next one comes back as `Ok(None)`, whatever the primes.
    pub fn prepare_update(&self, block: &Block<W>, primes: &Vec<Natural>) -> (result: Result<
        Option<PendingUpdate>,
        BridgeError,
    >)
        ensures
            !self@.accepts(block.height) ==> result == Ok::<Option<PendingUpdate>, BridgeError>(
                None,
            ),
            self@.accepts(block.height) ==> match self@.product_after(*block, values(primes@)) {
                Ok(product) => {
                    &&& result matches Ok(Some(pending))
                    &&& pending.product@ == product
                    &&& pending.height == block.height
                    &&& delivers(pending.updates@, *block, self@.cohort)
                },
                Err(error) => result == Err::<Option<PendingUpdate>, BridgeError>(error),
            },
    {
        if !self.is_next(block) {
            return Ok(None);
        }
        let changes = self.cohort_changes(block);
        if primes.len() != changes.len() {
            return Err(BridgeError::PrimeCount);
        }
        match fold_changes(&self.utxo_set_product, &changes, primes) {
            Ok(product) => Ok(
                Some(PendingUpdate { height: block.height, product, updates: self.user_updates(block) }),
            ),
            Err(error) => Err(error),
        }
    }

    /// Puts a prepared update in force: product, witness and height change
    /// together, and the users' updates are handed out for delivery.
    ///
    /// `new_witness` is the witness of `pending.product` against the
    /// accumulator of the block. An update that was prepared for another
    /// height than the next changes nothing and comes back as `None`.
    pub fn commit_update(&mut self, pending: PendingUpdate, new_witness: W) -> (delivered: Option<
        Vec<(u128, UserUpdate)>,
    >)
        ensures
            final(self)@ == if old(self)@.accepts(pending.height) {
                BridgeState {
                    product: pending.product@,
                    witness: new_witness,
                    height: pending.height,
                    cohort: old(self)@.cohort,
                }
            } else {
                old(self)@
            },
            delivered == if old(self)@.accepts(pending.height) {
                Some(pending.updates)
            } else {
                None
            },
    {
        proof {
            use_type_invariant(&*self);
        }
        if self.block_height < u64::MAX && pending.height == self.block_height + 1 {
            self.utxo_set_product = pending.product;
            self.utxo_set_witness = new_witness;
            self.block_height = pending.height;
            Some(pending.updates)
        } else {
            None
        }
    }

    /// The product of the primes of the outputs that a request names, once it
    /// is known to divide the product of the live outputs.
    ///
    /// `primes` holds the prime of each requested output, in order. The
    /// aggregated witness of the requested outputs is the bridge's witness
    /// raised to the quotient of [`Bridge::utxo_set_product`] by the number
    /// returned.
    pub fn requested_product(&self, request: &WitnessRequest, primes: &Vec<Natural>) -> (result:
        Result<Natural, BridgeError>)
        ensures
            match self@.requested(request.utxos@.len(), values(primes@)) {
                Ok(batch) => {
                    &&& result matches Ok(requested)
                    &&& requested@ == batch
                    &&& (self@.product / batch) * batch == self@.product
                },
                Err(error) => result == Err::<Natural, BridgeError>(error),
            },
    {
        if primes.len() != request.utxos.len() {
            return Err(BridgeError::PrimeCount);
        }
        match multiply_all(primes) {
            Ok(requested) => {
                match self.utxo_set_product.exact_quotient(&requested) {
                    Some(_) => {
                        proof {
                            lemma_exact(self@.product, requested@);
                            assert(requested@ * (self@.product / requested@) == (self@.product
                                / requested@) * requested@) by (nonlinear_arith);
                        }
                        Ok(requested)
                    },
                    None => Err(BridgeError::NotLive),
                }
            },
            Err(error) => Err(error),
        }
    }

    /// The answer to a request: each requested output with the witness at its
    /// position, under the request's identifier and the current height.
    pub fn respond(&self, request: &WitnessRequest, witnesses: Vec<W>) -> (response:
        WitnessResponse<W>)
        ensures
            response.request_id == request.request_id,
            response.block_height == self@.height,
            response.witnesses@ == paired(request.utxos@, witnesses@),
    {
        let utxos = &request.utxos;
        let mut pairs: Vec<(Utxo, W)> = Vec::new();
        let mut index: usize = 0;
        for witness in iter: witnesses
            invariant
                index == if iter.index() <= utxos@.len() {
                    iter.index()
                } else {
                    utxos@.len() as int
                },
                pairs@.len() == index,
                forall|i: int| 0 <= i < pairs@.len() ==> pairs@[i] == (utxos@[i], iter.seq()[i]),
        {
            if index < utxos.len() {
                pairs.push((utxos[index], witness));
                index += 1;
            }
        }
        assert(pairs@ =~= paired(utxos@, witnesses@));
        WitnessResponse {
            request_id: request.request_id,
            block_height: self.block_height,
            witnesses: pairs,
        }
    }

    /// Those changes of `block` that are about an output of the cohort, in the
    /// order of the block. These are the outputs whose primes
    /// [`Bridge::prepare_update`] asks for.
    pub fn cohort_changes(&self, block: &Block<W>) -> (changes: Vec<Change>)
        ensures
            changes@ == self@.changes_of(*block),
    {
        let all = block.all_changes();
        select_changes(&all, &self.user_ids)
    }
}

/// Idempotency: a block that was applied is refused from then on.
///
/// Handing in the same block with the same primes twice leaves the state
/// that handing it in once leaves. Once a block has applied, handing it in
/// again changes nothing, whatever primes and witness come with it.
pub proof fn lemma_apply_twice<W>(
    state: BridgeState<W>,
    block: Block<W>,
    primes: Seq<nat>,
    new_witness: W,
    primes_again: Seq<nat>,
    witness_again: W,
)
    ensures
        state.after(block, primes, new_witness).after(block, primes, new_witness) == state.after(
            block,
            primes,
            new_witness,
        ),
        state.applies(block, primes) ==> state.after(block, primes, new_witness).after(
            block,
            primes_again,
            witness_again,
        ) == state.after(block, primes, new_witness),
{
}

/// Only the next block moves a bridge: one of any other height, lower or
/// higher, leaves the state as it is.
pub proof fn lemma_other_height_ignored<W>(
    state: BridgeState<W>,
    block: Block<W>,
    primes: Seq<nat>,
    new_witness: W,
)
    requires
        block.height != state.height + 1,
    ensures
        state.after(block, primes, new_witness) == state,
{
}

/// Each user is told of its own outputs only, and each user once.
pub proof fn lemma_updates_are_own<W>(
    updates: Seq<(u128, UserUpdate)>,
    block: Block<W>,
    cohort: Seq<u128>,
)
    requires
        delivers(updates, block, cohort),
        cohort.no_duplicates(),
    ensures
        forall|i: int, k: int|
            0 <= i < updates.len() && 0 <= k < updates[i].1.utxos_deleted@.len()
                ==> #[trigger] updates[i].1.utxos_deleted@[k].user_id == updates[i].0,
        forall|i: int, k: int|
            0 <= i < updates.len() && 0 <= k < updates[i].1.utxos_added@.len()
                ==> #[trigger] updates[i].1.utxos_added@[k].user_id == updates[i].0,
        forall|i: int, j: int|
            0 <= i < j < updates.len() ==> (#[trigger] updates[i]).0 != (#[trigger] updates[j]).0,
{
    assert forall|i: int, k: int|
        0 <= i < updates.len() && 0 <= k < updates[i].1.utxos_deleted@.len()
            implies #[trigger] updates[i].1.utxos_deleted@[k].user_id == updates[i].0 by {
        let user = cohort[i];
        assert(updates[i].0 == user);
        block.spent().lemma_filter_pred(|utxo: Utxo| utxo.user_id == user, k);
    }
    assert forall|i: int, k: int|
        0 <= i < updates.len() && 0 <= k < updates[i].1.utxos_added@.len()
            implies #[trigger] updates[i].1.utxos_added@[k].user_id == updates[i].0 by {
        let user = cohort[i];
        assert(updates[i].0 == user);
        block.created().lemma_filter_pred(|utxo: Utxo| utxo.user_id == user, k);
    }
    assert forall|i: int, j: int| 0 <= i < j < updates.len() implies (#[trigger] updates[i]).0 != (
    #[trigger] updates[j]).0 by {
        assert(updates[i].0 == cohort[i]);
        assert(updates[j].0 == cohort[j]);
    }
}

} // verus!
