//! The user: the holder of a few outputs, who spends one of them per round.
//!
//! A round runs through three phases. An idle user picks an input and asks
//! its bridge for a witness; it then waits for the answer to that very
//! request, dropping every other answer; with the answer it mints a new
//! output, hands out the transaction, and waits for the bridge to confirm that
//! its input is spent before it begins another round. The sending and receiving is
//! the caller's; what to send and what to make of what was received is
//! decided here.

use crate::protocol::Transaction;
use crate::protocol::UserUpdate;
use crate::protocol::Utxo;
use crate::protocol::WitnessRequest;
use crate::protocol::WitnessResponse;
use uuid::Uuid;
use vstd::prelude::*;

verus! {

/// Where a user stands in its round.
#[derive(Clone, Copy, Debug, PartialEq, Eq, Structural)]
pub enum Phase {
    /// No spend is under way.
    Idle,
    /// A witness for `input` was asked for under `request_id`.
    AwaitingWitness { request_id: u128, input: Utxo },
    /// A transaction that spends `input` was handed out and is not yet
    /// confirmed.
    AwaitingConfirmation { input: Utxo },
}

/// The bits of an identifier that tell its version and variant.
pub const VERSION_MASK: u128 = 0x0000_0000_0000_f000_c000_0000_0000_0000;

/// The version and variant bits of a random identifier.
pub const RANDOM_VERSION: u128 = 0x0000_0000_0000_4000_8000_0000_0000_0000;

/// A fresh random identifier.
///
/// Trusted: the body calls `Uuid::new_v4` and reads the result with
/// `Uuid::as_u128`. The value is random, so two calls need not agree; the
/// contract claims only what `new_v4` fixes in every identifier it makes, the
/// four version bits and the two variant bits. `new_v4` panics when the
/// operating system hands out no random bytes.
#[verifier::external_body]
fn fresh_id() -> (id: u128)
    ensures
        id & VERSION_MASK == RANDOM_VERSION,
{
    Uuid::new_v4().as_u128()
}

/// `list` without the outputs that occur in `gone`, in order.
pub open spec fn without(list: Seq<Utxo>, gone: Seq<Utxo>) -> Seq<Utxo> {
    list.filter(|utxo: Utxo| !gone.contains(utxo))
}

/// `list` followed by those of `added` that it does not hold yet, in order
/// and each once.
pub open spec fn with_added(list: Seq<Utxo>, added: Seq<Utxo>) -> Seq<Utxo>
    decreases added.len(),
{
    if added.len() == 0 {
        list
    } else {
        let before = with_added(list, added.drop_last());
        if before.contains(added.last()) {
            before
        } else {
            before.push(added.last())
        }
    }
}

/// The outputs held after an update: the deleted ones leave, then the added
/// ones join.
pub open spec fn updated(list: Seq<Utxo>, update: UserUpdate) -> Seq<Utxo> {
    with_added(without(list, update.utxos_deleted@), update.utxos_added@)
}

/// Whether `utxo` occurs in `list`.
pub fn holds(list: &Vec<Utxo>, utxo: Utxo) -> (found: bool)
    ensures
        found == list@.contains(utxo),
{
    let mut index: usize = 0;
    while index < list.len()
        invariant
            index <= list.len(),
            !list@.take(index as int).contains(utxo),
        decreases list.len() - index,
    {
        if list[index] == utxo {
            return true;
        }
        assert(list@.take(index as int + 1) =~= list@.take(index as int).push(list@[index as int]));
        index += 1;
    }
    assert(list@.take(index as int) =~= list@);
    false
}

/// Adding outputs keeps a list free of duplicates.
pub proof fn lemma_with_added_distinct(list: Seq<Utxo>, added: Seq<Utxo>)
    requires
        list.no_duplicates(),
    ensures
        with_added(list, added).no_duplicates(),
    decreases added.len(),
{
    if added.len() > 0 {
        lemma_with_added_distinct(list, added.drop_last());
    }
}

/// Removing outputs keeps a list free of duplicates.
pub proof fn lemma_without_distinct(list: Seq<Utxo>, gone: Seq<Utxo>)
    requires
        list.no_duplicates(),
    ensures
        without(list, gone).no_duplicates(),
    decreases list.len(),
{
    reveal(Seq::filter);
    let keep = |utxo: Utxo| !gone.contains(utxo);
    if list.len() > 0 {
        let front = list.drop_last();
        lemma_without_distinct(front, gone);
        if keep(list.last()) {
            let kept = front.filter(keep);
            assert forall|i: int| 0 <= i < kept.len() implies kept[i] != list.last() by {
                assert(kept.contains(kept[i]));
                front.lemma_filter_contains_rev(keep, kept[i]);
                let j = choose|j: int| 0 <= j < front.len() && front[j] == kept[i];
                assert(list[j] == kept[i]);
            }
        }
    }
}

/// A user and the outputs it owns.
#[derive(Debug)]
pub struct User {
    id: u128,
    utxo_set: Vec<Utxo>,
    phase: Phase,
}

impl User {
    /// The identifier of the user.
    pub closed spec fn id(&self) -> u128 {
        self.id
    }

    /// The outputs held, oldest first.
    pub closed spec fn utxos(&self) -> Seq<Utxo> {
        self.utxo_set@
    }

    /// The phase of the round.
    pub closed spec fn phase(&self) -> Phase {
        self.phase
    }

    /// No output is held twice. This holds of every user that a program
    /// holds.
    #[verifier::type_invariant]
    pub closed spec fn wf(&self) -> bool {
        self.utxo_set@.no_duplicates()
    }

    /// An idle user that holds `init_utxo` alone.
    pub fn start(id: u128, init_utxo: Utxo) -> (user: User)
        ensures
            user.id() == id,
            user.utxos() == seq![init_utxo],
            user.phase() == Phase::Idle,
    {
        let mut utxo_set: Vec<Utxo> = Vec::new();
        utxo_set.push(init_utxo);
        assert(utxo_set@ =~= seq![init_utxo]);
        User { id, utxo_set, phase: Phase::Idle }
    }

    /// The identifier of the user.
    pub fn user_id(&self) -> (id: u128)
        ensures
            id == self.id(),
    {
        self.id
    }

    /// The outputs held, oldest first.
    pub fn utxo_set(&self) -> (list: &Vec<Utxo>)
        ensures
            list@ == self.utxos(),
            list@.no_duplicates(),
    {
        proof {
            use_type_invariant(self);
        }
        &self.utxo_set
    }

    /// The phase of the round.
    pub fn current_phase(&self) -> (phase: Phase)
        ensures
            phase == self.phase(),
    {
        self.phase
    }

    /// The output to spend next: the one held longest.
    pub fn get_input_for_transaction(&self) -> (input: Utxo)
        requires
            self.utxos().len() > 0,
        ensures
            input == self.utxos()[0],
    {
        self.utxo_set[0]
    }

    /// The request to send for a witness, under the identifier `request_id`
    /// if a new round begins.
    ///
    /// An idle user with an output begins a round: it picks its input and
    /// waits for the witness. A user that waits for a witness already repeats
    /// its request as it was. Otherwise there is nothing to ask for.
    pub fn request_witness_as(&mut self, request_id: u128) -> (request: Option<WitnessRequest>)
        ensures
            final(self).id() == old(self).id(),
            final(self).utxos() == old(self).utxos(),
            match old(self).phase() {
                Phase::Idle => if old(self).utxos().len() > 0 {
                    &&& final(self).phase() == (Phase::AwaitingWitness {
                        request_id,
                        input: old(self).utxos()[0],
                    })
                    &&& request matches Some(sent)
                    &&& sent.user_id == old(self).id()
                    &&& sent.request_id == request_id
                    &&& sent.utxos@ == seq![old(self).utxos()[0]]
                } else {
                    final(self).phase() == Phase::Idle && request is None
                },
                Phase::AwaitingWitness { request_id: pending, input } => {
                    &&& final(self).phase() == old(self).phase()
                    &&& request matches Some(sent)
                    &&& sent.user_id == old(self).id()
                    &&& sent.request_id == pending
                    &&& sent.utxos@ == seq![input]
                },
                Phase::AwaitingConfirmation { .. } => {
                    final(self).phase() == old(self).phase() && request is None
                },
            },
    {
        let (request_id, input) = match self.phase {
            Phase::Idle => {
                if self.utxo_set.len() == 0 {
                    return None;
                }
                (request_id, self.get_input_for_transaction())
            },
            Phase::AwaitingWitness { request_id: pending, input } => (pending, input),
            Phase::AwaitingConfirmation { .. } => {
                return None;
            },
        };
        proof {
            use_type_invariant(&*self);
        }
        self.phase = Phase::AwaitingWitness { request_id, input };
        let mut utxos: Vec<Utxo> = Vec::new();
        utxos.push(input);
        assert(utxos@ =~= seq![input]);
        Some(WitnessRequest { user_id: self.id, request_id, utxos })
    }

    /// The request to send for a witness, under a fresh random identifier if
    /// a new round begins. See [`User::request_witness_as`].
    pub fn request_witness(&mut self) -> (request: Option<WitnessRequest>)
        ensures
            final(self).id() == old(self).id(),
            final(self).utxos() == old(self).utxos(),
            request is Some <==> old(self).phase() is AwaitingWitness || (old(self).phase() is Idle
                && old(self).utxos().len() > 0),
            request matches Some(sent) ==> {
                &&& sent.user_id == old(self).id()
                &&& final(self).phase() == (Phase::AwaitingWitness {
                    request_id: sent.request_id,
                    input: sent.utxos@[0],
                })
                &&& sent.utxos@.len() == 1
                &&& match old(self).phase() {
                    Phase::AwaitingWitness { request_id, input } => sent.request_id == request_id
                        && sent.utxos@[0] == input,
                    _ => sent.utxos@[0] == old(self).utxos()[0] && sent.request_id & VERSION_MASK
                        == RANDOM_VERSION,
                }
            },
            request is None ==> final(self).phase() == old(self).phase(),
    {
        let request_id = match self.phase {
            Phase::Idle => if self.utxo_set.len() > 0 {
                fresh_id()
            } else {
                0
            },
            Phase::AwaitingWitness { request_id, input } => request_id,
            Phase::AwaitingConfirmation { .. } => 0,
        };
        self.request_witness_as(request_id)
    }

    /// Whether `response` answers the request that the user waits for.
    pub fn expects<W>(&self, response: &WitnessResponse<W>) -> (expected: bool)
        ensures
            expected == (self.phase() matches Phase::AwaitingWitness { request_id, .. }
                && request_id == response.request_id),
    {
        match self.phase {
            Phase::AwaitingWitness { request_id, input } => request_id == response.request_id,
            _ => false,
        }
    }

    /// Takes in an answer from the bridge; `minted_id` is the identifier of
    /// the output to create.
    ///
    /// The answer to the pending request yields the transaction to submit: it
    /// spends what the answer proves, creates one new output of this user,
    /// and carries the height that the witnesses are valid for. The user then
    /// waits for confirmation. Any other answer is dropped and changes
    /// nothing.
    pub fn receive_response_as<W>(&mut self, response: WitnessResponse<W>, minted_id: u128) -> (
    transaction: Option<Transaction<W>>)
        ensures
            final(self).id() == old(self).id(),
            final(self).utxos() == old(self).utxos(),
            transaction is Some <==> (old(self).phase() matches Phase::AwaitingWitness {
                request_id,
                ..
            } && request_id == response.request_id),
            transaction matches Some(spend) ==> {
                &&& old(self).phase() matches Phase::AwaitingWitness { input, .. }
                &&& final(self).phase() == (Phase::AwaitingConfirmation { input })
                &&& spend.block_height == response.block_height
                &&& spend.utxos_created@ == seq![Utxo { id: minted_id, user_id: old(self).id() }]
                &&& spend.utxos_spent_with_witnesses == response.witnesses
            },
            transaction is None ==> final(self).phase() == old(self).phase(),
    {
        let input = match self.phase {
            Phase::AwaitingWitness { request_id, input } => {
                if request_id != response.request_id {
                    return None;
                }
                input
            },
            _ => {
                return None;
            },
        };
        let mut utxos_created: Vec<Utxo> = Vec::new();
        utxos_created.push(Utxo { id: minted_id, user_id: self.id });
        assert(utxos_created@ =~= seq![Utxo { id: minted_id, user_id: self.id }]);
        proof {
            use_type_invariant(&*self);
        }
        self.phase = Phase::AwaitingConfirmation { input };
        Some(
            Transaction {
                block_height: response.block_height,
                utxos_created,
                utxos_spent_with_witnesses: response.witnesses,
            },
        )
    }

    /// Takes in an answer from the bridge, minting the new output under a
    /// fresh random identifier. See [`User::receive_response_as`].
    pub fn receive_response<W>(&mut self, response: WitnessResponse<W>) -> (transaction: Option<
        Transaction<W>,
    >)
        ensures
            final(self).id() == old(self).id(),
            final(self).utxos() == old(self).utxos(),
            transaction is Some <==> (old(self).phase() matches Phase::AwaitingWitness {
                request_id,
                ..
            } && request_id == response.request_id),
            transaction matches Some(spend) ==> {
                &&& old(self).phase() matches Phase::AwaitingWitness { input, .. }
                &&& final(self).phase() == (Phase::AwaitingConfirmation { input })
                &&& spend.block_height == response.block_height
                &&& spend.utxos_created@.len() == 1
                &&& spend.utxos_created@[0].user_id == old(self).id()
                &&& spend.utxos_created@[0].id & VERSION_MASK == RANDOM_VERSION
                &&& spend.utxos_spent_with_witnesses == response.witnesses
            },
            transaction is None ==> final(self).phase() == old(self).phase(),
    {
        if !self.expects(&response) {
            return None;
        }
        let minted_id = fresh_id();
        self.receive_response_as(response, minted_id)
    }

    /// Brings the set of outputs up to date with a confirmed block: the
    /// deleted outputs leave, then the added ones join. A user that waited
    /// for confirmation is idle again once an update lists its input as
    /// deleted; until then it keeps waiting, so that no output is spent
    /// twice.
    pub fn update(&mut self, update: &UserUpdate)
        ensures
            final(self).id() == old(self).id(),
            final(self).utxos() == updated(old(self).utxos(), *update),
            final(self).phase() == match old(self).phase() {
                Phase::AwaitingConfirmation { input } => if update.utxos_deleted@.contains(input) {
                    Phase::Idle
                } else {
                    old(self).phase()
                },
                _ => old(self).phase(),
            },
    {
        proof {
            use_type_invariant(&*self);
        }
        let ghost gone = update.utxos_deleted@;
        let ghost keep = |utxo: Utxo| !gone.contains(utxo);
        let mut kept: Vec<Utxo> = Vec::new();
        let mut index: usize = 0;
        proof {
            reveal(Seq::filter);
        }
        while index < self.utxo_set.len()
            invariant
                index <= self.utxo_set.len(),
                self.utxo_set@ == old(self).utxo_set@,
                self.id == old(self).id,
                self.phase == old(self).phase,
                gone == update.utxos_deleted@,
                keep == (|utxo: Utxo| !gone.contains(utxo)),
                kept@ == self.utxo_set@.take(index as int).filter(keep),
            decreases self.utxo_set.len() - index,
        {
            let utxo = self.utxo_set[index];
            proof {
                let before = self.utxo_set@.take(index as int);
                assert(self.utxo_set@.take(index as int + 1) =~= before.push(utxo));
                before.lemma_filter_push(utxo, keep);
            }
            if !holds(&update.utxos_deleted, utxo) {
                kept.push(utxo);
            }
            index += 1;
        }
        proof {
            assert(self.utxo_set@.take(index as int) =~= self.utxo_set@);
            lemma_without_distinct(old(self).utxo_set@, gone);
        }
        let ghost base = kept@;
        index = 0;
        while index < update.utxos_added.len()
            invariant
                index <= update.utxos_added.len(),
                self.id == old(self).id,
                self.phase == old(self).phase,
                kept@ == with_added(base, update.utxos_added@.take(index as int)),
            decreases update.utxos_added.len() - index,
        {
            let utxo = update.utxos_added[index];
            proof {
                assert(update.utxos_added@.take(index as int + 1).drop_last()
                    =~= update.utxos_added@.take(index as int));
            }
            if !holds(&kept, utxo) {
                kept.push(utxo);
            }
            index += 1;
        }
        proof {
            assert(update.utxos_added@.take(index as int) =~= update.utxos_added@);
            lemma_with_added_distinct(base, update.utxos_added@);
        }
        self.utxo_set = kept;
        if let Phase::AwaitingConfirmation { input } = self.phase {
            if holds(&update.utxos_deleted, input) {
                self.phase = Phase::Idle;
            }
        }
    }
}

/// The outputs held after a sequence of updates, applied in order.
pub open spec fn after_updates(list: Seq<Utxo>, updates: Seq<UserUpdate>) -> Seq<Utxo>
    decreases updates.len(),
{
    if updates.len() == 0 {
        list
    } else {
        updated(after_updates(list, updates.drop_last()), updates.last())
    }
}

/// The outputs that a sequence of updates adds, in order.
pub open spec fn all_added(updates: Seq<UserUpdate>) -> Seq<Utxo>
    decreases updates.len(),
{
    if updates.len() == 0 {
        Seq::empty()
    } else {
        all_added(updates.drop_last()) + updates.last().utxos_added@
    }
}

/// The outputs that a sequence of updates deletes, in order.
pub open spec fn all_deleted(updates: Seq<UserUpdate>) -> Seq<Utxo>
    decreases updates.len(),
{
    if updates.len() == 0 {
        Seq::empty()
    } else {
        all_deleted(updates.drop_last()) + updates.last().utxos_deleted@
    }
}

/// Each update deletes only outputs that were there before it: outputs of
/// `start`, or outputs that an earlier update added.
pub open spec fn deletes_what_was_added(start: Seq<Utxo>, updates: Seq<UserUpdate>) -> bool
    decreases updates.len(),
{
    updates.len() > 0 ==> {
        &&& deletes_what_was_added(start, updates.drop_last())
        &&& forall|k: int|
            0 <= k < updates.last().utxos_deleted@.len() ==> (start + all_added(
                updates.drop_last(),
            )).contains(#[trigger] updates.last().utxos_deleted@[k])
    }
}

/// Leaving out one list of outputs and then another leaves out both.
pub proof fn lemma_without_twice(list: Seq<Utxo>, first: Seq<Utxo>, second: Seq<Utxo>)
    ensures
        without(without(list, first), second) == without(list, first + second),
    decreases list.len(),
{
    reveal(Seq::filter);
    if list.len() > 0 {
        let front = list.drop_last();
        let last = list.last();
        lemma_without_twice(front, first, second);
        assert((first + second).contains(last) <==> first.contains(last) || second.contains(last))
            by {
            if first.contains(last) {
                let i = choose|i: int| 0 <= i < first.len() && first[i] == last;
                assert((first + second)[i] == last);
            }
            if second.contains(last) {
                let i = choose|i: int| 0 <= i < second.len() && second[i] == last;
                assert((first + second)[first.len() + i] == last);
            }
            if (first + second).contains(last) {
                let i = choose|i: int| 0 <= i < (first + second).len() && (first + second)[i] == last;
                if i < first.len() {
                    assert(first[i] == last);
                } else {
                    assert(second[i - first.len()] == last);
                }
            }
        }
        if !first.contains(last) {
            let kept = without(front, first);
            assert(without(list, first) == kept.push(last));
            kept.lemma_filter_push(last, |utxo: Utxo| !second.contains(utxo));
        }
    }
}

/// Leaving out outputs that do not occur changes nothing.
pub proof fn lemma_without_strangers(list: Seq<Utxo>, gone: Seq<Utxo>)
    requires
        forall|i: int| 0 <= i < list.len() ==> !gone.contains(#[trigger] list[i]),
    ensures
        without(list, gone) == list,
    decreases list.len(),
{
    reveal(Seq::filter);
    if list.len() > 0 {
        let front = list.drop_last();
        assert forall|i: int| 0 <= i < front.len() implies !gone.contains(#[trigger] front[i]) by {
            assert(front[i] == list[i]);
        }
        lemma_without_strangers(front, gone);
        assert(!gone.contains(list[list.len() - 1]));
        assert(front.push(list.last()) =~= list);
    }
}

/// Outputs that are new and distinct are all appended.
pub proof fn lemma_with_added_new(list: Seq<Utxo>, added: Seq<Utxo>)
    requires
        (list + added).no_duplicates(),
    ensures
        with_added(list, added) == list + added,
    decreases added.len(),
{
    if added.len() == 0 {
        assert(list + added =~= list);
    } else {
        let front = added.drop_last();
        let last = added.last();
        assert((list + front).no_duplicates()) by {
            assert forall|i: int, j: int|
                0 <= i < (list + front).len() && 0 <= j < (list + front).len() && i != j implies (
            list + front)[i] != (list + front)[j] by {
                assert((list + added)[i] == (list + front)[i]);
                assert((list + added)[j] == (list + front)[j]);
            }
        }
        lemma_with_added_new(list, front);
        let whole = list + added;
        assert(whole[whole.len() - 1] == last);
        if (list + front).contains(last) {
            let i = choose|i: int| 0 <= i < (list + front).len() && (list + front)[i] == last;
            assert(whole[i] == last);
            assert(false);
        }
        assert((list + front).push(last) =~= list + added);
    }
}

/// Round trip: after any number of confirmed rounds a user holds what it
/// began with and what was added since, in that order, without what was
/// deleted.
///
/// This holds when no output is created twice and every update deletes
/// only what was there before it.
pub proof fn lemma_local_set_after_rounds(start: Seq<Utxo>, updates: Seq<UserUpdate>)
    requires
        (start + all_added(updates)).no_duplicates(),
        deletes_what_was_added(start, updates),
    ensures
        after_updates(start, updates) == without(start + all_added(updates), all_deleted(updates)),
    decreases updates.len(),
{
    if updates.len() == 0 {
        assert(start + all_added(updates) =~= start);
        lemma_without_strangers(start, all_deleted(updates));
    } else {
        let front = updates.drop_last();
        let last = updates.last();
        let created = start + all_added(front);
        let added = last.utxos_added@;
        let deleted = last.utxos_deleted@;
        let whole = start + all_added(updates);
        assert(whole =~= created + added);
        assert(created.no_duplicates()) by {
            assert forall|i: int, j: int|
                0 <= i < created.len() && 0 <= j < created.len() && i != j implies created[i]
                != created[j] by {
                assert(whole[i] == created[i]);
                assert(whole[j] == created[j]);
            }
        }
        lemma_local_set_after_rounds(start, front);
        let held = after_updates(start, front);
        lemma_without_twice(created, all_deleted(front), deleted);
        let gone = all_deleted(front) + deleted;
        assert(gone =~= all_deleted(updates));
        let left = without(created, gone);
        // The outputs added now are new: none is held, none was deleted.
        lemma_deleted_were_created(start, updates);
        assert forall|k: int| 0 <= k < added.len() implies !gone.contains(#[trigger] added[k]) by {
            if gone.contains(added[k]) {
                let i = choose|i: int| 0 <= i < created.len() && created[i] == added[k];
                assert(whole[i] == added[k]);
                assert(whole[created.len() + k] == added[k]);
                assert(false);
            }
        }
        lemma_without_strangers(added, gone);
        assert((left + added).no_duplicates()) by {
            lemma_without_distinct(created, gone);
            assert forall|i: int, j: int|
                0 <= i < (left + added).len() && 0 <= j < (left + added).len() && i != j implies (
            left + added)[i] != (left + added)[j] by {
                let x = (left + added)[i];
                let y = (left + added)[j];
                if i < left.len() && j < left.len() {
                } else if i >= left.len() && j >= left.len() {
                    assert(whole[created.len() + (i - left.len())] == x);
                    assert(whole[created.len() + (j - left.len())] == y);
                } else {
                    let (inner, outer) = if i < left.len() {
                        (i, j)
                    } else {
                        (j, i)
                    };
                    assert(left.contains(left[inner]));
                    created.lemma_filter_contains_rev(
                        |utxo: Utxo| !gone.contains(utxo),
                        left[inner],
                    );
                    let c = choose|c: int| 0 <= c < created.len() && created[c] == left[inner];
                    assert(whole[c] == left[inner]);
                    assert(whole[created.len() + (outer - left.len())] == added[outer - left.len()]);
                }
            }
        }
        lemma_with_added_new(left, added);
        Seq::filter_distributes_over_add(created, added, |utxo: Utxo| !gone.contains(utxo));
    }
}

/// What a sequence of updates deletes was there before: it is among the
/// outputs of `start` and those that the updates add.
pub proof fn lemma_deleted_were_created(start: Seq<Utxo>, updates: Seq<UserUpdate>)
    requires
        deletes_what_was_added(start, updates),
    ensures
        forall|k: int|
            0 <= k < all_deleted(updates).len() ==> (start + all_added(updates.drop_last())).contains(
                #[trigger] all_deleted(updates)[k],
            ),
    decreases updates.len(),
{
    if updates.len() > 0 {
        let front = updates.drop_last();
        let created = start + all_added(front);
        lemma_deleted_were_created(start, front);
        assert forall|k: int| 0 <= k < all_deleted(updates).len() implies created.contains(
            #[trigger] all_deleted(updates)[k],
        ) by {
            let utxo = all_deleted(updates)[k];
            if k < all_deleted(front).len() {
                assert(utxo == all_deleted(front)[k]);
                if front.len() > 0 {
                    let earlier = start + all_added(front.drop_last());
                    assert(earlier.contains(utxo));
                    let i = choose|i: int| 0 <= i < earlier.len() && earlier[i] == utxo;
                    assert(created[i] == utxo);
                }
            } else {
                assert(utxo == updates.last().utxos_deleted@[k - all_deleted(front).len()]);
            }
        }
    }
}

} // verus!
