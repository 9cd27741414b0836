//! The values that miners, bridges and users pass to one another.
//!
//! Identifiers are 128-bit numbers. A membership witness is a value of the
//! accumulator's group; this crate never looks inside one, so every type that
//! carries witnesses takes their type as the parameter `W`.

use vstd::prelude::*;

verus! {

/// An unspent transaction output: an identifier of its own and its owner's.
#[derive(Clone, Copy, Debug, PartialEq, Eq, Structural, Hash)]
pub struct Utxo {
    pub id: u128,
    pub user_id: u128,
}

/// One step in the life of an output, as a block records it.
#[derive(Clone, Copy, Debug, PartialEq, Eq, Structural)]
pub enum Change {
    /// The output was consumed as an input.
    Spent(Utxo),
    /// The output was newly created.
    Created(Utxo),
}

impl Change {
    /// The output that the change is about.
    pub open spec fn utxo(self) -> Utxo {
        match self {
            Change::Spent(utxo) => utxo,
            Change::Created(utxo) => utxo,
        }
    }

    /// The output that the change is about.
    pub fn output(&self) -> (utxo: Utxo)
        ensures
            utxo == self.utxo(),
    {
        match self {
            Change::Spent(utxo) => *utxo,
            Change::Created(utxo) => *utxo,
        }
    }
}

/// A spend: the inputs it consumes, each with the witness that proves it
/// unspent, and the outputs it creates.
#[derive(Clone, Debug)]
pub struct Transaction<W> {
    /// The height at which the witnesses of the inputs were valid.
    pub block_height: u64,
    pub utxos_created: Vec<Utxo>,
    pub utxos_spent_with_witnesses: Vec<(Utxo, W)>,
}

/// A batch of transactions and the accumulator that results from them.
#[derive(Clone, Debug)]
pub struct Block<W> {
    pub height: u64,
    pub transactions: Vec<Transaction<W>>,
    pub new_acc: W,
}

/// What one block changed for one user.
#[derive(Clone, Debug, PartialEq, Eq)]
pub struct UserUpdate {
    pub utxos_added: Vec<Utxo>,
    pub utxos_deleted: Vec<Utxo>,
}

/// A user's request for witnesses of some of its outputs.
#[derive(Clone, Debug, PartialEq, Eq)]
pub struct WitnessRequest {
    pub user_id: u128,
    pub request_id: u128,
    pub utxos: Vec<Utxo>,
}

/// A bridge's answer to a [`WitnessRequest`].
#[derive(Clone, Debug)]
pub struct WitnessResponse<W> {
    /// The identifier of the request that is answered.
    pub request_id: u128,
    /// The height of the state that the witnesses are valid for.
    pub block_height: u64,
    pub witnesses: Vec<(Utxo, W)>,
}

/// The outputs of a sequence of pairs, in order.
pub open spec fn first_parts<W>(pairs: Seq<(Utxo, W)>) -> Seq<Utxo> {
    pairs.map_values(|pair: (Utxo, W)| pair.0)
}

impl<W> Transaction<W> {
    /// The outputs that the transaction consumes, in order.
    pub open spec fn spent(self) -> Seq<Utxo> {
        first_parts(self.utxos_spent_with_witnesses@)
    }

    /// The outputs that the transaction creates, in order.
    pub open spec fn created(self) -> Seq<Utxo> {
        self.utxos_created@
    }

    /// The changes that the transaction makes: first what it spends, then
    /// what it creates.
    pub open spec fn changes(self) -> Seq<Change> {
        self.spent().map_values(|utxo: Utxo| Change::Spent(utxo)) + self.created().map_values(
            |utxo: Utxo| Change::Created(utxo),
        )
    }
}

/// The outputs that a sequence of transactions consumes, in order.
pub open spec fn spent_in<W>(transactions: Seq<Transaction<W>>) -> Seq<Utxo>
    decreases transactions.len(),
{
    if transactions.len() == 0 {
        Seq::empty()
    } else {
        spent_in(transactions.drop_last()) + transactions.last().spent()
    }
}

/// The outputs that a sequence of transactions creates, in order.
pub open spec fn created_in<W>(transactions: Seq<Transaction<W>>) -> Seq<Utxo>
    decreases transactions.len(),
{
    if transactions.len() == 0 {
        Seq::empty()
    } else {
        created_in(transactions.drop_last()) + transactions.last().created()
    }
}

/// The changes that a sequence of transactions makes, in order.
pub open spec fn changes_in<W>(transactions: Seq<Transaction<W>>) -> Seq<Change>
    decreases transactions.len(),
{
    if transactions.len() == 0 {
        Seq::empty()
    } else {
        changes_in(transactions.drop_last()) + transactions.last().changes()
    }
}

impl<W> Block<W> {
    /// The outputs that the block consumes, in order.
    pub open spec fn spent(self) -> Seq<Utxo> {
        spent_in(self.transactions@)
    }

    /// The outputs that the block creates, in order.
    pub open spec fn created(self) -> Seq<Utxo> {
        created_in(self.transactions@)
    }

    /// The changes that the block makes, in order.
    pub open spec fn changes(self) -> Seq<Change> {
        changes_in(self.transactions@)
    }
}

impl<W> Transaction<W> {
    /// Appends the outputs that the transaction consumes to `list`.
    pub fn push_spent(&self, list: &mut Vec<Utxo>)
        ensures
            final(list)@ == old(list)@ + self.spent(),
    {
        let mut index: usize = 0;
        while index < self.utxos_spent_with_witnesses.len()
            invariant
                index <= self.utxos_spent_with_witnesses.len(),
                list@ == old(list)@ + self.spent().take(index as int),
            decreases self.utxos_spent_with_witnesses.len() - index,
        {
            let utxo = self.utxos_spent_with_witnesses[index].0;
            list.push(utxo);
            assert(self.spent().take(index as int + 1) =~= self.spent().take(index as int).push(
                utxo,
            ));
            index += 1;
        }
        assert(self.spent().take(index as int) =~= self.spent());
    }

    /// Appends the outputs that the transaction creates to `list`.
    pub fn push_created(&self, list: &mut Vec<Utxo>)
        ensures
            final(list)@ == old(list)@ + self.created(),
    {
        let mut index: usize = 0;
        while index < self.utxos_created.len()
            invariant
                index <= self.utxos_created.len(),
                list@ == old(list)@ + self.created().take(index as int),
            decreases self.utxos_created.len() - index,
        {
            let utxo = self.utxos_created[index];
            list.push(utxo);
            assert(self.created().take(index as int + 1) =~= self.created().take(
                index as int,
            ).push(utxo));
            index += 1;
        }
        assert(self.created().take(index as int) =~= self.created());
    }

    /// Appends the changes that the transaction makes to `list`.
    pub fn push_changes(&self, list: &mut Vec<Change>)
        ensures
            final(list)@ == old(list)@ + self.changes(),
    {
        let ghost spent = self.spent().map_values(|utxo: Utxo| Change::Spent(utxo));
        let ghost created = self.created().map_values(|utxo: Utxo| Change::Created(utxo));
        let mut index: usize = 0;
        while index < self.utxos_spent_with_witnesses.len()
            invariant
                index <= self.utxos_spent_with_witnesses.len(),
                spent == self.spent().map_values(|utxo: Utxo| Change::Spent(utxo)),
                list@ == old(list)@ + spent.take(index as int),
            decreases self.utxos_spent_with_witnesses.len() - index,
        {
            let utxo = self.utxos_spent_with_witnesses[index].0;
            list.push(Change::Spent(utxo));
            assert(spent.take(index as int + 1) =~= spent.take(index as int).push(
                Change::Spent(utxo),
            ));
            index += 1;
        }
        assert(spent.take(index as int) =~= spent);
        let ghost middle = list@;
        index = 0;
        while index < self.utxos_created.len()
            invariant
                index <= self.utxos_created.len(),
                created == self.created().map_values(|utxo: Utxo| Change::Created(utxo)),
                list@ == middle + created.take(index as int),
            decreases self.utxos_created.len() - index,
        {
            let utxo = self.utxos_created[index];
            list.push(Change::Created(utxo));
            assert(created.take(index as int + 1) =~= created.take(index as int).push(
                Change::Created(utxo),
            ));
            index += 1;
        }
        assert(created.take(index as int) =~= created);
        assert(list@ =~= old(list)@ + (spent + created));
    }
}

impl<W> Block<W> {
    /// The outputs that the block consumes, in order.
    pub fn spent_outputs(&self) -> (list: Vec<Utxo>)
        ensures
            list@ == self.spent(),
    {
        let mut list: Vec<Utxo> = Vec::new();
        let mut index: usize = 0;
        while index < self.transactions.len()
            invariant
                index <= self.transactions.len(),
                list@ == spent_in(self.transactions@.take(index as int)),
            decreases self.transactions.len() - index,
        {
            self.transactions[index].push_spent(&mut list);
            assert(self.transactions@.take(index as int + 1).drop_last()
                =~= self.transactions@.take(index as int));
            index += 1;
        }
        assert(self.transactions@.take(index as int) =~= self.transactions@);
        list
    }

    /// The outputs that the block creates, in order.
    pub fn created_outputs(&self) -> (list: Vec<Utxo>)
        ensures
            list@ == self.created(),
    {
        let mut list: Vec<Utxo> = Vec::new();
        let mut index: usize = 0;
        while index < self.transactions.len()
            invariant
                index <= self.transactions.len(),
                list@ == created_in(self.transactions@.take(index as int)),
            decreases self.transactions.len() - index,
        {
            self.transactions[index].push_created(&mut list);
            assert(self.transactions@.take(index as int + 1).drop_last()
                =~= self.transactions@.take(index as int));
            index += 1;
        }
        assert(self.transactions@.take(index as int) =~= self.transactions@);
        list
    }

    /// The changes that the block makes, in order.
    pub fn all_changes(&self) -> (list: Vec<Change>)
        ensures
            list@ == self.changes(),
    {
        let mut list: Vec<Change> = Vec::new();
        let mut index: usize = 0;
        while index < self.transactions.len()
            invariant
                index <= self.transactions.len(),
                list@ == changes_in(self.transactions@.take(index as int)),
            decreases self.transactions.len() - index,
        {
            self.transactions[index].push_changes(&mut list);
            assert(self.transactions@.take(index as int + 1).drop_last()
                =~= self.transactions@.take(index as int));
            index += 1;
        }
        assert(self.transactions@.take(index as int) =~= self.transactions@);
        list
    }
}

/// Those of `outputs` that `user` owns, in order.
pub open spec fn owned_by(outputs: Seq<Utxo>, user: u128) -> Seq<Utxo> {
    outputs.filter(|utxo: Utxo| utxo.user_id == user)
}

/// Those of `changes` that are about an output of one of `users`, in order.
pub open spec fn changes_for(changes: Seq<Change>, users: Seq<u128>) -> Seq<Change> {
    changes.filter(|change: Change| users.contains(change.utxo().user_id))
}

/// Whether `user` is one of `users`.
pub fn is_among(users: &Vec<u128>, user: u128) -> (found: bool)
    ensures
        found == users@.contains(user),
{
    let mut index: usize = 0;
    while index < users.len()
        invariant
            index <= users.len(),
            !users@.take(index as int).contains(user),
        decreases users.len() - index,
    {
        if users[index] == user {
            return true;
        }
        assert(users@.take(index as int + 1) =~= users@.take(index as int).push(users@[index as int]));
        index += 1;
    }
    assert(users@.take(index as int) =~= users@);
    false
}

/// Those of `changes` that are about an output of one of `users`, in order.
pub fn select_changes(changes: &Vec<Change>, users: &Vec<u128>) -> (selected: Vec<Change>)
    ensures
        selected@ == changes_for(changes@, users@),
{
    let ghost keep = |change: Change| users@.contains(change.utxo().user_id);
    let mut selected: Vec<Change> = Vec::new();
    let mut index: usize = 0;
    proof {
        reveal(Seq::filter);
    }
    while index < changes.len()
        invariant
            index <= changes.len(),
            keep == (|change: Change| users@.contains(change.utxo().user_id)),
            selected@ == changes@.take(index as int).filter(keep),
        decreases changes.len() - index,
    {
        let change = changes[index];
        proof {
            let before = changes@.take(index as int);
            assert(changes@.take(index as int + 1) =~= before.push(change));
            before.lemma_filter_push(change, keep);
        }
        if is_among(users, change.output().user_id) {
            selected.push(change);
        }
        index += 1;
    }
    assert(changes@.take(index as int) =~= changes@);
    selected
}

/// Those of `outputs` that `user` owns, in order.
pub fn select_owned(outputs: &Vec<Utxo>, user: u128) -> (owned: Vec<Utxo>)
    ensures
        owned@ == owned_by(outputs@, user),
{
    let ghost keep = |utxo: Utxo| utxo.user_id == user;
    let mut owned: Vec<Utxo> = Vec::new();
    let mut index: usize = 0;
    proof {
        reveal(Seq::filter);
    }
    while index < outputs.len()
        invariant
            index <= outputs.len(),
            keep == (|utxo: Utxo| utxo.user_id == user),
            owned@ == outputs@.take(index as int).filter(keep),
        decreases outputs.len() - index,
    {
        let utxo = outputs[index];
        proof {
            let before = outputs@.take(index as int);
            assert(outputs@.take(index as int + 1) =~= before.push(utxo));
            before.lemma_filter_push(utxo, keep);
        }
        if utxo.user_id == user {
            owned.push(utxo);
        }
        index += 1;
    }
    assert(outputs@.take(index as int) =~= outputs@);
    owned
}

} // verus!
