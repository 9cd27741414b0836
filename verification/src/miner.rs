//! The miner: the maker of blocks.
//!
//! One miner, the leader, turns the transactions handed in since its last
//! block into the next one. For each transaction the caller has the
//! accumulator delete what it spends and add what it creates; a transaction
//! whose witnesses the accumulator refuses is left out, and the others still
//! make up the block. Which transactions go in, and under which height, is
//! decided here. The other miners only listen.

use crate::protocol::Block;
use crate::protocol::Transaction;
use vstd::prelude::*;

verus! {

/// Those of `transactions` whose verdict is favourable, in order; a
/// transaction without a verdict is left out.
pub open spec fn taken<W>(transactions: Seq<Transaction<W>>, verdicts: Seq<bool>) -> Seq<
    Transaction<W>,
>
    decreases transactions.len(),
{
    if transactions.len() == 0 {
        transactions
    } else {
        let before = taken(transactions.drop_last(), verdicts);
        let index = transactions.len() - 1;
        if index < verdicts.len() && verdicts[index] {
            before.push(transactions.last())
        } else {
            before
        }
    }
}

/// Leaves out the transactions that the accumulator refused.
pub fn keep_taken<W>(transactions: Vec<Transaction<W>>, verdicts: &Vec<bool>) -> (kept: Vec<
    Transaction<W>,
>)
    ensures
        kept@ == taken(transactions@, verdicts@),
{
    let mut kept: Vec<Transaction<W>> = Vec::new();
    let mut index: usize = 0;
    let count = transactions.len();
    assert(transactions@.take(0) =~= Seq::<Transaction<W>>::empty());
    for transaction in iter: transactions
        invariant
            index == iter.index(),
            iter.seq().len() == count,
            kept@ == taken(iter.seq().take(index as int), verdicts@),
    {
        proof {
            let longer = iter.seq().take(index as int + 1);
            assert(longer.drop_last() =~= iter.seq().take(index as int));
            assert(longer.last() == transaction);
        }
        if index < verdicts.len() && verdicts[index] {
            kept.push(transaction);
        }
        index += 1;
    }
    assert(transactions@.take(index as int) =~= transactions@);
    kept
}

/// What a miner knows of the chain.
#[derive(Clone, Copy, Debug, PartialEq, Eq, Structural)]
pub struct Miner {
    is_leader: bool,
    block_height: u64,
}

impl Miner {
    /// Whether this miner makes the blocks.
    pub closed spec fn leads(&self) -> bool {
        self.is_leader
    }

    /// The height of the last block made or seen; zero before the first.
    pub closed spec fn height(&self) -> u64 {
        self.block_height
    }

    /// A miner that has seen no block yet.
    pub fn launch(is_leader: bool) -> (miner: Miner)
        ensures
            miner.leads() == is_leader,
            miner.height() == 0,
    {
        Miner { is_leader, block_height: 0 }
    }

    /// Whether this miner makes the blocks.
    pub fn is_leader(&self) -> (leads: bool)
        ensures
            leads == self.leads(),
    {
        self.is_leader
    }

    /// The height of the last block made or seen; zero before the first.
    pub fn block_height(&self) -> (height: u64)
        ensures
            height == self.height(),
    {
        self.block_height
    }

    /// Makes the next block out of the transactions handed in.
    ///
    /// `verdicts[i]` tells whether the accumulator took `transactions[i]`,
    /// and `new_acc` is the accumulator after the transactions it took. The
    /// block holds those transactions in their order, under the height that
    /// follows the last one. A miner that is not the leader makes no block,
    /// nor does one that has run out of heights.
    pub fn make_block<W>(
        &mut self,
        transactions: Vec<Transaction<W>>,
        verdicts: &Vec<bool>,
        new_acc: W,
    ) -> (block: Option<Block<W>>)
        ensures
            final(self).leads() == old(self).leads(),
            block is Some <==> old(self).leads() && old(self).height() < u64::MAX,
            block matches Some(made) ==> {
                &&& made.height == old(self).height() + 1
                &&& made.transactions@ == taken(transactions@, verdicts@)
                &&& made.new_acc == new_acc
                &&& final(self).height() == made.height
            },
            block is None ==> final(self).height() == old(self).height(),
    {
        if !self.is_leader || self.block_height == u64::MAX {
            return None;
        }
        let height = self.block_height + 1;
        self.block_height = height;
        Some(Block { height, transactions: keep_taken(transactions, verdicts), new_acc })
    }

    /// Takes note of a block that another miner made: the next block moves
    /// the height on, any other is ignored.
    pub fn observe<W>(&mut self, block: &Block<W>) -> (followed: bool)
        ensures
            final(self).leads() == old(self).leads(),
            followed == (block.height == old(self).height() + 1),
            final(self).height() == if followed {
                block.height
            } else {
                old(self).height()
            },
    {
        if self.block_height < u64::MAX && block.height == self.block_height + 1 {
            self.block_height = block.height;
            true
        } else {
            false
        }
    }
}

} // verus!
