//! Best-effort import of a received batch: every block is attempted, in the
//! order received, whatever became of the ones before it.
use crate::messages::Block;
use vstd::prelude::*;

verus! {

/// The outcome of one import attempt.
#[derive(Debug, Clone, Copy, PartialEq, Eq, Structural)]
pub struct ImportRecord {
    pub index: u64,
    pub imported: bool,
}

/// A batch of blocks being imported one by one.
pub struct ImportRound {
    blocks: Vec<Block>,
    log: Vec<ImportRecord>,
}

impl ImportRound {
    /// The blocks of the batch, in the order received.
    pub closed spec fn pending(self) -> Seq<Block> {
        self.blocks@
    }

    /// One record per block attempted so far.
    pub closed spec fn records(self) -> Seq<ImportRecord> {
        self.log@
    }

    /// The records name the first blocks of the batch, in order.
    pub open spec fn wf(self) -> bool {
        &&& self.records().len() <= self.pending().len()
        &&& forall|k: int|
            0 <= k < self.records().len() ==> (#[trigger] self.records()[k]).index
                == self.pending()[k].index
    }

    pub fn new(blocks: Vec<Block>) -> (r: ImportRound)
        ensures
            r.wf(),
            r.pending() == blocks@,
            r.records() == Seq::<ImportRecord>::empty(),
    {
        ImportRound { blocks, log: Vec::new() }
    }

    /// The block to attempt next, if any is left.
    pub fn next_block(&self) -> (r: Option<&Block>)
        requires
            self.wf(),
        ensures
            r is Some <==> self.records().len() < self.pending().len(),
            r matches Some(b) ==> *b == self.pending()[self.records().len() as int],
    {
        if self.log.len() < self.blocks.len() {
            Some(&self.blocks[self.log.len()])
        } else {
            None
        }
    }

    /// Records the outcome of attempting the next block; a failure stops nothing.
    pub fn record(&mut self, imported: bool)
        requires
            old(self).wf(),
            old(self).records().len() < old(self).pending().len(),
        ensures
            final(self).wf(),
            final(self).pending() == old(self).pending(),
            final(self).records() == old(self).records().push(
                ImportRecord {
                    index: old(self).pending()[old(self).records().len() as int].index,
                    imported,
                },
            ),
    {
        let index = self.blocks[self.log.len()].index;
        self.log.push(ImportRecord { index, imported });
    }

    pub fn is_done(&self) -> (r: bool)
        requires
            self.wf(),
        ensures
            r <==> self.records().len() == self.pending().len(),
    {
        self.log.len() == self.blocks.len()
    }

    /// The outcomes recorded so far.
    pub fn log(&self) -> (r: &Vec<ImportRecord>)
        ensures
            r@ == self.records(),
    {
        &self.log
    }
}

/// Once a round is done, its records name every received block, each once
/// and in the order received, whether or not earlier imports failed.
pub proof fn lemma_round_attempts_every_block(round: ImportRound)
    requires
        round.wf(),
        round.records().len() == round.pending().len(),
    ensures
        round.records().map_values(|r: ImportRecord| r.index) == round.pending().map_values(
            |b: Block| b.index,
        ),
{
    assert(round.records().map_values(|r: ImportRecord| r.index) =~= round.pending().map_values(
        |b: Block| b.index,
    ));
}

} // verus!
