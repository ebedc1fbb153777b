//! An in-memory delta built from a contiguous run of blocks: the block
//! hashes, the outputs the run generated, and the outputs it spent.

use vstd::prelude::*;

use crate::block::{hash160_of, script_hash160, Block, Transaction, TxInput, TxOutput};
use crate::types::{BlockHash, BlockHeight, OutPoint, ScriptHash, TransactionID, TXOGenerated, TXOSpent};

verus! {

/// The "generated" entries of one transaction at height `h`: one per output,
/// keyed by the txid and the output index, carrying the locking script's
/// hash160 and the output's value.
pub open spec fn spec_tx_generated(txid: TransactionID, outs: Seq<TxOutput>, h: BlockHeight) -> Seq<(OutPoint, TXOGenerated)> {
    Seq::new(
        outs.len(),
        |i: int|
            (
                OutPoint { txid, vout: i as u32 },
                TXOGenerated {
                    locker_script_hash: ScriptHash { bytes: hash160_of(outs[i].script_pubkey.bytes@) },
                    value: outs[i].value,
                    generated_height: h,
                },
            ),
    )
}

/// The "spent" entries of one transaction at height `h`: one per non-coinbase
/// input, keyed by the outpoint the input spends.
pub open spec fn spec_tx_spent(ins: Seq<TxInput>, h: BlockHeight) -> Seq<(OutPoint, TXOSpent)>
    decreases ins.len(),
{
    if ins.len() == 0 {
        Seq::empty()
    } else {
        spec_tx_spent(ins.drop_last(), h) + match ins.last() {
            TxInput::Coinbase => Seq::empty(),
            TxInput::Normal { txid, vout } => seq![
                (OutPoint { txid, vout }, TXOSpent { spent_height: h }),
            ],
        }
    }
}

/// All "generated" entries of a run of transactions, in order.
pub open spec fn spec_txs_generated(txs: Seq<Transaction>, h: BlockHeight) -> Seq<(OutPoint, TXOGenerated)>
    decreases txs.len(),
{
    if txs.len() == 0 {
        Seq::empty()
    } else {
        spec_txs_generated(txs.drop_last(), h) + spec_tx_generated(
            txs.last().txid,
            txs.last().vout@,
            h,
        )
    }
}

/// All "spent" entries of a run of transactions, in order.
pub open spec fn spec_txs_spent(txs: Seq<Transaction>, h: BlockHeight) -> Seq<(OutPoint, TXOSpent)>
    decreases txs.len(),
{
    if txs.len() == 0 {
        Seq::empty()
    } else {
        spec_txs_spent(txs.drop_last(), h) + spec_tx_spent(txs.last().vin@, h)
    }
}

/// All "generated" entries of a run of blocks starting at `start`, in block
/// order.
pub open spec fn spec_blocks_generated(blocks: Seq<Block>, start: BlockHeight) -> Seq<(OutPoint, TXOGenerated)>
    decreases blocks.len(),
{
    if blocks.len() == 0 {
        Seq::empty()
    } else {
        spec_blocks_generated(blocks.drop_last(), start) + spec_txs_generated(
            blocks.last().txdata@,
            (start + blocks.len() - 1) as BlockHeight,
        )
    }
}

/// All "spent" entries of a run of blocks starting at `start`, in block
/// order.
pub open spec fn spec_blocks_spent(blocks: Seq<Block>, start: BlockHeight) -> Seq<(OutPoint, TXOSpent)>
    decreases blocks.len(),
{
    if blocks.len() == 0 {
        Seq::empty()
    } else {
        spec_blocks_spent(blocks.drop_last(), start) + spec_txs_spent(
            blocks.last().txdata@,
            (start + blocks.len() - 1) as BlockHeight,
        )
    }
}

/// The delta of one contiguous run of blocks, starting at `start_height`.
/// `end_height` is one past the last block of the run.
pub struct Batch {
    pub start_height: BlockHeight,
    pub end_height: BlockHeight,
    pub blocks: Vec<BlockHash>,
    pub generated_txos: Vec<(OutPoint, TXOGenerated)>,
    pub spent_txos: Vec<(OutPoint, TXOSpent)>,
}

impl Batch {
    /// Shape of a delta cut from blocks `start_height .. end_height`:
    /// every recorded height falls inside the run, and generated entries
    /// appear in height order (outputs are scanned block by block).
    pub open spec fn wf(&self) -> bool {
        &&& self.end_height == self.start_height + self.blocks@.len()
        &&& forall|i: int|
            0 <= i < self.generated_txos@.len() ==> self.start_height <= (
            #[trigger] self.generated_txos@[i]).1.generated_height < self.end_height
        &&& forall|i: int|
            0 <= i < self.spent_txos@.len() ==> self.start_height <= (
            #[trigger] self.spent_txos@[i]).1.spent_height < self.end_height
        &&& forall|i: int, j: int|
            0 <= i < j < self.generated_txos@.len() ==> (#[trigger] self.generated_txos@[i]).1.generated_height
                <= (#[trigger] self.generated_txos@[j]).1.generated_height
    }

    /// A spend in the run never precedes the generation of the same output
    /// inside the run. This is what a consensus-valid chain guarantees; the
    /// indexer does not re-validate it.
    pub open spec fn spends_follow_generations(&self) -> bool {
        forall|i: int, j: int|
            0 <= i < self.spent_txos@.len() && 0 <= j < self.generated_txos@.len() && (
            #[trigger] self.spent_txos@[i]).0 == (#[trigger] self.generated_txos@[j]).0
                ==> self.generated_txos@[j].1.generated_height <= self.spent_txos@[i].1.spent_height
    }

    /// Every transaction's output count fits the output-index type.
    pub open spec fn blocks_vouts_bounded(blocks: Seq<Block>) -> bool {
        forall|i: int, j: int|
            0 <= i < blocks.len() && 0 <= j < blocks[i].txdata@.len() ==> (
            #[trigger] blocks[i].txdata@[j]).vout@.len() <= 0xffff_ffffu32
    }

    /// Group a contiguous run of blocks into one delta: for every block, in
    /// order, a spent entry per non-coinbase input at the block's height and
    /// a generated entry per output, keyed by txid and output index, carrying
    /// the locking script's hash.
    #[verifier::loop_isolation(false)]
    pub fn build(start_height: BlockHeight, blocks: Vec<Block>) -> (r: Batch)
        requires
            start_height + blocks@.len() <= u32::MAX,
            Batch::blocks_vouts_bounded(blocks@),
        ensures
            r.start_height == start_height,
            r.end_height == start_height + blocks@.len(),
            r.blocks@ == blocks@.map_values((|b: Block| b.hash)),
            r.generated_txos@ == spec_blocks_generated(blocks@, start_height),
            r.spent_txos@ == spec_blocks_spent(blocks@, start_height),
            r.wf(),
    {
        let n = blocks.len();
        let mut batch = Batch {
            start_height,
            end_height: start_height + (n as u32),
            blocks: Vec::new(),
            generated_txos: Vec::new(),
            spent_txos: Vec::new(),
        };
        let mut i: usize = 0;
        while i < n
            invariant
                0 <= i <= n,
                batch.start_height == start_height,
                batch.end_height == start_height + n,
                batch.blocks@ == blocks@.subrange(0, i as int).map_values((|b: Block| b.hash)),
                batch.generated_txos@ == spec_blocks_generated(
                    blocks@.subrange(0, i as int),
                    start_height,
                ),
                batch.spent_txos@ == spec_blocks_spent(blocks@.subrange(0, i as int), start_height),
                forall|k: int|
                    0 <= k < batch.generated_txos@.len() ==> start_height <= (
                    #[trigger] batch.generated_txos@[k]).1.generated_height < start_height + i,
                forall|k: int|
                    0 <= k < batch.spent_txos@.len() ==> start_height <= (
                    #[trigger] batch.spent_txos@[k]).1.spent_height < start_height + i,
                forall|k: int, l: int|
                    0 <= k < l < batch.generated_txos@.len() ==> (
                    #[trigger] batch.generated_txos@[k]).1.generated_height <= (
                    #[trigger] batch.generated_txos@[l]).1.generated_height,
            decreases n - i,
        {
            let height = start_height + (i as u32);
            batch.scan_block(height, &blocks[i]);
            proof {
                let sub = blocks@.subrange(0, i + 1);
                assert(sub.drop_last() =~= blocks@.subrange(0, i as int));
                assert(sub.last() == blocks@[i as int]);
                assert(batch.blocks@ =~= sub.map_values((|b: Block| b.hash)));
            }
            i = i + 1;
        }
        proof {
            assert(blocks@.subrange(0, n as int) =~= blocks@);
        }
        batch
    }

    /// Scan one block at `height`: its transactions' deltas, then its hash.
    fn scan_block(&mut self, height: BlockHeight, block: &Block)
        requires
            forall|j: int|
                0 <= j < block.txdata@.len() ==> (#[trigger] block.txdata@[j]).vout@.len()
                    <= 0xffff_ffffu32,
        ensures
            final(self).start_height == old(self).start_height,
            final(self).end_height == old(self).end_height,
            final(self).blocks@ == old(self).blocks@.push(block.hash),
            final(self).generated_txos@ == old(self).generated_txos@ + spec_txs_generated(
                block.txdata@,
                height,
            ),
            final(self).spent_txos@ == old(self).spent_txos@ + spec_txs_spent(
                block.txdata@,
                height,
            ),
            forall|k: int|
                old(self).generated_txos@.len() <= k < final(self).generated_txos@.len() ==> (
                #[trigger] final(self).generated_txos@[k]).1.generated_height == height,
            forall|k: int|
                old(self).spent_txos@.len() <= k < final(self).spent_txos@.len() ==> (
                #[trigger] final(self).spent_txos@[k]).1.spent_height == height,
    {
        self.scan_transactions(height, block);
        self.blocks.push(block.hash);
    }

    /// Scan the transactions of one block: spends of non-coinbase inputs,
    /// then one generated entry per output.
    #[verifier::loop_isolation(false)]
    fn scan_transactions(&mut self, height: BlockHeight, block: &Block)
        requires
            forall|j: int|
                0 <= j < block.txdata@.len() ==> (#[trigger] block.txdata@[j]).vout@.len()
                    <= 0xffff_ffffu32,
        ensures
            final(self).start_height == old(self).start_height,
            final(self).end_height == old(self).end_height,
            final(self).blocks@ == old(self).blocks@,
            final(self).generated_txos@ == old(self).generated_txos@ + spec_txs_generated(
                block.txdata@,
                height,
            ),
            final(self).spent_txos@ == old(self).spent_txos@ + spec_txs_spent(
                block.txdata@,
                height,
            ),
            forall|k: int|
                old(self).generated_txos@.len() <= k < final(self).generated_txos@.len() ==> (
                #[trigger] final(self).generated_txos@[k]).1.generated_height == height,
            forall|k: int|
                old(self).spent_txos@.len() <= k < final(self).spent_txos@.len() ==> (
                #[trigger] final(self).spent_txos@[k]).1.spent_height == height,
    {
        let tn = block.txdata.len();
        let mut t: usize = 0;
        while t < tn
            invariant
                0 <= t <= tn,
                self.start_height == old(self).start_height,
                self.end_height == old(self).end_height,
                self.blocks@ == old(self).blocks@,
                self.generated_txos@ == old(self).generated_txos@ + spec_txs_generated(
                    block.txdata@.subrange(0, t as int),
                    height,
                ),
                self.spent_txos@ == old(self).spent_txos@ + spec_txs_spent(
                    block.txdata@.subrange(0, t as int),
                    height,
                ),
                forall|k: int|
                    old(self).generated_txos@.len() <= k < self.generated_txos@.len() ==> (
                    #[trigger] self.generated_txos@[k]).1.generated_height == height,
                forall|k: int|
                    old(self).spent_txos@.len() <= k < self.spent_txos@.len() ==> (
                    #[trigger] self.spent_txos@[k]).1.spent_height == height,
            decreases tn - t,
        {
            let ghost base_gen = self.generated_txos@;
            let ghost base_spent = self.spent_txos@;
            let tx = &block.txdata[t];

            let vn = tx.vin.len();
            let mut vi: usize = 0;
            while vi < vn
                invariant
                    0 <= vi <= vn,
                    vn == tx.vin@.len(),
                    self.start_height == old(self).start_height,
                    self.end_height == old(self).end_height,
                    self.blocks@ == old(self).blocks@,
                    self.generated_txos@ == base_gen,
                    self.spent_txos@ == base_spent + spec_tx_spent(
                        tx.vin@.subrange(0, vi as int),
                        height,
                    ),
                    forall|k: int|
                        old(self).spent_txos@.len() <= k < self.spent_txos@.len() ==> (
                        #[trigger] self.spent_txos@[k]).1.spent_height == height,
                decreases vn - vi,
            {
                proof {
                    assert(tx.vin@.subrange(0, vi + 1).drop_last() =~= tx.vin@.subrange(
                        0,
                        vi as int,
                    ));
                    assert(tx.vin@.subrange(0, vi + 1).last() == tx.vin@[vi as int]);
                }
                match tx.vin[vi] {
                    TxInput::Coinbase => {
                        proof {
                            assert(self.spent_txos@ =~= base_spent + spec_tx_spent(
                                tx.vin@.subrange(0, vi + 1),
                                height,
                            ));
                        }
                    },
                    TxInput::Normal { txid, vout } => {
                        self.spent_txos.push(
                            (OutPoint { txid, vout }, TXOSpent { spent_height: height }),
                        );
                        proof {
                            assert(self.spent_txos@ =~= base_spent + spec_tx_spent(
                                tx.vin@.subrange(0, vi + 1),
                                height,
                            ));
                        }
                    },
                }
                vi = vi + 1;
            }
            proof {
                assert(tx.vin@.subrange(0, vn as int) =~= tx.vin@);
            }

            let on = tx.vout.len();
            let mut oi: usize = 0;
            while oi < on
                invariant
                    0 <= oi <= on,
                    on == tx.vout@.len(),
                    on <= 0xffff_ffffu32,
                    self.start_height == old(self).start_height,
                    self.end_height == old(self).end_height,
                    self.blocks@ == old(self).blocks@,
                    self.spent_txos@ == base_spent + spec_tx_spent(tx.vin@, height),
                    self.generated_txos@ == base_gen + spec_tx_generated(
                        tx.txid,
                        tx.vout@.subrange(0, oi as int),
                        height,
                    ),
                    forall|k: int|
                        old(self).generated_txos@.len() <= k < self.generated_txos@.len() ==> (
                        #[trigger] self.generated_txos@[k]).1.generated_height == height,
                decreases on - oi,
            {
                let out = &tx.vout[oi];
                let locker_script_hash = script_hash160(&out.script_pubkey);
                self.generated_txos.push(
                    (
                        OutPoint { txid: tx.txid, vout: oi as u32 },
                        TXOGenerated { locker_script_hash, value: out.value, generated_height: height },
                    ),
                );
                proof {
                    assert(self.generated_txos@ =~= base_gen + spec_tx_generated(
                        tx.txid,
                        tx.vout@.subrange(0, oi + 1),
                        height,
                    ));
                }
                oi = oi + 1;
            }
            proof {
                assert(tx.vout@.subrange(0, on as int) =~= tx.vout@);
                assert(block.txdata@.subrange(0, t + 1).drop_last() =~= block.txdata@.subrange(
                    0,
                    t as int,
                ));
                assert(block.txdata@.subrange(0, t + 1).last() == block.txdata@[t as int]);
                assert(self.generated_txos@ =~= old(self).generated_txos@ + spec_txs_generated(
                    block.txdata@.subrange(0, t + 1),
                    height,
                ));
                assert(self.spent_txos@ =~= old(self).spent_txos@ + spec_txs_spent(
                    block.txdata@.subrange(0, t + 1),
                    height,
                ));
            }
            t = t + 1;
        }
        proof {
            assert(block.txdata@.subrange(0, tn as int) =~= block.txdata@);
        }
    }
}

} // verus!
