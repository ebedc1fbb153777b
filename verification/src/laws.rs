//! Laws of the committed state: agreement of the two block tables, coverage
//! by the presence indices, and the writer's indifference to where a block
//! range is cut into batches.

use vstd::prelude::*;

use crate::store::{
    lemma_apply_generated_split, lemma_apply_spent_split, lemma_txo_map_absent,
    lemma_txo_map_index, spec_apply_batch_txos, spec_apply_generated, spec_apply_spent,
    spec_gen_step, spec_spent_step, Store, StoreError,
};
use crate::api::{spec_balance_at, spec_recent_balance, spec_script_outpoints, spec_script_states, spec_states_balance_at, spec_states_recent};
use crate::batch::{spec_blocks_generated, spec_blocks_spent, spec_tx_generated, spec_tx_spent, spec_txs_generated, spec_txs_spent};
use crate::block::{Block, Transaction, TxInput};
use crate::types::{BlockHeight, OutPoint, ScriptHash, TXOGenerated, TXOSpent, TXOState};

verus! {

/// Law: for every committed height the two block tables agree — the height
/// table's entry appears in the hash table, and every hash-table entry points
/// back at its height.
pub proof fn lemma_block_tables_agree(s: &Store)
    requires
        s.wf(),
    ensures
        forall|h: int|
            0 <= h < s.height_to_hash@.len() ==> s.hash_to_height@.contains(
                (s.height_to_hash@[h], h as BlockHeight),
            ),
        forall|i: int|
            0 <= i < s.hash_to_height@.len() ==> (#[trigger] s.hash_to_height@[i]).1 < s.height_to_hash@.len()
                && s.height_to_hash@[s.hash_to_height@[i].1 as int] == s.hash_to_height@[i].0,
{
    assert forall|h: int| 0 <= h < s.height_to_hash@.len() implies s.hash_to_height@.contains(
        (s.height_to_hash@[h], h as BlockHeight),
    ) by {
        assert(s.hash_to_height@[h] == (s.height_to_hash@[h], h as BlockHeight));
    }
    assert forall|i: int| 0 <= i < s.hash_to_height@.len() implies (
    #[trigger] s.hash_to_height@[i]).1 < s.height_to_hash@.len() && s.height_to_hash@[s.hash_to_height@[i].1 as int]
        == s.hash_to_height@[i].0 by {
        assert(s.hash_to_height@[i] == (s.height_to_hash@[i], i as BlockHeight));
        assert((i as BlockHeight) as int == i);
    }
}

/// Law: every output in the state table is covered by the presence indices —
/// its script key, its generation key, and, once spent, its spend key.
pub proof fn lemma_presence_indices_cover(s: &Store, outpoint: OutPoint)
    requires
        s.wf(),
        s.txo_map().dom().contains(outpoint),
    ensures
        s.script_index@.contains((s.txo_map()[outpoint].locker_script_hash, outpoint)),
        s.generated_index@.contains((s.txo_map()[outpoint].generated_height, outpoint)),
        match s.txo_map()[outpoint].spent_height {
            Some(sp) => s.spent_index@.contains((sp, outpoint)),
            None => true,
        },
{
    if forall|i: int| 0 <= i < s.txos@.len() ==> (#[trigger] s.txos@[i]).0 != outpoint {
        lemma_txo_map_absent(s.txos@, outpoint);
    }
    let i = choose|i: int| 0 <= i < s.txos@.len() && (#[trigger] s.txos@[i]).0 == outpoint;
    lemma_txo_map_index(s.txos@, i);
}

/// A pair present in the per-script index puts its outpoint into the scan of
/// its script.
proof fn lemma_script_outpoints_contains(
    index: Seq<(ScriptHash, OutPoint)>,
    script: ScriptHash,
    outpoint: OutPoint,
)
    requires
        index.contains((script, outpoint)),
    ensures
        spec_script_outpoints(index, script).contains(outpoint),
    decreases index.len(),
{
    let i = choose|i: int| 0 <= i < index.len() && index[i] == (script, outpoint);
    if i == index.len() - 1 {
        let rest = spec_script_outpoints(index.drop_last(), script);
        assert(spec_script_outpoints(index, script) == rest.push(outpoint));
        assert(rest.push(outpoint)[rest.len() as int] == outpoint);
    } else {
        assert(index.drop_last()[i] == (script, outpoint));
        assert(index.drop_last().contains((script, outpoint)));
        lemma_script_outpoints_contains(index.drop_last(), script, outpoint);
        let rest = spec_script_outpoints(index.drop_last(), script);
        let j = choose|j: int| 0 <= j < rest.len() && rest[j] == outpoint;
        if index.last().0 == script {
            assert(rest.push(index.last().1)[j] == outpoint);
        }
    }
}

/// Law: the per-script index scan misses nothing — every output the table
/// holds under a script appears among the outpoints scanned for that script.
pub proof fn lemma_script_scan_complete(s: &Store, script: ScriptHash, outpoint: OutPoint)
    requires
        s.wf(),
        s.txo_map().dom().contains(outpoint),
        s.txo_map()[outpoint].locker_script_hash == script,
    ensures
        spec_script_outpoints(s.script_index@, script).contains(outpoint),
{
    lemma_presence_indices_cover(s, outpoint);
    lemma_script_outpoints_contains(s.script_index@, script, outpoint);
}

/// Law: beyond the tip the balance no longer moves — at any height at or
/// above the committed tip, a script's balance is its recent balance, the Σ
/// of its unspent outputs.
pub proof fn lemma_recent_is_balance_beyond_tip(s: &Store, script: ScriptHash, h: int)
    requires
        s.wf(),
        h >= s.height_to_hash@.len(),
    ensures
        spec_recent_balance(s.txos@, script) == spec_balance_at(s.txos@, script, h),
{
    lemma_filtered_recent_eq_balance(s.txos@, script, h);
}

proof fn lemma_filtered_recent_eq_balance(rows: Seq<(OutPoint, TXOState)>, script: ScriptHash, h: int)
    requires
        forall|i: int| 0 <= i < rows.len() ==> (#[trigger] rows[i]).1.generated_height <= h,
        forall|i: int|
            0 <= i < rows.len() ==> match (#[trigger] rows[i]).1.spent_height {
                Some(sp) => sp <= h,
                None => true,
            },
    ensures
        spec_states_recent(spec_script_states(rows, script)) == spec_states_balance_at(
            spec_script_states(rows, script),
            h,
        ),
    decreases rows.len(),
{
    if rows.len() > 0 {
        lemma_filtered_recent_eq_balance(rows.drop_last(), script, h);
        let st = rows.last().1;
        assert(st == rows[rows.len() - 1].1);
        if st.locker_script_hash == script {
            let rest = spec_script_states(rows.drop_last(), script);
            assert(rest.push(st).drop_last() =~= rest);
            assert(rest.push(st).last() == st);
            assert(st.active_at(h) == (st.spent_height is None));
        }
    }
}

/// A successful fold of spends has every prefix successful.
proof fn lemma_spent_prefix_ok(
    m: Result<Map<OutPoint, TXOState>, StoreError>,
    entries: Seq<(OutPoint, TXOSpent)>,
)
    requires
        entries.len() > 0,
        spec_apply_spent(m, entries) is Ok,
    ensures
        spec_apply_spent(m, entries.drop_last()) is Ok,
{
}

/// One generation commutes with a fold of spends that never touch its
/// outpoint, as long as the generation-first order succeeds.
proof fn lemma_gen_step_commutes_spent_fold(
    m: Result<Map<OutPoint, TXOState>, StoreError>,
    e: (OutPoint, TXOGenerated),
    spents: Seq<(OutPoint, TXOSpent)>,
)
    requires
        forall|i: int| 0 <= i < spents.len() ==> (#[trigger] spents[i]).0 != e.0,
        spec_apply_spent(spec_gen_step(m, e), spents) is Ok,
    ensures
        spec_apply_spent(spec_gen_step(m, e), spents) == spec_gen_step(
            spec_apply_spent(m, spents),
            e,
        ),
    decreases spents.len(),
{
    if spents.len() == 0 {
    } else {
        let pre = spents.drop_last();
        let f = spents.last();
        lemma_spent_prefix_ok(spec_gen_step(m, e), spents);
        lemma_gen_step_commutes_spent_fold(m, e, pre);
        // Both folds stand at Ok maps differing only at e.0; one single-step
        // commutation closes the case.
        let x = spec_apply_spent(m, pre);
        assert(spec_apply_spent(spec_gen_step(m, e), pre) == spec_gen_step(x, e));
        assert(spec_spent_step(spec_gen_step(x, e), f) is Ok);
        match x {
            Err(_) => {},
            Ok(mm) => {
                match spec_gen_step(x, e) {
                    Err(_) => {},
                    Ok(mm2) => {
                        // mm2 == mm.insert(e.0, stG); the spend reads f.0 != e.0
                        assert(f.0 != e.0);
                        match spec_spent_step(x, f) {
                            Err(err) => {
                                assert(!mm2.dom().contains(f.0) == !mm.dom().contains(f.0));
                            },
                            Ok(_) => {},
                        }
                        match (spec_spent_step(spec_gen_step(x, e), f), spec_gen_step(
                            spec_spent_step(x, f),
                            e,
                        )) {
                            (Ok(a), Ok(b)) => {
                                assert(a =~= b);
                            },
                            _ => {},
                        }
                    },
                }
            },
        }
    }
}

/// A fold of generations commutes with a fold of spends when they share no
/// outpoint, as long as the generations-first order succeeds.
proof fn lemma_spent_fold_commutes_gen_fold(
    m: Result<Map<OutPoint, TXOState>, StoreError>,
    gens: Seq<(OutPoint, TXOGenerated)>,
    spents: Seq<(OutPoint, TXOSpent)>,
)
    requires
        forall|i: int, j: int|
            0 <= i < spents.len() && 0 <= j < gens.len() ==> (#[trigger] spents[i]).0 != (
            #[trigger] gens[j]).0,
        spec_apply_spent(spec_apply_generated(m, gens), spents) is Ok,
    ensures
        spec_apply_spent(spec_apply_generated(m, gens), spents) == spec_apply_generated(
            spec_apply_spent(m, spents),
            gens,
        ),
    decreases gens.len(),
{
    if gens.len() == 0 {
    } else {
        let pre = gens.drop_last();
        let e = gens.last();
        assert(spec_apply_generated(m, gens) == spec_gen_step(spec_apply_generated(m, pre), e));
        lemma_gen_step_commutes_spent_fold(spec_apply_generated(m, pre), e, spents);
        assert(spec_apply_spent(spec_apply_generated(m, pre), spents) is Ok) by {
            if spec_apply_spent(spec_apply_generated(m, pre), spents) is Err {
                let err = spec_apply_spent(spec_apply_generated(m, pre), spents)->Err_0;
                lemma_gen_step_of_err_or_ok(spec_apply_generated(m, pre), e, spents);
            }
        }
        lemma_spent_fold_commutes_gen_fold(m, pre, spents);
    }
}

/// If the generation-first order succeeds, the inner spend fold succeeded
/// too: a failed fold stays failed under one more leading generation.
proof fn lemma_gen_step_of_err_or_ok(
    m: Result<Map<OutPoint, TXOState>, StoreError>,
    e: (OutPoint, TXOGenerated),
    spents: Seq<(OutPoint, TXOSpent)>,
)
    requires
        spec_apply_spent(spec_gen_step(m, e), spents) is Ok,
        forall|i: int| 0 <= i < spents.len() ==> (#[trigger] spents[i]).0 != e.0,
    ensures
        spec_apply_spent(m, spents) is Ok || spec_gen_step(spec_apply_spent(m, spents), e) is Err,
{
    lemma_gen_step_commutes_spent_fold(m, e, spents);
}

/// Law: cutting one run of operands into two contiguous batches does not
/// change the resulting output-state table. The cut respects block order:
/// every generation of the second half sits at or above `mid`, every spend of
/// the first half below it, and no spend precedes the generation of the same
/// output.
pub proof fn lemma_replay_in_halves(
    m0: Map<OutPoint, TXOState>,
    g1: Seq<(OutPoint, TXOGenerated)>,
    g2: Seq<(OutPoint, TXOGenerated)>,
    s1: Seq<(OutPoint, TXOSpent)>,
    s2: Seq<(OutPoint, TXOSpent)>,
    mid: int,
)
    requires
        forall|j: int| 0 <= j < g2.len() ==> (#[trigger] g2[j]).1.generated_height >= mid,
        forall|i: int| 0 <= i < s1.len() ==> (#[trigger] s1[i]).1.spent_height < mid,
        forall|i: int, j: int|
            0 <= i < s1.len() && 0 <= j < g2.len() && (#[trigger] s1[i]).0 == (#[trigger] g2[j]).0
                ==> g2[j].1.generated_height <= s1[i].1.spent_height,
        spec_apply_batch_txos(m0, g1 + g2, s1 + s2) is Ok,
    ensures
        spec_apply_batch_txos(m0, g1, s1) is Ok,
        spec_apply_batch_txos(m0, g1 + g2, s1 + s2) == spec_apply_batch_txos(
            spec_apply_batch_txos(m0, g1, s1)->Ok_0,
            g2,
            s2,
        ),
{
    let g = g1 + g2;
    let s = s1 + s2;
    lemma_apply_generated_split(Ok(m0), g, g1.len() as int);
    assert(g.subrange(0, g1.len() as int) =~= g1);
    assert(g.subrange(g1.len() as int, g.len() as int) =~= g2);
    let mg1 = spec_apply_generated(Ok(m0), g1);
    assert(spec_apply_generated(Ok(m0), g) == spec_apply_generated(mg1, g2));
    lemma_apply_spent_split(spec_apply_generated(mg1, g2), s, s1.len() as int);
    assert(s.subrange(0, s1.len() as int) =~= s1);
    assert(s.subrange(s1.len() as int, s.len() as int) =~= s2);
    // The whole run: spends of the first half slide before the generations
    // of the second half; they share no outpoint.
    assert forall|i: int, j: int|
        0 <= i < s1.len() && 0 <= j < g2.len() implies (#[trigger] s1[i]).0 != (
    #[trigger] g2[j]).0 by {
        if s1[i].0 == g2[j].0 {
            assert(g2[j].1.generated_height <= s1[i].1.spent_height);
        }
    }
    assert(spec_apply_spent(spec_apply_generated(mg1, g2), s1) is Ok) by {
        lemma_apply_spent_prefix_of_ok(spec_apply_generated(mg1, g2), s, s1.len() as int);
    }
    lemma_spent_fold_commutes_gen_fold(mg1, g2, s1);
    assert(spec_apply_spent(spec_apply_generated(mg1, g2), s1) == spec_apply_generated(
        spec_apply_spent(mg1, s1),
        g2,
    ));
    assert(spec_apply_batch_txos(m0, g1 + g2, s1 + s2) == spec_apply_spent(
        spec_apply_generated(spec_apply_spent(mg1, s1), g2),
        s2,
    ));
    // The first half's own result is the Ok the second half starts from.
    assert(spec_apply_batch_txos(m0, g1, s1) == spec_apply_spent(mg1, s1));
    assert(spec_apply_spent(mg1, s1) is Ok) by {
        if spec_apply_spent(mg1, s1) is Err {
            let err = spec_apply_spent(mg1, s1)->Err_0;
            crate::store::lemma_apply_generated_err(err, g2);
            crate::store::lemma_apply_spent_err(err, s2);
        }
    }
}

/// The generated entries of a block run split at any block boundary.
pub proof fn lemma_blocks_generated_split(blocks: Seq<Block>, start: BlockHeight, k: int)
    requires
        0 <= k <= blocks.len(),
        start + blocks.len() <= u32::MAX,
    ensures
        spec_blocks_generated(blocks, start) == spec_blocks_generated(blocks.subrange(0, k), start)
            + spec_blocks_generated(
            blocks.subrange(k, blocks.len() as int),
            (start + k) as BlockHeight,
        ),
    decreases blocks.len() - k,
{
    if k == blocks.len() {
        assert(blocks.subrange(0, k) =~= blocks);
        assert(spec_blocks_generated(blocks.subrange(k, blocks.len() as int), (start + k) as BlockHeight)
            =~= Seq::<(OutPoint, TXOGenerated)>::empty());
        assert(spec_blocks_generated(blocks, start) =~= spec_blocks_generated(blocks, start)
            + Seq::<(OutPoint, TXOGenerated)>::empty());
    } else {
        let pre = blocks.drop_last();
        lemma_blocks_generated_split(pre, start, k);
        assert(blocks.subrange(0, k) =~= pre.subrange(0, k));
        let tail = blocks.subrange(k, blocks.len() as int);
        assert(tail.drop_last() =~= pre.subrange(k, pre.len() as int));
        assert(tail.last() == blocks.last());
        assert(tail.len() > 0);
        assert(spec_blocks_generated(tail, (start + k) as BlockHeight) == spec_blocks_generated(
            tail.drop_last(),
            (start + k) as BlockHeight,
        ) + spec_txs_generated(
            blocks.last().txdata@,
            (start + blocks.len() - 1) as BlockHeight,
        ));
        assert(spec_blocks_generated(blocks, start) =~= spec_blocks_generated(
            blocks.subrange(0, k),
            start,
        ) + spec_blocks_generated(tail, (start + k) as BlockHeight));
    }
}

/// The spent entries of a block run split at any block boundary.
pub proof fn lemma_blocks_spent_split(blocks: Seq<Block>, start: BlockHeight, k: int)
    requires
        0 <= k <= blocks.len(),
        start + blocks.len() <= u32::MAX,
    ensures
        spec_blocks_spent(blocks, start) == spec_blocks_spent(blocks.subrange(0, k), start)
            + spec_blocks_spent(
            blocks.subrange(k, blocks.len() as int),
            (start + k) as BlockHeight,
        ),
    decreases blocks.len() - k,
{
    if k == blocks.len() {
        assert(blocks.subrange(0, k) =~= blocks);
        assert(spec_blocks_spent(blocks.subrange(k, blocks.len() as int), (start + k) as BlockHeight)
            =~= Seq::<(OutPoint, TXOSpent)>::empty());
        assert(spec_blocks_spent(blocks, start) =~= spec_blocks_spent(blocks, start)
            + Seq::<(OutPoint, TXOSpent)>::empty());
    } else {
        let pre = blocks.drop_last();
        lemma_blocks_spent_split(pre, start, k);
        assert(blocks.subrange(0, k) =~= pre.subrange(0, k));
        let tail = blocks.subrange(k, blocks.len() as int);
        assert(tail.drop_last() =~= pre.subrange(k, pre.len() as int));
        assert(tail.last() == blocks.last());
        assert(tail.len() > 0);
        assert(spec_blocks_spent(tail, (start + k) as BlockHeight) == spec_blocks_spent(
            tail.drop_last(),
            (start + k) as BlockHeight,
        ) + spec_txs_spent(blocks.last().txdata@, (start + blocks.len() - 1) as BlockHeight));
        assert(spec_blocks_spent(blocks, start) =~= spec_blocks_spent(blocks.subrange(0, k), start)
            + spec_blocks_spent(tail, (start + k) as BlockHeight));
    }
}

/// Every generated entry of a block run carries a height inside the run.
proof fn lemma_blocks_generated_heights(blocks: Seq<Block>, start: BlockHeight)
    requires
        start + blocks.len() <= u32::MAX,
    ensures
        forall|k: int|
            0 <= k < spec_blocks_generated(blocks, start).len() ==> start <= (
            #[trigger] spec_blocks_generated(blocks, start)[k]).1.generated_height < start
                + blocks.len(),
    decreases blocks.len(),
{
    if blocks.len() > 0 {
        lemma_blocks_generated_heights(blocks.drop_last(), start);
        let h = (start + blocks.len() - 1) as BlockHeight;
        lemma_txs_generated_heights(blocks.last().txdata@, h);
        let rec = spec_blocks_generated(blocks.drop_last(), start);
        let tail = spec_txs_generated(blocks.last().txdata@, h);
        let whole = spec_blocks_generated(blocks, start);
        assert forall|k: int| 0 <= k < whole.len() implies start <= (
        #[trigger] whole[k]).1.generated_height < start + blocks.len() by {
            if k < rec.len() {
                assert(whole[k] == rec[k]);
            } else {
                assert(whole[k] == tail[k - rec.len()]);
            }
        }
    }
}

proof fn lemma_txs_generated_heights(txs: Seq<Transaction>, h: BlockHeight)
    ensures
        forall|k: int|
            0 <= k < spec_txs_generated(txs, h).len() ==> (#[trigger] spec_txs_generated(
                txs,
                h,
            )[k]).1.generated_height == h,
    decreases txs.len(),
{
    if txs.len() > 0 {
        lemma_txs_generated_heights(txs.drop_last(), h);
        let rec = spec_txs_generated(txs.drop_last(), h);
        let tail = spec_tx_generated(txs.last().txid, txs.last().vout@, h);
        let whole = spec_txs_generated(txs, h);
        assert forall|k: int| 0 <= k < whole.len() implies (
        #[trigger] whole[k]).1.generated_height == h by {
            if k < rec.len() {
                assert(whole[k] == rec[k]);
            } else {
                assert(whole[k] == tail[k - rec.len()]);
            }
        }
    }
}

/// Every spent entry of a block run carries a height inside the run.
proof fn lemma_blocks_spent_heights(blocks: Seq<Block>, start: BlockHeight)
    requires
        start + blocks.len() <= u32::MAX,
    ensures
        forall|k: int|
            0 <= k < spec_blocks_spent(blocks, start).len() ==> start <= (
            #[trigger] spec_blocks_spent(blocks, start)[k]).1.spent_height < start + blocks.len(),
    decreases blocks.len(),
{
    if blocks.len() > 0 {
        lemma_blocks_spent_heights(blocks.drop_last(), start);
        let h = (start + blocks.len() - 1) as BlockHeight;
        lemma_txs_spent_heights(blocks.last().txdata@, h);
        let rec = spec_blocks_spent(blocks.drop_last(), start);
        let tail = spec_txs_spent(blocks.last().txdata@, h);
        let whole = spec_blocks_spent(blocks, start);
        assert forall|k: int| 0 <= k < whole.len() implies start <= (
        #[trigger] whole[k]).1.spent_height < start + blocks.len() by {
            if k < rec.len() {
                assert(whole[k] == rec[k]);
            } else {
                assert(whole[k] == tail[k - rec.len()]);
            }
        }
    }
}

proof fn lemma_txs_spent_heights(txs: Seq<Transaction>, h: BlockHeight)
    ensures
        forall|k: int|
            0 <= k < spec_txs_spent(txs, h).len() ==> (#[trigger] spec_txs_spent(
                txs,
                h,
            )[k]).1.spent_height == h,
    decreases txs.len(),
{
    if txs.len() > 0 {
        lemma_txs_spent_heights(txs.drop_last(), h);
        lemma_tx_spent_heights(txs.last().vin@, h);
        let rec = spec_txs_spent(txs.drop_last(), h);
        let tail = spec_tx_spent(txs.last().vin@, h);
        let whole = spec_txs_spent(txs, h);
        assert forall|k: int| 0 <= k < whole.len() implies (
        #[trigger] whole[k]).1.spent_height == h by {
            if k < rec.len() {
                assert(whole[k] == rec[k]);
            } else {
                assert(whole[k] == tail[k - rec.len()]);
            }
        }
    }
}

proof fn lemma_tx_spent_heights(ins: Seq<TxInput>, h: BlockHeight)
    ensures
        forall|k: int|
            0 <= k < spec_tx_spent(ins, h).len() ==> (#[trigger] spec_tx_spent(
                ins,
                h,
            )[k]).1.spent_height == h,
    decreases ins.len(),
{
    if ins.len() > 0 {
        lemma_tx_spent_heights(ins.drop_last(), h);
        let rec = spec_tx_spent(ins.drop_last(), h);
        let whole = spec_tx_spent(ins, h);
        assert forall|k: int| 0 <= k < whole.len() implies (
        #[trigger] whole[k]).1.spent_height == h by {
            if k < rec.len() {
                assert(whole[k] == rec[k]);
            } else {
                match ins.last() {
                    TxInput::Coinbase => {},
                    TxInput::Normal { txid, vout } => {
                        assert(whole[k] == (OutPoint { txid, vout }, TXOSpent { spent_height: h }));
                    },
                }
            }
        }
    }
}

/// Law: one run of blocks applied as a single batch, or cut at any block
/// boundary into two contiguous batches, commits the same output-state
/// table — as long as no spend in the run precedes the generation of the
/// same output, which a consensus-valid chain guarantees.
pub proof fn lemma_block_range_replay(
    m0: Map<OutPoint, TXOState>,
    blocks: Seq<Block>,
    start: BlockHeight,
    k: int,
)
    requires
        0 <= k <= blocks.len(),
        start + blocks.len() <= u32::MAX,
        forall|i: int, j: int|
            0 <= i < spec_blocks_spent(blocks, start).len() && 0 <= j < spec_blocks_generated(
                blocks,
                start,
            ).len() && (#[trigger] spec_blocks_spent(blocks, start)[i]).0 == (
            #[trigger] spec_blocks_generated(blocks, start)[j]).0 ==> spec_blocks_generated(
                blocks,
                start,
            )[j].1.generated_height <= spec_blocks_spent(blocks, start)[i].1.spent_height,
        spec_apply_batch_txos(
            m0,
            spec_blocks_generated(blocks, start),
            spec_blocks_spent(blocks, start),
        ) is Ok,
    ensures
        ({
            let first = spec_apply_batch_txos(
                m0,
                spec_blocks_generated(blocks.subrange(0, k), start),
                spec_blocks_spent(blocks.subrange(0, k), start),
            );
            let rest_start = (start + k) as BlockHeight;
            let rest = blocks.subrange(k, blocks.len() as int);
            first is Ok && spec_apply_batch_txos(
                m0,
                spec_blocks_generated(blocks, start),
                spec_blocks_spent(blocks, start),
            ) == spec_apply_batch_txos(
                first->Ok_0,
                spec_blocks_generated(rest, rest_start),
                spec_blocks_spent(rest, rest_start),
            )
        }),
{
    let rest_start = (start + k) as BlockHeight;
    let first_blocks = blocks.subrange(0, k);
    let rest = blocks.subrange(k, blocks.len() as int);
    let g1 = spec_blocks_generated(first_blocks, start);
    let g2 = spec_blocks_generated(rest, rest_start);
    let s1 = spec_blocks_spent(first_blocks, start);
    let s2 = spec_blocks_spent(rest, rest_start);
    lemma_blocks_generated_split(blocks, start, k);
    lemma_blocks_spent_split(blocks, start, k);
    lemma_blocks_generated_heights(rest, rest_start);
    lemma_blocks_spent_heights(first_blocks, start);
    assert forall|i: int, j: int|
        0 <= i < s1.len() && 0 <= j < g2.len() && (#[trigger] s1[i]).0 == (#[trigger] g2[j]).0
            implies g2[j].1.generated_height <= s1[i].1.spent_height by {
        assert(spec_blocks_spent(blocks, start)[i] == s1[i]);
        assert(spec_blocks_generated(blocks, start)[g1.len() + j] == g2[j]);
    }
    lemma_replay_in_halves(m0, g1, g2, s1, s2, rest_start as int);
}

/// A successful fold of spends has every prefix-fold successful.
proof fn lemma_apply_spent_prefix_of_ok(
    m: Result<Map<OutPoint, TXOState>, StoreError>,
    entries: Seq<(OutPoint, TXOSpent)>,
    i: int,
)
    requires
        0 <= i <= entries.len(),
        spec_apply_spent(m, entries) is Ok,
    ensures
        spec_apply_spent(m, entries.subrange(0, i)) is Ok,
{
    lemma_apply_spent_split(m, entries, i);
    if spec_apply_spent(m, entries.subrange(0, i)) is Err {
        let err = spec_apply_spent(m, entries.subrange(0, i))->Err_0;
        crate::store::lemma_apply_spent_err(err, entries.subrange(i, entries.len() as int));
    }
}

} // verus!
