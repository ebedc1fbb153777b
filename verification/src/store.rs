//! The persistent state of the index, modelled as its six tables, and the
//! writer path: precondition check, associative merge, atomic commit.
//!
//! The tables mirror the on-disk column families. `height_to_hash` is kept
//! densely indexed by height, so its last entry is the tip; the other tables
//! are keyed association lists. `apply_batch` either applies a whole batch or
//! leaves the store untouched.

use vstd::prelude::*;

use crate::batch::Batch;
use crate::types::{BlockHash, BlockHeight, OutPoint, ScriptHash, TXOGenerated, TXOSpent, TXOState, TXOUpdate};

verus! {

broadcast use vstd::array::group_array_axioms;

/// A write was refused; the store is unchanged.
#[derive(Clone, Copy, Debug, PartialEq, Eq)]
pub enum StoreError {
    /// The batch does not start at `tip + 1` (or at 0 for an empty store).
    NonContiguousBatch { start_height: BlockHeight, tip_height: Option<BlockHeight> },
    /// A generation arrived for an already known non-coinbase output.
    DuplicateOutput { outpoint: OutPoint },
    /// A coinbase generation arrived for a known output without a strictly
    /// greater height.
    NonMonotonicCoinbase { outpoint: OutPoint },
    /// A spend arrived for an output the store has never seen.
    UnknownOutpoint { outpoint: OutPoint },
}

/// No outpoint appears twice as a key.
pub open spec fn unique_txo_keys(s: Seq<(OutPoint, TXOState)>) -> bool {
    forall|i: int, j: int| 0 <= i < j < s.len() ==> (#[trigger] s[i]).0 != (#[trigger] s[j]).0
}

/// The association list read as a map; a later entry would win, though the
/// store keeps keys unique.
pub open spec fn txo_map_of(s: Seq<(OutPoint, TXOState)>) -> Map<OutPoint, TXOState>
    decreases s.len(),
{
    if s.len() == 0 {
        Map::empty()
    } else {
        txo_map_of(s.drop_last()).insert(s.last().0, s.last().1)
    }
}

pub(crate) proof fn lemma_txo_map_index(s: Seq<(OutPoint, TXOState)>, i: int)
    requires
        unique_txo_keys(s),
        0 <= i < s.len(),
    ensures
        txo_map_of(s).dom().contains(s[i].0),
        txo_map_of(s)[s[i].0] == s[i].1,
    decreases s.len(),
{
    if i == s.len() - 1 {
    } else {
        lemma_txo_map_index(s.drop_last(), i);
        assert(s[s.len() - 1].0 != s[i].0);
    }
}

pub(crate) proof fn lemma_txo_map_absent(s: Seq<(OutPoint, TXOState)>, k: OutPoint)
    requires
        forall|i: int| 0 <= i < s.len() ==> (#[trigger] s[i]).0 != k,
    ensures
        !txo_map_of(s).dom().contains(k),
    decreases s.len(),
{
    if s.len() > 0 {
        lemma_txo_map_absent(s.drop_last(), k);
    }
}

proof fn lemma_txo_map_update(s: Seq<(OutPoint, TXOState)>, i: int, st: TXOState)
    requires
        unique_txo_keys(s),
        0 <= i < s.len(),
    ensures
        txo_map_of(s.update(i, (s[i].0, st))) == txo_map_of(s).insert(s[i].0, st),
    decreases s.len(),
{
    let t = s.update(i, (s[i].0, st));
    if i == s.len() - 1 {
        assert(t.drop_last() =~= s.drop_last());
        assert(txo_map_of(t) =~= txo_map_of(s).insert(s[i].0, st));
    } else {
        lemma_txo_map_update(s.drop_last(), i, st);
        assert(t.drop_last() =~= s.drop_last().update(i, (s[i].0, st)));
        assert(t.last() == s.last());
        assert(s.last().0 != s[i].0);
        assert(txo_map_of(t) =~= txo_map_of(s).insert(s[i].0, st));
    }
}

/// The merge rule for a "generated" operand. A later coinbase generation
/// replaces the state it collides with; anything else that collides is
/// refused.
pub open spec fn spec_merge_generated(prior: Option<TXOState>, outpoint: OutPoint, g: TXOGenerated) -> Result<TXOState, StoreError> {
    match prior {
        None => Ok(
            TXOState {
                locker_script_hash: g.locker_script_hash,
                value: g.value,
                generated_height: g.generated_height,
                spent_height: None,
            },
        ),
        Some(st) => {
            if outpoint.vout != 0 {
                Err(StoreError::DuplicateOutput { outpoint })
            } else if g.generated_height <= st.generated_height {
                Err(StoreError::NonMonotonicCoinbase { outpoint })
            } else {
                Ok(
                    TXOState {
                        locker_script_hash: g.locker_script_hash,
                        value: g.value,
                        generated_height: g.generated_height,
                        spent_height: None,
                    },
                )
            }
        },
    }
}

/// The merge rule for a "spent" operand: the output must exist; its spent
/// height is set.
pub open spec fn spec_merge_spent(prior: Option<TXOState>, outpoint: OutPoint, sp: TXOSpent) -> Result<TXOState, StoreError> {
    match prior {
        None => Err(StoreError::UnknownOutpoint { outpoint }),
        Some(st) => Ok(
            TXOState {
                locker_script_hash: st.locker_script_hash,
                value: st.value,
                generated_height: st.generated_height,
                spent_height: Some(sp.spent_height),
            },
        ),
    }
}

/// The merge operator of the output-state table, over one operand.
pub fn merge_txo_update(prior: Option<TXOState>, outpoint: &OutPoint, update: &TXOUpdate) -> (r: Result<TXOState, StoreError>)
    ensures
        r == match *update {
            TXOUpdate::Generated(g) => spec_merge_generated(prior, *outpoint, g),
            TXOUpdate::Spent(sp) => spec_merge_spent(prior, *outpoint, sp),
        },
{
    match update {
        TXOUpdate::Generated(g) => {
            match prior {
                None => Ok(
                    TXOState {
                        locker_script_hash: g.locker_script_hash,
                        value: g.value,
                        generated_height: g.generated_height,
                        spent_height: None,
                    },
                ),
                Some(st) => {
                    if outpoint.vout != 0 {
                        Err(StoreError::DuplicateOutput { outpoint: *outpoint })
                    } else if g.generated_height <= st.generated_height {
                        Err(StoreError::NonMonotonicCoinbase { outpoint: *outpoint })
                    } else {
                        Ok(
                            TXOState {
                                locker_script_hash: g.locker_script_hash,
                                value: g.value,
                                generated_height: g.generated_height,
                                spent_height: None,
                            },
                        )
                    }
                },
            }
        },
        TXOUpdate::Spent(sp) => {
            match prior {
                None => Err(StoreError::UnknownOutpoint { outpoint: *outpoint }),
                Some(st) => Ok(
                    TXOState {
                        locker_script_hash: st.locker_script_hash,
                        value: st.value,
                        generated_height: st.generated_height,
                        spent_height: Some(sp.spent_height),
                    },
                ),
            }
        },
    }
}

/// One "generated" operand folded over the table.
pub open spec fn spec_gen_step(
    m: Result<Map<OutPoint, TXOState>, StoreError>,
    e: (OutPoint, TXOGenerated),
) -> Result<Map<OutPoint, TXOState>, StoreError> {
    match m {
        Ok(mm) => {
            let prior = if mm.dom().contains(e.0) {
                Some(mm[e.0])
            } else {
                None
            };
            match spec_merge_generated(prior, e.0, e.1) {
                Ok(st) => Ok(mm.insert(e.0, st)),
                Err(err) => Err(err),
            }
        },
        Err(err) => Err(err),
    }
}

/// One "spent" operand folded over the table.
pub open spec fn spec_spent_step(
    m: Result<Map<OutPoint, TXOState>, StoreError>,
    e: (OutPoint, TXOSpent),
) -> Result<Map<OutPoint, TXOState>, StoreError> {
    match m {
        Ok(mm) => {
            let prior = if mm.dom().contains(e.0) {
                Some(mm[e.0])
            } else {
                None
            };
            match spec_merge_spent(prior, e.0, e.1) {
                Ok(st) => Ok(mm.insert(e.0, st)),
                Err(err) => Err(err),
            }
        },
        Err(err) => Err(err),
    }
}

/// Folding all "generated" operands of a batch, in order, over the table.
pub open spec fn spec_apply_generated(
    m: Result<Map<OutPoint, TXOState>, StoreError>,
    entries: Seq<(OutPoint, TXOGenerated)>,
) -> Result<Map<OutPoint, TXOState>, StoreError>
    decreases entries.len(),
{
    if entries.len() == 0 {
        m
    } else {
        spec_gen_step(spec_apply_generated(m, entries.drop_last()), entries.last())
    }
}

/// Folding all "spent" operands of a batch, in order, over the table.
pub open spec fn spec_apply_spent(
    m: Result<Map<OutPoint, TXOState>, StoreError>,
    entries: Seq<(OutPoint, TXOSpent)>,
) -> Result<Map<OutPoint, TXOState>, StoreError>
    decreases entries.len(),
{
    if entries.len() == 0 {
        m
    } else {
        spec_spent_step(spec_apply_spent(m, entries.drop_last()), entries.last())
    }
}

/// What a whole batch does to the output-state table: all generations in
/// order, then all spends in order, as the writer stages them.
pub open spec fn spec_apply_batch_txos(
    m: Map<OutPoint, TXOState>,
    generated: Seq<(OutPoint, TXOGenerated)>,
    spent: Seq<(OutPoint, TXOSpent)>,
) -> Result<Map<OutPoint, TXOState>, StoreError> {
    spec_apply_spent(spec_apply_generated(Ok(m), generated), spent)
}

pub proof fn lemma_apply_generated_err(e: StoreError, entries: Seq<(OutPoint, TXOGenerated)>)
    ensures
        spec_apply_generated(Err(e), entries) == Err::<Map<OutPoint, TXOState>, StoreError>(e),
    decreases entries.len(),
{
    if entries.len() > 0 {
        lemma_apply_generated_err(e, entries.drop_last());
    }
}

pub proof fn lemma_apply_spent_err(e: StoreError, entries: Seq<(OutPoint, TXOSpent)>)
    ensures
        spec_apply_spent(Err(e), entries) == Err::<Map<OutPoint, TXOState>, StoreError>(e),
    decreases entries.len(),
{
    if entries.len() > 0 {
        lemma_apply_spent_err(e, entries.drop_last());
    }
}

/// Folding a sequence of generations splits at any point.
pub proof fn lemma_apply_generated_split(
    m: Result<Map<OutPoint, TXOState>, StoreError>,
    entries: Seq<(OutPoint, TXOGenerated)>,
    i: int,
)
    requires
        0 <= i <= entries.len(),
    ensures
        spec_apply_generated(m, entries) == spec_apply_generated(
            spec_apply_generated(m, entries.subrange(0, i)),
            entries.subrange(i, entries.len() as int),
        ),
    decreases entries.len(),
{
    if i == entries.len() {
        assert(entries.subrange(0, i) =~= entries);
        assert(entries.subrange(i, entries.len() as int) =~= Seq::<(OutPoint, TXOGenerated)>::empty());
    } else {
        let pre = entries.drop_last();
        lemma_apply_generated_split(m, pre, i);
        assert(entries.subrange(0, i) =~= pre.subrange(0, i));
        assert(entries.subrange(i, entries.len() as int).drop_last() =~= pre.subrange(i, pre.len() as int));
        assert(entries.subrange(i, entries.len() as int).last() == entries.last());
    }
}

/// Folding a sequence of spends splits at any point.
pub proof fn lemma_apply_spent_split(
    m: Result<Map<OutPoint, TXOState>, StoreError>,
    entries: Seq<(OutPoint, TXOSpent)>,
    i: int,
)
    requires
        0 <= i <= entries.len(),
    ensures
        spec_apply_spent(m, entries) == spec_apply_spent(
            spec_apply_spent(m, entries.subrange(0, i)),
            entries.subrange(i, entries.len() as int),
        ),
    decreases entries.len(),
{
    if i == entries.len() {
        assert(entries.subrange(0, i) =~= entries);
        assert(entries.subrange(i, entries.len() as int) =~= Seq::<(OutPoint, TXOSpent)>::empty());
    } else {
        let pre = entries.drop_last();
        lemma_apply_spent_split(m, pre, i);
        assert(entries.subrange(0, i) =~= pre.subrange(0, i));
        assert(entries.subrange(i, entries.len() as int).drop_last() =~= pre.subrange(i, pre.len() as int));
        assert(entries.subrange(i, entries.len() as int).last() == entries.last());
    }
}

pub(crate) proof fn lemma_push_preserves_contains<T>(s: Seq<T>, x: T)
    ensures
        forall|y: T| s.contains(y) ==> #[trigger] s.push(x).contains(y),
        s.push(x).contains(x),
{
    assert forall|y: T| s.contains(y) implies #[trigger] s.push(x).contains(y) by {
        let i = choose|i: int| 0 <= i < s.len() && s[i] == y;
        assert(s.push(x)[i] == y);
    }
    assert(s.push(x)[s.len() as int] == x);
}

fn bytes20_eq(a: &[u8; 20], b: &[u8; 20]) -> (r: bool)
    ensures
        r == (a@ == b@),
{
    let mut i: usize = 0;
    while i < 20
        invariant
            0 <= i <= 20,
            forall|j: int| 0 <= j < i ==> a[j] == b[j],
        decreases 20 - i,
    {
        if a[i] != b[i] {
            return false;
        }
        i = i + 1;
    }
    proof {
        assert(a@ =~= b@);
    }
    true
}

fn bytes32_eq(a: &[u8; 32], b: &[u8; 32]) -> (r: bool)
    ensures
        r == (a@ == b@),
{
    let mut i: usize = 0;
    while i < 32
        invariant
            0 <= i <= 32,
            forall|j: int| 0 <= j < i ==> a[j] == b[j],
        decreases 32 - i,
    {
        if a[i] != b[i] {
            return false;
        }
        i = i + 1;
    }
    proof {
        assert(a@ =~= b@);
    }
    true
}

/// Exact equality of script hashes.
pub fn script_hash_eq(a: &ScriptHash, b: &ScriptHash) -> (r: bool)
    ensures
        r == (*a == *b),
{
    let r = bytes20_eq(&a.bytes, &b.bytes);
    proof {
        if a.bytes@ == b.bytes@ {
            assert(a.bytes =~= b.bytes);
        }
    }
    r
}

/// Exact equality of outpoints.
pub fn outpoint_eq(a: &OutPoint, b: &OutPoint) -> (r: bool)
    ensures
        r == (*a == *b),
{
    let r = a.vout == b.vout && bytes32_eq(&a.txid.bytes, &b.txid.bytes);
    proof {
        if a.txid.bytes@ == b.txid.bytes@ {
            assert(a.txid.bytes =~= b.txid.bytes);
        }
    }
    r
}

pub(crate) fn find_txo(txos: &Vec<(OutPoint, TXOState)>, op: &OutPoint) -> (r: Option<usize>)
    ensures
        match r {
            Some(i) => i < txos@.len() && txos@[i as int].0 == *op,
            None => forall|i: int| 0 <= i < txos@.len() ==> (#[trigger] txos@[i]).0 != *op,
        },
{
    let n = txos.len();
    let mut i: usize = 0;
    while i < n
        invariant
            0 <= i <= n,
            n == txos@.len(),
            forall|j: int| 0 <= j < i ==> (#[trigger] txos@[j]).0 != *op,
        decreases n - i,
    {
        if outpoint_eq(&txos[i].0, op) {
            return Some(i);
        }
        i = i + 1;
    }
    None
}

fn copy_vec<T: Copy>(v: &Vec<T>) -> (r: Vec<T>)
    ensures
        r@ == v@,
{
    let mut out: Vec<T> = Vec::new();
    let n = v.len();
    let mut i: usize = 0;
    while i < n
        invariant
            0 <= i <= n,
            n == v@.len(),
            out@ == v@.subrange(0, i as int),
        decreases n - i,
    {
        out.push(v[i]);
        assert(v@.subrange(0, i + 1 as int) =~= v@.subrange(0, i as int).push(v@[i as int]));
        i = i + 1;
    }
    assert(out@ =~= v@);
    out
}

/// The state of the index: the six tables of the schema.
pub struct Store {
    /// Block hash at each committed height; the last entry is the tip.
    pub height_to_hash: Vec<BlockHash>,
    /// The inverse mapping, kept in step with `height_to_hash`.
    pub hash_to_height: Vec<(BlockHash, BlockHeight)>,
    /// The authoritative output-state table, keyed by outpoint.
    pub txos: Vec<(OutPoint, TXOState)>,
    /// Presence index: locking script hash ‖ outpoint.
    pub script_index: Vec<(ScriptHash, OutPoint)>,
    /// Presence index: generated height ‖ outpoint.
    pub generated_index: Vec<(BlockHeight, OutPoint)>,
    /// Presence index: spent height ‖ outpoint.
    pub spent_index: Vec<(BlockHeight, OutPoint)>,
}

impl Store {
    /// Well-formedness that every committed state keeps: the block tables
    /// agree, output keys are unique, recorded heights are committed ones,
    /// spends never precede generations, and every output is covered by the
    /// presence indices.
    pub open spec fn wf(&self) -> bool {
        &&& self.height_to_hash@.len() <= 0x1_0000_0000
        &&& self.hash_to_height@.len() == self.height_to_hash@.len()
        &&& (forall|i: int|
            0 <= i < self.hash_to_height@.len() ==> #[trigger] self.hash_to_height@[i] == (
            self.height_to_hash@[i],
            i as BlockHeight,
        ))
        &&& unique_txo_keys(self.txos@)
        &&& (forall|i: int| 0 <= i < self.txos@.len() ==> (#[trigger] self.txos@[i]).1.wf())
        &&& (forall|i: int|
            0 <= i < self.txos@.len() ==> (#[trigger] self.txos@[i]).1.generated_height
                < self.height_to_hash@.len())
        &&& (forall|i: int|
            0 <= i < self.txos@.len() ==> match (#[trigger] self.txos@[i]).1.spent_height {
                Some(s) => s < self.height_to_hash@.len(),
                None => true,
            })
        &&& (forall|i: int|
            0 <= i < self.txos@.len() ==> self.script_index@.contains(
                ((#[trigger] self.txos@[i]).1.locker_script_hash, self.txos@[i].0),
            ))
        &&& (forall|i: int|
            0 <= i < self.txos@.len() ==> self.generated_index@.contains(
                ((#[trigger] self.txos@[i]).1.generated_height, self.txos@[i].0),
            ))
        &&& (forall|i: int|
            0 <= i < self.txos@.len() ==> match (#[trigger] self.txos@[i]).1.spent_height {
                Some(s) => self.spent_index@.contains((s, self.txos@[i].0)),
                None => true,
            })
    }

    /// The output-state table as a map.
    pub open spec fn txo_map(&self) -> Map<OutPoint, TXOState> {
        txo_map_of(self.txos@)
    }

    /// The committed tip, if any block has been committed.
    pub open spec fn spec_tip(&self) -> Option<(BlockHeight, BlockHash)> {
        if self.height_to_hash@.len() == 0 {
            None
        } else {
            Some(
                (
                    (self.height_to_hash@.len() - 1) as BlockHeight,
                    self.height_to_hash@.last(),
                ),
            )
        }
    }

    /// An empty store: nothing committed.
    pub fn new() -> (r: Store)
        ensures
            r.wf(),
            r.height_to_hash@.len() == 0,
            r.txos@.len() == 0,
            r.script_index@.len() == 0,
            r.generated_index@.len() == 0,
            r.spent_index@.len() == 0,
    {
        Store {
            height_to_hash: Vec::new(),
            hash_to_height: Vec::new(),
            txos: Vec::new(),
            script_index: Vec::new(),
            generated_index: Vec::new(),
            spent_index: Vec::new(),
        }
    }

    /// Apply one batch as a single transaction: require contiguity, fold
    /// every generated and then every spent operand into the output table,
    /// record the presence keys, and extend the block tables. On any error
    /// the store is left exactly as it was.
    #[verifier::loop_isolation(false)]
    #[verifier::rlimit(60)]
    pub fn apply_batch(&mut self, batch: &Batch) -> (r: Result<(), StoreError>)
        requires
            old(self).wf(),
            batch.wf(),
            batch.spends_follow_generations(),
        ensures
            match r {
                Ok(()) => {
                    &&& batch.start_height == old(self).height_to_hash@.len()
                    &&& final(self).wf()
                    &&& final(self).height_to_hash@ == old(self).height_to_hash@ + batch.blocks@
                    &&& Ok::<Map<OutPoint, TXOState>, StoreError>(final(self).txo_map())
                        == spec_apply_batch_txos(
                        old(self).txo_map(),
                        batch.generated_txos@,
                        batch.spent_txos@,
                    )
                    &&& final(self).script_index@ == old(self).script_index@
                        + batch.generated_txos@.map_values(
                        (|e: (OutPoint, TXOGenerated)| (e.1.locker_script_hash, e.0)),
                    )
                    &&& final(self).generated_index@ == old(self).generated_index@
                        + batch.generated_txos@.map_values(
                        (|e: (OutPoint, TXOGenerated)| (e.1.generated_height, e.0)),
                    )
                    &&& final(self).spent_index@ == old(self).spent_index@
                        + batch.spent_txos@.map_values(
                        (|e: (OutPoint, TXOSpent)| (e.1.spent_height, e.0)),
                    )
                },
                Err(e) => {
                    &&& *final(self) == *old(self)
                    &&& if batch.start_height != old(self).height_to_hash@.len() {
                        e == (StoreError::NonContiguousBatch {
                            start_height: batch.start_height,
                            tip_height: if old(self).height_to_hash@.len() == 0 {
                                None
                            } else {
                                Some((old(self).height_to_hash@.len() - 1) as BlockHeight)
                            },
                        })
                    } else {
                        spec_apply_batch_txos(
                            old(self).txo_map(),
                            batch.generated_txos@,
                            batch.spent_txos@,
                        ) == Err::<Map<OutPoint, TXOState>, StoreError>(e)
                    }
                },
            },
    {
        let n = self.height_to_hash.len();
        if (batch.start_height as u64) != (n as u64) {
            let tip_height = if n == 0 {
                None
            } else {
                Some((n - 1) as BlockHeight)
            };
            return Err(StoreError::NonContiguousBatch { start_height: batch.start_height, tip_height });
        }
        let ghost m0 = txo_map_of(self.txos@);
        let mut new_txos = copy_vec(&self.txos);
        let mut new_script_index = copy_vec(&self.script_index);
        let mut new_generated_index = copy_vec(&self.generated_index);
        let mut new_spent_index = copy_vec(&self.spent_index);

        let gn = batch.generated_txos.len();
        let mut gi: usize = 0;
        while gi < gn
            invariant
                0 <= gi <= gn,
                unique_txo_keys(new_txos@),
                spec_apply_generated(
                    Ok(m0),
                    batch.generated_txos@.subrange(0, gi as int),
                ) == Ok::<Map<OutPoint, TXOState>, StoreError>(txo_map_of(new_txos@)),
                new_script_index@ == self.script_index@ + batch.generated_txos@.subrange(
                    0,
                    gi as int,
                ).map_values((|e: (OutPoint, TXOGenerated)| (e.1.locker_script_hash, e.0))),
                new_generated_index@ == self.generated_index@ + batch.generated_txos@.subrange(
                    0,
                    gi as int,
                ).map_values((|e: (OutPoint, TXOGenerated)| (e.1.generated_height, e.0))),
                new_spent_index@ == self.spent_index@,
                forall|i: int| 0 <= i < new_txos@.len() ==> (#[trigger] new_txos@[i]).1.wf(),
                forall|i: int|
                    0 <= i < new_txos@.len() ==> (#[trigger] new_txos@[i]).1.generated_height
                        < batch.end_height,
                forall|i: int|
                    0 <= i < new_txos@.len() ==> match (#[trigger] new_txos@[i]).1.spent_height {
                        Some(s) => s < batch.start_height,
                        None => true,
                    },
                forall|i: int|
                    0 <= i < new_txos@.len() ==> ((#[trigger] new_txos@[i]).1.generated_height
                        < batch.start_height || exists|k: int|
                        0 <= k < gi && (#[trigger] batch.generated_txos@[k]).0 == new_txos@[i].0
                            && batch.generated_txos@[k].1.generated_height
                            == new_txos@[i].1.generated_height),
                forall|i: int|
                    0 <= i < new_txos@.len() ==> new_script_index@.contains(
                        ((#[trigger] new_txos@[i]).1.locker_script_hash, new_txos@[i].0),
                    ),
                forall|i: int|
                    0 <= i < new_txos@.len() ==> new_generated_index@.contains(
                        ((#[trigger] new_txos@[i]).1.generated_height, new_txos@[i].0),
                    ),
                forall|i: int|
                    0 <= i < new_txos@.len() ==> match (#[trigger] new_txos@[i]).1.spent_height {
                        Some(s) => new_spent_index@.contains((s, new_txos@[i].0)),
                        None => true,
                    },
            decreases gn - gi,
        {
            let (op, g) = batch.generated_txos[gi];
            let ghost prev_txos = new_txos@;
            let found = find_txo(&new_txos, &op);
            let newst = TXOState {
                locker_script_hash: g.locker_script_hash,
                value: g.value,
                generated_height: g.generated_height,
                spent_height: None,
            };
            proof {
                assert(batch.generated_txos@.subrange(0, gi + 1).drop_last() =~= batch.generated_txos@.subrange(0, gi as int));
                assert(batch.generated_txos@.subrange(0, gi + 1).last() == batch.generated_txos@[gi as int]);
            }
            match found {
                None => {
                    proof {
                        lemma_txo_map_absent(prev_txos, op);
                    }
                    new_txos.push((op, newst));
                    proof {
                        assert(new_txos@.drop_last() =~= prev_txos);
                        assert(txo_map_of(new_txos@) == txo_map_of(prev_txos).insert(op, newst));
                    }
                },
                Some(ix) => {
                    let st = new_txos[ix].1;
                    proof {
                        lemma_txo_map_index(prev_txos, ix as int);
                    }
                    if op.vout != 0 {
                        let e = StoreError::DuplicateOutput { outpoint: op };
                        proof {
                            lemma_apply_generated_split(
                                Ok(m0),
                                batch.generated_txos@,
                                gi + 1,
                            );
                            lemma_apply_generated_err(
                                e,
                                batch.generated_txos@.subrange(gi + 1, gn as int),
                            );
                            lemma_apply_spent_err(e, batch.spent_txos@);
                        }
                        return Err(e);
                    }
                    if g.generated_height <= st.generated_height {
                        let e = StoreError::NonMonotonicCoinbase { outpoint: op };
                        proof {
                            lemma_apply_generated_split(
                                Ok(m0),
                                batch.generated_txos@,
                                gi + 1,
                            );
                            lemma_apply_generated_err(
                                e,
                                batch.generated_txos@.subrange(gi + 1, gn as int),
                            );
                            lemma_apply_spent_err(e, batch.spent_txos@);
                        }
                        return Err(e);
                    }
                    // A pre-activation duplicate coinbase with a strictly
                    // greater height: the later generation wins.
                    proof {
                        lemma_txo_map_update(prev_txos, ix as int, newst);
                    }
                    new_txos[ix] = (op, newst);
                },
            }
            let ghost prev_script_index = new_script_index@;
            let ghost prev_generated_index = new_generated_index@;
            new_script_index.push((g.locker_script_hash, op));
            new_generated_index.push((g.generated_height, op));
            proof {
                lemma_push_preserves_contains(prev_script_index, (g.locker_script_hash, op));
                lemma_push_preserves_contains(prev_generated_index, (g.generated_height, op));
                assert(new_script_index@ == self.script_index@ + batch.generated_txos@.subrange(
                    0,
                    gi + 1,
                ).map_values((|e: (OutPoint, TXOGenerated)| (e.1.locker_script_hash, e.0)))) by {
                    assert(new_script_index@ =~= self.script_index@
                        + batch.generated_txos@.subrange(0, gi + 1).map_values(
                        (|e: (OutPoint, TXOGenerated)| (e.1.locker_script_hash, e.0)),
                    ));
                }
                assert(new_generated_index@ == self.generated_index@
                    + batch.generated_txos@.subrange(0, gi + 1).map_values(
                    (|e: (OutPoint, TXOGenerated)| (e.1.generated_height, e.0)),
                )) by {
                    assert(new_generated_index@ =~= self.generated_index@
                        + batch.generated_txos@.subrange(0, gi + 1).map_values(
                        (|e: (OutPoint, TXOGenerated)| (e.1.generated_height, e.0)),
                    ));
                }
            }
            gi = gi + 1;
        }
        proof {
            assert(batch.generated_txos@.subrange(0, gn as int) =~= batch.generated_txos@);
        }
        let ghost m_gen = txo_map_of(new_txos@);

        let sn = batch.spent_txos.len();
        let mut si: usize = 0;
        while si < sn
            invariant
                0 <= si <= sn,
                unique_txo_keys(new_txos@),
                spec_apply_spent(
                    Ok(m_gen),
                    batch.spent_txos@.subrange(0, si as int),
                ) == Ok::<Map<OutPoint, TXOState>, StoreError>(txo_map_of(new_txos@)),
                new_spent_index@ == self.spent_index@ + batch.spent_txos@.subrange(
                    0,
                    si as int,
                ).map_values((|e: (OutPoint, TXOSpent)| (e.1.spent_height, e.0))),
                forall|i: int| 0 <= i < new_txos@.len() ==> (#[trigger] new_txos@[i]).1.wf(),
                forall|i: int|
                    0 <= i < new_txos@.len() ==> (#[trigger] new_txos@[i]).1.generated_height
                        < batch.end_height,
                forall|i: int|
                    0 <= i < new_txos@.len() ==> match (#[trigger] new_txos@[i]).1.spent_height {
                        Some(s) => s < batch.end_height,
                        None => true,
                    },
                forall|i: int|
                    0 <= i < new_txos@.len() ==> ((#[trigger] new_txos@[i]).1.generated_height
                        < batch.start_height || exists|k: int|
                        0 <= k < gn && (#[trigger] batch.generated_txos@[k]).0 == new_txos@[i].0
                            && batch.generated_txos@[k].1.generated_height
                            == new_txos@[i].1.generated_height),
                forall|i: int|
                    0 <= i < new_txos@.len() ==> new_script_index@.contains(
                        ((#[trigger] new_txos@[i]).1.locker_script_hash, new_txos@[i].0),
                    ),
                forall|i: int|
                    0 <= i < new_txos@.len() ==> new_generated_index@.contains(
                        ((#[trigger] new_txos@[i]).1.generated_height, new_txos@[i].0),
                    ),
                forall|i: int|
                    0 <= i < new_txos@.len() ==> match (#[trigger] new_txos@[i]).1.spent_height {
                        Some(s) => new_spent_index@.contains((s, new_txos@[i].0)),
                        None => true,
                    },
            decreases sn - si,
        {
            let (op, sp) = batch.spent_txos[si];
            let ghost prev_txos = new_txos@;
            let ghost prev_spent_index = new_spent_index@;
            let found = find_txo(&new_txos, &op);
            proof {
                assert(batch.spent_txos@.subrange(0, si + 1).drop_last() =~= batch.spent_txos@.subrange(0, si as int));
                assert(batch.spent_txos@.subrange(0, si + 1).last() == batch.spent_txos@[si as int]);
            }
            match found {
                None => {
                    let e = StoreError::UnknownOutpoint { outpoint: op };
                    proof {
                        lemma_txo_map_absent(prev_txos, op);
                        lemma_apply_spent_split(Ok(m_gen), batch.spent_txos@, si + 1);
                        lemma_apply_spent_err(
                            e,
                            batch.spent_txos@.subrange(si + 1, sn as int),
                        );
                    }
                    return Err(e);
                },
                Some(ix) => {
                    let st = new_txos[ix].1;
                    let newst = TXOState {
                        locker_script_hash: st.locker_script_hash,
                        value: st.value,
                        generated_height: st.generated_height,
                        spent_height: Some(sp.spent_height),
                    };
                    proof {
                        lemma_txo_map_index(prev_txos, ix as int);
                        lemma_txo_map_update(prev_txos, ix as int, newst);
                        if st.generated_height >= batch.start_height {
                            let k = choose|k: int|
                                0 <= k < gn && (#[trigger] batch.generated_txos@[k]).0 == prev_txos[ix as int].0
                                    && batch.generated_txos@[k].1.generated_height
                                    == prev_txos[ix as int].1.generated_height;
                            assert(batch.spent_txos@[si as int].0 == batch.generated_txos@[k].0);
                            assert(batch.generated_txos@[k].1.generated_height
                                <= batch.spent_txos@[si as int].1.spent_height);
                        }
                        assert(newst.wf());
                    }
                    new_txos[ix] = (op, newst);
                },
            }
            new_spent_index.push((sp.spent_height, op));
            proof {
                lemma_push_preserves_contains(prev_spent_index, (sp.spent_height, op));
                assert(new_spent_index@ == self.spent_index@ + batch.spent_txos@.subrange(
                    0,
                    si + 1,
                ).map_values((|e: (OutPoint, TXOSpent)| (e.1.spent_height, e.0)))) by {
                    assert(new_spent_index@ =~= self.spent_index@ + batch.spent_txos@.subrange(
                        0,
                        si + 1,
                    ).map_values((|e: (OutPoint, TXOSpent)| (e.1.spent_height, e.0))));
                }
            }
            si = si + 1;
        }
        proof {
            assert(batch.spent_txos@.subrange(0, sn as int) =~= batch.spent_txos@);
        }

        // Everything merged; extend the block tables and commit.
        let bn = batch.blocks.len();
        let mut bi: usize = 0;
        while bi < bn
            invariant
                0 <= bi <= bn,
                self.height_to_hash@ == old(self).height_to_hash@ + batch.blocks@.subrange(
                    0,
                    bi as int,
                ),
                self.hash_to_height@.len() == self.height_to_hash@.len(),
                forall|i: int|
                    0 <= i < self.hash_to_height@.len() ==> #[trigger] self.hash_to_height@[i] == (
                    self.height_to_hash@[i],
                    i as BlockHeight,
                ),
                self.txos == old(self).txos,
                self.script_index == old(self).script_index,
                self.generated_index == old(self).generated_index,
                self.spent_index == old(self).spent_index,
            decreases bn - bi,
        {
            let height = batch.start_height + (bi as u32);
            let b = batch.blocks[bi];
            self.height_to_hash.push(b);
            self.hash_to_height.push((b, height));
            proof {
                assert(batch.blocks@.subrange(0, bi + 1) =~= batch.blocks@.subrange(
                    0,
                    bi as int,
                ).push(batch.blocks@[bi as int]));
            }
            bi = bi + 1;
        }
        proof {
            assert(batch.blocks@.subrange(0, bn as int) =~= batch.blocks@);
        }
        self.txos = new_txos;
        self.script_index = new_script_index;
        self.generated_index = new_generated_index;
        self.spent_index = new_spent_index;
        Ok(())
    }

    /// The last entry of the height table, as the read surface reports it.
    pub fn get_tip_block(&self) -> (r: Option<(BlockHeight, BlockHash)>)
        requires
            self.wf(),
        ensures
            r == self.spec_tip(),
    {
        let n = self.height_to_hash.len();
        if n == 0 {
            None
        } else {
            Some(((n - 1) as BlockHeight, self.height_to_hash[n - 1]))
        }
    }
}

} // verus!
