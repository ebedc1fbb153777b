//! Core entities of the index: heights, hashes, amounts, outpoints and the
//! durable state of one transaction output.

use vstd::prelude::*;

verus! {

/// Height of a block in the chain; 0 is the genesis block.
pub type BlockHeight = u32;

/// A non-negative quantity of satoshis.
#[derive(Clone, Copy, Debug, PartialEq, Eq, Structural)]
pub struct Amount {
    pub satoshis: u64,
}

/// Content-addressed identity of a block: 32 bytes.
#[derive(Clone, Copy, Debug, PartialEq, Eq)]
pub struct BlockHash {
    pub bytes: [u8; 32],
}

/// Identity of a transaction: 32 bytes.
#[derive(Clone, Copy, Debug, PartialEq, Eq)]
pub struct TransactionID {
    pub bytes: [u8; 32],
}

/// 20-byte hash of a locking script; the account key of the index.
#[derive(Clone, Copy, Debug, PartialEq, Eq)]
pub struct ScriptHash {
    pub bytes: [u8; 20],
}

/// One transaction output's address: the transaction and the output index.
#[derive(Clone, Copy, Debug, PartialEq, Eq)]
pub struct OutPoint {
    pub txid: TransactionID,
    pub vout: u32,
}

impl OutPoint {
    /// Whether this is the synthetic input of a coinbase transaction:
    /// all-zero txid and the maximal output index.
    pub fn is_null(&self) -> (r: bool)
        ensures
            r == self.spec_is_null(),
    {
        if self.vout != 0xffff_ffffu32 {
            return false;
        }
        let mut i: usize = 0;
        while i < 32
            invariant
                0 <= i <= 32,
                self.vout == 0xffff_ffffu32,
                forall|j: int| 0 <= j < i ==> self.txid.bytes[j] == 0,
            decreases 32 - i,
        {
            if self.txid.bytes[i] != 0 {
                return false;
            }
            i = i + 1;
        }
        true
    }

    pub open spec fn spec_is_null(&self) -> bool {
        self.vout == 0xffff_ffffu32 && forall|j: int| 0 <= j < 32 ==> self.txid.bytes[j] == 0
    }
}

/// Delta recording that an output came into being.
#[derive(Clone, Copy, Debug, PartialEq, Eq)]
pub struct TXOGenerated {
    pub locker_script_hash: ScriptHash,
    pub value: Amount,
    pub generated_height: BlockHeight,
}

/// Delta recording that an output was spent.
#[derive(Clone, Copy, Debug, PartialEq, Eq, Structural)]
pub struct TXOSpent {
    pub spent_height: BlockHeight,
}

/// One operand of the associative merge into the output-state table.
#[derive(Clone, Copy, Debug, PartialEq, Eq)]
pub enum TXOUpdate {
    Generated(TXOGenerated),
    Spent(TXOSpent),
}

/// The durable state of one transaction output.
#[derive(Clone, Copy, Debug, PartialEq, Eq)]
pub struct TXOState {
    pub locker_script_hash: ScriptHash,
    pub value: Amount,
    pub generated_height: BlockHeight,
    pub spent_height: Option<BlockHeight>,
}

impl TXOState {
    /// A spent output was never spent before it was generated.
    pub open spec fn wf(&self) -> bool {
        match self.spent_height {
            Some(s) => s >= self.generated_height,
            None => true,
        }
    }

    /// Whether the output holds its value at height `h`: already generated,
    /// and not yet spent.
    pub open spec fn active_at(&self, h: int) -> bool {
        self.generated_height <= h && match self.spent_height {
            Some(s) => s > h,
            None => true,
        }
    }
}

} // verus!
