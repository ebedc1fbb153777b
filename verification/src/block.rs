//! The decoded-block model the batch builder consumes: transactions carry
//! their id, inputs name the outpoint they spend, outputs carry their value
//! and locking script. Hashing a locking script is the one outside call.

use vstd::prelude::*;

use crate::types::{Amount, BlockHash, OutPoint, ScriptHash, TransactionID};

verus! {

/// The bytes of a locking script.
#[derive(Clone, Debug)]
pub struct Script {
    pub bytes: Vec<u8>,
}

/// One transaction input: either the synthetic coinbase input or a spend of
/// an earlier output.
#[derive(Clone, Copy, Debug)]
pub enum TxInput {
    Coinbase,
    Normal { txid: TransactionID, vout: u32 },
}

/// One transaction output: its value and its locking script.
#[derive(Clone, Debug)]
pub struct TxOutput {
    pub value: Amount,
    pub script_pubkey: Script,
}

/// One decoded transaction, identified by its txid.
#[derive(Clone, Debug)]
pub struct Transaction {
    pub txid: TransactionID,
    pub vin: Vec<TxInput>,
    pub vout: Vec<TxOutput>,
}

/// One decoded block: its hash and its transactions in block order.
#[derive(Clone, Debug)]
pub struct Block {
    pub hash: BlockHash,
    pub txdata: Vec<Transaction>,
}

/// The 20-byte hash160 digest (RIPEMD-160 of SHA-256) of a byte sequence; a
/// function of the bytes alone.
pub uninterp spec fn hash160_of(script: Seq<u8>) -> [u8; 20];

/// Relies on bitcoin's `hash160::Hash::hash`: the hash160 digest (RIPEMD-160
/// of SHA-256) of the given bytes, 20 bytes, depending on the bytes alone.
/// It is what `Script::script_hash` computes for a locking script.
#[verifier::external_body]
pub fn script_hash160(script: &Script) -> (r: ScriptHash)
    ensures
        r.bytes == hash160_of(script.bytes@),
{
    let h = <bitcoin::hashes::hash160::Hash as bitcoin::hashes::Hash>::hash(
        script.bytes.as_slice(),
    );
    ScriptHash { bytes: <bitcoin::hashes::hash160::Hash as bitcoin::hashes::Hash>::to_byte_array(h) }
}

impl TxInput {
    /// The outpoint this input spends, unless it is the coinbase input.
    pub fn previous_output(&self) -> (r: Option<OutPoint>)
        ensures
            r == self.spec_previous_output(),
    {
        match self {
            TxInput::Coinbase => None,
            TxInput::Normal { txid, vout } => Some(OutPoint { txid: *txid, vout: *vout }),
        }
    }

    pub open spec fn spec_previous_output(&self) -> Option<OutPoint> {
        match *self {
            TxInput::Coinbase => None,
            TxInput::Normal { txid, vout } => Some(OutPoint { txid, vout }),
        }
    }
}

} // verus!
