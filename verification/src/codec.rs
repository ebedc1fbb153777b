//! Binary encodings of the schema: fixed-width big-endian keys, so that
//! lexicographic key order equals numeric order, and fixed-width values with
//! a tag byte for the optional spent height.

use vstd::prelude::*;

use crate::types::{Amount, BlockHeight, OutPoint, ScriptHash, TransactionID, TXOGenerated, TXOSpent, TXOState, TXOUpdate};

verus! {

broadcast use vstd::array::group_array_axioms;

/// Reading malformed bytes back into an entity failed.
#[derive(Clone, Copy, Debug, PartialEq, Eq, Structural)]
pub enum CodecError {
    /// The input was shorter or longer than the entity's encoding.
    WrongLength,
    /// A tag byte held a value the schema does not use.
    BadTag,
}

pub open spec fn spec_u32_to_be_bytes(x: u32) -> Seq<u8> {
    seq![
        ((x >> 24) & 0xff) as u8,
        ((x >> 16) & 0xff) as u8,
        ((x >> 8) & 0xff) as u8,
        (x & 0xff) as u8,
    ]
}

pub open spec fn spec_u32_from_be_bytes(s: Seq<u8>) -> u32
    recommends
        s.len() == 4,
{
    (
    ((s[0] as u32) << 24) | ((s[1] as u32) << 16) | ((s[2] as u32) << 8) | (s[3] as u32)
    )
}

pub proof fn lemma_u32_be_round_trip(x: u32)
    ensures
        spec_u32_from_be_bytes(spec_u32_to_be_bytes(x)) == x,
{
    assert((((((x >> 24) & 0xff) as u8) as u32) << 24) | (((((x >> 16) & 0xff) as u8) as u32)
        << 16) | (((((x >> 8) & 0xff) as u8) as u32) << 8) | ((((x & 0xff) as u8) as u32))
        == x) by (bit_vector);
}

pub open spec fn spec_u64_to_be_bytes(x: u64) -> Seq<u8> {
    seq![
        ((x >> 56) & 0xff) as u8,
        ((x >> 48) & 0xff) as u8,
        ((x >> 40) & 0xff) as u8,
        ((x >> 32) & 0xff) as u8,
        ((x >> 24) & 0xff) as u8,
        ((x >> 16) & 0xff) as u8,
        ((x >> 8) & 0xff) as u8,
        (x & 0xff) as u8,
    ]
}

pub open spec fn spec_u64_from_be_bytes(s: Seq<u8>) -> u64
    recommends
        s.len() == 8,
{
    (
    ((s[0] as u64) << 56) | ((s[1] as u64) << 48) | ((s[2] as u64) << 40) | ((s[3] as u64) << 32)
        | ((s[4] as u64) << 24) | ((s[5] as u64) << 16) | ((s[6] as u64) << 8) | (s[7] as u64)
    )
}

pub proof fn lemma_u64_be_round_trip(x: u64)
    ensures
        spec_u64_from_be_bytes(spec_u64_to_be_bytes(x)) == x,
{
    assert((((((x >> 56) & 0xff) as u8) as u64) << 56) | (((((x >> 48) & 0xff) as u8) as u64)
        << 48) | (((((x >> 40) & 0xff) as u8) as u64) << 40) | (((((x >> 32) & 0xff) as u8) as u64)
        << 32) | (((((x >> 24) & 0xff) as u8) as u64) << 24) | (((((x >> 16) & 0xff) as u8) as u64)
        << 16) | (((((x >> 8) & 0xff) as u8) as u64) << 8) | ((((x & 0xff) as u8) as u64))
        == x) by (bit_vector);
}

/// Append the 4-byte big-endian form of `x`.
pub fn put_u32_be(out: &mut Vec<u8>, x: u32)
    ensures
        final(out)@ == old(out)@ + spec_u32_to_be_bytes(x),
{
    out.push(((x >> 24) & 0xff) as u8);
    out.push(((x >> 16) & 0xff) as u8);
    out.push(((x >> 8) & 0xff) as u8);
    out.push((x & 0xff) as u8);
    assert(out@ =~= old(out)@ + spec_u32_to_be_bytes(x));
}

/// Append the 8-byte big-endian form of `x`.
pub fn put_u64_be(out: &mut Vec<u8>, x: u64)
    ensures
        final(out)@ == old(out)@ + spec_u64_to_be_bytes(x),
{
    out.push(((x >> 56) & 0xff) as u8);
    out.push(((x >> 48) & 0xff) as u8);
    out.push(((x >> 40) & 0xff) as u8);
    out.push(((x >> 32) & 0xff) as u8);
    out.push(((x >> 24) & 0xff) as u8);
    out.push(((x >> 16) & 0xff) as u8);
    out.push(((x >> 8) & 0xff) as u8);
    out.push((x & 0xff) as u8);
    assert(out@ =~= old(out)@ + spec_u64_to_be_bytes(x));
}

/// Read a big-endian u32 at `offset`.
pub fn read_u32_be(s: &[u8], offset: usize) -> (r: u32)
    requires
        offset + 4 <= s@.len(),
    ensures
        r == spec_u32_from_be_bytes(s@.subrange(offset as int, offset + 4)),
{
    let r = ((s[offset] as u32) << 24) | ((s[offset + 1] as u32) << 16) | ((s[offset + 2] as u32)
        << 8) | (s[offset + 3] as u32);
    assert(s@.subrange(offset as int, offset + 4)[0] == s@[offset as int]);
    assert(s@.subrange(offset as int, offset + 4)[1] == s@[offset + 1]);
    assert(s@.subrange(offset as int, offset + 4)[2] == s@[offset + 2]);
    assert(s@.subrange(offset as int, offset + 4)[3] == s@[offset + 3]);
    r
}

/// Read a big-endian u64 at `offset`.
pub fn read_u64_be(s: &[u8], offset: usize) -> (r: u64)
    requires
        offset + 8 <= s@.len(),
    ensures
        r == spec_u64_from_be_bytes(s@.subrange(offset as int, offset + 8)),
{
    let r = ((s[offset] as u64) << 56) | ((s[offset + 1] as u64) << 48) | ((s[offset + 2] as u64)
        << 40) | ((s[offset + 3] as u64) << 32) | ((s[offset + 4] as u64) << 24) | ((s[offset
        + 5] as u64) << 16) | ((s[offset + 6] as u64) << 8) | (s[offset + 7] as u64);
    assert forall|j: int| 0 <= j < 8 implies #[trigger] s@.subrange(offset as int, offset + 8)[j]
        == s@[offset + j] by {}
    r
}

/// Append `n` bytes of an array.
fn put_bytes_20(out: &mut Vec<u8>, a: &[u8; 20])
    ensures
        final(out)@ == old(out)@ + a@,
{
    let mut i: usize = 0;
    while i < 20
        invariant
            0 <= i <= 20,
            out@ == old(out)@ + a@.subrange(0, i as int),
        decreases 20 - i,
    {
        out.push(a[i]);
        assert(a@.subrange(0, i + 1 as int) =~= a@.subrange(0, i as int).push(a@[i as int]));
        i = i + 1;
    }
    assert(a@.subrange(0, 20) =~= a@);
}

fn put_bytes_32(out: &mut Vec<u8>, a: &[u8; 32])
    ensures
        final(out)@ == old(out)@ + a@,
{
    let mut i: usize = 0;
    while i < 32
        invariant
            0 <= i <= 32,
            out@ == old(out)@ + a@.subrange(0, i as int),
        decreases 32 - i,
    {
        out.push(a[i]);
        assert(a@.subrange(0, i + 1 as int) =~= a@.subrange(0, i as int).push(a@[i as int]));
        i = i + 1;
    }
    assert(a@.subrange(0, 32) =~= a@);
}

fn read_bytes_20(s: &[u8], offset: usize) -> (r: [u8; 20])
    requires
        offset + 20 <= s@.len(),
    ensures
        r@ == s@.subrange(offset as int, offset + 20),
{
    let n: usize = s.len();
    let mut b: [u8; 20] = [0u8; 20];
    let mut i: usize = 0;
    while i < 20
        invariant
            0 <= i <= 20,
            offset + 20 <= n,
            n == s@.len(),
            forall|j: int| 0 <= j < i ==> b[j] == s@[offset + j],
        decreases 20 - i,
    {
        b[i] = s[offset + i];
        i = i + 1;
    }
    assert(b@ =~= s@.subrange(offset as int, offset + 20));
    b
}

fn read_bytes_32(s: &[u8], offset: usize) -> (r: [u8; 32])
    requires
        offset + 32 <= s@.len(),
    ensures
        r@ == s@.subrange(offset as int, offset + 32),
{
    let n: usize = s.len();
    let mut b: [u8; 32] = [0u8; 32];
    let mut i: usize = 0;
    while i < 32
        invariant
            0 <= i <= 32,
            offset + 32 <= n,
            n == s@.len(),
            forall|j: int| 0 <= j < i ==> b[j] == s@[offset + j],
        decreases 32 - i,
    {
        b[i] = s[offset + i];
        i = i + 1;
    }
    assert(b@ =~= s@.subrange(offset as int, offset + 32));
    b
}

/// Fixed 20-byte encoding of a script hash.
pub struct ScriptHashCodec;

impl ScriptHashCodec {
    pub open spec fn spec_bytes(h: ScriptHash) -> Seq<u8> {
        h.bytes@
    }

    pub fn encode(h: &ScriptHash, out: &mut Vec<u8>)
        ensures
            final(out)@ == old(out)@ + Self::spec_bytes(*h),
    {
        put_bytes_20(out, &h.bytes);
    }

    pub fn decode(s: &[u8], offset: usize) -> (r: ScriptHash)
        requires
            offset + 20 <= s@.len(),
        ensures
            Self::spec_bytes(r) == s@.subrange(offset as int, offset + 20),
    {
        ScriptHash { bytes: read_bytes_20(s, offset) }
    }
}

/// Fixed 32-byte encoding of a transaction id.
pub struct TxidCodec;

impl TxidCodec {
    pub open spec fn spec_bytes(t: TransactionID) -> Seq<u8> {
        t.bytes@
    }

    pub fn encode(t: &TransactionID, out: &mut Vec<u8>)
        ensures
            final(out)@ == old(out)@ + Self::spec_bytes(*t),
    {
        put_bytes_32(out, &t.bytes);
    }

    pub fn decode(s: &[u8], offset: usize) -> (r: TransactionID)
        requires
            offset + 32 <= s@.len(),
        ensures
            Self::spec_bytes(r) == s@.subrange(offset as int, offset + 32),
    {
        TransactionID { bytes: read_bytes_32(s, offset) }
    }
}

/// Fixed 8-byte big-endian encoding of an amount of satoshis.
pub struct AmountCodec;

impl AmountCodec {
    pub open spec fn spec_bytes(a: Amount) -> Seq<u8> {
        spec_u64_to_be_bytes(a.satoshis)
    }

    pub fn encode(a: &Amount, out: &mut Vec<u8>)
        ensures
            final(out)@ == old(out)@ + Self::spec_bytes(*a),
    {
        put_u64_be(out, a.satoshis);
    }

    pub fn decode(s: &[u8], offset: usize) -> (r: Amount)
        requires
            offset + 8 <= s@.len(),
        ensures
            r.satoshis == spec_u64_from_be_bytes(s@.subrange(offset as int, offset + 8)),
    {
        Amount { satoshis: read_u64_be(s, offset) }
    }
}

/// Fixed 40-byte key encoding of an outpoint: the 32 txid bytes, then the
/// output index widened to a big-endian u64.
pub struct OutPointCodec;

impl OutPointCodec {
    pub open spec fn spec_bytes(op: OutPoint) -> Seq<u8> {
        op.txid.bytes@ + spec_u64_to_be_bytes(op.vout as u64)
    }

    pub fn encode(op: &OutPoint, out: &mut Vec<u8>)
        ensures
            final(out)@ == old(out)@ + Self::spec_bytes(*op),
    {
        put_bytes_32(out, &op.txid.bytes);
        put_u64_be(out, op.vout as u64);
        assert(out@ =~= old(out)@ + Self::spec_bytes(*op));
    }

    pub fn decode(s: &[u8]) -> (r: Result<OutPoint, CodecError>)
        ensures
            match r {
                Ok(op) => s@.len() == 40 && Self::spec_bytes(op) == s@,
                Err(_) => forall|op: OutPoint| s@ != Self::spec_bytes(op),
            },
    {
        if s.len() != 40 {
            proof {
                assert forall|op: OutPoint| s@ != Self::spec_bytes(op) by {
                    assert(Self::spec_bytes(op).len() == 40);
                }
            }
            return Err(CodecError::WrongLength);
        }
        let txid = TxidCodec::decode(s, 0);
        let wide = read_u64_be(s, 32);
        if wide > 0xffff_ffffu64 {
            // The schema always widens the index from u32, so the high bytes
            // of a well-formed key are zero.
            proof {
                assert forall|op: OutPoint| s@ != Self::spec_bytes(op) by {
                    if s@ == Self::spec_bytes(op) {
                        assert(s@.subrange(32, 40) =~= spec_u64_to_be_bytes(op.vout as u64));
                        lemma_u64_be_round_trip(op.vout as u64);
                        assert(wide == op.vout as u64);
                    }
                }
            }
            return Err(CodecError::WrongLength);
        }
        let op = OutPoint { txid, vout: wide as u32 };
        proof {
            lemma_u64_be_round_trip_on_seq(s@.subrange(32, 40));
            assert(Self::spec_bytes(op) =~= s@);
        }
        Ok(op)
    }
}

/// For an 8-byte sequence, re-encoding its big-endian value gives the
/// sequence back.
pub proof fn lemma_u64_be_round_trip_on_seq(s: Seq<u8>)
    requires
        s.len() == 8,
    ensures
        spec_u64_to_be_bytes(spec_u64_from_be_bytes(s)) == s,
{
    let x = spec_u64_from_be_bytes(s);
    let b0 = s[0];
    let b1 = s[1];
    let b2 = s[2];
    let b3 = s[3];
    let b4 = s[4];
    let b5 = s[5];
    let b6 = s[6];
    let b7 = s[7];
    assert({
        let x = ((b0 as u64) << 56) | ((b1 as u64) << 48) | ((b2 as u64) << 40) | ((b3 as u64)
            << 32) | ((b4 as u64) << 24) | ((b5 as u64) << 16) | ((b6 as u64) << 8) | (b7 as u64);
        ((x >> 56) & 0xff) as u8 == b0 && ((x >> 48) & 0xff) as u8 == b1 && ((x >> 40) & 0xff) as u8
            == b2 && ((x >> 32) & 0xff) as u8 == b3 && ((x >> 24) & 0xff) as u8 == b4 && ((x >> 16)
            & 0xff) as u8 == b5 && ((x >> 8) & 0xff) as u8 == b6 && (x & 0xff) as u8 == b7
    }) by (bit_vector);
    assert(spec_u64_to_be_bytes(x) =~= s);
}

/// For a 4-byte sequence, re-encoding its big-endian value gives the
/// sequence back.
pub proof fn lemma_u32_be_round_trip_on_seq(s: Seq<u8>)
    requires
        s.len() == 4,
    ensures
        spec_u32_to_be_bytes(spec_u32_from_be_bytes(s)) == s,
{
    let b0 = s[0];
    let b1 = s[1];
    let b2 = s[2];
    let b3 = s[3];
    assert({
        let x = ((b0 as u32) << 24) | ((b1 as u32) << 16) | ((b2 as u32) << 8) | (b3 as u32);
        ((x >> 24) & 0xff) as u8 == b0 && ((x >> 16) & 0xff) as u8 == b1 && ((x >> 8) & 0xff) as u8
            == b2 && (x & 0xff) as u8 == b3
    }) by (bit_vector);
    assert(spec_u32_to_be_bytes(spec_u32_from_be_bytes(s)) =~= s);
}

/// Value encoding of one output's durable state:
/// script hash (20) ‖ value (8, BE) ‖ generated height (4, BE) ‖ tag (1)
/// ‖ spent height (4, BE, only when the tag is 1).
pub open spec fn spec_txo_state_bytes(st: TXOState) -> Seq<u8> {
    st.locker_script_hash.bytes@ + spec_u64_to_be_bytes(st.value.satoshis) + spec_u32_to_be_bytes(
        st.generated_height,
    ) + match st.spent_height {
        None => seq![0u8],
        Some(h) => seq![1u8] + spec_u32_to_be_bytes(h),
    }
}

pub fn encode_txo_state(st: &TXOState) -> (r: Vec<u8>)
    ensures
        r@ == spec_txo_state_bytes(*st),
{
    let mut out: Vec<u8> = Vec::new();
    put_bytes_20(&mut out, &st.locker_script_hash.bytes);
    put_u64_be(&mut out, st.value.satoshis);
    put_u32_be(&mut out, st.generated_height);
    match st.spent_height {
        None => {
            out.push(0u8);
        },
        Some(h) => {
            out.push(1u8);
            put_u32_be(&mut out, h);
        },
    }
    assert(out@ =~= spec_txo_state_bytes(*st));
    out
}

pub fn decode_txo_state(s: &[u8]) -> (r: Result<TXOState, CodecError>)
    ensures
        match r {
            Ok(st) => s@ == spec_txo_state_bytes(st),
            Err(_) => forall|st: TXOState| s@ != spec_txo_state_bytes(st),
        },
{
    if s.len() != 33 && s.len() != 37 {
        proof {
            assert forall|st: TXOState| s@ != spec_txo_state_bytes(st) by {
                assert(spec_txo_state_bytes(st).len() == 33 || spec_txo_state_bytes(st).len()
                    == 37);
            }
        }
        return Err(CodecError::WrongLength);
    }
    let locker_script_hash = ScriptHashCodec::decode(s, 0);
    let value = AmountCodec::decode(s, 20);
    let generated_height = read_u32_be(s, 28);
    let tag = s[32];
    if tag == 0 && s.len() == 33 {
        let st = TXOState { locker_script_hash, value, generated_height, spent_height: None };
        proof {
            lemma_u64_be_round_trip_on_seq(s@.subrange(20, 28));
            lemma_u32_be_round_trip_on_seq(s@.subrange(28, 32));
            assert(spec_txo_state_bytes(st) =~= s@);
        }
        Ok(st)
    } else if tag == 1 && s.len() == 37 {
        let spent = read_u32_be(s, 33);
        let st = TXOState {
            locker_script_hash,
            value,
            generated_height,
            spent_height: Some(spent),
        };
        proof {
            lemma_u64_be_round_trip_on_seq(s@.subrange(20, 28));
            lemma_u32_be_round_trip_on_seq(s@.subrange(28, 32));
            lemma_u32_be_round_trip_on_seq(s@.subrange(33, 37));
            assert(spec_txo_state_bytes(st) =~= s@);
        }
        Ok(st)
    } else {
        proof {
            assert forall|st: TXOState| s@ != spec_txo_state_bytes(st) by {
                if s@ == spec_txo_state_bytes(st) {
                    assert(s@[32] == match st.spent_height {
                        None => 0u8,
                        Some(_) => 1u8,
                    });
                    assert(s@.len() == match st.spent_height {
                        None => 33int,
                        Some(_) => 37int,
                    });
                }
            }
        }
        Err(CodecError::BadTag)
    }
}

/// Encoding of one merge operand: a tag byte, then the delta.
/// Tag 1 is a generation (script hash ‖ value ‖ generated height), tag 2 a
/// spend (spent height).
pub open spec fn spec_txo_update_bytes(u: TXOUpdate) -> Seq<u8> {
    match u {
        TXOUpdate::Generated(g) => seq![1u8] + g.locker_script_hash.bytes@ + spec_u64_to_be_bytes(
            g.value.satoshis,
        ) + spec_u32_to_be_bytes(g.generated_height),
        TXOUpdate::Spent(sp) => seq![2u8] + spec_u32_to_be_bytes(sp.spent_height),
    }
}

pub fn encode_txo_update(u: &TXOUpdate) -> (r: Vec<u8>)
    ensures
        r@ == spec_txo_update_bytes(*u),
{
    let mut out: Vec<u8> = Vec::new();
    match u {
        TXOUpdate::Generated(g) => {
            out.push(1u8);
            put_bytes_20(&mut out, &g.locker_script_hash.bytes);
            put_u64_be(&mut out, g.value.satoshis);
            put_u32_be(&mut out, g.generated_height);
        },
        TXOUpdate::Spent(sp) => {
            out.push(2u8);
            put_u32_be(&mut out, sp.spent_height);
        },
    }
    assert(out@ =~= spec_txo_update_bytes(*u));
    out
}

pub fn decode_txo_update(s: &[u8]) -> (r: Result<TXOUpdate, CodecError>)
    ensures
        match r {
            Ok(u) => s@ == spec_txo_update_bytes(u),
            Err(_) => forall|u: TXOUpdate| s@ != spec_txo_update_bytes(u),
        },
{
    if s.len() == 33 && s[0] == 1 {
        let locker_script_hash = ScriptHashCodec::decode(s, 1);
        let value = AmountCodec::decode(s, 21);
        let generated_height = read_u32_be(s, 29);
        let u = TXOUpdate::Generated(
            TXOGenerated { locker_script_hash, value, generated_height },
        );
        proof {
            lemma_u64_be_round_trip_on_seq(s@.subrange(21, 29));
            lemma_u32_be_round_trip_on_seq(s@.subrange(29, 33));
            assert(spec_txo_update_bytes(u) =~= s@);
        }
        Ok(u)
    } else if s.len() == 5 && s[0] == 2 {
        let spent_height = read_u32_be(s, 1);
        let u = TXOUpdate::Spent(TXOSpent { spent_height });
        proof {
            lemma_u32_be_round_trip_on_seq(s@.subrange(1, 5));
            assert(spec_txo_update_bytes(u) =~= s@);
        }
        Ok(u)
    } else {
        proof {
            assert forall|u: TXOUpdate| s@ != spec_txo_update_bytes(u) by {
                if s@ == spec_txo_update_bytes(u) {
                    match u {
                        TXOUpdate::Generated(_) => {
                            assert(s@.len() == 33 && s@[0] == 1);
                        },
                        TXOUpdate::Spent(_) => {
                            assert(s@.len() == 5 && s@[0] == 2);
                        },
                    }
                }
            }
        }
        Err(CodecError::BadTag)
    }
}

/// Strict lexicographic order on byte strings of equal length.
pub open spec fn spec_lex_lt(a: Seq<u8>, b: Seq<u8>) -> bool
    decreases a.len(),
{
    if a.len() == 0 || b.len() == 0 {
        false
    } else if a[0] < b[0] {
        true
    } else if a[0] > b[0] {
        false
    } else {
        spec_lex_lt(a.drop_first(), b.drop_first())
    }
}

/// Law: the big-endian height keys sort exactly as the heights do, so range
/// scans of the height table walk the chain in order and its last key is the
/// tip.
pub proof fn lemma_height_key_order(x: u32, y: u32)
    ensures
        (x < y) <==> spec_lex_lt(spec_u32_to_be_bytes(x), spec_u32_to_be_bytes(y)),
{
    let a = spec_u32_to_be_bytes(x);
    let b = spec_u32_to_be_bytes(y);
    assert((x < y) <==> ({
        let x0 = ((x >> 24) & 0xff) as u8;
        let x1 = ((x >> 16) & 0xff) as u8;
        let x2 = ((x >> 8) & 0xff) as u8;
        let x3 = (x & 0xff) as u8;
        let y0 = ((y >> 24) & 0xff) as u8;
        let y1 = ((y >> 16) & 0xff) as u8;
        let y2 = ((y >> 8) & 0xff) as u8;
        let y3 = (y & 0xff) as u8;
        x0 < y0 || (x0 == y0 && (x1 < y1 || (x1 == y1 && (x2 < y2 || (x2 == y2 && x3 < y3)))))
    })) by (bit_vector);
    let a1 = a.drop_first();
    let b1 = b.drop_first();
    let a2 = a1.drop_first();
    let b2 = b1.drop_first();
    let a3 = a2.drop_first();
    let b3 = b2.drop_first();
    assert(a1 =~= seq![a[1], a[2], a[3]]);
    assert(a2 =~= seq![a[2], a[3]]);
    assert(a3 =~= seq![a[3]]);
    assert(b1 =~= seq![b[1], b[2], b[3]]);
    assert(b2 =~= seq![b[2], b[3]]);
    assert(b3 =~= seq![b[3]]);
    assert(a3.drop_first().len() == 0);
    assert(!spec_lex_lt(a3.drop_first(), b3.drop_first()));
    assert(spec_lex_lt(a3, b3) == (a[3] < b[3]));
    assert(spec_lex_lt(a2, b2) == (a[2] < b[2] || (a[2] == b[2] && spec_lex_lt(a3, b3))));
    assert(spec_lex_lt(a1, b1) == (a[1] < b[1] || (a[1] == b[1] && spec_lex_lt(a2, b2))));
    assert(spec_lex_lt(a, b) == (a[0] < b[0] || (a[0] == b[0] && spec_lex_lt(a1, b1))));
}

/// Key of the per-script presence index: script hash ‖ outpoint.
pub open spec fn spec_script_outpoint_key(h: ScriptHash, op: OutPoint) -> Seq<u8> {
    h.bytes@ + OutPointCodec::spec_bytes(op)
}

pub fn encode_script_outpoint_key(h: &ScriptHash, op: &OutPoint) -> (r: Vec<u8>)
    ensures
        r@ == spec_script_outpoint_key(*h, *op),
{
    let mut out: Vec<u8> = Vec::new();
    put_bytes_20(&mut out, &h.bytes);
    OutPointCodec::encode(op, &mut out);
    assert(out@ =~= spec_script_outpoint_key(*h, *op));
    out
}

/// Key of the per-height presence indices: height (4, BE) ‖ outpoint.
pub open spec fn spec_height_outpoint_key(h: BlockHeight, op: OutPoint) -> Seq<u8> {
    spec_u32_to_be_bytes(h) + OutPointCodec::spec_bytes(op)
}

pub fn encode_height_outpoint_key(h: BlockHeight, op: &OutPoint) -> (r: Vec<u8>)
    ensures
        r@ == spec_height_outpoint_key(h, *op),
{
    let mut out: Vec<u8> = Vec::new();
    put_u32_be(&mut out, h);
    OutPointCodec::encode(op, &mut out);
    assert(out@ =~= spec_height_outpoint_key(h, *op));
    out
}

} // verus!
