use chain_index::api::ReadError;
use chain_index::batch::Batch;
use chain_index::block::{script_hash160, Block, Script, Transaction, TxInput, TxOutput};
use chain_index::store::{Store, StoreError};
use chain_index::types::{Amount, BlockHash, OutPoint, ScriptHash, TransactionID};

fn hash_bytes_32<T: bitcoin::hashes::Hash<Bytes = [u8; 32]>>(h: T) -> [u8; 32] {
    h.to_byte_array()
}

fn hash_bytes_20<T: bitcoin::hashes::Hash<Bytes = [u8; 20]>>(h: T) -> [u8; 20] {
    h.to_byte_array()
}

fn block_hash(tag: u8) -> BlockHash {
    BlockHash { bytes: [tag; 32] }
}

fn txid(tag: u8) -> TransactionID {
    TransactionID { bytes: [tag; 32] }
}

fn script(tag: u8) -> Script {
    Script { bytes: vec![tag, tag, tag] }
}

fn coinbase_tx(id: u8, value: u64, script_tag: u8) -> Transaction {
    Transaction {
        txid: txid(id),
        vin: vec![TxInput::Coinbase],
        vout: vec![TxOutput { value: Amount { satoshis: value }, script_pubkey: script(script_tag) }],
    }
}

fn empty_block(tag: u8) -> Block {
    Block { hash: block_hash(tag), txdata: vec![] }
}

#[test]
fn empty_store_then_genesis() {
    // The canonical genesis block, taken from the bitcoin crate.
    let gb = bitcoin::blockdata::constants::genesis_block(bitcoin::Network::Bitcoin);
    let gtx = &gb.txdata[0];
    let gtxid = gtx.compute_txid();
    let block = Block {
        hash: BlockHash { bytes: hash_bytes_32(gb.block_hash()) },
        txdata: vec![Transaction {
            txid: TransactionID { bytes: hash_bytes_32(gtxid) },
            vin: vec![TxInput::Coinbase],
            vout: vec![TxOutput {
                value: Amount { satoshis: gtx.output[0].value.to_sat() },
                script_pubkey: Script { bytes: gtx.output[0].script_pubkey.to_bytes() },
            }],
        }],
    };

    let mut store = Store::new();
    assert!(store.get_tip_block().is_none());
    let batch = Batch::build(0, vec![block]);
    store.apply_batch(&batch).unwrap();

    let tip = store.get_tip_block().unwrap();
    assert_eq!(tip.0, 0);
    assert_eq!(tip.1.bytes, hash_bytes_32(gb.block_hash()));

    assert_eq!(store.txos.len(), 1);
    let (op, state) = store.txos[0];
    assert_eq!(op.txid.bytes, hash_bytes_32(gtxid));
    assert_eq!(op.vout, 0);
    assert_eq!(state.value.satoshis, 5_000_000_000);
    assert_eq!(state.generated_height, 0);
    assert_eq!(state.spent_height, None);
    // The stored script hash is what bitcoin computes for the genesis script.
    assert_eq!(
        state.locker_script_hash.bytes,
        hash_bytes_20(gtx.output[0].script_pubkey.script_hash())
    );
}

#[test]
fn simple_pay_chain() {
    // Height 0 creates the coin; height 1 spends it entirely to script S1.
    let genesis = Block { hash: block_hash(0), txdata: vec![coinbase_tx(10, 5_000_000_000, 1)] };
    let pay = Block {
        hash: block_hash(1),
        txdata: vec![Transaction {
            txid: txid(11),
            vin: vec![TxInput::Normal { txid: txid(10), vout: 0 }],
            vout: vec![TxOutput {
                value: Amount { satoshis: 5_000_000_000 },
                script_pubkey: script(2),
            }],
        }],
    };
    let s0 = script_hash160(&script(1));
    let s1 = script_hash160(&script(2));

    let mut store = Store::new();
    let batch = Batch::build(0, vec![genesis, pay]);
    store.apply_batch(&batch).unwrap();

    let states = store
        .get_txos(&vec![
            OutPoint { txid: txid(10), vout: 0 },
            OutPoint { txid: txid(11), vout: 0 },
        ])
        .unwrap();
    let spent = states[0].unwrap();
    assert_eq!(spent.spent_height, Some(1));
    let fresh = states[1].unwrap();
    assert_eq!(fresh.value.satoshis, 5_000_000_000);
    assert_eq!(fresh.generated_height, 1);
    assert_eq!(fresh.spent_height, None);

    assert_eq!(store.balance(&s1, Some(1)).satoshis, 5_000_000_000);
    assert_eq!(store.balance(&s0, Some(1)).satoshis, 0);
}

#[test]
fn batched_lookup_demands_key_order() {
    let b0 = Block { hash: block_hash(0), txdata: vec![coinbase_tx(10, 5, 1)] };
    let b1 = Block { hash: block_hash(1), txdata: vec![coinbase_tx(11, 7, 1)] };
    let mut store = Store::new();
    store.apply_batch(&Batch::build(0, vec![b0, b1])).unwrap();
    let unsorted = vec![OutPoint { txid: txid(11), vout: 0 }, OutPoint { txid: txid(10), vout: 0 }];
    assert!(matches!(store.get_txos(&unsorted), Err(ReadError::UnsortedOutpoints)));
    let sorted = vec![OutPoint { txid: txid(10), vout: 0 }, OutPoint { txid: txid(11), vout: 0 }];
    assert!(store.get_txos(&sorted).is_ok());
}

#[test]
fn balance_history_of_three_changes() {
    // h=1 creates 10 BTC to S, h=2 adds 3 BTC, h=3 spends 4 BTC of it.
    let b0 = empty_block(0);
    let b1 = Block { hash: block_hash(1), txdata: vec![coinbase_tx(21, 1_000_000_000, 7)] };
    let b2 = Block { hash: block_hash(2), txdata: vec![coinbase_tx(22, 300_000_000, 7)] };
    let b3 = Block {
        hash: block_hash(3),
        txdata: vec![Transaction {
            txid: txid(23),
            vin: vec![TxInput::Normal { txid: txid(21), vout: 0 }],
            vout: vec![
                TxOutput { value: Amount { satoshis: 600_000_000 }, script_pubkey: script(7) },
                TxOutput { value: Amount { satoshis: 400_000_000 }, script_pubkey: script(9) },
            ],
        }],
    };
    let s = script_hash160(&script(7));

    let mut store = Store::new();
    let batch = Batch::build(0, vec![b0, b1, b2, b3]);
    store.apply_batch(&batch).unwrap();

    let history = store.balance_history(&s);
    let history: Vec<(u32, u64)> = history.iter().map(|(h, a)| (*h, a.satoshis)).collect();
    assert_eq!(history, vec![(1, 1_000_000_000), (2, 1_300_000_000), (3, 900_000_000)]);
    assert_eq!(store.balance(&s, Some(2)).satoshis, 1_300_000_000);
    assert_eq!(store.balance(&s, Some(5)).satoshis, 900_000_000);
    assert_eq!(store.balance(&s, None).satoshis, 900_000_000);
    assert_eq!(store.recent_balance(&s).satoshis, 900_000_000);
}

#[test]
fn duplicate_coinbase_keeps_later_height() {
    // Two blocks whose coinbase transactions share a txid: the second state,
    // at the strictly greater height, is retained.
    let b0 = Block { hash: block_hash(0), txdata: vec![coinbase_tx(31, 5_000_000_000, 3)] };
    let b1 = Block { hash: block_hash(1), txdata: vec![coinbase_tx(31, 5_000_000_000, 3)] };

    let mut store = Store::new();
    let batch = Batch::build(0, vec![b0, b1]);
    store.apply_batch(&batch).unwrap();

    assert_eq!(store.txos.len(), 1);
    let (op, state) = store.txos[0];
    assert_eq!(op.txid, txid(31));
    assert_eq!(state.generated_height, 1);
    assert_eq!(state.spent_height, None);
}

#[test]
fn non_contiguous_batch_is_rejected() {
    // Tip 100; a batch starting at 102 is refused and nothing changes.
    let mut blocks = Vec::new();
    for i in 0..101u32 {
        blocks.push(empty_block(i as u8));
    }
    let mut store = Store::new();
    store.apply_batch(&Batch::build(0, blocks)).unwrap();
    assert_eq!(store.get_tip_block().unwrap().0, 100);

    let stray = Batch::build(102, vec![empty_block(200)]);
    let result = store.apply_batch(&stray);
    match result {
        Err(StoreError::NonContiguousBatch { start_height, tip_height }) => {
            assert_eq!(start_height, 102);
            assert_eq!(tip_height, Some(100));
        },
        _ => panic!("a non-contiguous batch must be refused"),
    }
    // On-disk state unchanged: same tip, no outputs.
    assert_eq!(store.get_tip_block().unwrap().0, 100);
    assert_eq!(store.txos.len(), 0);
}

#[test]
fn reader_sees_old_or_new_tip_never_between() {
    // A batch covering heights 101..=200 is one atomic commit: a read before
    // sees 100, a read after sees 200.
    let mut blocks = Vec::new();
    for i in 0..101u32 {
        blocks.push(empty_block(i as u8));
    }
    let mut store = Store::new();
    store.apply_batch(&Batch::build(0, blocks)).unwrap();
    assert_eq!(store.get_tip_block().unwrap().0, 100);

    let mut more = Vec::new();
    for i in 101..201u32 {
        more.push(Block { hash: BlockHash { bytes: [(i % 251) as u8 + 1; 32] }, txdata: vec![] });
    }
    assert_eq!(store.get_tip_block().unwrap().0, 100);
    store.apply_batch(&Batch::build(101, more)).unwrap();
    assert_eq!(store.get_tip_block().unwrap().0, 200);
}

#[test]
fn replay_in_halves_matches_whole() {
    // The same four blocks applied as one batch, or as two batches of two,
    // leave identical output-state tables.
    let b0 = Block { hash: block_hash(0), txdata: vec![coinbase_tx(41, 800, 4)] };
    let b1 = Block { hash: block_hash(1), txdata: vec![coinbase_tx(42, 500, 5)] };
    let b2 = Block {
        hash: block_hash(2),
        txdata: vec![Transaction {
            txid: txid(43),
            vin: vec![TxInput::Normal { txid: txid(41), vout: 0 }],
            vout: vec![TxOutput { value: Amount { satoshis: 800 }, script_pubkey: script(5) }],
        }],
    };
    let b3 = Block { hash: block_hash(3), txdata: vec![coinbase_tx(44, 60, 4)] };
    let blocks = vec![b0, b1, b2, b3];

    let mut whole = Store::new();
    whole.apply_batch(&Batch::build(0, blocks.clone())).unwrap();

    let mut halves = Store::new();
    halves.apply_batch(&Batch::build(0, blocks[0..2].to_vec())).unwrap();
    halves.apply_batch(&Batch::build(2, blocks[2..4].to_vec())).unwrap();

    assert_eq!(whole.txos.len(), halves.txos.len());
    for (op, state) in &whole.txos {
        let found = halves.get_txos(&vec![*op]).unwrap();
        assert_eq!(found[0], Some(*state));
    }
    assert_eq!(whole.get_tip_block(), halves.get_tip_block());
}

#[test]
fn spend_of_unknown_outpoint_is_fatal() {
    let b0 = Block {
        hash: block_hash(0),
        txdata: vec![Transaction {
            txid: txid(51),
            vin: vec![TxInput::Normal { txid: txid(99), vout: 0 }],
            vout: vec![],
        }],
    };
    let mut store = Store::new();
    let result = store.apply_batch(&Batch::build(0, vec![b0]));
    match result {
        Err(StoreError::UnknownOutpoint { outpoint }) => {
            assert_eq!(outpoint.txid, txid(99));
        },
        _ => panic!("spending an unknown outpoint must be fatal"),
    }
    assert!(store.get_tip_block().is_none());
}

#[test]
fn non_monotonic_coinbase_replay_is_fatal() {
    // The same coinbase txid at the same height: no strictly greater height,
    // so the merge is refused and the store stays empty.
    let b0 = Block {
        hash: block_hash(0),
        txdata: vec![coinbase_tx(61, 100, 1), coinbase_tx(61, 100, 1)],
    };
    let mut store = Store::new();
    let result = store.apply_batch(&Batch::build(0, vec![b0]));
    match result {
        Err(StoreError::NonMonotonicCoinbase { outpoint }) => {
            assert_eq!(outpoint.txid, txid(61));
        },
        _ => panic!("an equal-height coinbase replay must be fatal"),
    }
    assert_eq!(store.txos.len(), 0);
}

#[test]
fn duplicate_non_coinbase_output_is_fatal() {
    // Two generations of the same outpoint with vout 1: not a coinbase
    // collision, so fatal.
    let tx = Transaction {
        txid: txid(71),
        vin: vec![TxInput::Coinbase],
        vout: vec![
            TxOutput { value: Amount { satoshis: 1 }, script_pubkey: script(1) },
            TxOutput { value: Amount { satoshis: 2 }, script_pubkey: script(1) },
        ],
    };
    let b0 = Block { hash: block_hash(0), txdata: vec![tx.clone()] };
    let b1 = Block { hash: block_hash(1), txdata: vec![tx] };
    let mut store = Store::new();
    let result = store.apply_batch(&Batch::build(0, vec![b0, b1]));
    match result {
        Err(StoreError::DuplicateOutput { outpoint }) => {
            assert_eq!(outpoint.vout, 1);
        },
        _ => panic!("a duplicate non-coinbase output must be fatal"),
    }
}

#[test]
fn block_tables_agree_on_every_height() {
    let mut blocks = Vec::new();
    for i in 0..10u32 {
        blocks.push(empty_block((i as u8) * 3 + 1));
    }
    let mut store = Store::new();
    store.apply_batch(&Batch::build(0, blocks)).unwrap();
    assert_eq!(store.height_to_hash.len(), 10);
    assert_eq!(store.hash_to_height.len(), 10);
    for h in 0..10usize {
        let hash = store.height_to_hash[h];
        assert!(store.hash_to_height.iter().any(|(x, i)| *x == hash && *i as usize == h));
        assert_eq!(store.hash_to_height[h].0, hash);
        assert_eq!(store.hash_to_height[h].1 as usize, h);
    }
}

#[test]
fn presence_indices_cover_every_output() {
    let b0 = Block { hash: block_hash(0), txdata: vec![coinbase_tx(81, 700, 8)] };
    let b1 = Block {
        hash: block_hash(1),
        txdata: vec![Transaction {
            txid: txid(82),
            vin: vec![TxInput::Normal { txid: txid(81), vout: 0 }],
            vout: vec![TxOutput { value: Amount { satoshis: 700 }, script_pubkey: script(9) }],
        }],
    };
    let mut store = Store::new();
    store.apply_batch(&Batch::build(0, vec![b0, b1])).unwrap();

    for (op, state) in &store.txos {
        assert!(store
            .script_index
            .iter()
            .any(|(sh, o)| *sh == state.locker_script_hash && o == op));
        assert!(store
            .generated_index
            .iter()
            .any(|(h, o)| *h == state.generated_height && o == op));
        if let Some(sp) = state.spent_height {
            assert!(store.spent_index.iter().any(|(h, o)| *h == sp && o == op));
        }
    }
    // And the per-script read path walks the index to the same outputs.
    let s9 = script_hash160(&script(9));
    let ops = store.get_locker_script_txos(&s9);
    assert_eq!(ops, vec![OutPoint { txid: txid(82), vout: 0 }]);
}
