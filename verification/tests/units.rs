use chain_index::account::{apply_balance_changes, AccountError, AccountState, BalanceChange};
use chain_index::api::{decode_hex, locker_script_from_hex, ReadError};
use chain_index::block::{script_hash160, Script};
use chain_index::codec::{
    decode_txo_state, decode_txo_update, encode_height_outpoint_key, encode_script_outpoint_key,
    encode_txo_state, encode_txo_update, put_u32_be, put_u64_be, read_u32_be, read_u64_be,
    AmountCodec, CodecError, OutPointCodec, ScriptHashCodec, TxidCodec,
};
use chain_index::fetch::{accept_header_window, next_start_height, BlocksDirReader, Header};
use chain_index::hash::{CollidingOutPoint, CollidingScriptHash, LazyHasher, LazyHasherBuilder};
use chain_index::id::IDGenerator;
use chain_index::script::{Assembly, Operator, PublicKey, PublicKeyHash, ScriptError, StandardScript};
use chain_index::sorted_vec::{SortedEntry, SortedMap, SortedVec};
use chain_index::store::merge_txo_update;
use chain_index::types::{Amount, BlockHash, OutPoint, ScriptHash, TransactionID, TXOGenerated, TXOSpent, TXOState, TXOUpdate};

fn txid(tag: u8) -> TransactionID {
    TransactionID { bytes: [tag; 32] }
}

fn outpoint(tag: u8, vout: u32) -> OutPoint {
    OutPoint { txid: txid(tag), vout }
}

fn script_hash(tag: u8) -> ScriptHash {
    ScriptHash { bytes: [tag; 20] }
}

#[test]
fn integer_codecs_round_trip() {
    let mut buf = Vec::new();
    put_u32_be(&mut buf, 0x0102_0304);
    assert_eq!(buf, vec![1, 2, 3, 4]);
    assert_eq!(read_u32_be(&buf, 0), 0x0102_0304);

    let mut buf = Vec::new();
    put_u64_be(&mut buf, 0x0102_0304_0506_0708);
    assert_eq!(buf, vec![1, 2, 3, 4, 5, 6, 7, 8]);
    assert_eq!(read_u64_be(&buf, 0), 0x0102_0304_0506_0708);
}

#[test]
fn outpoint_codec_round_trip() {
    let op = outpoint(9, 7);
    let mut key = Vec::new();
    OutPointCodec::encode(&op, &mut key);
    assert_eq!(key.len(), 40);
    assert_eq!(&key[0..32], &[9u8; 32]);
    // The index is widened to a big-endian u64.
    assert_eq!(&key[32..40], &[0, 0, 0, 0, 0, 0, 0, 7]);
    assert_eq!(OutPointCodec::decode(&key).unwrap(), op);
    assert_eq!(OutPointCodec::decode(&key[0..39]), Err(CodecError::WrongLength));
}

#[test]
fn entity_codecs_round_trip() {
    let st = TXOState {
        locker_script_hash: script_hash(5),
        value: Amount { satoshis: 5_000_000_000 },
        generated_height: 17,
        spent_height: None,
    };
    let bytes = encode_txo_state(&st);
    assert_eq!(bytes.len(), 33);
    assert_eq!(decode_txo_state(&bytes).unwrap(), st);

    let spent = TXOState { spent_height: Some(44), ..st };
    let bytes = encode_txo_state(&spent);
    assert_eq!(bytes.len(), 37);
    assert_eq!(decode_txo_state(&bytes).unwrap(), spent);

    assert_eq!(decode_txo_state(&bytes[0..30]), Err(CodecError::WrongLength));
    let mut bad_tag = encode_txo_state(&st);
    bad_tag[32] = 9;
    assert_eq!(decode_txo_state(&bad_tag), Err(CodecError::BadTag));

    let g = TXOUpdate::Generated(TXOGenerated {
        locker_script_hash: script_hash(5),
        value: Amount { satoshis: 123 },
        generated_height: 6,
    });
    assert_eq!(decode_txo_update(&encode_txo_update(&g)).unwrap(), g);
    let s = TXOUpdate::Spent(TXOSpent { spent_height: 9 });
    assert_eq!(decode_txo_update(&encode_txo_update(&s)).unwrap(), s);
    assert_eq!(decode_txo_update(&[3, 4]), Err(CodecError::BadTag));

    let mut sh = Vec::new();
    ScriptHashCodec::encode(&script_hash(2), &mut sh);
    assert_eq!(ScriptHashCodec::decode(&sh, 0), script_hash(2));
    let mut t = Vec::new();
    TxidCodec::encode(&txid(3), &mut t);
    assert_eq!(TxidCodec::decode(&t, 0), txid(3));
    let mut a = Vec::new();
    AmountCodec::encode(&Amount { satoshis: 21_000_000 }, &mut a);
    assert_eq!(AmountCodec::decode(&a, 0), Amount { satoshis: 21_000_000 });
}

#[test]
fn composite_keys_have_fixed_layout() {
    let key = encode_script_outpoint_key(&script_hash(7), &outpoint(8, 1));
    assert_eq!(key.len(), 60);
    assert_eq!(&key[0..20], &[7u8; 20]);
    let key = encode_height_outpoint_key(0x0a0b_0c0d, &outpoint(8, 1));
    assert_eq!(key.len(), 44);
    assert_eq!(&key[0..4], &[0x0a, 0x0b, 0x0c, 0x0d]);
}

#[test]
fn merge_rules_on_single_operands() {
    let op0 = outpoint(1, 0);
    let g = TXOGenerated {
        locker_script_hash: script_hash(1),
        value: Amount { satoshis: 10 },
        generated_height: 3,
    };
    let fresh = merge_txo_update(None, &op0, &TXOUpdate::Generated(g)).unwrap();
    assert_eq!(fresh.generated_height, 3);
    assert_eq!(fresh.spent_height, None);

    // A later coinbase generation replaces; an equal one is refused.
    let later = TXOGenerated { generated_height: 5, ..g };
    let replaced = merge_txo_update(Some(fresh), &op0, &TXOUpdate::Generated(later)).unwrap();
    assert_eq!(replaced.generated_height, 5);
    assert!(merge_txo_update(Some(fresh), &op0, &TXOUpdate::Generated(g)).is_err());

    // At a non-coinbase index any duplicate is refused.
    let op1 = outpoint(1, 1);
    assert!(merge_txo_update(Some(fresh), &op1, &TXOUpdate::Generated(later)).is_err());

    // Spending an unknown output is refused; spending a known one marks it.
    assert!(merge_txo_update(None, &op0, &TXOUpdate::Spent(TXOSpent { spent_height: 9 })).is_err());
    let spent = merge_txo_update(Some(fresh), &op0, &TXOUpdate::Spent(TXOSpent { spent_height: 9 }))
        .unwrap();
    assert_eq!(spent.spent_height, Some(9));
    assert_eq!(spent.value, fresh.value);
}

#[test]
fn script_hash_wrapper_matches_bitcoin() {
    let bytes = vec![0x76, 0xa9, 0x14, 0xaa, 0xbb];
    let ours = script_hash160(&Script { bytes: bytes.clone() });
    let theirs = bitcoin::Script::from_bytes(&bytes).script_hash();
    let theirs_bytes: [u8; 20] = bitcoin::hashes::Hash::to_byte_array(theirs);
    assert_eq!(ours.bytes, theirs_bytes);
    // A digest, not the input handed back.
    assert_ne!(&ours.bytes[..], &bytes[..]);
}

#[test]
fn operator_parsing_and_assembly() {
    assert!(matches!(Operator::parse(&[0x76]), Ok(Operator::DUP)));
    assert!(matches!(Operator::parse(&[0xa9]), Ok(Operator::HASH160)));
    assert!(matches!(Operator::parse(&[0x88]), Ok(Operator::EQUALVERIFY)));
    assert!(matches!(Operator::parse(&[0xac]), Ok(Operator::CHECKSIG)));
    assert!(matches!(Operator::parse(&[]), Err(ScriptError::Empty)));
    assert!(matches!(Operator::parse(&[0x60]), Err(ScriptError::UnsupportedOpcode { opcode: 0x60 })));
    assert!(matches!(Operator::parse(&[0x03, 1, 2]), Err(ScriptError::PushOverrun)));
    match Operator::parse(&[0x02, 5, 6, 7]) {
        Ok(Operator::PUSHBYTES { bytes }) => assert_eq!(bytes, vec![5, 6]),
        _ => panic!("a two-byte push was expected"),
    }

    // A p2pkh script parses into five operators and re-assembles exactly.
    let mut p2pkh = vec![0x76, 0xa9, 0x14];
    p2pkh.extend_from_slice(&[0xcd; 20]);
    p2pkh.extend_from_slice(&[0x88, 0xac]);
    let assembly = Assembly::parse(&p2pkh).unwrap();
    assert_eq!(assembly.operators.len(), 5);
    assert_eq!(assembly.size(), p2pkh.len());
    assert_eq!(assembly.to_bytes(), p2pkh);
    match StandardScript::classify(&assembly) {
        Ok(StandardScript::P2PKH { pubkey_hash }) => {
            assert_eq!(pubkey_hash.bytes, [0xcd; 20]);
        },
        _ => panic!("a p2pkh script was expected"),
    }

    // A p2pk script with a compressed key.
    let mut p2pk = vec![0x21, 0x02];
    p2pk.extend_from_slice(&[0xee; 32]);
    p2pk.push(0xac);
    let assembly = Assembly::parse(&p2pk).unwrap();
    match StandardScript::classify(&assembly) {
        Ok(StandardScript::P2PK { pubkey: PublicKey::Compressed { bytes } }) => {
            assert_eq!(bytes[0], 0x02);
        },
        _ => panic!("a compressed p2pk script was expected"),
    }

    // Anything else is not standard.
    let assembly = Assembly::parse(&[0x76]).unwrap();
    assert!(matches!(StandardScript::classify(&assembly), Err(ScriptError::NonStandard)));
    assert!(Assembly::parse(&[0x03, 1, 2]).is_err());
}

#[test]
fn public_key_forms() {
    let mut c = [0u8; 33];
    c[0] = 3;
    assert!(matches!(PublicKey::parse_compressed(&c), Ok(PublicKey::Compressed { .. })));
    c[0] = 5;
    assert!(matches!(PublicKey::parse_compressed(&c), Err(ScriptError::BadPrefix { prefix: 5 })));

    let mut u = [0u8; 65];
    u[0] = 4;
    assert!(matches!(PublicKey::parse_uncompressed(&u), Ok(PublicKey::Uncompressed { .. })));
    u[0] = 2;
    assert!(PublicKey::parse_uncompressed(&u).is_err());

    assert!(matches!(PublicKey::parse(&[0u8; 33]), Ok(PublicKey::Compressed { .. })));
    assert!(matches!(PublicKey::parse(&[0u8; 65]), Ok(PublicKey::Uncompressed { .. })));
    assert!(PublicKey::parse(&[0u8; 40]).is_err());
    assert!(PublicKeyHash::parse(&[1u8; 20]).is_ok());
    assert!(PublicKeyHash::parse(&[1u8; 21]).is_err());
}

#[test]
fn sorted_collections() {
    let mut v: SortedVec<u32> = SortedVec::empty();
    assert!(v.is_empty());
    v.append(SortedEntry { key: 1, value: 10 });
    v.append(SortedEntry { key: 5, value: 50 });
    assert_eq!(v.len(), 2);
    assert_eq!(v.find(5), Some(1));
    assert_eq!(v.find(3), None);

    let entries = vec![
        SortedEntry { key: 2, value: 20u64 },
        SortedEntry { key: 4, value: 40 },
        SortedEntry { key: 9, value: 90 },
    ];
    let mut m: SortedMap<u64> = SortedMap::ingest(entries);
    assert_eq!(m.get(4), Some(&40));
    assert_eq!(m.get(5), None);
    assert_eq!(m.remove(4), Some(40));
    assert_eq!(m.get(4), None);
    assert_eq!(m.remove(4), None);
    m.append(100, 7);
    assert_eq!(m.get(100), Some(&7));
    assert!(!m.is_empty());
    assert!(SortedMap::<u64>::empty().is_empty());
}

#[test]
fn locker_script_resolution_from_hex() {
    let script_bytes = vec![0x76u8, 0xa9, 0x14, 0xaa, 0xbb];
    let resolved = locker_script_from_hex(b"76a914aabb").unwrap();
    assert_eq!(resolved, script_hash160(&Script { bytes: script_bytes.clone() }));
    assert_eq!(decode_hex(b"76A914AABB").unwrap(), script_bytes);
    assert!(matches!(decode_hex(b"abc"), Err(ReadError::InvalidHex)));
    assert!(matches!(decode_hex(b"zz"), Err(ReadError::InvalidHex)));
}

#[test]
fn account_fold_tracks_running_balance() {
    let changes = vec![
        BalanceChange { height: 1, delta: 1_000_000_000 },
        BalanceChange { height: 2, delta: 300_000_000 },
        BalanceChange { height: 3, delta: -400_000_000 },
    ];
    let st = apply_balance_changes(AccountState::empty(), &changes).unwrap();
    assert_eq!(st.recent_balance.satoshis, 900_000_000);
    assert_eq!(st.balance_history.len(), 3);
    let points: Vec<(u64, u64)> = (0..3)
        .map(|i| {
            let e = st.balance_history.entry_at(i);
            (e.key, e.value.satoshis)
        })
        .collect();
    assert_eq!(points, vec![(1, 1_000_000_000), (2, 1_300_000_000), (3, 900_000_000)]);

    // A change below zero is refused: it means broken invariants upstream.
    let negative = apply_balance_changes(
        AccountState::empty(),
        &vec![BalanceChange { height: 1, delta: -5 }],
    );
    assert!(matches!(negative, Err(AccountError::NegativeBalance)));
}

#[test]
fn lazy_hashing_passes_keys_through() {
    let mut hasher = LazyHasher::new();
    assert_eq!(hasher.finish(), 0);
    hasher.write_u64(0xdead_beef);
    assert_eq!(hasher.finish(), 0xdead_beef);
    assert_eq!(LazyHasherBuilder::new().build_hasher().finish(), 0);

    let mut id = [0u8; 32];
    id[0] = 1;
    // Little-endian prefix 1, plus the index.
    let c = CollidingOutPoint::new(OutPoint { txid: TransactionID { bytes: id }, vout: 3 });
    assert_eq!(c.hash_key(), 4);
    let mut sh = [0u8; 20];
    sh[1] = 2;
    let c = CollidingScriptHash::new(ScriptHash { bytes: sh });
    assert_eq!(c.hash_key(), 0x200);
}

#[test]
fn id_generation_counts_up() {
    let mut generator = IDGenerator::new(7);
    assert_eq!(generator.generate_id(), 7);
    assert_eq!(generator.generate_id(), 8);
    let mut wrapping = IDGenerator::new(u64::MAX);
    assert_eq!(wrapping.generate_id(), u64::MAX);
    assert_eq!(wrapping.generate_id(), 0);
}

#[test]
fn header_windows_drop_duplicated_first() {
    let h = |tag: u8| Header {
        block_hash: BlockHash { bytes: [tag; 32] },
        prev_block_hash: BlockHash { bytes: [tag.wrapping_sub(1); 32] },
    };
    let first = accept_header_window(vec![h(1), h(2), h(3)], false);
    assert_eq!(first.emit.len(), 3);
    assert_eq!(first.next_hash, Some(BlockHash { bytes: [3; 32] }));

    let later = accept_header_window(vec![h(3), h(4)], true);
    assert_eq!(later.emit.len(), 1);
    assert_eq!(later.emit[0].block_hash, BlockHash { bytes: [4; 32] });
    assert_eq!(later.next_hash, Some(BlockHash { bytes: [4; 32] }));

    // A window that repeats only the known header signals the tip.
    let tip = accept_header_window(vec![h(4)], true);
    assert_eq!(tip.emit.len(), 0);
    assert_eq!(tip.next_hash, None);

    assert_eq!(next_start_height(None), 0);
    assert_eq!(next_start_height(Some((100, BlockHash { bytes: [0; 32] }))), 101);

    let reader = BlocksDirReader::try_open("blocks".to_string()).unwrap();
    assert_eq!(reader.blocks_dir().as_str(), "blocks");
}

#[test]
fn null_outpoint_detection() {
    let null = OutPoint { txid: TransactionID { bytes: [0; 32] }, vout: 0xffff_ffff };
    assert!(null.is_null());
    let not_null = OutPoint { txid: TransactionID { bytes: [0; 32] }, vout: 0 };
    assert!(!not_null.is_null());
    let mut b = [0u8; 32];
    b[31] = 1;
    let not_null = OutPoint { txid: TransactionID { bytes: b }, vout: 0xffff_ffff };
    assert!(!not_null.is_null());
}
