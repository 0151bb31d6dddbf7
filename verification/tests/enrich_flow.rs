use scrolls::enrich::EnrichStores;
use scrolls::model::{block_within_deltas, Asset, Block, OutputRef, Tx, TxOutput};

fn output(address: Vec<u8>, lovelace: u64) -> TxOutput {
    TxOutput {
        address,
        lovelace,
        assets: Vec::new(),
        raw: vec![0xca, 0xfe],
    }
}

fn producing_block(slot: u64, tx_hash: Vec<u8>, out: TxOutput) -> Block {
    Block {
        slot,
        number: slot,
        hash: vec![slot as u8; 32],
        era: 1,
        txs: vec![Tx {
            hash: tx_hash,
            consumes: Vec::new(),
            produces: vec![(0, out)],
            mint: Vec::new(),
            metadata: Vec::new(),
        }],
    }
}

fn consuming_block(slot: u64, tx_hash: Vec<u8>, spent: OutputRef) -> Block {
    Block {
        slot,
        number: slot,
        hash: vec![slot as u8; 32],
        era: 1,
        txs: vec![Tx {
            hash: tx_hash,
            consumes: vec![spent],
            produces: Vec::new(),
            mint: Vec::new(),
            metadata: Vec::new(),
        }],
    }
}

#[test]
fn forward_records_produced_output() {
    let mut stores = EnrichStores::new();
    let b11 = producing_block(11, vec![0x11; 32], output(vec![0x61], 100));
    let ctx = stores.roll_forward(&b11);
    // Nothing was consumed, so the context is empty; the index and the
    // produced ring both hold the new reference.
    let key = OutputRef { tx_hash: vec![0x11; 32], index: 0 }.key_string();
    assert_eq!(ctx.utxos.len(), 0);
    assert!(stores.utxos.get(&key).is_some());
    assert!(stores.produced.get(&key).is_some());
    assert_eq!(stores.consumed.len(), 0);
}

#[test]
fn forward_spends_resolved_input_and_rings_remember() {
    let mut stores = EnrichStores::new();
    let b11 = producing_block(11, vec![0x11; 32], output(vec![0x61], 100));
    stores.roll_forward(&b11);
    let spent = OutputRef { tx_hash: vec![0x11; 32], index: 0 };
    let key = spent.key_string();
    let b12 = consuming_block(12, vec![0x12; 32], spent);
    let ctx = stores.roll_forward(&b12);
    // The input resolved against the index before the deletion.
    assert!(ctx.utxos.get(&key).is_some());
    assert_eq!(ctx.utxos.get(&key).unwrap().output.lovelace, 100);
    // The index no longer holds it; the consumed ring holds its prior
    // value byte for byte.
    assert!(stores.utxos.get(&key).is_none());
    let remembered = stores.consumed.get(&key).unwrap();
    assert_eq!(remembered.output.lovelace, 100);
    assert_eq!(remembered.output.raw, vec![0xca, 0xfe]);
}

#[test]
fn rollback_restores_the_pre_block_state() {
    // A block applied forward and then rolled back leaves the index and
    // both rings exactly as they were.
    let mut stores = EnrichStores::new();
    let b11 = producing_block(11, vec![0x11; 32], output(vec![0x61], 100));
    stores.roll_forward(&b11);
    let produced_key = OutputRef { tx_hash: vec![0x11; 32], index: 0 }.key_string();

    let spent = OutputRef { tx_hash: vec![0x11; 32], index: 0 };
    let b12 = consuming_block(12, vec![0x12; 32], spent);
    stores.roll_forward(&b12);
    assert!(stores.utxos.get(&produced_key).is_none());

    let spent_again = OutputRef { tx_hash: vec![0x11; 32], index: 0 };
    let b12_again = consuming_block(12, vec![0x12; 32], spent_again);
    stores.roll_back(&b12_again);

    // The spent output is back in the index with its prior value, and the
    // consumed ring is empty again.
    let restored = stores.utxos.get(&produced_key).unwrap();
    assert_eq!(restored.output.lovelace, 100);
    assert_eq!(restored.output.raw, vec![0xca, 0xfe]);
    assert_eq!(stores.consumed.len(), 0);
    assert!(stores.produced.get(&produced_key).is_some());
}

#[test]
fn rollback_of_producing_block_removes_its_outputs() {
    let mut stores = EnrichStores::new();
    let b11 = producing_block(11, vec![0x11; 32], output(vec![0x61], 100));
    stores.roll_forward(&b11);
    let key = OutputRef { tx_hash: vec![0x11; 32], index: 0 }.key_string();
    let b11_again = producing_block(11, vec![0x11; 32], output(vec![0x61], 100));
    stores.roll_back(&b11_again);
    assert!(stores.utxos.get(&key).is_none());
    assert!(stores.produced.get(&key).is_none());
    assert_eq!(stores.consumed.len(), 0);
}

#[test]
fn rollback_skips_inputs_the_ring_never_held() {
    // A block consumed a reference that was never in the index: its
    // rollback finds no ring entry and must skip the restoration without
    // failing.
    let mut stores = EnrichStores::new();
    let ghost_ref = OutputRef { tx_hash: vec![0x99; 32], index: 3 };
    let key = ghost_ref.key_string();
    let b = consuming_block(20, vec![0x20; 32], ghost_ref);
    stores.roll_forward(&b);
    assert_eq!(stores.consumed.len(), 0);
    let ghost_again = OutputRef { tx_hash: vec![0x99; 32], index: 3 };
    let b_again = consuming_block(20, vec![0x20; 32], ghost_again);
    let ctx = stores.roll_back(&b_again);
    assert!(stores.utxos.get(&key).is_none());
    assert!(ctx.utxos.get(&key).is_none());
}

#[test]
fn ring_pruning_respects_the_cap() {
    let mut stores = EnrichStores::new();
    for i in 0..10u8 {
        let b = producing_block(i as u64 + 1, vec![i; 32], output(vec![0x61], 5));
        stores.roll_forward(&b);
    }
    assert_eq!(stores.produced.len(), 10);
    stores.prune_rings(4);
    assert_eq!(stores.produced.len(), 4);
    // The newest entries survive pruning.
    let newest = OutputRef { tx_hash: vec![9; 32], index: 0 }.key_string();
    assert!(stores.produced.get(&newest).is_some());
    let oldest = OutputRef { tx_hash: vec![0; 32], index: 0 }.key_string();
    assert!(stores.produced.get(&oldest).is_none());
}

#[test]
fn rollback_of_pruned_history_is_lossy_but_harmless() {
    // When the ring cap has pruned a block's undo entries, rolling that
    // block back finds nothing to restore and reports nothing fatal.
    let mut stores = EnrichStores::new();
    let b11 = producing_block(11, vec![0x11; 32], output(vec![0x61], 100));
    stores.roll_forward(&b11);
    let spent = OutputRef { tx_hash: vec![0x11; 32], index: 0 };
    let key = spent.key_string();
    let b12 = consuming_block(12, vec![0x12; 32], spent);
    stores.roll_forward(&b12);
    assert_eq!(stores.consumed.len(), 1);
    stores.prune_rings(0);
    assert_eq!(stores.consumed.len(), 0);
    let spent_again = OutputRef { tx_hash: vec![0x11; 32], index: 0 };
    let b12_again = consuming_block(12, vec![0x12; 32], spent_again);
    stores.roll_back(&b12_again);
    // The pruned entry is gone for good; the index stays consistent.
    assert!(stores.utxos.get(&key).is_none());
}

#[test]
fn delta_range_checks_notice_oversized_amounts() {
    let fine = producing_block(1, vec![1; 32], output(vec![0x61], 100));
    assert!(block_within_deltas(&fine));
    let mut too_big = producing_block(2, vec![2; 32], output(vec![0x61], u64::MAX));
    assert!(!block_within_deltas(&too_big));
    too_big.txs[0].produces[0].1.lovelace = 5;
    too_big.txs[0].produces[0].1.assets = vec![Asset {
        policy: vec![0xaa],
        name: b"x".to_vec(),
        quantity: u64::MAX,
    }];
    assert!(!block_within_deltas(&too_big));
}
