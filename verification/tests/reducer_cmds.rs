use scrolls::crosscut::{ChainWellKnownInfo, NaiveProvider, block_epoch};
use scrolls::digest::asset_fingerprint;
use scrolls::model::{
    Asset, Block, BlockContext, CRDTCommand, Metadatum, MintAsset, OutputRef, Tx, TxOutput,
    UtxoVal, Value,
};
use scrolls::reducers;
use scrolls::reducers::worker::Worker;
use scrolls::reducers::stake_multi_asset::{MultiAssetSingleAgg, PreviousOwnerAgg};

fn mainnet() -> ChainWellKnownInfo {
    ChainWellKnownInfo::new(
        764824073, 21600, 20, 0, 1506203091, 432000, 1, 4492800, 1596059091,
    )
}

fn simple_output(address: Vec<u8>, lovelace: u64, assets: Vec<Asset>) -> TxOutput {
    TxOutput { address, lovelace, assets, raw: vec![] }
}

fn block_with_tx(slot: u64, tx: Tx) -> Block {
    Block { slot, number: slot, hash: vec![slot as u8; 32], era: 1, txs: vec![tx] }
}

#[test]
fn wallclock_follows_the_eras() {
    let time = NaiveProvider::new(mainnet());
    assert_eq!(time.slot_to_wallclock(4492900), 1596059191);
    assert_eq!(time.slot_to_wallclock(100), 1506203091 + 100 * 20);
}

#[test]
fn epoch_follows_the_eras() {
    let chain = mainnet();
    assert_eq!(block_epoch(&chain, 21600), 1);
    assert_eq!(block_epoch(&chain, 4492800 + 432000), 209);
}

#[test]
fn balances_emit_positive_deltas_for_received_outputs() {
    // A block produces one output of 100 lovelace and spends nothing: one
    // positive counter plus the freshness stamp.
    let r = reducers::multi_asset_balances::Reducer {
        config: reducers::multi_asset_balances::Config { key_prefix: None, filter: None },
        chain: mainnet(),
    };
    let block = block_with_tx(
        11,
        Tx {
            hash: vec![0x11; 32],
            consumes: vec![],
            produces: vec![(0, simple_output(vec![0x61], 100, vec![]))],
            mint: vec![],
            metadata: vec![],
        },
    );
    let ctx = BlockContext::new();
    let mut out: Vec<CRDTCommand> = Vec::new();
    r.reduce_block(&block, &ctx, false, &mut out);
    assert_eq!(out.len(), 2);
    match &out[0] {
        CRDTCommand::HashCounter(key, field, delta) => {
            assert!(key.starts_with("soa-wallet."));
            assert_eq!(field, "lovelace");
            assert_eq!(*delta, 100);
        }
        _ => panic!("the first command tallies the coin amount"),
    }
    match &out[1] {
        CRDTCommand::AnyWriteWins(key, Value::String(stamp)) => {
            assert!(key.starts_with("soa-wallet.latest."));
            assert_eq!(stamp, "1506203311");
        }
        _ => panic!("the second command stamps the account"),
    }
}

#[test]
fn balances_cancel_between_forward_and_undo() {
    // The undo direction of the same block flips every counter's sign, so
    // the two streams cancel.
    let r = reducers::multi_asset_balances::Reducer {
        config: reducers::multi_asset_balances::Config { key_prefix: None, filter: None },
        chain: mainnet(),
    };
    let assets = vec![Asset { policy: vec![0xaa; 28], name: b"gem".to_vec(), quantity: 7 }];
    let block = block_with_tx(
        11,
        Tx {
            hash: vec![0x11; 32],
            consumes: vec![],
            produces: vec![(0, simple_output(vec![0x61], 100, assets))],
            mint: vec![],
            metadata: vec![],
        },
    );
    let ctx = BlockContext::new();
    let mut fwd: Vec<CRDTCommand> = Vec::new();
    let mut undo: Vec<CRDTCommand> = Vec::new();
    r.reduce_block(&block, &ctx, false, &mut fwd);
    r.reduce_block(&block, &ctx, true, &mut undo);
    assert_eq!(fwd.len(), undo.len());
    for (f, u) in fwd.iter().zip(undo.iter()) {
        match (f, u) {
            (CRDTCommand::HashCounter(k1, f1, d1), CRDTCommand::HashCounter(k2, f2, d2)) => {
                assert_eq!(k1, k2);
                assert_eq!(f1, f2);
                assert_eq!(*d1 + *d2, 0);
            }
            (CRDTCommand::AnyWriteWins(k1, _), CRDTCommand::AnyWriteWins(k2, _)) => {
                assert_eq!(k1, k2);
            }
            _ => panic!("the undo stream mirrors the forward stream"),
        }
    }
}

#[test]
fn balances_spend_resolved_inputs_negatively() {
    // A block spends a resolved 100-lovelace input and produces an 80
    // lovelace output elsewhere: minus on the spender, plus on the
    // receiver.
    let r = reducers::multi_asset_balances::Reducer {
        config: reducers::multi_asset_balances::Config { key_prefix: None, filter: None },
        chain: mainnet(),
    };
    let spent_ref = OutputRef { tx_hash: vec![0x11; 32], index: 0 };
    let key = spent_ref.key_string();
    let mut ctx = BlockContext::new();
    ctx.import_ref_output(
        key,
        UtxoVal { era: 1, output: simple_output(vec![0x61], 100, vec![]) },
    );
    let block = block_with_tx(
        12,
        Tx {
            hash: vec![0x12; 32],
            consumes: vec![spent_ref],
            produces: vec![(0, simple_output(vec![0x62], 80, vec![]))],
            mint: vec![],
            metadata: vec![],
        },
    );
    let mut out: Vec<CRDTCommand> = Vec::new();
    r.reduce_block(&block, &ctx, false, &mut out);
    let deltas: Vec<i64> = out
        .iter()
        .filter_map(|c| match c {
            CRDTCommand::HashCounter(_, field, d) if field == "lovelace" => Some(*d),
            _ => None,
        })
        .collect();
    assert_eq!(deltas, vec![-100, 80]);
}

#[test]
fn utxo_by_address_adds_and_removes_references() {
    let r = reducers::utxo_by_address::Reducer {
        config: reducers::utxo_by_address::Config { key_prefix: None, filter: None },
    };
    let spent_ref = OutputRef { tx_hash: vec![0x11; 32], index: 0 };
    let spent_key = spent_ref.key_string();
    let mut ctx = BlockContext::new();
    ctx.import_ref_output(
        spent_key.clone(),
        UtxoVal { era: 1, output: simple_output(vec![0x61], 100, vec![]) },
    );
    let block = block_with_tx(
        12,
        Tx {
            hash: vec![0x12; 32],
            consumes: vec![spent_ref],
            produces: vec![(1, simple_output(vec![0x62], 80, vec![]))],
            mint: vec![],
            metadata: vec![],
        },
    );
    let mut out: Vec<CRDTCommand> = Vec::new();
    r.reduce_block(&block, &ctx, false, &mut out);
    assert_eq!(out.len(), 3);
    match &out[0] {
        CRDTCommand::SetRemove(_, member) => assert_eq!(member, &spent_key),
        _ => panic!("a consumed reference leaves its account's set"),
    }
    match &out[1] {
        CRDTCommand::UnsetKey(key) => assert_eq!(key, &spent_key),
        _ => panic!("a consumed reference key is unset"),
    }
    let produced_key = OutputRef { tx_hash: vec![0x12; 32], index: 1 }.key_string();
    match &out[2] {
        CRDTCommand::SetAdd(_, member) => assert_eq!(member, &produced_key),
        _ => panic!("a produced reference joins its account's set"),
    }
}

#[test]
fn supply_by_asset_counts_mints_and_burns() {
    let r = reducers::supply_by_asset::Reducer {
        config: reducers::supply_by_asset::Config { key_prefix: None, policy_ids_hex: None },
    };
    let block = block_with_tx(
        9,
        Tx {
            hash: vec![0x09; 32],
            consumes: vec![],
            produces: vec![],
            mint: vec![MintAsset { policy: vec![0xbb], name: b"tok".to_vec(), quantity: -3 }],
            metadata: vec![],
        },
    );
    let mut out: Vec<CRDTCommand> = Vec::new();
    r.reduce_block(&block, false, &mut out);
    assert_eq!(out.len(), 1);
    match &out[0] {
        CRDTCommand::HashCounter(key, field, delta) => {
            assert_eq!(key, "supply_by_asset.bb746f6b.bb");
            assert_eq!(field, &asset_fingerprint(&[0xbb], b"tok"));
            assert_eq!(*delta, -3);
        }
        _ => panic!("a mint adjusts the supply counter"),
    }
    // The undo direction of a supply projection emits nothing.
    let mut undo: Vec<CRDTCommand> = Vec::new();
    r.reduce_block(&block, true, &mut undo);
    assert!(undo.is_empty());
}

#[test]
fn asset_metadata_wraps_the_fragment() {
    let r = reducers::asset_metadata::Reducer {
        config: reducers::asset_metadata::Config {
            key_prefix: None,
            historical_metadata: None,
            policy_asset_index: None,
            royalty_metadata: None,
            projection: None,
            filter: None,
        },
        chain: mainnet(),
    };
    let inner = Metadatum::Table(vec![(
        Metadatum::Text(String::from("k")),
        Metadatum::Text(String::from("v")),
    )]);
    let policy_table = Metadatum::Table(vec![(Metadatum::Text(String::from("n")), inner)]);
    let label_table = Metadatum::Table(vec![(Metadatum::Text(String::from("aa")), policy_table)]);
    let block = block_with_tx(
        9,
        Tx {
            hash: vec![0x09; 32],
            consumes: vec![],
            produces: vec![],
            mint: vec![MintAsset { policy: vec![0xaa], name: b"n".to_vec(), quantity: 1 }],
            metadata: vec![(721, label_table)],
        },
    );
    let mut out: Vec<CRDTCommand> = Vec::new();
    r.reduce_block(&block, false, &mut out);
    assert_eq!(out.len(), 1);
    match &out[0] {
        CRDTCommand::AnyWriteWins(key, Value::String(payload)) => {
            assert!(key.starts_with("m.asset1"));
            assert_eq!(payload, "{\"721\":{\"aa\":{\"n\":{\"k\":\"v\"}}}}");
        }
        _ => panic!("metadata lands under the fingerprint"),
    }
}

#[test]
fn last_block_parameters_publish_the_head() {
    let r = reducers::last_block_parameters::Reducer {
        config: reducers::last_block_parameters::Config { key_prefix: None },
        chain: mainnet(),
    };
    let block = block_with_tx(
        4924800,
        Tx {
            hash: vec![0x42; 32],
            consumes: vec![],
            produces: vec![],
            mint: vec![],
            metadata: vec![],
        },
    );
    let mut out: Vec<CRDTCommand> = Vec::new();
    r.reduce_block(&block, false, &mut out);
    assert_eq!(out.len(), 1);
    match &out[0] {
        CRDTCommand::HashSetMulti(key, fields, values) => {
            assert_eq!(key, "last_block");
            assert_eq!(fields.len(), 8);
            assert_eq!(fields[0], "epoch_no");
            match &values[0] {
                Value::BigInt(epoch) => assert_eq!(*epoch, 209),
                _ => panic!("the epoch is numeric"),
            }
            assert_eq!(fields[4], "block_era");
            match &values[4] {
                Value::String(era) => assert_eq!(era, "Shelley"),
                _ => panic!("the era is named"),
            }
        }
        _ => panic!("the head is one multi-field write"),
    }
}

#[test]
fn stake_multi_asset_counts_received_quantities() {
    let r = reducers::stake_multi_asset::Reducer {
        config: reducers::stake_multi_asset::Config {
            key_prefix: Some(String::from("p")),
            filter: None,
            aggr_by: None,
            policy_ids_hex: None,
        },
        chain: mainnet(),
    };
    let assets = vec![Asset { policy: vec![0xcc; 28], name: b"gold".to_vec(), quantity: 12 }];
    let block = block_with_tx(
        9,
        Tx {
            hash: vec![0x09; 32],
            consumes: vec![],
            produces: vec![(0, simple_output(vec![0x61], 5, assets))],
            mint: vec![],
            metadata: vec![],
        },
    );
    let mut out: Vec<CRDTCommand> = Vec::new();
    r.reduce_block(&block, false, &mut out);
    assert_eq!(out.len(), 1);
    match &out[0] {
        CRDTCommand::PNCounter(key, delta) => {
            assert!(key.starts_with("asset-qty.p."));
            assert!(key.ends_with(&asset_fingerprint(&[0xcc; 28], b"gold")));
            assert_eq!(*delta, 12);
        }
        _ => panic!("a received asset counts toward its account"),
    }
}

#[test]
fn stake_config_key_appends_epoch_when_aggregating() {
    let by_epoch = reducers::stake_multi_asset::Reducer {
        config: reducers::stake_multi_asset::Config {
            key_prefix: Some(String::from("p")),
            filter: None,
            aggr_by: Some(reducers::stake_multi_asset::AggrType::Epoch),
            policy_ids_hex: None,
        },
        chain: mainnet(),
    };
    assert_eq!(by_epoch.config_key("subj", 42), "p.subj.42");
    let plain = reducers::stake_multi_asset::Reducer {
        config: reducers::stake_multi_asset::Config {
            key_prefix: None,
            filter: None,
            aggr_by: Some(reducers::stake_multi_asset::AggrType::Epoch),
            policy_ids_hex: None,
        },
        chain: mainnet(),
    };
    assert_eq!(plain.config_key("subj", 42), "cardano-policy-asset-ownership.subj");
}

#[test]
fn address_by_asset_maps_assets_to_accounts() {
    let cfg = reducers::address_by_asset::Config {
        key_prefix: Some(String::from("a")),
        filter: None,
        policy_id_hex: String::from("dd"),
        convert_to_ascii: Some(true),
        soa: Some(false),
        also_store_inverted: Some(false),
    };
    let r = match cfg.plugin() {
        reducers::Reducer::AddressByAsset(x) => x,
        _ => panic!("the plugin registers its own variant"),
    };
    let assets = vec![
        Asset { policy: vec![0xdd], name: b"coin".to_vec(), quantity: 1 },
        Asset { policy: vec![0xee], name: b"other".to_vec(), quantity: 1 },
    ];
    let block = block_with_tx(
        9,
        Tx {
            hash: vec![0x09; 32],
            consumes: vec![],
            produces: vec![(0, simple_output(vec![0x61], 5, assets))],
            mint: vec![],
            metadata: vec![],
        },
    );
    let ctx = BlockContext::new();
    let mut out: Vec<CRDTCommand> = Vec::new();
    r.reduce_block(&block, &ctx, false, &mut out);
    // Only the watched policy's asset is mapped.
    assert_eq!(out.len(), 1);
    match &out[0] {
        CRDTCommand::AnyWriteWins(key, Value::String(account)) => {
            assert_eq!(key, "a.coin");
            assert!(account.starts_with("addr"));
        }
        _ => panic!("the asset maps to its receiving account"),
    }
}

#[test]
fn worker_frames_every_block() {
    let cfg = reducers::last_block_parameters::Config { key_prefix: None };
    let worker = Worker::new(vec![cfg.plugin(&mainnet())]);
    let block = block_with_tx(
        10,
        Tx {
            hash: vec![0x10; 32],
            consumes: vec![],
            produces: vec![],
            mint: vec![],
            metadata: vec![],
        },
    );
    let ctx = BlockContext::new();
    let mut out: Vec<CRDTCommand> = Vec::new();
    worker.reduce_block(&block, &ctx, false, &mut out);
    assert_eq!(out.len(), 3);
    assert!(matches!(out[0], CRDTCommand::BlockStarting(_)));
    assert!(matches!(out[2], CRDTCommand::BlockFinished(_)));
}

#[test]
fn worker_replays_rollback_batches_under_one_frame() {
    let cfg = reducers::supply_by_asset::Config { key_prefix: None, policy_ids_hex: None };
    let worker = Worker::new(vec![cfg.plugin()]);
    let last_valid = block_with_tx(
        12,
        Tx { hash: vec![0x12; 32], consumes: vec![], produces: vec![], mint: vec![], metadata: vec![] },
    );
    let b13 = block_with_tx(
        13,
        Tx { hash: vec![0x13; 32], consumes: vec![], produces: vec![], mint: vec![], metadata: vec![] },
    );
    let ctxs = vec![BlockContext::new()];
    let mut out: Vec<CRDTCommand> = Vec::new();
    worker.reduce_rollback_blocks(&last_valid, &vec![b13], &ctxs, &mut out);
    assert_eq!(out.len(), 2);
    assert!(matches!(out[0], CRDTCommand::BlockStarting(_)));
    assert!(matches!(out[1], CRDTCommand::BlockFinished(_)));
}

#[test]
fn supply_by_asset_skips_names_that_are_not_text() {
    let r = reducers::supply_by_asset::Reducer {
        config: reducers::supply_by_asset::Config { key_prefix: None, policy_ids_hex: None },
    };
    let block = block_with_tx(
        9,
        Tx {
            hash: vec![0x09; 32],
            consumes: vec![],
            produces: vec![],
            mint: vec![MintAsset { policy: vec![0xbb], name: vec![0xff, 0xfe], quantity: 4 }],
            metadata: vec![],
        },
    );
    let mut out: Vec<CRDTCommand> = Vec::new();
    r.reduce_block(&block, false, &mut out);
    assert!(out.is_empty());
}

#[test]
fn aggregates_carry_their_fingerprints() {
    let (fp, agg) = MultiAssetSingleAgg::new(&vec![0xcc; 28], "gold", 12, "cafe", 0);
    assert_eq!(fp, asset_fingerprint(&[0xcc; 28], b"gold"));
    assert_eq!(agg.fingerprint, fp);
    assert_eq!(agg.quantity, 12);
    assert_eq!(agg.asset_name, "gold");
    let owner = PreviousOwnerAgg::new("addr1xyz", 55);
    assert_eq!(owner.address, "addr1xyz");
    assert_eq!(owner.transferred_out, 55);
}

#[test]
fn utxo_by_address_undo_inverts_the_forward_stream() {
    // The undo direction of the same block: produced outputs leave their
    // accounts again, and the consumed output rejoins its own, rebuilt
    // from the restored context.
    let r = reducers::utxo_by_address::Reducer {
        config: reducers::utxo_by_address::Config { key_prefix: None, filter: None },
    };
    let spent_ref = OutputRef { tx_hash: vec![0x11; 32], index: 0 };
    let spent_key = spent_ref.key_string();
    let mut ctx = BlockContext::new();
    ctx.import_ref_output(
        spent_key.clone(),
        UtxoVal { era: 1, output: simple_output(vec![0x61], 100, vec![]) },
    );
    let block = block_with_tx(
        12,
        Tx {
            hash: vec![0x12; 32],
            consumes: vec![spent_ref],
            produces: vec![(1, simple_output(vec![0x62], 80, vec![]))],
            mint: vec![],
            metadata: vec![],
        },
    );
    let mut undo: Vec<CRDTCommand> = Vec::new();
    r.reduce_block(&block, &ctx, true, &mut undo);
    assert_eq!(undo.len(), 3);
    match &undo[0] {
        CRDTCommand::SetAdd(_, member) => assert_eq!(member, &spent_key),
        _ => panic!("the consumed reference rejoins its account"),
    }
    let produced_key = OutputRef { tx_hash: vec![0x12; 32], index: 1 }.key_string();
    match &undo[1] {
        CRDTCommand::SetRemove(_, member) => assert_eq!(member, &produced_key),
        _ => panic!("the produced reference leaves its account"),
    }
    match &undo[2] {
        CRDTCommand::UnsetKey(key) => assert_eq!(key, &produced_key),
        _ => panic!("the produced reference key is unset"),
    }
}

#[test]
fn stake_multi_asset_undo_negates_the_deltas() {
    let r = reducers::stake_multi_asset::Reducer {
        config: reducers::stake_multi_asset::Config {
            key_prefix: Some(String::from("p")),
            filter: None,
            aggr_by: None,
            policy_ids_hex: None,
        },
        chain: mainnet(),
    };
    let assets = vec![Asset { policy: vec![0xcc; 28], name: b"gold".to_vec(), quantity: 12 }];
    let block = block_with_tx(
        9,
        Tx {
            hash: vec![0x09; 32],
            consumes: vec![],
            produces: vec![(0, simple_output(vec![0x61], 5, assets))],
            mint: vec![],
            metadata: vec![],
        },
    );
    let mut fwd: Vec<CRDTCommand> = Vec::new();
    let mut undo: Vec<CRDTCommand> = Vec::new();
    r.reduce_block(&block, false, &mut fwd);
    r.reduce_block(&block, true, &mut undo);
    assert_eq!(fwd.len(), 1);
    assert_eq!(undo.len(), 1);
    match (&fwd[0], &undo[0]) {
        (CRDTCommand::PNCounter(k1, d1), CRDTCommand::PNCounter(k2, d2)) => {
            assert_eq!(k1, k2);
            assert_eq!(*d1, 12);
            assert_eq!(*d2, -12);
        }
        _ => panic!("the undo stream mirrors the forward stream"),
    }
}

#[test]
fn overwrite_reducers_emit_nothing_on_undo() {
    // The stamp, metadata and head-of-chain projections are overwrites
    // whose prior values live only in the sink: their undo direction is
    // empty by design.
    let chain = mainnet();
    let block = block_with_tx(
        9,
        Tx {
            hash: vec![0x09; 32],
            consumes: vec![],
            produces: vec![(0, simple_output(vec![0x61], 5, vec![
                Asset { policy: vec![0xdd], name: b"x".to_vec(), quantity: 1 },
            ]))],
            mint: vec![MintAsset { policy: vec![0xdd], name: b"x".to_vec(), quantity: 1 }],
            metadata: vec![],
        },
    );
    let mut out: Vec<CRDTCommand> = Vec::new();
    reducers::policy_assets_moved::Reducer {
        config: reducers::policy_assets_moved::Config { key_prefix: None, policy_ids_hex: None },
        chain,
    }
    .reduce_block(&block, true, &mut out);
    assert!(out.is_empty());
    reducers::last_block_parameters::Reducer {
        config: reducers::last_block_parameters::Config { key_prefix: None },
        chain,
    }
    .reduce_block(&block, true, &mut out);
    assert!(out.is_empty());
    reducers::asset_metadata::Reducer {
        config: reducers::asset_metadata::Config {
            key_prefix: None,
            historical_metadata: None,
            policy_asset_index: None,
            royalty_metadata: None,
            projection: None,
            filter: None,
        },
        chain,
    }
    .reduce_block(&block, true, &mut out);
    assert!(out.is_empty());
}

#[test]
fn policy_assets_moved_stamps_forward_movements() {
    let r = reducers::policy_assets_moved::Reducer {
        config: reducers::policy_assets_moved::Config { key_prefix: None, policy_ids_hex: None },
        chain: mainnet(),
    };
    let block = block_with_tx(
        9,
        Tx {
            hash: vec![0x09; 32],
            consumes: vec![],
            produces: vec![(0, simple_output(vec![0x61], 5, vec![
                Asset { policy: vec![0xdd], name: b"x".to_vec(), quantity: 1 },
            ]))],
            mint: vec![],
            metadata: vec![],
        },
    );
    let mut out: Vec<CRDTCommand> = Vec::new();
    r.reduce_block(&block, false, &mut out);
    assert_eq!(out.len(), 1);
    match &out[0] {
        CRDTCommand::HashSetValue(key, field, Value::String(stamp)) => {
            assert_eq!(key, "policy.dd");
            assert_eq!(field, &asset_fingerprint(&[0xdd], b"x"));
            assert_eq!(stamp, &(1506203091u64 + 9 * 20).to_string());
        }
        _ => panic!("a movement stamps the policy's set"),
    }
}
