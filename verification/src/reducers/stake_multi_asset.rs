//! Counts, per account and asset, the quantities received by produced
//! outputs, keyed by account and asset fingerprint. The undo direction
//! flips every sign, so a rolled-back block cancels exactly.

use vstd::prelude::*;

use crate::address::soa_of;
use crate::address::stake_or_address;
use crate::crosscut::ChainWellKnownInfo;
use crate::digest::asset_fingerprint;
use crate::digest::fingerprint_of;
use crate::model::AssetV;
use crate::model::Block;
use crate::model::CRDTCommand;
use crate::model::CommandV;
use crate::model::Tx;
use crate::model::TxOutput;
use crate::model::block_wf;
use crate::model::cmds_view;
use crate::model::lemma_cmds_view_push;
use crate::text::dec_of;
use vstd::string::StringSliceAdditionalSpecFns;

verus! {

/// How per-asset counters may be aggregated.
#[derive(Clone, Copy, PartialEq, Eq, Structural, Debug)]
pub enum AggrType {
    Epoch,
}

pub struct Config {
    pub key_prefix: Option<String>,
    pub filter: Option<Vec<String>>,
    pub aggr_by: Option<AggrType>,
    pub policy_ids_hex: Option<Vec<String>>,
}

pub struct Reducer {
    pub config: Config,
    pub chain: ChainWellKnownInfo,
}

/// One asset aggregated for one transaction output.
pub struct MultiAssetSingleAgg {
    pub policy_id: String,
    pub asset_name: String,
    pub quantity: i64,
    pub fingerprint: String,
    pub tx_hash: String,
    pub tx_index: i64,
}

impl MultiAssetSingleAgg {
    /// Aggregate one asset of one output, identified by its fingerprint.
    pub fn new(
        policy_id: &Vec<u8>,
        asset_name: &str,
        quantity: u64,
        tx_hash: &str,
        tx_index: i64,
    ) -> (r: (String, MultiAssetSingleAgg))
        requires
            quantity <= i64::MAX,
        ensures
            r.0@ == fingerprint_of(policy_id@, asset_name.spec_bytes()),
            r.1.quantity == quantity,
            r.1.tx_index == tx_index,
            r.1.tx_hash@ == tx_hash@,
    {
        let fingerprint = asset_fingerprint(policy_id.as_slice(), asset_name.as_bytes());
        let agg = MultiAssetSingleAgg {
            policy_id: crate::digest::hex_string(policy_id.as_slice()),
            asset_name: String::from_str(asset_name),
            quantity: quantity as i64,
            fingerprint: fingerprint.clone(),
            tx_hash: String::from_str(tx_hash),
            tx_index,
        };
        (fingerprint, agg)
    }
}

/// An account that an output left, with the amount that moved out.
pub struct PreviousOwnerAgg {
    pub address: String,
    pub transferred_out: i64,
}

impl PreviousOwnerAgg {
    pub fn new(address: &str, transferred_out: u64) -> (r: PreviousOwnerAgg)
        requires
            transferred_out <= i64::MAX,
        ensures
            r.address@ == address@,
            r.transferred_out == transferred_out,
    {
        PreviousOwnerAgg {
            address: String::from_str(address),
            transferred_out: transferred_out as i64,
        }
    }
}

/// The key a counter aggregates under: the configured prefix and subject,
/// with the epoch appended when aggregation by epoch is configured; the
/// default prefix names the policy-asset-ownership namespace.
pub open spec fn config_key_of(c: Config, subject: Seq<char>, epoch_no: u64) -> Seq<char> {
    let base = (match c.key_prefix {
        Some(p) => p@,
        None => "cardano-policy-asset-ownership"@,
    }) + seq!['.'] + subject;
    match (c.aggr_by, c.key_prefix) {
        (Some(AggrType::Epoch), Some(_)) => base + seq!['.'] + dec_of(epoch_no as nat),
        _ => base,
    }
}

/// The counter key of one received asset:
/// `asset-qty.<prefix>.<account>.<fingerprint>`.
pub open spec fn qty_key(c: Config, soa: Seq<char>, fp: Seq<char>) -> Seq<char> {
    "asset-qty."@ + (match c.key_prefix {
        Some(p) => p@,
        None => Seq::<char>::empty(),
    }) + seq!['.'] + soa + seq!['.'] + fp
}

/// The command of one asset on a produced output: a positive-negative
/// counter of the received quantity, negated on the undo path. Empty
/// fingerprints and outputs whose account is empty yield nothing.
pub open spec fn asset_cmds(c: Config, soa: Seq<char>, a: AssetV, rollback: bool) -> Seq<
    CommandV,
> {
    if fingerprint_of(a.policy, a.name).len() > 0 && soa.len() > 0 {
        seq![
            CommandV::PNCounter(
                qty_key(c, soa, fingerprint_of(a.policy, a.name)),
                if rollback {
                    (-(a.quantity as int)) as i64
                } else {
                    a.quantity as i64
                },
            ),
        ]
    } else {
        Seq::<CommandV>::empty()
    }
}

pub open spec fn output_cmds(
    c: Config,
    soa: Seq<char>,
    assets: Seq<AssetV>,
    rollback: bool,
) -> Seq<CommandV>
    decreases assets.len(),
{
    if assets.len() == 0 {
        Seq::<CommandV>::empty()
    } else {
        output_cmds(c, soa, assets.drop_last(), rollback) + asset_cmds(
            c,
            soa,
            assets.last(),
            rollback,
        )
    }
}

pub open spec fn tx_cmds(c: Config, ps: Seq<(u64, TxOutput)>, rollback: bool) -> Seq<CommandV>
    decreases ps.len(),
{
    if ps.len() == 0 {
        Seq::<CommandV>::empty()
    } else {
        tx_cmds(c, ps.drop_last(), rollback) + output_cmds(
            c,
            soa_of(ps.last().1@.address),
            ps.last().1@.assets,
            rollback,
        )
    }
}

pub open spec fn txs_cmds(c: Config, txs: Seq<Tx>, rollback: bool) -> Seq<CommandV>
    decreases txs.len(),
{
    if txs.len() == 0 {
        Seq::<CommandV>::empty()
    } else {
        txs_cmds(c, txs.drop_last(), rollback) + tx_cmds(c, txs.last().produces@, rollback)
    }
}

pub open spec fn block_cmds(r: Reducer, block: Block, rollback: bool) -> Seq<CommandV> {
    txs_cmds(r.config, block.txs@, rollback)
}

impl Reducer {
    /// Build the aggregation key of a subject.
    pub fn config_key(&self, subject: &str, epoch_no: u64) -> (r: String)
        ensures
            r@ == config_key_of(self.config, subject@, epoch_no),
    {
        proof {
            reveal_strlit("cardano-policy-asset-ownership");
            reveal_strlit(".");
        }
        let mut base = match &self.config.key_prefix {
            Some(p) => p.clone(),
            None => String::from_str("cardano-policy-asset-ownership"),
        };
        base.append(".");
        base.append(subject);
        let by_epoch = match (&self.config.aggr_by, &self.config.key_prefix) {
            (Some(AggrType::Epoch), Some(_)) => true,
            _ => false,
        };
        if by_epoch {
            base.append(".");
            base.append(crate::text::u64_string(epoch_no).as_str());
            proof {
                assert(base@ =~= config_key_of(self.config, subject@, epoch_no));
            }
            base
        } else {
            proof {
                assert(base@ =~= config_key_of(self.config, subject@, epoch_no));
            }
            base
        }
    }

    /// Emit the counters of one produced output, signed by direction.
    pub fn process_produced_txo(
        &self,
        out: &TxOutput,
        rollback: bool,
        output: &mut Vec<CRDTCommand>,
    )
        requires
            forall|i: int|
                0 <= i < out@.assets.len() ==> (#[trigger] out@.assets[i]).quantity
                    <= i64::MAX,
        ensures
            cmds_view(final(output)@) == cmds_view(old(output)@) + output_cmds(
                self.config,
                soa_of(out@.address),
                out@.assets,
                rollback,
            ),
    {
        let soa = stake_or_address(&out.address);
        let ghost base = cmds_view(output@);
        let n = out.assets.len();
        let mut i: usize = 0;
        while i < n
            invariant
                n == out.assets@.len(),
                i <= n,
                soa@ == soa_of(out@.address),
                forall|j: int|
                    0 <= j < out@.assets.len() ==> (#[trigger] out@.assets[j]).quantity
                        <= i64::MAX,
                cmds_view(output@) == base + output_cmds(
                    self.config,
                    soa_of(out@.address),
                    out@.assets.take(i as int),
                    rollback,
                ),
            decreases n - i,
        {
            let a = &out.assets[i];
            proof {
                assert(out@.assets[i as int] == out.assets@[i as int]@);
            }
            let fp = asset_fingerprint(a.policy.as_slice(), a.name.as_slice());
            if !fp.as_str().is_empty() && !soa.as_str().is_empty() {
                proof {
                    reveal_strlit("asset-qty.");
                    reveal_strlit(".");
                }
                let mut key = String::from_str("asset-qty.");
                match &self.config.key_prefix {
                    Some(p) => key.append(p.as_str()),
                    None => {},
                }
                key.append(".");
                key.append(soa.as_str());
                key.append(".");
                key.append(fp.as_str());
                proof {
                    assert(key@ =~= qty_key(
                        self.config,
                        soa_of(out@.address),
                        fingerprint_of(
                            out@.assets[i as int].policy,
                            out@.assets[i as int].name,
                        ),
                    ));
                    assert(out@.assets[i as int].quantity <= i64::MAX);
                }
                let delta: i64 = if rollback {
                    -(a.quantity as i64)
                } else {
                    a.quantity as i64
                };
                let ghost mid = output@;
                output.push(CRDTCommand::PNCounter(key, delta));
                proof {
                    lemma_cmds_view_push(mid, output@.last());
                }
            }
            proof {
                assert(out@.assets.take(i + 1).drop_last() =~= out@.assets.take(i as int));
                assert(out@.assets.take(i + 1).last() == out@.assets[i as int]);
                assert(cmds_view(output@) =~= base + output_cmds(
                    self.config,
                    soa_of(out@.address),
                    out@.assets.take(i + 1),
                    rollback,
                ));
            }
            i += 1;
        }
        proof {
            assert(out@.assets.take(n as int) =~= out@.assets);
        }
    }

    /// Project one block, direction-aware: every produced output's assets
    /// count toward their account, negatively on the undo path.
    pub fn reduce_block(&self, block: &Block, rollback: bool, output: &mut Vec<CRDTCommand>)
        requires
            block_wf(*block),
        ensures
            cmds_view(final(output)@) == cmds_view(old(output)@) + block_cmds(
                *self,
                *block,
                rollback,
            ),
    {
        let ghost base = cmds_view(output@);
        let n = block.txs.len();
        let mut t: usize = 0;
        while t < n
            invariant
                n == block.txs@.len(),
                t <= n,
                block_wf(*block),
                cmds_view(output@) == base + txs_cmds(
                    self.config,
                    block.txs@.take(t as int),
                    rollback,
                ),
            decreases n - t,
        {
            let tx = &block.txs[t];
            let ghost txbase = cmds_view(output@);
            let np = tx.produces.len();
            let mut k: usize = 0;
            while k < np
                invariant
                    np == tx.produces@.len(),
                    k <= np,
                    tx == &block.txs@[t as int],
                    t < n,
                    n == block.txs@.len(),
                    block_wf(*block),
                    cmds_view(output@) == txbase + tx_cmds(
                        self.config,
                        tx.produces@.take(k as int),
                        rollback,
                    ),
                decreases np - k,
            {
                proof {
                    assert(crate::model::txout_wf(block.txs@[t as int].produces@[k as int].1@));
                }
                self.process_produced_txo(&tx.produces[k].1, rollback, output);
                proof {
                    assert(tx.produces@.take(k + 1).drop_last() =~= tx.produces@.take(k as int));
                    assert(tx.produces@.take(k + 1).last() == tx.produces@[k as int]);
                    assert(cmds_view(output@) =~= txbase + tx_cmds(
                        self.config,
                        tx.produces@.take(k + 1),
                        rollback,
                    ));
                }
                k += 1;
            }
            proof {
                assert(tx.produces@.take(np as int) =~= tx.produces@);
                assert(block.txs@.take(t + 1).drop_last() =~= block.txs@.take(t as int));
                assert(block.txs@.take(t + 1).last() == block.txs@[t as int]);
                assert(cmds_view(output@) =~= base + txs_cmds(
                    self.config,
                    block.txs@.take(t + 1),
                    rollback,
                ));
            }
            t += 1;
        }
        proof {
            assert(block.txs@.take(n as int) =~= block.txs@);
        }
    }
}

impl Config {
    /// Register this projection.
    pub fn plugin(self, chain: &ChainWellKnownInfo) -> (r: crate::reducers::Reducer)
        ensures
            r matches crate::reducers::Reducer::StakeMultiAsset(x) && x.config == self
                && x.chain == *chain,
    {
        crate::reducers::Reducer::StakeMultiAsset(Reducer { config: self, chain: *chain })
    }
}

} // verus!

verus! {

/// The two signed forms of one counted quantity cancel.
proof fn lemma_qty_cancel(q: u64, rollback: bool)
    requires
        q <= i64::MAX,
    ensures
        ((if rollback {
            (-(q as int)) as i64
        } else {
            q as i64
        }) as int) + ((if !rollback {
            (-(q as int)) as i64
        } else {
            q as i64
        }) as int) == 0,
{
}

/// The two directions of one output's counters cancel on every counter.
proof fn lemma_output_cancel(
    c: Config,
    soa: Seq<char>,
    assets: Seq<AssetV>,
    key: (Seq<char>, Seq<char>),
)
    requires
        forall|i: int| 0 <= i < assets.len() ==> (#[trigger] assets[i]).quantity <= i64::MAX,
    ensures
        crate::reducers::delta_sum(output_cmds(c, soa, assets, false), key)
            + crate::reducers::delta_sum(output_cmds(c, soa, assets, true), key) == 0,
    decreases assets.len(),
{
    if assets.len() > 0 {
        lemma_output_cancel(c, soa, assets.drop_last(), key);
        crate::reducers::lemma_delta_sum_concat(
            output_cmds(c, soa, assets.drop_last(), false),
            asset_cmds(c, soa, assets.last(), false),
            key,
        );
        crate::reducers::lemma_delta_sum_concat(
            output_cmds(c, soa, assets.drop_last(), true),
            asset_cmds(c, soa, assets.last(), true),
            key,
        );
        lemma_qty_cancel(assets.last().quantity, false);
        if fingerprint_of(assets.last().policy, assets.last().name).len() > 0 && soa.len() > 0 {
            crate::reducers::lemma_delta_singleton(
                asset_cmds(c, soa, assets.last(), false)[0],
                key,
            );
            crate::reducers::lemma_delta_singleton(
                asset_cmds(c, soa, assets.last(), true)[0],
                key,
            );
            assert(asset_cmds(c, soa, assets.last(), false) =~= seq![
                asset_cmds(c, soa, assets.last(), false)[0],
            ]);
            assert(asset_cmds(c, soa, assets.last(), true) =~= seq![
                asset_cmds(c, soa, assets.last(), true)[0],
            ]);
        }
    }
}

/// The two directions of one transaction's counters cancel.
proof fn lemma_tx_cancel(c: Config, ps: Seq<(u64, TxOutput)>, key: (Seq<char>, Seq<char>))
    requires
        forall|j: int, i: int|
            0 <= j < ps.len() && 0 <= i < ps[j].1@.assets.len() ==> (#[trigger] ps[j].1@.assets[
                i
            ]).quantity <= i64::MAX,
    ensures
        crate::reducers::delta_sum(tx_cmds(c, ps, false), key) + crate::reducers::delta_sum(
            tx_cmds(c, ps, true),
            key,
        ) == 0,
    decreases ps.len(),
{
    if ps.len() > 0 {
        lemma_tx_cancel(c, ps.drop_last(), key);
        crate::reducers::lemma_delta_sum_concat(
            tx_cmds(c, ps.drop_last(), false),
            output_cmds(c, soa_of(ps.last().1@.address), ps.last().1@.assets, false),
            key,
        );
        crate::reducers::lemma_delta_sum_concat(
            tx_cmds(c, ps.drop_last(), true),
            output_cmds(c, soa_of(ps.last().1@.address), ps.last().1@.assets, true),
            key,
        );
        assert(forall|i: int|
            0 <= i < ps.last().1@.assets.len() ==> (#[trigger] ps.last().1@.assets[i]).quantity
                <= i64::MAX) by {
            assert(ps[ps.len() - 1] == ps.last());
        }
        lemma_output_cancel(c, soa_of(ps.last().1@.address), ps.last().1@.assets, key);
    }
}

/// Reducer symmetry for the per-account asset counters: applying a
/// block's forward commands and then its undo commands leaves every
/// counter of the sink at the value it held before.
pub proof fn lemma_stake_symmetry(
    r: Reducer,
    block: Block,
    s: Map<(Seq<char>, Seq<char>), int>,
    key: (Seq<char>, Seq<char>),
)
    requires
        crate::model::block_wf(block),
    ensures
        crate::reducers::cval(
            crate::reducers::counter_after(
                crate::reducers::counter_after(s, block_cmds(r, block, false)),
                block_cmds(r, block, true),
            ),
            key,
        ) == crate::reducers::cval(s, key),
{
    let fwd = block_cmds(r, block, false);
    let undo = block_cmds(r, block, true);
    crate::reducers::lemma_counter_after_sum(s, fwd, key);
    crate::reducers::lemma_counter_after_sum(crate::reducers::counter_after(s, fwd), undo, key);
    lemma_txs_cancel(r.config, block.txs@, key);
}

/// The two directions of a whole block's counters cancel.
proof fn lemma_txs_cancel(c: Config, txs: Seq<Tx>, key: (Seq<char>, Seq<char>))
    requires
        forall|t: int, j: int|
            0 <= t < txs.len() && 0 <= j < txs[t].produces@.len() ==> crate::model::txout_wf(
                (#[trigger] txs[t].produces@[j]).1@,
            ),
    ensures
        crate::reducers::delta_sum(txs_cmds(c, txs, false), key) + crate::reducers::delta_sum(
            txs_cmds(c, txs, true),
            key,
        ) == 0,
    decreases txs.len(),
{
    if txs.len() > 0 {
        lemma_txs_cancel(c, txs.drop_last(), key);
        crate::reducers::lemma_delta_sum_concat(
            txs_cmds(c, txs.drop_last(), false),
            tx_cmds(c, txs.last().produces@, false),
            key,
        );
        crate::reducers::lemma_delta_sum_concat(
            txs_cmds(c, txs.drop_last(), true),
            tx_cmds(c, txs.last().produces@, true),
            key,
        );
        assert(forall|j: int, i: int|
            0 <= j < txs.last().produces@.len() && 0 <= i < txs.last().produces@[j].1@.assets.len()
                ==> (#[trigger] txs.last().produces@[j].1@.assets[i]).quantity <= i64::MAX) by {
            assert(txs[txs.len() - 1] == txs.last());
            assert(forall|j: int|
                0 <= j < txs.last().produces@.len() ==> crate::model::txout_wf(
                    (#[trigger] txs.last().produces@[j]).1@,
                ));
        }
        lemma_tx_cancel(c, txs.last().produces@, key);
    }
}

} // verus!
