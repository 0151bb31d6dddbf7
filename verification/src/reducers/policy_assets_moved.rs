//! Records, per policy, when each of its assets last moved: every produced
//! output's assets stamp the policy's hash set with the block's wallclock.
//!
//! Direction decision: a stamp is an overwrite whose prior value lives
//! only in the sink, so the undo direction emits nothing rather than
//! re-stamp a movement the chain revoked; the surviving blocks re-stamp
//! their own movements.

use vstd::prelude::*;

use crate::crosscut::ChainWellKnownInfo;
use crate::crosscut::NaiveProvider;
use crate::crosscut::wallclock_of;
use crate::digest::asset_fingerprint;
use crate::digest::fingerprint_of;
use crate::digest::hex_string;
use crate::model::AssetV;
use crate::model::Block;
use crate::model::CRDTCommand;
use crate::model::CommandV;
use crate::model::Tx;
use crate::model::TxOutput;
use crate::model::Value;
use crate::model::ValueV;
use crate::model::cmds_view;
use crate::model::lemma_cmds_view_push;
use crate::reducers::in_str_list;
use crate::reducers::str_list_contains;
use crate::text::dec_of;
use crate::text::hex_of;
use crate::text::u64_string;

verus! {

/// Key prefix and an optional allow-list of policy ids, in hex.
pub struct Config {
    pub key_prefix: Option<String>,
    pub policy_ids_hex: Option<Vec<String>>,
}

pub struct Reducer {
    pub config: Config,
    pub chain: ChainWellKnownInfo,
}

pub open spec fn policy_ok(c: Config, policy: Seq<u8>) -> bool {
    match c.policy_ids_hex {
        Some(l) => in_str_list(l@, hex_of(policy)),
        None => true,
    }
}

/// The wallclock stamp a block writes, as decimal text; it saturates with
/// the wallclock arithmetic.
pub open spec fn stamp_of(chain: ChainWellKnownInfo, slot: u64) -> Seq<char> {
    if wallclock_of(chain, slot) <= u64::MAX {
        dec_of(wallclock_of(chain, slot) as nat)
    } else {
        dec_of(u64::MAX as nat)
    }
}

/// The command of one asset on a produced output: the policy's set,
/// keyed under the prefix (`policy` by default) and the policy hex, maps
/// the asset's fingerprint to the stamp. An empty fingerprint or a
/// filtered-out policy yields nothing.
pub open spec fn asset_cmds(r: Reducer, slot: u64, a: AssetV) -> Seq<CommandV> {
    if fingerprint_of(a.policy, a.name).len() > 0 && policy_ok(r.config, a.policy) {
        seq![
            CommandV::HashSetValue(
                (match r.config.key_prefix {
                    Some(p) => p@,
                    None => "policy"@,
                }) + seq!['.'] + hex_of(a.policy),
                fingerprint_of(a.policy, a.name),
                ValueV::String(stamp_of(r.chain, slot)),
            ),
        ]
    } else {
        Seq::<CommandV>::empty()
    }
}

pub open spec fn output_cmds(r: Reducer, slot: u64, assets: Seq<AssetV>) -> Seq<CommandV>
    decreases assets.len(),
{
    if assets.len() == 0 {
        Seq::<CommandV>::empty()
    } else {
        output_cmds(r, slot, assets.drop_last()) + asset_cmds(r, slot, assets.last())
    }
}

pub open spec fn tx_outputs_cmds(r: Reducer, slot: u64, ps: Seq<(u64, TxOutput)>) -> Seq<
    CommandV,
>
    decreases ps.len(),
{
    if ps.len() == 0 {
        Seq::<CommandV>::empty()
    } else {
        tx_outputs_cmds(r, slot, ps.drop_last()) + output_cmds(r, slot, ps.last().1@.assets)
    }
}

pub open spec fn txs_cmds(r: Reducer, slot: u64, txs: Seq<Tx>) -> Seq<CommandV>
    decreases txs.len(),
{
    if txs.len() == 0 {
        Seq::<CommandV>::empty()
    } else {
        txs_cmds(r, slot, txs.drop_last()) + tx_outputs_cmds(r, slot, txs.last().produces@)
    }
}

pub open spec fn block_cmds(r: Reducer, block: Block, rollback: bool) -> Seq<CommandV> {
    if rollback {
        Seq::<CommandV>::empty()
    } else {
        txs_cmds(r, block.slot, block.txs@)
    }
}

impl Reducer {
    /// Emit the stamps of one produced output's assets.
    pub fn process_output(&self, slot: u64, out: &TxOutput, output: &mut Vec<CRDTCommand>)
        ensures
            cmds_view(final(output)@) == cmds_view(old(output)@) + output_cmds(
                *self,
                slot,
                out@.assets,
            ),
    {
        let ghost base = cmds_view(output@);
        let time = NaiveProvider::new(self.chain).slot_to_wallclock(slot);
        let n = out.assets.len();
        let mut i: usize = 0;
        while i < n
            invariant
                n == out.assets@.len(),
                i <= n,
                time == if wallclock_of(self.chain, slot) <= u64::MAX {
                    wallclock_of(self.chain, slot) as u64
                } else {
                    u64::MAX
                },
                cmds_view(output@) == base + output_cmds(
                    *self,
                    slot,
                    out@.assets.take(i as int),
                ),
            decreases n - i,
        {
            let a = &out.assets[i];
            proof {
                assert(out@.assets[i as int] == out.assets@[i as int]@);
            }
            let fp = asset_fingerprint(a.policy.as_slice(), a.name.as_slice());
            let accepted = match &self.config.policy_ids_hex {
                Some(l) => str_list_contains(l, &hex_string(a.policy.as_slice())),
                None => true,
            };
            if !fp.as_str().is_empty() && accepted {
                proof {
                    reveal_strlit("policy");
                    reveal_strlit(".");
                }
                let mut key = match &self.config.key_prefix {
                    Some(p) => p.clone(),
                    None => String::from_str("policy"),
                };
                key.append(".");
                key.append(hex_string(a.policy.as_slice()).as_str());
                let stamp = u64_string(time);
                proof {
                    assert(key@ =~= (match self.config.key_prefix {
                        Some(p) => p@,
                        None => "policy"@,
                    }) + seq!['.'] + hex_of(out@.assets[i as int].policy));
                    assert(stamp@ == stamp_of(self.chain, slot));
                }
                let ghost mid = output@;
                output.push(CRDTCommand::HashSetValue(key, fp, Value::String(stamp)));
                proof {
                    lemma_cmds_view_push(mid, output@.last());
                }
            }
            proof {
                assert(out@.assets.take(i + 1).drop_last() =~= out@.assets.take(i as int));
                assert(out@.assets.take(i + 1).last() == out@.assets[i as int]);
                assert(cmds_view(output@) =~= base + output_cmds(
                    *self,
                    slot,
                    out@.assets.take(i + 1),
                ));
            }
            i += 1;
        }
        proof {
            assert(out@.assets.take(n as int) =~= out@.assets);
        }
    }

    /// Project one block: stamp every asset of every produced output; the
    /// undo direction emits nothing (see the module note).
    pub fn reduce_block(&self, block: &Block, rollback: bool, output: &mut Vec<CRDTCommand>)
        ensures
            cmds_view(final(output)@) == cmds_view(old(output)@) + block_cmds(
                *self,
                *block,
                rollback,
            ),
    {
        if rollback {
            proof {
                assert(cmds_view(output@) =~= cmds_view(output@) + block_cmds(
                    *self,
                    *block,
                    rollback,
                ));
            }
            return ;
        }
        let ghost base = cmds_view(output@);
        let n = block.txs.len();
        let mut t: usize = 0;
        while t < n
            invariant
                n == block.txs@.len(),
                t <= n,
                cmds_view(output@) == base + txs_cmds(
                    *self,
                    block.slot,
                    block.txs@.take(t as int),
                ),
            decreases n - t,
        {
            let tx = &block.txs[t];
            let ghost txbase = cmds_view(output@);
            let np = tx.produces.len();
            let mut k: usize = 0;
            while k < np
                invariant
                    np == tx.produces@.len(),
                    k <= np,
                    tx == &block.txs@[t as int],
                    t < n,
                    n == block.txs@.len(),
                    cmds_view(output@) == txbase + tx_outputs_cmds(
                        *self,
                        block.slot,
                        tx.produces@.take(k as int),
                    ),
                decreases np - k,
            {
                self.process_output(block.slot, &tx.produces[k].1, output);
                proof {
                    assert(tx.produces@.take(k + 1).drop_last() =~= tx.produces@.take(k as int));
                    assert(tx.produces@.take(k + 1).last() == tx.produces@[k as int]);
                    assert(cmds_view(output@) =~= txbase + tx_outputs_cmds(
                        *self,
                        block.slot,
                        tx.produces@.take(k + 1),
                    ));
                }
                k += 1;
            }
            proof {
                assert(tx.produces@.take(np as int) =~= tx.produces@);
                assert(block.txs@.take(t + 1).drop_last() =~= block.txs@.take(t as int));
                assert(block.txs@.take(t + 1).last() == block.txs@[t as int]);
                assert(cmds_view(output@) =~= base + txs_cmds(
                    *self,
                    block.slot,
                    block.txs@.take(t + 1),
                ));
            }
            t += 1;
        }
        proof {
            assert(block.txs@.take(n as int) =~= block.txs@);
        }
    }
}

impl Config {
    /// Register this projection.
    pub fn plugin(self, chain: &ChainWellKnownInfo) -> (r: crate::reducers::Reducer)
        ensures
            r matches crate::reducers::Reducer::PolicyAssetsMoved(x) && x.config == self
                && x.chain == *chain,
    {
        crate::reducers::Reducer::PolicyAssetsMoved(Reducer { config: self, chain: *chain })
    }
}

} // verus!
