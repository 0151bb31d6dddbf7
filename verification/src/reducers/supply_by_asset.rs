//! Tallies the circulating supply of each asset from its mint and burn
//! quantities. Supply counters are not inverted on a rollback: this
//! projection emits on the forward path only.

use vstd::prelude::*;

use crate::digest::fingerprint_of;
use crate::digest::hex_string;
use crate::digest::utf8_of;
use crate::digest::utf8_string;
use crate::model::Block;
use crate::model::CRDTCommand;
use crate::model::CommandV;
use crate::model::MintAsset;
use crate::model::Tx;
use crate::model::cmds_view;
use crate::model::lemma_cmds_view_push;
use crate::reducers::in_str_list;
use crate::reducers::str_list_contains;
use crate::text::hex_of;

verus! {

/// Key prefix and an optional allow-list of policy ids, in hex.
pub struct Config {
    pub key_prefix: Option<String>,
    pub policy_ids_hex: Option<Vec<String>>,
}

pub struct Reducer {
    pub config: Config,
}

/// Whether a policy passes the optional policy filter.
pub open spec fn policy_ok(c: Config, policy: Seq<u8>) -> bool {
    match c.policy_ids_hex {
        Some(l) => in_str_list(l@, hex_of(policy)),
        None => true,
    }
}

/// The key a supply counter lives under: the prefix (`supply_by_asset`
/// when none is configured), the policy and name in hex, and the policy in
/// hex once more.
pub open spec fn supply_key(c: Config, policy: Seq<u8>, name: Seq<u8>) -> Seq<char> {
    (match c.key_prefix {
        Some(p) => p@,
        None => "supply_by_asset"@,
    }) + seq!['.'] + hex_of(policy) + hex_of(name) + seq!['.'] + hex_of(policy)
}

/// The command of one minted or burned asset: a counter keyed by policy
/// and asset, with the asset's fingerprint as field and the signed minted
/// quantity as delta. Assets whose names are not valid UTF-8, and assets
/// of filtered-out policies, are skipped.
pub open spec fn mint_cmds(c: Config, a: MintAsset) -> Seq<CommandV> {
    if policy_ok(c, a.policy@) && utf8_of(a.name@) is Some {
        seq![
            CommandV::HashCounter(
                supply_key(c, a.policy@, a.name@),
                fingerprint_of(a.policy@, a.name@),
                a.quantity,
            ),
        ]
    } else {
        Seq::<CommandV>::empty()
    }
}

pub open spec fn tx_cmds(c: Config, ms: Seq<MintAsset>) -> Seq<CommandV>
    decreases ms.len(),
{
    if ms.len() == 0 {
        Seq::<CommandV>::empty()
    } else {
        tx_cmds(c, ms.drop_last()) + mint_cmds(c, ms.last())
    }
}

/// The commands of a block: every transaction's mint list on the forward
/// path, nothing on a rollback.
pub open spec fn block_cmds(r: Reducer, txs: Seq<Tx>, rollback: bool) -> Seq<CommandV>
    decreases txs.len(),
{
    if rollback {
        Seq::<CommandV>::empty()
    } else if txs.len() == 0 {
        Seq::<CommandV>::empty()
    } else {
        block_cmds(r, txs.drop_last(), rollback) + tx_cmds(r.config, txs.last().mint@)
    }
}

impl Reducer {
    /// Emit the supply command of one minted asset.
    pub fn process_asset(&self, a: &MintAsset, output: &mut Vec<CRDTCommand>)
        ensures
            cmds_view(final(output)@) == cmds_view(old(output)@) + mint_cmds(
                self.config,
                *a,
            ),
    {
        let accepted = match &self.config.policy_ids_hex {
            Some(l) => str_list_contains(l, &hex_string(a.policy.as_slice())),
            None => true,
        };
        if !accepted {
            proof {
                assert(cmds_view(output@) =~= cmds_view(output@));
            }
            return ;
        }
        match utf8_string(&a.name) {
            None => {},
            Some(_) => {
                proof {
                    reveal_strlit("supply_by_asset");
                    reveal_strlit(".");
                }
                let mut key = match &self.config.key_prefix {
                    Some(p) => p.clone(),
                    None => String::from_str("supply_by_asset"),
                };
                key.append(".");
                key.append(hex_string(a.policy.as_slice()).as_str());
                key.append(hex_string(a.name.as_slice()).as_str());
                key.append(".");
                key.append(hex_string(a.policy.as_slice()).as_str());
                proof {
                    assert(key@ =~= supply_key(self.config, a.policy@, a.name@));
                }
                let fp = crate::digest::asset_fingerprint(
                    a.policy.as_slice(),
                    a.name.as_slice(),
                );
                let ghost mid = output@;
                output.push(CRDTCommand::HashCounter(key, fp, a.quantity));
                proof {
                    lemma_cmds_view_push(mid, output@.last());
                    assert(cmds_view(output@) =~= cmds_view(mid) + mint_cmds(
                        self.config,
                        *a,
                    ));
                }
            },
        }
    }

    /// Project one block's mint lists.
    pub fn reduce_block(&self, block: &Block, rollback: bool, output: &mut Vec<CRDTCommand>)
        ensures
            cmds_view(final(output)@) == cmds_view(old(output)@) + block_cmds(
                *self,
                block.txs@,
                rollback,
            ),
    {
        if rollback {
            proof {
                assert(cmds_view(output@) =~= cmds_view(output@) + block_cmds(
                    *self,
                    block.txs@,
                    rollback,
                ));
            }
            return ;
        }
        let ghost base = cmds_view(output@);
        let n = block.txs.len();
        let mut t: usize = 0;
        while t < n
            invariant
                n == block.txs@.len(),
                t <= n,
                !rollback,
                cmds_view(output@) == base + block_cmds(
                    *self,
                    block.txs@.take(t as int),
                    rollback,
                ),
            decreases n - t,
        {
            let tx = &block.txs[t];
            let ghost txbase = cmds_view(output@);
            let nm = tx.mint.len();
            let mut j: usize = 0;
            while j < nm
                invariant
                    nm == tx.mint@.len(),
                    j <= nm,
                    tx == &block.txs@[t as int],
                    t < n,
                    n == block.txs@.len(),
                    cmds_view(output@) == txbase + tx_cmds(
                        self.config,
                        tx.mint@.take(j as int),
                    ),
                decreases nm - j,
            {
                self.process_asset(&tx.mint[j], output);
                proof {
                    assert(tx.mint@.take(j + 1).drop_last() =~= tx.mint@.take(j as int));
                    assert(tx.mint@.take(j + 1).last() == tx.mint@[j as int]);
                    assert(cmds_view(output@) =~= txbase + tx_cmds(
                        self.config,
                        tx.mint@.take(j + 1),
                    ));
                }
                j += 1;
            }
            proof {
                assert(tx.mint@.take(nm as int) =~= tx.mint@);
                assert(block.txs@.take(t + 1).drop_last() =~= block.txs@.take(t as int));
                assert(block.txs@.take(t + 1).last() == block.txs@[t as int]);
                assert(cmds_view(output@) =~= base + block_cmds(
                    *self,
                    block.txs@.take(t + 1),
                    rollback,
                ));
            }
            t += 1;
        }
        proof {
            assert(block.txs@.take(n as int) =~= block.txs@);
        }
    }
}

impl Config {
    /// Register this projection.
    pub fn plugin(self) -> (r: crate::reducers::Reducer)
        ensures
            r matches crate::reducers::Reducer::SupplyByAsset(x) && x.config == self,
    {
        crate::reducers::Reducer::SupplyByAsset(Reducer { config: self })
    }
}

} // verus!
