//! Maps each asset of one configured policy to the account that last
//! received it (and, optionally, the inverse mapping).
//!
//! Direction decision: on the undo path the mapping is re-pointed at the
//! accounts of the outputs the rolled-back block consumed -- each asset's
//! receiver before the block -- which restores the pre-block mapping.

use vstd::prelude::*;

use crate::address::addr_string_of;
use crate::address::address_string;
use crate::address::soa_of;
use crate::address::stake_or_address;
use crate::digest::hex_string;
use crate::digest::utf8_of;
use crate::digest::utf8_string;
use crate::model::AssetV;
use crate::model::Block;
use crate::model::BlockContext;
use crate::model::CRDTCommand;
use crate::model::CommandV;
use crate::model::OutputRef;
use crate::model::Tx;
use crate::model::TxOutput;
use crate::model::TxOutputV;
use crate::model::UtxoValV;
use crate::model::Value;
use crate::model::ValueV;
use crate::model::cmds_view;
use crate::model::lemma_cmds_view_push;
use crate::model::prefixed;
use crate::model::ref_key;
use crate::reducers::opt_view;
use crate::text::hex_of;

verus! {

/// Which policy to watch and how to render its asset names.
pub struct Config {
    pub key_prefix: Option<String>,
    pub filter: Option<Vec<String>>,
    pub policy_id_hex: String,
    pub convert_to_ascii: Option<bool>,
    pub soa: Option<bool>,
    pub also_store_inverted: Option<bool>,
}

pub struct Reducer {
    pub config: Config,
    pub convert_to_ascii: bool,
    pub soa: bool,
    pub also_store_inverted: bool,
}

/// The rendered name of an asset of the watched policy: its UTF-8 text
/// when ASCII conversion is on and the bytes decode, its hex otherwise;
/// assets of other policies yield nothing.
pub open spec fn name_of(r: Reducer, a: AssetV) -> Option<Seq<char>> {
    if hex_of(a.policy) == r.config.policy_id_hex@ {
        if r.convert_to_ascii {
            utf8_of(a.name)
        } else {
            Some(hex_of(a.name))
        }
    } else {
        None
    }
}

/// The account an output is attributed to: the normalised account when
/// `soa` is set, the bech32 form of the address itself otherwise.
pub open spec fn account_of(r: Reducer, out: TxOutputV) -> Seq<char> {
    if r.soa {
        soa_of(out.address)
    } else {
        addr_string_of(out.address)
    }
}

/// The commands of one output: one overwrite per matching asset, plus the
/// inverse mapping when configured.
pub open spec fn asset_cmds(r: Reducer, account: Seq<char>, assets: Seq<AssetV>) -> Seq<
    CommandV,
>
    decreases assets.len(),
{
    if assets.len() == 0 {
        Seq::<CommandV>::empty()
    } else {
        asset_cmds(r, account, assets.drop_last()) + (match name_of(r, assets.last()) {
            Some(name) => seq![
                CommandV::AnyWriteWins(
                    prefixed(opt_view(r.config.key_prefix), name),
                    ValueV::String(account),
                ),
            ] + (if r.also_store_inverted {
                seq![
                    CommandV::AnyWriteWins(
                        prefixed(opt_view(r.config.key_prefix), account),
                        ValueV::String(name),
                    ),
                ]
            } else {
                Seq::<CommandV>::empty()
            }),
            None => Seq::<CommandV>::empty(),
        })
    }
}

pub open spec fn txo_cmds(r: Reducer, out: TxOutputV) -> Seq<CommandV> {
    asset_cmds(r, account_of(r, out), out.assets)
}

/// On the forward path the produced outputs count; on a rollback the
/// consumed outputs that the context resolved count instead.
pub open spec fn tx_cmds(
    r: Reducer,
    ctx: Map<Seq<char>, UtxoValV>,
    tx: Tx,
    rollback: bool,
) -> Seq<CommandV> {
    if rollback {
        consumed_txos_cmds(r, ctx, tx.consumes@)
    } else {
        produced_txos_cmds(r, tx.produces@)
    }
}

pub open spec fn consumed_txos_cmds(
    r: Reducer,
    ctx: Map<Seq<char>, UtxoValV>,
    rs: Seq<OutputRef>,
) -> Seq<CommandV>
    decreases rs.len(),
{
    if rs.len() == 0 {
        Seq::<CommandV>::empty()
    } else {
        consumed_txos_cmds(r, ctx, rs.drop_last()) + ({
            let k = ref_key(rs.last().tx_hash@, rs.last().index);
            if ctx.contains_key(k) {
                txo_cmds(r, ctx[k].output)
            } else {
                Seq::<CommandV>::empty()
            }
        })
    }
}

pub open spec fn produced_txos_cmds(r: Reducer, ps: Seq<(u64, TxOutput)>) -> Seq<CommandV>
    decreases ps.len(),
{
    if ps.len() == 0 {
        Seq::<CommandV>::empty()
    } else {
        produced_txos_cmds(r, ps.drop_last()) + txo_cmds(r, ps.last().1@)
    }
}

pub open spec fn block_cmds(
    r: Reducer,
    ctx: Map<Seq<char>, UtxoValV>,
    txs: Seq<Tx>,
    rollback: bool,
) -> Seq<CommandV>
    decreases txs.len(),
{
    if txs.len() == 0 {
        Seq::<CommandV>::empty()
    } else {
        block_cmds(r, ctx, txs.drop_last(), rollback) + tx_cmds(r, ctx, txs.last(), rollback)
    }
}

impl Reducer {
    /// Emit the commands of one output.
    pub fn process_txo(&self, txo: &TxOutput, output: &mut Vec<CRDTCommand>)
        ensures
            cmds_view(final(output)@) == cmds_view(old(output)@) + txo_cmds(*self, txo@),
    {
        let account = if self.soa {
            stake_or_address(&txo.address)
        } else {
            address_string(&txo.address)
        };
        let ghost base = cmds_view(output@);
        let n = txo.assets.len();
        let mut i: usize = 0;
        while i < n
            invariant
                n == txo.assets@.len(),
                i <= n,
                account@ == account_of(*self, txo@),
                cmds_view(output@) == base + asset_cmds(
                    *self,
                    account_of(*self, txo@),
                    txo@.assets.take(i as int),
                ),
            decreases n - i,
        {
            let a = &txo.assets[i];
            proof {
                assert(txo@.assets[i as int] == txo.assets@[i as int]@);
            }
            let name = if hex_string(a.policy.as_slice()) == self.config.policy_id_hex {
                if self.convert_to_ascii {
                    utf8_string(&a.name)
                } else {
                    Some(hex_string(a.name.as_slice()))
                }
            } else {
                None
            };
            match name {
                Some(name) => {
                    let pfx = match &self.config.key_prefix {
                        Some(p) => Some(p),
                        None => None,
                    };
                    let ghost mid0 = output@;
                    output.push(
                        CRDTCommand::any_write_wins(
                            pfx,
                            name.as_str(),
                            Value::String(account.clone()),
                        ),
                    );
                    proof {
                        lemma_cmds_view_push(mid0, output@.last());
                    }
                    if self.also_store_inverted {
                        let pfx2 = match &self.config.key_prefix {
                            Some(p) => Some(p),
                            None => None,
                        };
                        let ghost mid1 = output@;
                        output.push(
                            CRDTCommand::any_write_wins(
                                pfx2,
                                account.as_str(),
                                Value::String(name.clone()),
                            ),
                        );
                        proof {
                            lemma_cmds_view_push(mid1, output@.last());
                        }
                    }
                },
                None => {},
            }
            proof {
                assert(txo@.assets.take(i + 1).drop_last() =~= txo@.assets.take(i as int));
                assert(txo@.assets.take(i + 1).last() == txo@.assets[i as int]);
                assert(cmds_view(output@) =~= base + asset_cmds(
                    *self,
                    account_of(*self, txo@),
                    txo@.assets.take(i + 1),
                ));
            }
            i += 1;
        }
        proof {
            assert(txo@.assets.take(n as int) =~= txo@.assets);
        }
    }

    /// Project one enriched block, direction-aware: produced outputs on
    /// the way forward, resolved consumed outputs on the way back.
    pub fn reduce_block(
        &self,
        block: &Block,
        ctx: &BlockContext,
        rollback: bool,
        output: &mut Vec<CRDTCommand>,
    )
        requires
            ctx.wf(),
        ensures
            cmds_view(final(output)@) == cmds_view(old(output)@) + block_cmds(
                *self,
                ctx@,
                block.txs@,
                rollback,
            ),
    {
        let ghost base = cmds_view(output@);
        let n = block.txs.len();
        let mut t: usize = 0;
        while t < n
            invariant
                n == block.txs@.len(),
                t <= n,
                ctx.wf(),
                cmds_view(output@) == base + block_cmds(
                    *self,
                    ctx@,
                    block.txs@.take(t as int),
                    rollback,
                ),
            decreases n - t,
        {
            let tx = &block.txs[t];
            let ghost txbase = cmds_view(output@);
            if rollback {
                let nc = tx.consumes.len();
                let mut j: usize = 0;
                while j < nc
                    invariant
                        nc == tx.consumes@.len(),
                        j <= nc,
                        ctx.wf(),
                        tx == &block.txs@[t as int],
                        t < n,
                        n == block.txs@.len(),
                        cmds_view(output@) == txbase + consumed_txos_cmds(
                            *self,
                            ctx@,
                            tx.consumes@.take(j as int),
                        ),
                    decreases nc - j,
                {
                    let input = &tx.consumes[j];
                    let found = match ctx.find_utxo(input) {
                        Some(v) => Some(v.output.duplicate()),
                        None => None,
                    };
                    match found {
                        Some(txo) => {
                            self.process_txo(&txo, output);
                        },
                        None => {},
                    }
                    proof {
                        assert(tx.consumes@.take(j + 1).drop_last() =~= tx.consumes@.take(
                            j as int,
                        ));
                        assert(tx.consumes@.take(j + 1).last() == tx.consumes@[j as int]);
                        assert(cmds_view(output@) =~= txbase + consumed_txos_cmds(
                            *self,
                            ctx@,
                            tx.consumes@.take(j + 1),
                        ));
                    }
                    j += 1;
                }
                proof {
                    assert(tx.consumes@.take(nc as int) =~= tx.consumes@);
                }
            } else {
                let np = tx.produces.len();
                let mut k: usize = 0;
                while k < np
                    invariant
                        np == tx.produces@.len(),
                        k <= np,
                        tx == &block.txs@[t as int],
                        t < n,
                        n == block.txs@.len(),
                        cmds_view(output@) == txbase + produced_txos_cmds(
                            *self,
                            tx.produces@.take(k as int),
                        ),
                    decreases np - k,
                {
                    self.process_txo(&tx.produces[k].1, output);
                    proof {
                        assert(tx.produces@.take(k + 1).drop_last() =~= tx.produces@.take(
                            k as int,
                        ));
                        assert(tx.produces@.take(k + 1).last() == tx.produces@[k as int]);
                        assert(cmds_view(output@) =~= txbase + produced_txos_cmds(
                            *self,
                            tx.produces@.take(k + 1),
                        ));
                    }
                    k += 1;
                }
                proof {
                    assert(tx.produces@.take(np as int) =~= tx.produces@);
                }
            }
            proof {
                assert(block.txs@.take(t + 1).drop_last() =~= block.txs@.take(t as int));
                assert(block.txs@.take(t + 1).last() == block.txs@[t as int]);
                assert(cmds_view(output@) =~= base + block_cmds(
                    *self,
                    ctx@,
                    block.txs@.take(t + 1),
                    rollback,
                ));
            }
            t += 1;
        }
        proof {
            assert(block.txs@.take(n as int) =~= block.txs@);
        }
    }
}

impl Config {
    /// Register this projection.
    pub fn plugin(self) -> (r: crate::reducers::Reducer)
        ensures
            r matches crate::reducers::Reducer::AddressByAsset(x) && x.config == self,
    {
        let convert_to_ascii = match self.convert_to_ascii {
            Some(b) => b,
            None => false,
        };
        let soa = match self.soa {
            Some(b) => b,
            None => false,
        };
        let also_store_inverted = match self.also_store_inverted {
            Some(b) => b,
            None => false,
        };
        crate::reducers::Reducer::AddressByAsset(
            Reducer { config: self, convert_to_ascii, soa, also_store_inverted },
        )
    }
}

} // verus!
