//! The balance projection: every movement of coin or assets adjusts the
//! moving account's counters, negatively when spent and positively when
//! received; the undo direction flips every sign, so a rolled-back block
//! cancels exactly.

use vstd::prelude::*;

use crate::address::soa_of;
use crate::address::stake_or_address;
use crate::crosscut::ChainWellKnownInfo;
use crate::crosscut::NaiveProvider;
use crate::crosscut::wallclock_of;
use crate::digest::asset_fingerprint;
use crate::digest::fingerprint_of;
use crate::model::Asset;
use crate::model::AssetV;
use crate::model::Block;
use crate::model::BlockContext;
use crate::model::CRDTCommand;
use crate::model::CommandV;
use crate::model::OutputRef;
use crate::model::Tx;
use crate::model::TxOutput;
use crate::model::TxOutputV;
use crate::model::UtxoValV;
use crate::model::Value;
use crate::model::ValueV;
use crate::model::block_wf;
use crate::model::cmds_view;
use crate::model::ctx_wf;
use crate::model::lemma_cmds_view_push;
use crate::model::ref_key;
use crate::model::txout_wf;
use crate::reducers::delta_sum;
use crate::text::dec_of;
use crate::text::u64_string;

verus! {

/// How stored values are projected; kept for configuration compatibility.
#[derive(Clone, Copy, PartialEq, Eq, Structural, Debug)]
pub enum Projection {
    Cbor,
    Json,
}

pub struct Config {
    pub key_prefix: Option<String>,
    pub filter: Option<Vec<String>>,
}

pub struct Reducer {
    pub config: Config,
    pub chain: ChainWellKnownInfo,
}

/// The key prefix of this projection; `soa-wallet` when none is set.
pub open spec fn bal_prefix(c: Config) -> Seq<char> {
    match c.key_prefix {
        Some(p) => p@,
        None => "soa-wallet"@,
    }
}

/// The signed delta of one moved quantity: negative when spending.
pub open spec fn signed(spending: bool, q: u64) -> int {
    if spending {
        -(q as int)
    } else {
        q as int
    }
}

/// The per-asset balance offsets of one movement, fingerprints only.
pub open spec fn asset_offsets(assets: Seq<AssetV>, spending: bool) -> Seq<(Seq<char>, int)>
    decreases assets.len(),
{
    if assets.len() == 0 {
        Seq::<(Seq<char>, int)>::empty()
    } else {
        asset_offsets(assets.drop_last(), spending) + (if fingerprint_of(
            assets.last().policy,
            assets.last().name,
        ).len() > 0 {
            seq![
                (
                    fingerprint_of(assets.last().policy, assets.last().name),
                    signed(spending, assets.last().quantity),
                ),
            ]
        } else {
            Seq::<(Seq<char>, int)>::empty()
        })
    }
}

/// The balance offsets of one movement: the coin amount under the
/// `lovelace` field, then one offset per asset.
pub open spec fn offsets_of(lovelace: u64, assets: Seq<AssetV>, spending: bool) -> Seq<
    (Seq<char>, int),
> {
    seq![("lovelace"@, signed(spending, lovelace))] + asset_offsets(assets, spending)
}

/// The counters of one movement, over the account's key.
pub open spec fn counter_cmds(c: Config, soa: Seq<char>, offs: Seq<(Seq<char>, int)>) -> Seq<
    CommandV,
> {
    offs.map_values(
        |p: (Seq<char>, int)|
            CommandV::HashCounter(bal_prefix(c) + seq!['.'] + soa, p.0, p.1 as i64),
    )
}

/// The ownership counters of one movement: per asset with a fingerprint
/// and a non-zero quantity, the account's share under the asset's key.
pub open spec fn owned_cmds(
    c: Config,
    soa: Seq<char>,
    assets: Seq<AssetV>,
    spending: bool,
) -> Seq<CommandV>
    decreases assets.len(),
{
    if assets.len() == 0 {
        Seq::<CommandV>::empty()
    } else {
        owned_cmds(c, soa, assets.drop_last(), spending) + (if fingerprint_of(
            assets.last().policy,
            assets.last().name,
        ).len() > 0 && assets.last().quantity != 0 {
            seq![
                CommandV::HashCounter(
                    bal_prefix(c) + ".owned."@ + fingerprint_of(
                        assets.last().policy,
                        assets.last().name,
                    ),
                    soa,
                    signed(spending, assets.last().quantity) as i64,
                ),
            ]
        } else {
            Seq::<CommandV>::empty()
        })
    }
}

/// The wallclock stamp written beside a movement.
pub open spec fn stamp_of(chain: ChainWellKnownInfo, slot: u64) -> Seq<char> {
    if wallclock_of(chain, slot) <= u64::MAX {
        dec_of(wallclock_of(chain, slot) as nat)
    } else {
        dec_of(u64::MAX as nat)
    }
}

/// The commands of one movement: the account's counters, the freshness
/// stamp, and the per-asset ownership counters.
pub open spec fn movement_cmds(
    r: Reducer,
    slot: u64,
    soa: Seq<char>,
    lovelace: u64,
    assets: Seq<AssetV>,
    spending: bool,
) -> Seq<CommandV> {
    counter_cmds(r.config, soa, offsets_of(lovelace, assets, spending)) + seq![
        CommandV::AnyWriteWins(
            bal_prefix(r.config) + ".latest."@ + soa,
            ValueV::String(stamp_of(r.chain, slot)),
        ),
    ] + owned_cmds(r.config, soa, assets, spending)
}

pub open spec fn out_movement_cmds(r: Reducer, slot: u64, out: TxOutputV, spending: bool) -> Seq<
    CommandV,
> {
    movement_cmds(r, slot, soa_of(out.address), out.lovelace, out.assets, spending)
}

/// The commands of one consumed reference: the resolved output moves out
/// of its account (or into it, on the undo path); unresolved references
/// yield nothing.
pub open spec fn spent_cmds(
    r: Reducer,
    slot: u64,
    ctx: Map<Seq<char>, UtxoValV>,
    tx_hash: Seq<u8>,
    idx: u64,
    spending: bool,
) -> Seq<CommandV> {
    let k = ref_key(tx_hash, idx);
    if ctx.contains_key(k) {
        out_movement_cmds(r, slot, ctx[k].output, spending)
    } else {
        Seq::<CommandV>::empty()
    }
}

pub open spec fn consumed_list_cmds(
    r: Reducer,
    slot: u64,
    ctx: Map<Seq<char>, UtxoValV>,
    rs: Seq<OutputRef>,
    rollback: bool,
) -> Seq<CommandV>
    decreases rs.len(),
{
    if rs.len() == 0 {
        Seq::<CommandV>::empty()
    } else {
        consumed_list_cmds(r, slot, ctx, rs.drop_last(), rollback) + spent_cmds(
            r,
            slot,
            ctx,
            rs.last().tx_hash@,
            rs.last().index,
            !rollback,
        )
    }
}

pub open spec fn produced_list_cmds(
    r: Reducer,
    slot: u64,
    ps: Seq<(u64, TxOutput)>,
    rollback: bool,
) -> Seq<CommandV>
    decreases ps.len(),
{
    if ps.len() == 0 {
        Seq::<CommandV>::empty()
    } else {
        produced_list_cmds(r, slot, ps.drop_last(), rollback) + out_movement_cmds(
            r,
            slot,
            ps.last().1@,
            rollback,
        )
    }
}

pub open spec fn tx_cmds(
    r: Reducer,
    slot: u64,
    ctx: Map<Seq<char>, UtxoValV>,
    tx: Tx,
    rollback: bool,
) -> Seq<CommandV> {
    consumed_list_cmds(r, slot, ctx, tx.consumes@, rollback) + produced_list_cmds(
        r,
        slot,
        tx.produces@,
        rollback,
    )
}

pub open spec fn block_txs_cmds(
    r: Reducer,
    slot: u64,
    ctx: Map<Seq<char>, UtxoValV>,
    txs: Seq<Tx>,
    rollback: bool,
) -> Seq<CommandV>
    decreases txs.len(),
{
    if txs.len() == 0 {
        Seq::<CommandV>::empty()
    } else {
        block_txs_cmds(r, slot, ctx, txs.drop_last(), rollback) + tx_cmds(
            r,
            slot,
            ctx,
            txs.last(),
            rollback,
        )
    }
}

pub open spec fn block_cmds(
    r: Reducer,
    ctx: Map<Seq<char>, UtxoValV>,
    block: Block,
    rollback: bool,
) -> Seq<CommandV> {
    block_txs_cmds(r, block.slot, ctx, block.txs@, rollback)
}

impl Reducer {
    /// The ordered balance offsets of one movement: the coin amount first,
    /// then each fingerprinted asset with its signed quantity.
    pub fn calculate_address_asset_balance_offsets(
        &self,
        lovelace: u64,
        assets: &Vec<Asset>,
        spending: bool,
    ) -> (r: Vec<(String, i64)>)
        requires
            lovelace <= i64::MAX,
            forall|i: int|
                0 <= i < assets@.len() ==> (#[trigger] assets@[i]@).quantity <= i64::MAX,
        ensures
            r@.map_values(|p: (String, i64)| (p.0@, p.1 as int)) == offsets_of(
                lovelace,
                assets@.map_values(|a: Asset| a@),
                spending,
            ),
    {
        proof {
            reveal_strlit("lovelace");
        }
        let ghost target = assets@.map_values(|a: Asset| a@);
        let mut out: Vec<(String, i64)> = Vec::new();
        let l: i64 = if spending {
            -(lovelace as i64)
        } else {
            lovelace as i64
        };
        out.push((String::from_str("lovelace"), l));
        let n = assets.len();
        let mut i: usize = 0;
        while i < n
            invariant
                n == assets@.len(),
                i <= n,
                target == assets@.map_values(|a: Asset| a@),
                out@.map_values(|p: (String, i64)| (p.0@, p.1 as int)) == seq![
                    ("lovelace"@, signed(spending, lovelace)),
                ] + asset_offsets(target.take(i as int), spending),
                forall|j: int| 0 <= j < n ==> (#[trigger] target[j]).quantity <= i64::MAX,
            decreases n - i,
        {
            let a = &assets[i];
            proof {
                assert(target[i as int] == assets@[i as int]@);
            }
            let fp = asset_fingerprint(a.policy.as_slice(), a.name.as_slice());
            if !fp.as_str().is_empty() {
                let d: i64 = if spending {
                    -(a.quantity as i64)
                } else {
                    a.quantity as i64
                };
                let ghost mid = out@;
                out.push((fp, d));
                proof {
                    assert(out@.map_values(|p: (String, i64)| (p.0@, p.1 as int)) =~= mid
                        .map_values(|p: (String, i64)| (p.0@, p.1 as int)) + seq![
                        (
                            fingerprint_of(target[i as int].policy, target[i as int].name),
                            signed(spending, target[i as int].quantity),
                        ),
                    ]);
                }
            }
            proof {
                assert(target.take(i + 1).drop_last() =~= target.take(i as int));
                assert(target.take(i + 1).last() == target[i as int]);
                assert(out@.map_values(|p: (String, i64)| (p.0@, p.1 as int)) =~= seq![
                    ("lovelace"@, signed(spending, lovelace)),
                ] + asset_offsets(target.take(i + 1), spending));
            }
            i += 1;
        }
        proof {
            assert(target.take(n as int) =~= target);
            assert(out@.map_values(|p: (String, i64)| (p.0@, p.1 as int)) =~= offsets_of(
                lovelace,
                target,
                spending,
            ));
        }
        out
    }

    /// Emit every command of one movement.
    pub fn process_asset_movement(
        &self,
        output: &mut Vec<CRDTCommand>,
        soa: &String,
        lovelace: u64,
        assets: &Vec<Asset>,
        spending: bool,
        slot: u64,
    )
        requires
            lovelace <= i64::MAX,
            forall|i: int|
                0 <= i < assets@.len() ==> (#[trigger] assets@[i]@).quantity <= i64::MAX,
        ensures
            cmds_view(final(output)@) == cmds_view(old(output)@) + movement_cmds(
                *self,
                slot,
                soa@,
                lovelace,
                assets@.map_values(|a: Asset| a@),
                spending,
            ),
    {
        proof {
            reveal_strlit(".");
            reveal_strlit(".latest.");
            reveal_strlit(".owned.");
            reveal_strlit("soa-wallet");
        }
        let ghost base = cmds_view(output@);
        let ghost target = assets@.map_values(|a: Asset| a@);
        let offs = self.calculate_address_asset_balance_offsets(lovelace, assets, spending);
        let mut soa_key = match &self.config.key_prefix {
            Some(p) => p.clone(),
            None => String::from_str("soa-wallet"),
        };
        soa_key.append(".");
        soa_key.append(soa.as_str());
        proof {
            assert(soa_key@ =~= bal_prefix(self.config) + seq!['.'] + soa@);
        }
        let ghost offsv = offsets_of(lovelace, target, spending);
        let n = offs.len();
        let mut i: usize = 0;
        while i < n
            invariant
                n == offs@.len(),
                i <= n,
                offs@.map_values(|p: (String, i64)| (p.0@, p.1 as int)) == offsv,
                soa_key@ == bal_prefix(self.config) + seq!['.'] + soa@,
                cmds_view(output@) == base + counter_cmds(
                    self.config,
                    soa@,
                    offsv.take(i as int),
                ),
            decreases n - i,
        {
            let p = &offs[i];
            let ghost mid = output@;
            output.push(CRDTCommand::HashCounter(soa_key.clone(), p.0.clone(), p.1));
            proof {
                lemma_cmds_view_push(mid, output@.last());
                assert(offsv[i as int] == (offs@[i as int].0@, offs@[i as int].1 as int));
                assert(counter_cmds(self.config, soa@, offsv.take(i + 1)) =~= counter_cmds(
                    self.config,
                    soa@,
                    offsv.take(i as int),
                ).push(
                    CommandV::HashCounter(
                        bal_prefix(self.config) + seq!['.'] + soa@,
                        offsv[i as int].0,
                        offsv[i as int].1 as i64,
                    ),
                ));
                assert(cmds_view(output@) =~= base + counter_cmds(
                    self.config,
                    soa@,
                    offsv.take(i + 1),
                ));
            }
            i += 1;
        }
        proof {
            assert(offsv.take(n as int) =~= offsv);
        }
        let mut latest_key = match &self.config.key_prefix {
            Some(p) => p.clone(),
            None => String::from_str("soa-wallet"),
        };
        latest_key.append(".latest.");
        latest_key.append(soa.as_str());
        let stamp = u64_string(NaiveProvider::new(self.chain).slot_to_wallclock(slot));
        proof {
            assert(latest_key@ =~= bal_prefix(self.config) + ".latest."@ + soa@);
            assert(stamp@ == stamp_of(self.chain, slot));
        }
        let ghost mid2 = output@;
        output.push(CRDTCommand::AnyWriteWins(latest_key, Value::String(stamp)));
        proof {
            lemma_cmds_view_push(mid2, output@.last());
        }
        let ghost owned_base = cmds_view(output@);
        let n2 = assets.len();
        let mut k: usize = 0;
        while k < n2
            invariant
                n2 == assets@.len(),
                k <= n2,
                target == assets@.map_values(|a: Asset| a@),
                forall|j: int|
                    0 <= j < assets@.len() ==> (#[trigger] assets@[j]@).quantity <= i64::MAX,
                cmds_view(output@) == owned_base + owned_cmds(
                    self.config,
                    soa@,
                    target.take(k as int),
                    spending,
                ),
            decreases n2 - k,
        {
            let a = &assets[k];
            proof {
                assert(target[k as int] == assets@[k as int]@);
            }
            let fp = asset_fingerprint(a.policy.as_slice(), a.name.as_slice());
            if !fp.as_str().is_empty() && a.quantity != 0 {
                let mut owned_key = match &self.config.key_prefix {
                    Some(p) => p.clone(),
                    None => String::from_str("soa-wallet"),
                };
                owned_key.append(".owned.");
                owned_key.append(fp.as_str());
                let d: i64 = if spending {
                    -(a.quantity as i64)
                } else {
                    a.quantity as i64
                };
                proof {
                    assert(owned_key@ =~= bal_prefix(self.config) + ".owned."@
                        + fingerprint_of(target[k as int].policy, target[k as int].name));
                }
                let ghost mid3 = output@;
                output.push(CRDTCommand::HashCounter(owned_key, soa.clone(), d));
                proof {
                    lemma_cmds_view_push(mid3, output@.last());
                }
            }
            proof {
                assert(target.take(k + 1).drop_last() =~= target.take(k as int));
                assert(target.take(k + 1).last() == target[k as int]);
                assert(cmds_view(output@) =~= owned_base + owned_cmds(
                    self.config,
                    soa@,
                    target.take(k + 1),
                    spending,
                ));
            }
            k += 1;
        }
        proof {
            assert(target.take(n2 as int) =~= target);
            assert(cmds_view(output@) =~= base + movement_cmds(
                *self,
                slot,
                soa@,
                lovelace,
                target,
                spending,
            ));
        }
    }

    /// A produced output's movement into its account.
    pub fn process_received(
        &self,
        output: &mut Vec<CRDTCommand>,
        meo: &TxOutput,
        slot: u64,
        spending: bool,
    )
        requires
            txout_wf(meo@),
        ensures
            cmds_view(final(output)@) == cmds_view(old(output)@) + out_movement_cmds(
                *self,
                slot,
                meo@,
                spending,
            ),
    {
        let soa = stake_or_address(&meo.address);
        proof {
            assert forall|i: int|
                0 <= i < meo.assets@.len() implies (#[trigger] meo.assets@[i]@).quantity
                <= i64::MAX by {
                assert(meo@.assets[i] == meo.assets@[i]@);
                assert(meo@.assets[i].quantity <= i64::MAX);
            }
        }
        self.process_asset_movement(output, &soa, meo.lovelace, &meo.assets, spending, slot);
    }

    /// A consumed reference's movement out of its account, when the
    /// context resolved it.
    pub fn process_spent(
        &self,
        output: &mut Vec<CRDTCommand>,
        mei: &OutputRef,
        ctx: &BlockContext,
        slot: u64,
        spending: bool,
    )
        requires
            ctx.wf(),
            ctx_wf(ctx@),
        ensures
            cmds_view(final(output)@) == cmds_view(old(output)@) + spent_cmds(
                *self,
                slot,
                ctx@,
                mei.tx_hash@,
                mei.index,
                spending,
            ),
    {
        let found = match ctx.find_utxo(mei) {
            Some(v) => Some(v.output.duplicate()),
            None => None,
        };
        match found {
            Some(spent_output) => {
                let soa = stake_or_address(&spent_output.address);
                proof {
                    assert(txout_wf(spent_output@));
                    assert forall|i: int|
                        0 <= i < spent_output.assets@.len() implies (
                        #[trigger] spent_output.assets@[i]@).quantity <= i64::MAX by {
                        assert(spent_output@.assets[i] == spent_output.assets@[i]@);
                        assert(spent_output@.assets[i].quantity <= i64::MAX);
                    }
                }
                self.process_asset_movement(
                    output,
                    &soa,
                    spent_output.lovelace,
                    &spent_output.assets,
                    spending,
                    slot,
                );
            },
            None => {},
        }
    }

    /// Project one enriched block, direction-aware: on the forward path
    /// consumed outputs move out and produced outputs move in; a rollback
    /// flips every sign.
    pub fn reduce_block(
        &self,
        block: &Block,
        ctx: &BlockContext,
        rollback: bool,
        output: &mut Vec<CRDTCommand>,
    )
        requires
            ctx.wf(),
            block_wf(*block),
            ctx_wf(ctx@),
        ensures
            cmds_view(final(output)@) == cmds_view(old(output)@) + block_cmds(
                *self,
                ctx@,
                *block,
                rollback,
            ),
    {
        let ghost base = cmds_view(output@);
        let slot = block.slot;
        let n = block.txs.len();
        let mut t: usize = 0;
        while t < n
            invariant
                n == block.txs@.len(),
                t <= n,
                slot == block.slot,
                ctx.wf(),
                block_wf(*block),
                ctx_wf(ctx@),
                cmds_view(output@) == base + block_txs_cmds(
                    *self,
                    block.slot,
                    ctx@,
                    block.txs@.take(t as int),
                    rollback,
                ),
            decreases n - t,
        {
            let tx = &block.txs[t];
            let ghost txbase = cmds_view(output@);
            let nc = tx.consumes.len();
            let mut j: usize = 0;
            while j < nc
                invariant
                    nc == tx.consumes@.len(),
                    j <= nc,
                    slot == block.slot,
                    ctx.wf(),
                    ctx_wf(ctx@),
                    tx == &block.txs@[t as int],
                    t < n,
                    n == block.txs@.len(),
                    cmds_view(output@) == txbase + consumed_list_cmds(
                        *self,
                        block.slot,
                        ctx@,
                        tx.consumes@.take(j as int),
                        rollback,
                    ),
                decreases nc - j,
            {
                self.process_spent(output, &tx.consumes[j], ctx, slot, !rollback);
                proof {
                    assert(tx.consumes@.take(j + 1).drop_last() =~= tx.consumes@.take(j as int));
                    assert(tx.consumes@.take(j + 1).last() == tx.consumes@[j as int]);
                    assert(cmds_view(output@) =~= txbase + consumed_list_cmds(
                        *self,
                        block.slot,
                        ctx@,
                        tx.consumes@.take(j + 1),
                        rollback,
                    ));
                }
                j += 1;
            }
            proof {
                assert(tx.consumes@.take(nc as int) =~= tx.consumes@);
            }
            let ghost pbase = cmds_view(output@);
            let np = tx.produces.len();
            let mut k: usize = 0;
            while k < np
                invariant
                    np == tx.produces@.len(),
                    k <= np,
                    slot == block.slot,
                    tx == &block.txs@[t as int],
                    t < n,
                    n == block.txs@.len(),
                    block_wf(*block),
                    cmds_view(output@) == pbase + produced_list_cmds(
                        *self,
                        block.slot,
                        tx.produces@.take(k as int),
                        rollback,
                    ),
                decreases np - k,
            {
                proof {
                    assert(txout_wf(block.txs@[t as int].produces@[k as int].1@));
                }
                self.process_received(output, &tx.produces[k].1, slot, rollback);
                proof {
                    assert(tx.produces@.take(k + 1).drop_last() =~= tx.produces@.take(k as int));
                    assert(tx.produces@.take(k + 1).last() == tx.produces@[k as int]);
                    assert(cmds_view(output@) =~= pbase + produced_list_cmds(
                        *self,
                        block.slot,
                        tx.produces@.take(k + 1),
                        rollback,
                    ));
                }
                k += 1;
            }
            proof {
                assert(tx.produces@.take(np as int) =~= tx.produces@);
                assert(block.txs@.take(t + 1).drop_last() =~= block.txs@.take(t as int));
                assert(block.txs@.take(t + 1).last() == block.txs@[t as int]);
                assert(cmds_view(output@) =~= base + block_txs_cmds(
                    *self,
                    block.slot,
                    ctx@,
                    block.txs@.take(t + 1),
                    rollback,
                ));
            }
            t += 1;
        }
        proof {
            assert(block.txs@.take(n as int) =~= block.txs@);
        }
    }
}

impl Config {
    /// Register this projection.
    pub fn plugin(self, chain: &ChainWellKnownInfo) -> (r: crate::reducers::Reducer)
        ensures
            r matches crate::reducers::Reducer::MultiAssetBalances(x) && x.config == self
                && x.chain == *chain,
    {
        crate::reducers::Reducer::MultiAssetBalances(Reducer { config: self, chain: *chain })
    }
}

} // verus!

verus! {

/// The two signed forms of one quantity cancel.
proof fn lemma_signed_cancel(q: u64, sp: bool)
    requires
        q <= i64::MAX,
    ensures
        (signed(sp, q) as i64) as int + (signed(!sp, q) as i64) as int == 0,
{
}

/// Mapping a concatenation maps each part.
proof fn lemma_counter_cmds_concat(
    c: Config,
    soa: Seq<char>,
    a: Seq<(Seq<char>, int)>,
    b: Seq<(Seq<char>, int)>,
)
    ensures
        counter_cmds(c, soa, a + b) == counter_cmds(c, soa, a) + counter_cmds(c, soa, b),
{
    assert(counter_cmds(c, soa, a + b) =~= counter_cmds(c, soa, a) + counter_cmds(c, soa, b));
}

/// The per-asset counters of the two directions cancel on every counter.
proof fn lemma_asset_counters_cancel(
    c: Config,
    soa: Seq<char>,
    assets: Seq<AssetV>,
    sp: bool,
    key: (Seq<char>, Seq<char>),
)
    requires
        forall|i: int| 0 <= i < assets.len() ==> (#[trigger] assets[i]).quantity <= i64::MAX,
    ensures
        crate::reducers::delta_sum(counter_cmds(c, soa, asset_offsets(assets, sp)), key)
            + crate::reducers::delta_sum(counter_cmds(c, soa, asset_offsets(assets, !sp)), key)
            == 0,
    decreases assets.len(),
{
    if assets.len() == 0 {
        assert(counter_cmds(c, soa, asset_offsets(assets, sp)) =~= Seq::<CommandV>::empty());
        assert(counter_cmds(c, soa, asset_offsets(assets, !sp)) =~= Seq::<CommandV>::empty());
    } else {
        lemma_asset_counters_cancel(c, soa, assets.drop_last(), sp, key);
        let tail_sp = if fingerprint_of(assets.last().policy, assets.last().name).len() > 0 {
            seq![
                (
                    fingerprint_of(assets.last().policy, assets.last().name),
                    signed(sp, assets.last().quantity),
                ),
            ]
        } else {
            Seq::<(Seq<char>, int)>::empty()
        };
        let tail_nsp = if fingerprint_of(assets.last().policy, assets.last().name).len() > 0 {
            seq![
                (
                    fingerprint_of(assets.last().policy, assets.last().name),
                    signed(!sp, assets.last().quantity),
                ),
            ]
        } else {
            Seq::<(Seq<char>, int)>::empty()
        };
        lemma_counter_cmds_concat(c, soa, asset_offsets(assets.drop_last(), sp), tail_sp);
        lemma_counter_cmds_concat(c, soa, asset_offsets(assets.drop_last(), !sp), tail_nsp);
        crate::reducers::lemma_delta_sum_concat(
            counter_cmds(c, soa, asset_offsets(assets.drop_last(), sp)),
            counter_cmds(c, soa, tail_sp),
            key,
        );
        crate::reducers::lemma_delta_sum_concat(
            counter_cmds(c, soa, asset_offsets(assets.drop_last(), !sp)),
            counter_cmds(c, soa, tail_nsp),
            key,
        );
        lemma_signed_cancel(assets.last().quantity, sp);
        assert(crate::reducers::delta_sum(counter_cmds(c, soa, tail_sp), key)
            + crate::reducers::delta_sum(counter_cmds(c, soa, tail_nsp), key) == 0) by {
            if fingerprint_of(assets.last().policy, assets.last().name).len() > 0 {
                let c1 = CommandV::HashCounter(
                    bal_prefix(c) + seq!['.'] + soa,
                    fingerprint_of(assets.last().policy, assets.last().name),
                    signed(sp, assets.last().quantity) as i64,
                );
                let c2 = CommandV::HashCounter(
                    bal_prefix(c) + seq!['.'] + soa,
                    fingerprint_of(assets.last().policy, assets.last().name),
                    signed(!sp, assets.last().quantity) as i64,
                );
                assert(counter_cmds(c, soa, tail_sp) =~= seq![c1]);
                assert(counter_cmds(c, soa, tail_nsp) =~= seq![c2]);
                crate::reducers::lemma_delta_singleton(c1, key);
                crate::reducers::lemma_delta_singleton(c2, key);
            } else {
                assert(counter_cmds(c, soa, tail_sp) =~= Seq::<CommandV>::empty());
                assert(counter_cmds(c, soa, tail_nsp) =~= Seq::<CommandV>::empty());
            }
        }
    }
}

/// The ownership counters of the two directions cancel on every counter.
proof fn lemma_owned_cancel(
    c: Config,
    soa: Seq<char>,
    assets: Seq<AssetV>,
    sp: bool,
    key: (Seq<char>, Seq<char>),
)
    requires
        forall|i: int| 0 <= i < assets.len() ==> (#[trigger] assets[i]).quantity <= i64::MAX,
    ensures
        crate::reducers::delta_sum(owned_cmds(c, soa, assets, sp), key)
            + crate::reducers::delta_sum(owned_cmds(c, soa, assets, !sp), key) == 0,
    decreases assets.len(),
{
    if assets.len() > 0 {
        lemma_owned_cancel(c, soa, assets.drop_last(), sp, key);
        let fpl = fingerprint_of(assets.last().policy, assets.last().name);
        let tail_sp = if fpl.len() > 0 && assets.last().quantity != 0 {
            seq![
                CommandV::HashCounter(
                    bal_prefix(c) + ".owned."@ + fpl,
                    soa,
                    signed(sp, assets.last().quantity) as i64,
                ),
            ]
        } else {
            Seq::<CommandV>::empty()
        };
        let tail_nsp = if fpl.len() > 0 && assets.last().quantity != 0 {
            seq![
                CommandV::HashCounter(
                    bal_prefix(c) + ".owned."@ + fpl,
                    soa,
                    signed(!sp, assets.last().quantity) as i64,
                ),
            ]
        } else {
            Seq::<CommandV>::empty()
        };
        crate::reducers::lemma_delta_sum_concat(
            owned_cmds(c, soa, assets.drop_last(), sp),
            tail_sp,
            key,
        );
        crate::reducers::lemma_delta_sum_concat(
            owned_cmds(c, soa, assets.drop_last(), !sp),
            tail_nsp,
            key,
        );
        lemma_signed_cancel(assets.last().quantity, sp);
        if fpl.len() > 0 && assets.last().quantity != 0 {
            crate::reducers::lemma_delta_singleton(tail_sp[0], key);
            crate::reducers::lemma_delta_singleton(tail_nsp[0], key);
        }
    }
}

/// The two directions of one movement cancel on every counter.
proof fn lemma_movement_cancel(
    r: Reducer,
    slot: u64,
    soa: Seq<char>,
    lovelace: u64,
    assets: Seq<AssetV>,
    sp: bool,
    key: (Seq<char>, Seq<char>),
)
    requires
        lovelace <= i64::MAX,
        forall|i: int| 0 <= i < assets.len() ==> (#[trigger] assets[i]).quantity <= i64::MAX,
    ensures
        crate::reducers::delta_sum(movement_cmds(r, slot, soa, lovelace, assets, sp), key)
            + crate::reducers::delta_sum(movement_cmds(r, slot, soa, lovelace, assets, !sp), key)
            == 0,
{
    let stamp = seq![
        CommandV::AnyWriteWins(
            bal_prefix(r.config) + ".latest."@ + soa,
            ValueV::String(stamp_of(r.chain, slot)),
        ),
    ];
    let head_sp = seq![("lovelace"@, signed(sp, lovelace))];
    let head_nsp = seq![("lovelace"@, signed(!sp, lovelace))];
    lemma_counter_cmds_concat(r.config, soa, head_sp, asset_offsets(assets, sp));
    lemma_counter_cmds_concat(r.config, soa, head_nsp, asset_offsets(assets, !sp));
    crate::reducers::lemma_delta_sum_concat(
        counter_cmds(r.config, soa, head_sp),
        counter_cmds(r.config, soa, asset_offsets(assets, sp)),
        key,
    );
    crate::reducers::lemma_delta_sum_concat(
        counter_cmds(r.config, soa, head_nsp),
        counter_cmds(r.config, soa, asset_offsets(assets, !sp)),
        key,
    );
    lemma_asset_counters_cancel(r.config, soa, assets, sp, key);
    lemma_signed_cancel(lovelace, sp);
    assert(crate::reducers::delta_sum(counter_cmds(r.config, soa, head_sp), key)
        + crate::reducers::delta_sum(counter_cmds(r.config, soa, head_nsp), key) == 0) by {
        let h1 = CommandV::HashCounter(
            bal_prefix(r.config) + seq!['.'] + soa,
            "lovelace"@,
            signed(sp, lovelace) as i64,
        );
        let h2 = CommandV::HashCounter(
            bal_prefix(r.config) + seq!['.'] + soa,
            "lovelace"@,
            signed(!sp, lovelace) as i64,
        );
        assert(counter_cmds(r.config, soa, head_sp) =~= seq![h1]);
        assert(counter_cmds(r.config, soa, head_nsp) =~= seq![h2]);
        crate::reducers::lemma_delta_singleton(h1, key);
        crate::reducers::lemma_delta_singleton(h2, key);
    }
    lemma_owned_cancel(r.config, soa, assets, sp, key);
    crate::reducers::lemma_delta_singleton(stamp[0], key);
    assert(stamp =~= seq![stamp[0]]);
    crate::reducers::lemma_delta_sum_concat(
        counter_cmds(r.config, soa, offsets_of(lovelace, assets, sp)),
        stamp,
        key,
    );
    crate::reducers::lemma_delta_sum_concat(
        counter_cmds(r.config, soa, offsets_of(lovelace, assets, sp)) + stamp,
        owned_cmds(r.config, soa, assets, sp),
        key,
    );
    crate::reducers::lemma_delta_sum_concat(
        counter_cmds(r.config, soa, offsets_of(lovelace, assets, !sp)),
        stamp,
        key,
    );
    crate::reducers::lemma_delta_sum_concat(
        counter_cmds(r.config, soa, offsets_of(lovelace, assets, !sp)) + stamp,
        owned_cmds(r.config, soa, assets, !sp),
        key,
    );
}

/// The two directions of a whole block cancel on every counter.
proof fn lemma_block_cancel(
    r: Reducer,
    slot: u64,
    ctx: Map<Seq<char>, UtxoValV>,
    txs: Seq<Tx>,
    key: (Seq<char>, Seq<char>),
)
    requires
        ctx_wf(ctx),
        forall|t: int, j: int|
            0 <= t < txs.len() && 0 <= j < txs[t].produces@.len() ==> txout_wf(
                (#[trigger] txs[t].produces@[j]).1@,
            ),
    ensures
        crate::reducers::delta_sum(block_txs_cmds(r, slot, ctx, txs, false), key)
            + crate::reducers::delta_sum(block_txs_cmds(r, slot, ctx, txs, true), key) == 0,
    decreases txs.len(),
{
    if txs.len() > 0 {
        lemma_block_cancel(r, slot, ctx, txs.drop_last(), key);
        let tx = txs.last();
        crate::reducers::lemma_delta_sum_concat(
            block_txs_cmds(r, slot, ctx, txs.drop_last(), false),
            tx_cmds(r, slot, ctx, tx, false),
            key,
        );
        crate::reducers::lemma_delta_sum_concat(
            block_txs_cmds(r, slot, ctx, txs.drop_last(), true),
            tx_cmds(r, slot, ctx, tx, true),
            key,
        );
        crate::reducers::lemma_delta_sum_concat(
            consumed_list_cmds(r, slot, ctx, tx.consumes@, false),
            produced_list_cmds(r, slot, tx.produces@, false),
            key,
        );
        crate::reducers::lemma_delta_sum_concat(
            consumed_list_cmds(r, slot, ctx, tx.consumes@, true),
            produced_list_cmds(r, slot, tx.produces@, true),
            key,
        );
        lemma_consumed_cancel(r, slot, ctx, tx.consumes@, key);
        assert(forall|j: int|
            0 <= j < tx.produces@.len() ==> txout_wf((#[trigger] tx.produces@[j]).1@)) by {
            assert(txs[txs.len() - 1] == tx);
        }
        lemma_produced_cancel(r, slot, tx.produces@, key);
    }
}

/// The two directions of a consumed list cancel on every counter.
proof fn lemma_consumed_cancel(
    r: Reducer,
    slot: u64,
    ctx: Map<Seq<char>, UtxoValV>,
    rs: Seq<OutputRef>,
    key: (Seq<char>, Seq<char>),
)
    requires
        ctx_wf(ctx),
    ensures
        crate::reducers::delta_sum(consumed_list_cmds(r, slot, ctx, rs, false), key)
            + crate::reducers::delta_sum(consumed_list_cmds(r, slot, ctx, rs, true), key) == 0,
    decreases rs.len(),
{
    if rs.len() > 0 {
        lemma_consumed_cancel(r, slot, ctx, rs.drop_last(), key);
        let k = ref_key(rs.last().tx_hash@, rs.last().index);
        crate::reducers::lemma_delta_sum_concat(
            consumed_list_cmds(r, slot, ctx, rs.drop_last(), false),
            spent_cmds(r, slot, ctx, rs.last().tx_hash@, rs.last().index, true),
            key,
        );
        crate::reducers::lemma_delta_sum_concat(
            consumed_list_cmds(r, slot, ctx, rs.drop_last(), true),
            spent_cmds(r, slot, ctx, rs.last().tx_hash@, rs.last().index, false),
            key,
        );
        if ctx.contains_key(k) {
            let out = ctx[k].output;
            assert(txout_wf(out));
            lemma_movement_cancel(
                r,
                slot,
                soa_of(out.address),
                out.lovelace,
                out.assets,
                true,
                key,
            );
        }
    }
}

/// The two directions of a produced list cancel on every counter.
proof fn lemma_produced_cancel(
    r: Reducer,
    slot: u64,
    ps: Seq<(u64, TxOutput)>,
    key: (Seq<char>, Seq<char>),
)
    requires
        forall|j: int| 0 <= j < ps.len() ==> txout_wf((#[trigger] ps[j]).1@),
    ensures
        crate::reducers::delta_sum(produced_list_cmds(r, slot, ps, false), key)
            + crate::reducers::delta_sum(produced_list_cmds(r, slot, ps, true), key) == 0,
    decreases ps.len(),
{
    if ps.len() > 0 {
        lemma_produced_cancel(r, slot, ps.drop_last(), key);
        let out = ps.last().1@;
        crate::reducers::lemma_delta_sum_concat(
            produced_list_cmds(r, slot, ps.drop_last(), false),
            out_movement_cmds(r, slot, out, false),
            key,
        );
        crate::reducers::lemma_delta_sum_concat(
            produced_list_cmds(r, slot, ps.drop_last(), true),
            out_movement_cmds(r, slot, out, true),
            key,
        );
        assert(txout_wf(out)) by {
            assert(ps[ps.len() - 1] == ps.last());
        }
        lemma_movement_cancel(r, slot, soa_of(out.address), out.lovelace, out.assets, false, key);
    }
}

/// Reducer symmetry for the balance projection: applying a block's forward
/// commands and then its undo commands leaves every counter of the sink at
/// the value it held before. The freshness stamps are the one exception to
/// emptiness: they overwrite, and the two directions write the same stamp.
pub proof fn lemma_balances_symmetry(
    r: Reducer,
    ctx: Map<Seq<char>, UtxoValV>,
    block: Block,
    s: Map<(Seq<char>, Seq<char>), int>,
    key: (Seq<char>, Seq<char>),
)
    requires
        block_wf(block),
        ctx_wf(ctx),
    ensures
        crate::reducers::cval(
            crate::reducers::counter_after(
                crate::reducers::counter_after(s, block_cmds(r, ctx, block, false)),
                block_cmds(r, ctx, block, true),
            ),
            key,
        ) == crate::reducers::cval(s, key),
{
    let fwd = block_cmds(r, ctx, block, false);
    let undo = block_cmds(r, ctx, block, true);
    crate::reducers::lemma_counter_after_sum(s, fwd, key);
    crate::reducers::lemma_counter_after_sum(crate::reducers::counter_after(s, fwd), undo, key);
    lemma_block_cancel(r, block.slot, ctx, block.txs@, key);
}

} // verus!
