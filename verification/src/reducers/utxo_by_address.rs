//! Tracks the set of unspent outputs per account: a produced output joins
//! its account's set with a per-asset detail line, a consumed output leaves
//! it and its detail key is unset. The undo direction inverts each side:
//! outputs the rolled-back block produced leave their accounts again, and
//! outputs it consumed rejoin theirs, rebuilt from the resolved context.

use vstd::prelude::*;

use crate::address::addr_string_of;
use crate::address::address_string;
use crate::address::soa_of;
use crate::address::stake_or_address;
use crate::digest::asset_fingerprint;
use crate::digest::fingerprint_of;
use crate::digest::hex_string;
use crate::model::AssetV;
use crate::model::Block;
use crate::model::BlockContext;
use crate::model::CRDTCommand;
use crate::model::CommandV;
use crate::model::OutputRef;
use crate::model::Tx;
use crate::model::TxOutput;
use crate::model::TxOutputV;
use crate::model::UtxoValV;
use crate::model::cmds_view;
use crate::model::lemma_cmds_view_push;
use crate::model::prefixed;
use crate::model::ref_key;
use crate::reducers::filter_ok;
use crate::reducers::filter_pass;
use crate::reducers::opt_view;
use crate::reducers::set_stream_val;
use crate::text::dec_of;
use crate::text::hex_of;
use crate::text::u64_string;

verus! {

/// Key prefix and an optional allow-list of accounts.
pub struct Config {
    pub key_prefix: Option<String>,
    pub filter: Option<Vec<String>>,
}

/// One asset of one tracked output, flattened for publication; the output
/// reference lives in the key it is stored under.
pub struct DropKingMultiAssetUTXO {
    pub policy_id: String,
    pub name: String,
    pub quantity: u64,
    pub tx_address: String,
    pub fingerprint: String,
}

pub struct Reducer {
    pub config: Config,
}

/// The detail line of one asset riding on an output:
/// `address/policy-hex/fingerprint/quantity`.
pub open spec fn asset_line(addr: Seq<char>, a: AssetV) -> Seq<char> {
    addr + seq!['/'] + hex_of(a.policy) + seq!['/'] + fingerprint_of(a.policy, a.name) + seq![
        '/',
    ] + dec_of(a.quantity as nat)
}

/// The per-asset detail commands of an output joining the index.
pub open spec fn asset_line_cmds(
    pfx: Option<Seq<char>>,
    refk: Seq<char>,
    addr: Seq<char>,
    assets: Seq<AssetV>,
) -> Seq<CommandV>
    decreases assets.len(),
{
    if assets.len() == 0 {
        Seq::<CommandV>::empty()
    } else {
        asset_line_cmds(pfx, refk, addr, assets.drop_last()) + (if fingerprint_of(
            assets.last().policy,
            assets.last().name,
        ).len() > 0 {
            seq![CommandV::SetAdd(prefixed(pfx, refk), asset_line(addr, assets.last()))]
        } else {
            Seq::<CommandV>::empty()
        })
    }
}

/// An output joining the tracked set: its account gains the reference, and
/// the reference key gains one detail line per asset.
pub open spec fn join_cmds(c: Config, refk: Seq<char>, out: TxOutputV) -> Seq<CommandV> {
    seq![
        CommandV::SetAdd(prefixed(opt_view(c.key_prefix), soa_of(out.address)), refk),
    ] + asset_line_cmds(
        opt_view(c.key_prefix),
        refk,
        addr_string_of(out.address),
        out.assets,
    )
}

/// An output leaving the tracked set: its account loses the reference and
/// the reference key itself is unset.
pub open spec fn leave_cmds(c: Config, refk: Seq<char>, soa: Seq<char>) -> Seq<CommandV> {
    seq![
        CommandV::SetRemove(prefixed(opt_view(c.key_prefix), soa), refk),
        CommandV::UnsetKey(prefixed(opt_view(c.key_prefix), refk)),
    ]
}

/// The commands of one consumed reference: when the context resolved it
/// and its account passes the filter, the reference leaves its account on
/// the forward path, and rejoins it on the undo path.
pub open spec fn consumed_cmds(
    c: Config,
    ctx: Map<Seq<char>, UtxoValV>,
    tx_hash: Seq<u8>,
    idx: u64,
    rollback: bool,
) -> Seq<CommandV> {
    let refk = ref_key(tx_hash, idx);
    if ctx.contains_key(refk) {
        let out = ctx[refk].output;
        if filter_ok(c.filter, soa_of(out.address)) {
            if rollback {
                join_cmds(c, refk, out)
            } else {
                leave_cmds(c, refk, soa_of(out.address))
            }
        } else {
            Seq::<CommandV>::empty()
        }
    } else {
        Seq::<CommandV>::empty()
    }
}

/// The commands of one produced output: it joins its account on the
/// forward path, and leaves it again on the undo path.
pub open spec fn produced_cmds(
    c: Config,
    tx_hash: Seq<u8>,
    idx: u64,
    out: TxOutputV,
    rollback: bool,
) -> Seq<CommandV> {
    let refk = ref_key(tx_hash, idx);
    if filter_ok(c.filter, soa_of(out.address)) {
        if rollback {
            leave_cmds(c, refk, soa_of(out.address))
        } else {
            join_cmds(c, refk, out)
        }
    } else {
        Seq::<CommandV>::empty()
    }
}

pub open spec fn consumed_list_cmds(
    c: Config,
    ctx: Map<Seq<char>, UtxoValV>,
    rs: Seq<OutputRef>,
    rollback: bool,
) -> Seq<CommandV>
    decreases rs.len(),
{
    if rs.len() == 0 {
        Seq::<CommandV>::empty()
    } else {
        consumed_list_cmds(c, ctx, rs.drop_last(), rollback) + consumed_cmds(
            c,
            ctx,
            rs.last().tx_hash@,
            rs.last().index,
            rollback,
        )
    }
}

pub open spec fn produced_list_cmds(
    c: Config,
    tx_hash: Seq<u8>,
    ps: Seq<(u64, TxOutput)>,
    rollback: bool,
) -> Seq<CommandV>
    decreases ps.len(),
{
    if ps.len() == 0 {
        Seq::<CommandV>::empty()
    } else {
        produced_list_cmds(c, tx_hash, ps.drop_last(), rollback) + produced_cmds(
            c,
            tx_hash,
            ps.last().0,
            ps.last().1@,
            rollback,
        )
    }
}

pub open spec fn tx_cmds(
    c: Config,
    ctx: Map<Seq<char>, UtxoValV>,
    tx: Tx,
    rollback: bool,
) -> Seq<CommandV> {
    consumed_list_cmds(c, ctx, tx.consumes@, rollback) + produced_list_cmds(
        c,
        tx.hash@,
        tx.produces@,
        rollback,
    )
}

/// The commands of one block, transaction by transaction.
pub open spec fn block_cmds(
    c: Config,
    ctx: Map<Seq<char>, UtxoValV>,
    txs: Seq<Tx>,
    rollback: bool,
) -> Seq<CommandV>
    decreases txs.len(),
{
    if txs.len() == 0 {
        Seq::<CommandV>::empty()
    } else {
        block_cmds(c, ctx, txs.drop_last(), rollback) + tx_cmds(c, ctx, txs.last(), rollback)
    }
}

impl Reducer {
    /// Emit an output joining the tracked set.
    fn emit_join(&self, refk: &String, out: &TxOutput, output: &mut Vec<CRDTCommand>)
        ensures
            cmds_view(final(output)@) == cmds_view(old(output)@) + join_cmds(
                self.config,
                refk@,
                out@,
            ),
    {
        let soa = stake_or_address(&out.address);
        let addr = address_string(&out.address);
        let ghost base = cmds_view(output@);
        let pfx = match &self.config.key_prefix {
            Some(p) => Some(p),
            None => None,
        };
        output.push(CRDTCommand::set_add(pfx, soa.as_str(), refk.clone()));
        proof {
            lemma_cmds_view_push(old(output)@, output@.last());
        }
        let n = out.assets.len();
        let mut i: usize = 0;
        while i < n
            invariant
                n == out.assets@.len(),
                i <= n,
                cmds_view(output@) == base + seq![
                    CommandV::SetAdd(
                        prefixed(opt_view(self.config.key_prefix), soa_of(out@.address)),
                        refk@,
                    ),
                ] + asset_line_cmds(
                    opt_view(self.config.key_prefix),
                    refk@,
                    addr_string_of(out@.address),
                    out@.assets.take(i as int),
                ),
                soa@ == soa_of(out@.address),
                addr@ == addr_string_of(out@.address),
            decreases n - i,
        {
            let a = &out.assets[i];
            let fp = asset_fingerprint(a.policy.as_slice(), a.name.as_slice());
            proof {
                assert(out@.assets[i as int] == out.assets@[i as int]@);
            }
            if !fp.as_str().is_empty() {
                let mut line = addr.clone();
                line.append("/");
                line.append(hex_string(a.policy.as_slice()).as_str());
                line.append("/");
                line.append(fp.as_str());
                line.append("/");
                line.append(u64_string(a.quantity).as_str());
                proof {
                    reveal_strlit("/");
                    assert(line@ =~= asset_line(
                        addr_string_of(out@.address),
                        out@.assets[i as int],
                    ));
                }
                let pfx2 = match &self.config.key_prefix {
                    Some(p) => Some(p),
                    None => None,
                };
                let ghost mid = output@;
                output.push(CRDTCommand::set_add(pfx2, refk.as_str(), line));
                proof {
                    lemma_cmds_view_push(mid, output@.last());
                }
            }
            proof {
                assert(out@.assets.take(i + 1).drop_last() =~= out@.assets.take(i as int));
                assert(out@.assets.take(i + 1).last() == out@.assets[i as int]);
                assert(cmds_view(output@) =~= base + seq![
                    CommandV::SetAdd(
                        prefixed(opt_view(self.config.key_prefix), soa_of(out@.address)),
                        refk@,
                    ),
                ] + asset_line_cmds(
                    opt_view(self.config.key_prefix),
                    refk@,
                    addr_string_of(out@.address),
                    out@.assets.take(i + 1),
                ));
            }
            i += 1;
        }
        proof {
            assert(out@.assets.take(n as int) =~= out@.assets);
            assert(cmds_view(output@) =~= base + join_cmds(self.config, refk@, out@));
        }
    }

    /// Emit an output leaving the tracked set.
    fn emit_leave(&self, refk: &String, soa: &String, output: &mut Vec<CRDTCommand>)
        ensures
            cmds_view(final(output)@) == cmds_view(old(output)@) + leave_cmds(
                self.config,
                refk@,
                soa@,
            ),
    {
        let ghost base = cmds_view(output@);
        let pfx = match &self.config.key_prefix {
            Some(p) => Some(p),
            None => None,
        };
        output.push(CRDTCommand::set_remove(pfx, soa.as_str(), refk.clone()));
        proof {
            lemma_cmds_view_push(old(output)@, output@.last());
        }
        let pfx2 = match &self.config.key_prefix {
            Some(p) => Some(p),
            None => None,
        };
        let ghost mid = output@;
        output.push(CRDTCommand::unset_key(pfx2, refk.as_str()));
        proof {
            lemma_cmds_view_push(mid, output@.last());
            assert(cmds_view(output@) =~= base + leave_cmds(self.config, refk@, soa@));
        }
    }

    /// Handle one consumed reference, direction-aware.
    pub fn process_consumed_txo(
        &self,
        ctx: &BlockContext,
        input: &OutputRef,
        rollback: bool,
        output: &mut Vec<CRDTCommand>,
    )
        requires
            ctx.wf(),
        ensures
            cmds_view(final(output)@) == cmds_view(old(output)@) + consumed_cmds(
                self.config,
                ctx@,
                input.tx_hash@,
                input.index,
                rollback,
            ),
    {
        let ghost target = consumed_cmds(
            self.config,
            ctx@,
            input.tx_hash@,
            input.index,
            rollback,
        );
        let found = match ctx.find_utxo(input) {
            Some(v) => Some(v.output.duplicate()),
            None => None,
        };
        match found {
            None => {
                proof {
                    assert(cmds_view(output@) =~= cmds_view(output@) + target);
                }
            },
            Some(utxo) => {
                let soa = stake_or_address(&utxo.address);
                if !filter_pass(&self.config.filter, &soa) {
                    proof {
                        assert(cmds_view(output@) =~= cmds_view(output@) + target);
                    }
                    return ;
                }
                let refk = input.key_string();
                if rollback {
                    self.emit_join(&refk, &utxo, output);
                } else {
                    self.emit_leave(&refk, &soa, output);
                }
            },
        }
    }

    /// Handle one produced output, direction-aware.
    pub fn process_produced_txo(
        &self,
        tx_hash: &Vec<u8>,
        idx: u64,
        out: &TxOutput,
        rollback: bool,
        output: &mut Vec<CRDTCommand>,
    )
        ensures
            cmds_view(final(output)@) == cmds_view(old(output)@) + produced_cmds(
                self.config,
                tx_hash@,
                idx,
                out@,
                rollback,
            ),
    {
        let soa = stake_or_address(&out.address);
        if !filter_pass(&self.config.filter, &soa) {
            proof {
                assert(cmds_view(output@) =~= cmds_view(output@) + produced_cmds(
                    self.config,
                    tx_hash@,
                    idx,
                    out@,
                    rollback,
                ));
            }
            return ;
        }
        let refk = OutputRef { tx_hash: crate::model::copy_bytes(tx_hash), index: idx }
            .key_string();
        if rollback {
            self.emit_leave(&refk, &soa, output);
        } else {
            self.emit_join(&refk, out, output);
        }
    }

    /// Project one enriched block, direction-aware: on the forward path
    /// consumed references leave their accounts and produced outputs join
    /// theirs; the undo path emits the exact inverse, rebuilding consumed
    /// entries from the context the enrichment stage restored.
    pub fn reduce_block(
        &self,
        block: &Block,
        ctx: &BlockContext,
        rollback: bool,
        output: &mut Vec<CRDTCommand>,
    )
        requires
            ctx.wf(),
        ensures
            cmds_view(final(output)@) == cmds_view(old(output)@) + block_cmds(
                self.config,
                ctx@,
                block.txs@,
                rollback,
            ),
    {
        let ghost base = cmds_view(output@);
        let n = block.txs.len();
        let mut t: usize = 0;
        while t < n
            invariant
                n == block.txs@.len(),
                t <= n,
                ctx.wf(),
                cmds_view(output@) == base + block_cmds(
                    self.config,
                    ctx@,
                    block.txs@.take(t as int),
                    rollback,
                ),
            decreases n - t,
        {
            let tx = &block.txs[t];
            let ghost txbase = cmds_view(output@);
            let nc = tx.consumes.len();
            let mut j: usize = 0;
            while j < nc
                invariant
                    nc == tx.consumes@.len(),
                    j <= nc,
                    ctx.wf(),
                    tx == &block.txs@[t as int],
                    t < n,
                    n == block.txs@.len(),
                    cmds_view(output@) == txbase + consumed_list_cmds(
                        self.config,
                        ctx@,
                        tx.consumes@.take(j as int),
                        rollback,
                    ),
                decreases nc - j,
            {
                self.process_consumed_txo(ctx, &tx.consumes[j], rollback, output);
                proof {
                    assert(tx.consumes@.take(j + 1).drop_last() =~= tx.consumes@.take(j as int));
                    assert(tx.consumes@.take(j + 1).last() == tx.consumes@[j as int]);
                    assert(cmds_view(output@) =~= txbase + consumed_list_cmds(
                        self.config,
                        ctx@,
                        tx.consumes@.take(j + 1),
                        rollback,
                    ));
                }
                j += 1;
            }
            proof {
                assert(tx.consumes@.take(nc as int) =~= tx.consumes@);
            }
            let ghost pbase = cmds_view(output@);
            let np = tx.produces.len();
            let mut k: usize = 0;
            while k < np
                invariant
                    np == tx.produces@.len(),
                    k <= np,
                    tx == &block.txs@[t as int],
                    t < n,
                    n == block.txs@.len(),
                    ctx.wf(),
                    cmds_view(output@) == pbase + produced_list_cmds(
                        self.config,
                        tx.hash@,
                        tx.produces@.take(k as int),
                        rollback,
                    ),
                decreases np - k,
            {
                let p = &tx.produces[k];
                self.process_produced_txo(&tx.hash, p.0, &p.1, rollback, output);
                proof {
                    assert(tx.produces@.take(k + 1).drop_last() =~= tx.produces@.take(k as int));
                    assert(tx.produces@.take(k + 1).last() == tx.produces@[k as int]);
                    assert(cmds_view(output@) =~= pbase + produced_list_cmds(
                        self.config,
                        tx.hash@,
                        tx.produces@.take(k + 1),
                        rollback,
                    ));
                }
                k += 1;
            }
            proof {
                assert(tx.produces@.take(np as int) =~= tx.produces@);
                assert(block.txs@.take(t + 1).drop_last() =~= block.txs@.take(t as int));
                assert(block.txs@.take(t + 1).last() == block.txs@[t as int]);
                assert(cmds_view(output@) =~= base + block_cmds(
                    self.config,
                    ctx@,
                    block.txs@.take(t + 1),
                    rollback,
                ));
            }
            t += 1;
        }
        proof {
            assert(block.txs@.take(n as int) =~= block.txs@);
        }
    }
}

impl Config {
    /// Register this projection.
    pub fn plugin(self) -> (r: crate::reducers::Reducer)
        ensures
            r matches crate::reducers::Reducer::UtxoByAddress(x) && x.config == self,
    {
        crate::reducers::Reducer::UtxoByAddress(Reducer { config: self })
    }
}

} // verus!

verus! {

/// Every member a join writes lies under the account key or the reference
/// key, and the write is an insertion.
proof fn lemma_join_stream(c: Config, refk: Seq<char>, out: TxOutputV, p: (Seq<char>, Seq<char>))
    ensures
        set_stream_val(join_cmds(c, refk, out), p) is Some ==> (p == (
            prefixed(opt_view(c.key_prefix), soa_of(out.address)),
            refk,
        ) || p.0 == prefixed(opt_view(c.key_prefix), refk)) && set_stream_val(
            join_cmds(c, refk, out),
            p,
        ) == Some(true),
        p == (prefixed(opt_view(c.key_prefix), soa_of(out.address)), refk) ==> set_stream_val(
            join_cmds(c, refk, out),
            p,
        ) is Some,
{
    let head_cmd = CommandV::SetAdd(
        prefixed(opt_view(c.key_prefix), soa_of(out.address)),
        refk,
    );
    let head = seq![head_cmd];
    let lines = asset_line_cmds(
        opt_view(c.key_prefix),
        refk,
        addr_string_of(out.address),
        out.assets,
    );
    crate::reducers::lemma_set_stream_concat(head, lines, p);
    lemma_line_stream(opt_view(c.key_prefix), refk, addr_string_of(out.address), out.assets, p);
    assert(head.last() == head_cmd);
    assert(head.drop_last() =~= Seq::<CommandV>::empty());
    assert(set_stream_val(Seq::<CommandV>::empty(), p) is None);
    assert(set_stream_val(head, p) == if crate::reducers::set_touches(head_cmd, p) {
        Some(true)
    } else {
        None::<bool>
    });
    assert(join_cmds(c, refk, out) == head + lines);
}

/// Every member the detail lines write lies under the reference key, and
/// the write is an insertion.
proof fn lemma_line_stream(
    pfx: Option<Seq<char>>,
    refk: Seq<char>,
    addr: Seq<char>,
    assets: Seq<AssetV>,
    p: (Seq<char>, Seq<char>),
)
    ensures
        set_stream_val(asset_line_cmds(pfx, refk, addr, assets), p) is Some ==> p.0 == prefixed(
            pfx,
            refk,
        ) && set_stream_val(asset_line_cmds(pfx, refk, addr, assets), p) == Some(true),
    decreases assets.len(),
{
    if assets.len() > 0 {
        lemma_line_stream(pfx, refk, addr, assets.drop_last(), p);
        let tail = if fingerprint_of(assets.last().policy, assets.last().name).len() > 0 {
            seq![CommandV::SetAdd(prefixed(pfx, refk), asset_line(addr, assets.last()))]
        } else {
            Seq::<CommandV>::empty()
        };
        crate::reducers::lemma_set_stream_concat(
            asset_line_cmds(pfx, refk, addr, assets.drop_last()),
            tail,
            p,
        );
        assert(asset_line_cmds(pfx, refk, addr, assets) == asset_line_cmds(
            pfx,
            refk,
            addr,
            assets.drop_last(),
        ) + tail);
        if tail.len() > 0 {
            assert(tail.last() == CommandV::SetAdd(
                prefixed(pfx, refk),
                asset_line(addr, assets.last()),
            ));
            assert(tail.drop_last() =~= Seq::<CommandV>::empty());
            assert(set_stream_val(Seq::<CommandV>::empty(), p) is None);
        } else {
            assert(asset_line_cmds(pfx, refk, addr, assets.drop_last()) + tail
                =~= asset_line_cmds(pfx, refk, addr, assets.drop_last()));
        }
    } else {
        assert(set_stream_val(asset_line_cmds(pfx, refk, addr, assets), p) is None);
    }
}

/// A leave writes exactly the account's membership of the reference and
/// every member under the reference key, all as removals.
proof fn lemma_leave_stream(c: Config, refk: Seq<char>, soa: Seq<char>, p: (Seq<char>, Seq<char>))
    ensures
        set_stream_val(leave_cmds(c, refk, soa), p) is Some <==> (p == (
            prefixed(opt_view(c.key_prefix), soa),
            refk,
        ) || p.0 == prefixed(opt_view(c.key_prefix), refk)),
        set_stream_val(leave_cmds(c, refk, soa), p) is Some ==> set_stream_val(
            leave_cmds(c, refk, soa),
            p,
        ) == Some(false),
{
    let cmds = leave_cmds(c, refk, soa);
    let rem = CommandV::SetRemove(prefixed(opt_view(c.key_prefix), soa), refk);
    let unset = CommandV::UnsetKey(prefixed(opt_view(c.key_prefix), refk));
    assert(cmds.len() == 2);
    assert(cmds.last() == unset);
    assert(cmds.drop_last() =~= seq![rem]);
    assert(cmds.drop_last().last() == rem);
    assert(cmds.drop_last().drop_last() =~= Seq::<CommandV>::empty());
    assert(set_stream_val(Seq::<CommandV>::empty(), p) is None);
    assert(set_stream_val(cmds.drop_last(), p) == if crate::reducers::set_touches(rem, p) {
        Some(false)
    } else {
        None::<bool>
    });
}

/// Set symmetry for one produced output: joining the tracked set and then
/// leaving it writes `absent` to every member it ever wrote and touches
/// no other, so over a fresh sink the pair of streams yields the empty
/// sink, and over any sink it erases exactly the output's entries.
///
/// The symmetry is stated per output: composing it over a whole block
/// would need the account keys and reference keys of distinct outputs to
/// be pairwise distinct, and an account key is an opaque encoding about
/// which nothing here can prove that separation.
pub proof fn lemma_produced_set_symmetry(
    c: Config,
    refk: Seq<char>,
    out: TxOutputV,
    s: Map<(Seq<char>, Seq<char>), bool>,
    p: (Seq<char>, Seq<char>),
)
    ensures
        crate::reducers::set_after(
            s,
            join_cmds(c, refk, out) + leave_cmds(c, refk, soa_of(out.address)),
            p,
        ) == if p == (prefixed(opt_view(c.key_prefix), soa_of(out.address)), refk) || p.0
            == prefixed(opt_view(c.key_prefix), refk) {
            false
        } else {
            s.contains_key(p) && s[p]
        },
{
    crate::reducers::lemma_set_stream_concat(
        join_cmds(c, refk, out),
        leave_cmds(c, refk, soa_of(out.address)),
        p,
    );
    lemma_join_stream(c, refk, out, p);
    lemma_leave_stream(c, refk, soa_of(out.address), p);
}

/// Set symmetry for one consumed reference: leaving the tracked set and
/// then rejoining it restores the account's membership and the detail
/// lines, clears stray members under the reference key, and touches no
/// other member. On a sink whose state is what the forward path built --
/// the account holds the reference and the reference key holds exactly
/// the detail lines -- the pair of streams is the identity.
pub proof fn lemma_consumed_set_symmetry(
    c: Config,
    refk: Seq<char>,
    out: TxOutputV,
    s: Map<(Seq<char>, Seq<char>), bool>,
    p: (Seq<char>, Seq<char>),
)
    ensures
        crate::reducers::set_after(
            s,
            leave_cmds(c, refk, soa_of(out.address)) + join_cmds(c, refk, out),
            p,
        ) == (match set_stream_val(join_cmds(c, refk, out), p) {
            Some(v) => v,
            None => if p.0 == prefixed(opt_view(c.key_prefix), refk) {
                false
            } else {
                s.contains_key(p) && s[p]
            },
        }),
{
    crate::reducers::lemma_set_stream_concat(
        leave_cmds(c, refk, soa_of(out.address)),
        join_cmds(c, refk, out),
        p,
    );
    lemma_leave_stream(c, refk, soa_of(out.address), p);
    lemma_join_stream(c, refk, out, p);
}

} // verus!
