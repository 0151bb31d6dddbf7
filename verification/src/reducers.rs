//! The reducer stage: pure projections from enriched blocks to sink
//! commands, and the worker that fans a block out to every registered
//! reducer between its framing commands.

use vstd::prelude::*;

use crate::model::Block;
use crate::model::BlockContext;
use crate::model::CRDTCommand;
use crate::model::CommandV;
use crate::model::PointV;
use crate::model::cmds_view;

pub mod address_by_asset;
pub mod worker;
pub mod asset_metadata;
pub mod last_block_parameters;
pub mod multi_asset_balances;
pub mod policy_assets_moved;
pub mod stake_multi_asset;
pub mod supply_by_asset;
pub mod utxo_by_address;

verus! {

/// The view of an optional key prefix.
pub open spec fn opt_view(o: Option<String>) -> Option<Seq<char>> {
    match o {
        Some(s) => Some(s@),
        None => None,
    }
}

/// Whether a string list holds the given characters.
pub open spec fn in_str_list(l: Seq<String>, s: Seq<char>) -> bool {
    exists|i: int| 0 <= i < l.len() && l[i]@ == s
}

/// Look a string up in a list.
pub fn str_list_contains(l: &Vec<String>, s: &String) -> (r: bool)
    ensures
        r == in_str_list(l@, s@),
{
    let n = l.len();
    let mut i: usize = 0;
    while i < n
        invariant
            n == l@.len(),
            i <= n,
            forall|j: int| 0 <= j < i ==> l@[j]@ != s@,
        decreases n - i,
    {
        if l[i] == *s {
            proof {
                assert(l@[i as int]@ == s@);
            }
            return true;
        }
        i += 1;
    }
    false
}

/// Whether an account passes an optional address filter.
pub open spec fn filter_ok(f: Option<Vec<String>>, soa: Seq<char>) -> bool {
    match f {
        None => true,
        Some(l) => in_str_list(l@, soa),
    }
}

/// Check an account against an optional address filter.
pub fn filter_pass(f: &Option<Vec<String>>, soa: &String) -> (r: bool)
    ensures
        r == filter_ok(
            match f {
                Some(l) => Some(*l),
                None => None,
            },
            soa@,
        ),
{
    match f {
        None => true,
        Some(l) => str_list_contains(l, soa),
    }
}

/// The closed set of reducers a pipeline can register.
pub enum Reducer {
    UtxoByAddress(utxo_by_address::Reducer),
    AddressByAsset(address_by_asset::Reducer),
    SupplyByAsset(supply_by_asset::Reducer),
    PolicyAssetsMoved(policy_assets_moved::Reducer),
    LastBlockParameters(last_block_parameters::Reducer),
    StakeMultiAsset(stake_multi_asset::Reducer),
    MultiAssetBalances(multi_asset_balances::Reducer),
    AssetMetadata(asset_metadata::Reducer),
}

impl Reducer {
    /// The chain parameters a reducer carries are well formed.
    pub open spec fn wf(&self) -> bool {
        match self {
            Reducer::LastBlockParameters(x) => x.chain.wf(),
            _ => true,
        }
    }
}

/// The commands one reducer emits for one enriched block.
pub open spec fn reducer_cmds(
    r: Reducer,
    block: Block,
    ctx: Map<Seq<char>, crate::model::UtxoValV>,
    rollback: bool,
) -> Seq<CommandV> {
    match r {
        Reducer::UtxoByAddress(x) => utxo_by_address::block_cmds(
            x.config,
            ctx,
            block.txs@,
            rollback,
        ),
        Reducer::AddressByAsset(x) => address_by_asset::block_cmds(x, ctx, block.txs@, rollback),
        Reducer::SupplyByAsset(x) => supply_by_asset::block_cmds(x, block.txs@, rollback),
        Reducer::PolicyAssetsMoved(x) => policy_assets_moved::block_cmds(x, block, rollback),
        Reducer::LastBlockParameters(x) => last_block_parameters::block_cmds(x, block, rollback),
        Reducer::StakeMultiAsset(x) => stake_multi_asset::block_cmds(x, block, rollback),
        Reducer::MultiAssetBalances(x) => multi_asset_balances::block_cmds(x, ctx, block, rollback),
        Reducer::AssetMetadata(x) => asset_metadata::block_cmds(x, block, rollback),
    }
}

impl Reducer {
    /// Drive one reducer over one enriched block: its commands append to
    /// the output in order.
    pub fn reduce_block(
        &self,
        block: &Block,
        ctx: &BlockContext,
        rollback: bool,
        output: &mut Vec<CRDTCommand>,
    )
        requires
            self.wf(),
            ctx.wf(),
            crate::model::block_wf(*block),
            crate::model::ctx_wf(ctx@),
        ensures
            cmds_view(final(output)@) == cmds_view(old(output)@) + reducer_cmds(
                *self,
                *block,
                ctx@,
                rollback,
            ),
    {
        match self {
            Reducer::UtxoByAddress(x) => x.reduce_block(block, ctx, rollback, output),
            Reducer::AddressByAsset(x) => x.reduce_block(block, ctx, rollback, output),
            Reducer::SupplyByAsset(x) => x.reduce_block(block, rollback, output),
            Reducer::PolicyAssetsMoved(x) => x.reduce_block(block, rollback, output),
            Reducer::LastBlockParameters(x) => x.reduce_block(block, rollback, output),
            Reducer::StakeMultiAsset(x) => x.reduce_block(block, rollback, output),
            Reducer::MultiAssetBalances(x) => x.reduce_block(block, ctx, rollback, output),
            Reducer::AssetMetadata(x) => x.reduce_block(block, rollback, output),
        }
    }
}

/// The commands a whole pass over the registered reducers emits, in
/// registration order.
pub open spec fn pass_cmds(
    rs: Seq<Reducer>,
    block: Block,
    ctx: Map<Seq<char>, crate::model::UtxoValV>,
    rollback: bool,
) -> Seq<CommandV>
    decreases rs.len(),
{
    if rs.len() == 0 {
        Seq::<CommandV>::empty()
    } else {
        pass_cmds(rs.drop_last(), block, ctx, rollback) + reducer_cmds(
            rs.last(),
            block,
            ctx,
            rollback,
        )
    }
}

/// The full command stream of one block: the opening frame, every
/// reducer's commands in registration order, and the closing frame that
/// lets the sink advance the cursor.
pub open spec fn framed_cmds(
    rs: Seq<Reducer>,
    block: Block,
    ctx: Map<Seq<char>, crate::model::UtxoValV>,
    rollback: bool,
) -> Seq<CommandV> {
    seq![CommandV::BlockStarting(PointV::Specific(block.slot, block.hash@))] + pass_cmds(
        rs,
        block,
        ctx,
        rollback,
    ) + seq![CommandV::BlockFinished(PointV::Specific(block.slot, block.hash@))]
}

/// The counter a command touches: a hash-counter's key and field, or a
/// positive-negative counter's key with an empty field.
pub open spec fn counter_key_of(c: CommandV) -> Option<(Seq<char>, Seq<char>)> {
    match c {
        CommandV::HashCounter(k, f, _) => Some((k, f)),
        CommandV::PNCounter(k, _) => Some((k, Seq::<char>::empty())),
        _ => None,
    }
}

/// The signed delta a command applies to a counter.
pub open spec fn counter_delta_of(c: CommandV) -> int {
    match c {
        CommandV::HashCounter(_, _, d) => d as int,
        CommandV::PNCounter(_, d) => d as int,
        _ => 0,
    }
}

/// The net delta a command stream applies to one counter of the sink.
pub open spec fn delta_sum(cmds: Seq<CommandV>, key: (Seq<char>, Seq<char>)) -> int
    decreases cmds.len(),
{
    if cmds.len() == 0 {
        0
    } else {
        delta_sum(cmds.drop_last(), key) + (if counter_key_of(cmds.last()) == Some(key) {
            counter_delta_of(cmds.last())
        } else {
            0
        })
    }
}

/// One command's contribution to one counter.
pub proof fn lemma_delta_singleton(cmd: CommandV, key: (Seq<char>, Seq<char>))
    ensures
        delta_sum(seq![cmd], key) == if counter_key_of(cmd) == Some(key) {
            counter_delta_of(cmd)
        } else {
            0
        },
{
    assert(seq![cmd].drop_last() =~= Seq::<CommandV>::empty());
    assert(seq![cmd].last() == cmd);
    assert(delta_sum(Seq::<CommandV>::empty(), key) == 0);
}

/// Concatenated streams sum their deltas.
pub proof fn lemma_delta_sum_concat(a: Seq<CommandV>, b: Seq<CommandV>, key: (
    Seq<char>,
    Seq<char>,
))
    ensures
        delta_sum(a + b, key) == delta_sum(a, key) + delta_sum(b, key),
    decreases b.len(),
{
    if b.len() == 0 {
        assert(a + b =~= a);
    } else {
        lemma_delta_sum_concat(a, b.drop_last(), key);
        assert((a + b).drop_last() =~= a + b.drop_last());
        assert((a + b).last() == b.last());
    }
}

/// A sink's counters, as the value each one holds; untouched counters sit
/// at zero.
pub open spec fn cval(s: Map<(Seq<char>, Seq<char>), int>, key: (Seq<char>, Seq<char>)) -> int {
    if s.contains_key(key) {
        s[key]
    } else {
        0
    }
}

/// The sink's counters after a command stream is applied in order.
pub open spec fn counter_after(s: Map<(Seq<char>, Seq<char>), int>, cmds: Seq<CommandV>) -> Map<
    (Seq<char>, Seq<char>),
    int,
>
    decreases cmds.len(),
{
    if cmds.len() == 0 {
        s
    } else {
        let prev = counter_after(s, cmds.drop_last());
        match counter_key_of(cmds.last()) {
            Some(key) => prev.insert(key, cval(prev, key) + counter_delta_of(cmds.last())),
            None => prev,
        }
    }
}

/// A stream moves every counter by exactly its net delta.
pub proof fn lemma_counter_after_sum(
    s: Map<(Seq<char>, Seq<char>), int>,
    cmds: Seq<CommandV>,
    key: (Seq<char>, Seq<char>),
)
    ensures
        cval(counter_after(s, cmds), key) == cval(s, key) + delta_sum(cmds, key),
    decreases cmds.len(),
{
    if cmds.len() > 0 {
        lemma_counter_after_sum(s, cmds.drop_last(), key);
    }
}

/// Whether a command writes the given set member: set insertions and
/// removals address one member; unsetting a key addresses every member of
/// that key.
pub open spec fn set_touches(c: CommandV, p: (Seq<char>, Seq<char>)) -> bool {
    match c {
        CommandV::SetAdd(k, m) => (k, m) == p,
        CommandV::SetRemove(k, m) => (k, m) == p,
        CommandV::UnsetKey(k) => k == p.0,
        _ => false,
    }
}

/// The membership value a command writes, when it touches the member.
pub open spec fn set_write_of(c: CommandV) -> bool {
    match c {
        CommandV::SetAdd(_, _) => true,
        _ => false,
    }
}

/// The last membership write a stream makes to one member, if any.
pub open spec fn set_stream_val(cmds: Seq<CommandV>, p: (Seq<char>, Seq<char>)) -> Option<bool>
    decreases cmds.len(),
{
    if cmds.len() == 0 {
        None
    } else if set_touches(cmds.last(), p) {
        Some(set_write_of(cmds.last()))
    } else {
        set_stream_val(cmds.drop_last(), p)
    }
}

/// A sink's set membership after a command stream: the stream's last
/// write to the member, or the prior membership when the stream never
/// writes it.
pub open spec fn set_after(
    s: Map<(Seq<char>, Seq<char>), bool>,
    cmds: Seq<CommandV>,
    p: (Seq<char>, Seq<char>),
) -> bool {
    match set_stream_val(cmds, p) {
        Some(v) => v,
        None => s.contains_key(p) && s[p],
    }
}

/// Concatenated streams defer to the later stream's writes.
pub proof fn lemma_set_stream_concat(a: Seq<CommandV>, b: Seq<CommandV>, p: (
    Seq<char>,
    Seq<char>,
))
    ensures
        set_stream_val(a + b, p) == (match set_stream_val(b, p) {
            Some(v) => Some(v),
            None => set_stream_val(a, p),
        }),
    decreases b.len(),
{
    if b.len() == 0 {
        assert(a + b =~= a);
    } else {
        lemma_set_stream_concat(a, b.drop_last(), p);
        assert((a + b).drop_last() =~= a + b.drop_last());
        assert((a + b).last() == b.last());
    }
}

} // verus!
