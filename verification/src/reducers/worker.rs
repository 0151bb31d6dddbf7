//! The reducer worker: fans each enriched block out to every registered
//! reducer, between the framing commands the sink batches on.

use vstd::prelude::*;

use crate::model::Block;
use crate::model::BlockContext;
use crate::model::CRDTCommand;
use crate::model::CommandV;
use crate::model::PointV;
use crate::model::UtxoValV;
use crate::model::block_wf;
use crate::model::cmds_view;
use crate::model::ctx_wf;
use crate::model::lemma_cmds_view_push;
use crate::reducers::Reducer;
use crate::reducers::framed_cmds;
use crate::reducers::pass_cmds;
use crate::reducers::reducer_cmds;

verus! {

/// The worker owns the registered reducers; the queues around it stay
/// outside.
pub struct Worker {
    pub reducers: Vec<Reducer>,
}

impl Worker {
    pub open spec fn wf(&self) -> bool {
        forall|i: int| 0 <= i < self.reducers@.len() ==> (#[trigger] self.reducers@[i]).wf()
    }

    pub fn new(reducers: Vec<Reducer>) -> (r: Worker)
        ensures
            r.reducers == reducers,
    {
        Worker { reducers }
    }

    /// Run every reducer over one enriched block, between its frames: the
    /// opening frame, each reducer's commands in registration order, and
    /// the closing frame on which the sink advances the cursor.
    pub fn reduce_block(
        &self,
        block: &Block,
        ctx: &BlockContext,
        rollback: bool,
        output: &mut Vec<CRDTCommand>,
    )
        requires
            self.wf(),
            ctx.wf(),
            block_wf(*block),
            ctx_wf(ctx@),
        ensures
            cmds_view(final(output)@) == cmds_view(old(output)@) + framed_cmds(
                self.reducers@,
                *block,
                ctx@,
                rollback,
            ),
    {
        let ghost base = cmds_view(output@);
        let ghost start = CommandV::BlockStarting(PointV::Specific(block.slot, block.hash@));
        output.push(CRDTCommand::block_starting(block));
        proof {
            lemma_cmds_view_push(old(output)@, output@.last());
        }
        let n = self.reducers.len();
        let mut i: usize = 0;
        while i < n
            invariant
                n == self.reducers@.len(),
                i <= n,
                self.wf(),
                ctx.wf(),
                block_wf(*block),
                ctx_wf(ctx@),
                cmds_view(output@) == base + seq![start] + pass_cmds(
                    self.reducers@.take(i as int),
                    *block,
                    ctx@,
                    rollback,
                ),
            decreases n - i,
        {
            let r = &self.reducers[i];
            r.reduce_block(block, ctx, rollback, output);
            proof {
                assert(self.reducers@.take(i + 1).drop_last() =~= self.reducers@.take(i as int));
                assert(self.reducers@.take(i + 1).last() == self.reducers@[i as int]);
                assert(cmds_view(output@) =~= base + seq![start] + pass_cmds(
                    self.reducers@.take(i + 1),
                    *block,
                    ctx@,
                    rollback,
                ));
            }
            i += 1;
        }
        proof {
            assert(self.reducers@.take(n as int) =~= self.reducers@);
        }
        let ghost mid = output@;
        output.push(CRDTCommand::block_finished(block));
        proof {
            lemma_cmds_view_push(mid, output@.last());
            assert(cmds_view(output@) =~= base + framed_cmds(
                self.reducers@,
                *block,
                ctx@,
                rollback,
            ));
        }
    }

    /// Replay a run of rolled-back blocks: the last block still valid
    /// frames the batch, and every reducer undoes each block in the order
    /// the source replayed them (highest slot first).
    pub fn reduce_rollback_blocks(
        &self,
        last_valid_block: &Block,
        blocks: &Vec<Block>,
        ctxs: &Vec<BlockContext>,
        output: &mut Vec<CRDTCommand>,
    )
        requires
            self.wf(),
            blocks@.len() == ctxs@.len(),
            forall|k: int| 0 <= k < blocks@.len() ==> block_wf(#[trigger] blocks@[k]),
            forall|k: int|
                0 <= k < ctxs@.len() ==> (#[trigger] ctxs@[k]).wf() && ctx_wf(ctxs@[k]@),
        ensures
            cmds_view(final(output)@) == cmds_view(old(output)@) + seq![
                CommandV::BlockStarting(
                    PointV::Specific(last_valid_block.slot, last_valid_block.hash@),
                ),
            ] + rollback_passes(self.reducers@, blocks@, ctxs@) + seq![
                CommandV::BlockFinished(
                    PointV::Specific(last_valid_block.slot, last_valid_block.hash@),
                ),
            ],
    {
        let ghost base = cmds_view(output@);
        let ghost start = CommandV::BlockStarting(
            PointV::Specific(last_valid_block.slot, last_valid_block.hash@),
        );
        output.push(CRDTCommand::block_starting(last_valid_block));
        proof {
            lemma_cmds_view_push(old(output)@, output@.last());
        }
        let n = blocks.len();
        let mut k: usize = 0;
        while k < n
            invariant
                n == blocks@.len(),
                n == ctxs@.len(),
                k <= n,
                self.wf(),
                forall|j: int| 0 <= j < blocks@.len() ==> block_wf(#[trigger] blocks@[j]),
                forall|j: int|
                    0 <= j < ctxs@.len() ==> (#[trigger] ctxs@[j]).wf() && ctx_wf(ctxs@[j]@),
                cmds_view(output@) == base + seq![start] + rollback_passes(
                    self.reducers@,
                    blocks@.take(k as int),
                    ctxs@.take(k as int),
                ),
            decreases n - k,
        {
            let block = &blocks[k];
            let ctx = &ctxs[k];
            let ghost kbase = cmds_view(output@);
            let m = self.reducers.len();
            let mut i: usize = 0;
            while i < m
                invariant
                    m == self.reducers@.len(),
                    i <= m,
                    self.wf(),
                    k < n,
                    n == blocks@.len(),
                    n == ctxs@.len(),
                    block == &blocks@[k as int],
                    ctx == &ctxs@[k as int],
                    block_wf(*block),
                    ctx.wf(),
                    ctx_wf(ctx@),
                    cmds_view(output@) == kbase + pass_cmds(
                        self.reducers@.take(i as int),
                        blocks@[k as int],
                        ctxs@[k as int]@,
                        true,
                    ),
                decreases m - i,
            {
                let r = &self.reducers[i];
                r.reduce_block(block, ctx, true, output);
                proof {
                    assert(self.reducers@.take(i + 1).drop_last() =~= self.reducers@.take(
                        i as int,
                    ));
                    assert(self.reducers@.take(i + 1).last() == self.reducers@[i as int]);
                    assert(cmds_view(output@) =~= kbase + pass_cmds(
                        self.reducers@.take(i + 1),
                        blocks@[k as int],
                        ctxs@[k as int]@,
                        true,
                    ));
                }
                i += 1;
            }
            proof {
                assert(self.reducers@.take(m as int) =~= self.reducers@);
                assert(blocks@.take(k + 1).drop_last() =~= blocks@.take(k as int));
                assert(ctxs@.take(k + 1).drop_last() =~= ctxs@.take(k as int));
                assert(blocks@.take(k + 1).last() == blocks@[k as int]);
                assert(ctxs@.take(k + 1).last() == ctxs@[k as int]);
                assert(cmds_view(output@) =~= base + seq![start] + rollback_passes(
                    self.reducers@,
                    blocks@.take(k + 1),
                    ctxs@.take(k + 1),
                ));
            }
            k += 1;
        }
        proof {
            assert(blocks@.take(n as int) =~= blocks@);
            assert(ctxs@.take(n as int) =~= ctxs@);
        }
        let ghost mid = output@;
        output.push(CRDTCommand::block_finished(last_valid_block));
        proof {
            lemma_cmds_view_push(mid, output@.last());
            assert(cmds_view(output@) =~= base + seq![start] + rollback_passes(
                self.reducers@,
                blocks@,
                ctxs@,
            ) + seq![
                CommandV::BlockFinished(
                    PointV::Specific(last_valid_block.slot, last_valid_block.hash@),
                ),
            ]);
        }
    }
}

/// The undo commands of a run of rolled-back blocks, in replay order.
pub open spec fn rollback_passes(
    rs: Seq<Reducer>,
    blocks: Seq<Block>,
    ctxs: Seq<BlockContext>,
) -> Seq<CommandV>
    decreases blocks.len(),
{
    if blocks.len() == 0 || blocks.len() != ctxs.len() {
        Seq::<CommandV>::empty()
    } else {
        rollback_passes(rs, blocks.drop_last(), ctxs.drop_last()) + pass_cmds(
            rs,
            blocks.last(),
            ctxs.last()@,
            true,
        )
    }
}

} // verus!
