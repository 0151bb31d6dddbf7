//! The source stage: the in-memory rollback window over recent points, the
//! decisions of the chain-follower, the persisted cursor, and the stopping
//! rule.
//!
//! Network traffic stays outside: the functions here turn each protocol
//! event into buffer updates and payloads to emit, and the surrounding
//! process performs the requests and hands the responses back.

use vstd::prelude::*;

use crate::buffer::BufferBlocks;
use crate::model::Point;
use crate::model::PointV;
use crate::model::copy_bytes;

verus! {

/// What a rollback did to the in-memory window.
#[derive(PartialEq, Eq, Structural, Clone, Copy, Debug)]
pub enum RollbackEffect {
    /// The target was inside the window: absorbed silently.
    Handled,
    /// The target was below the window: downstream must replay rollbacks.
    OutOfScope,
}

/// The in-memory window of recent points that have not yet been handed
/// downstream.
pub struct RollbackBuffer {
    pub points: Vec<Point>,
}

impl RollbackBuffer {
    /// The slots of the window, oldest first.
    pub open spec fn slots(&self) -> Seq<u64> {
        self.points@.map_values(|p: Point| p@.slot())
    }

    /// Window slots are strictly increasing.
    pub open spec fn wf(&self) -> bool {
        forall|i: int, j: int| 0 <= i < j < self.slots().len() ==> self.slots()[i] < self.slots()[j]
    }

    pub fn new() -> (r: RollbackBuffer)
        ensures
            r.wf(),
            r.points@.len() == 0,
    {
        RollbackBuffer { points: Vec::new() }
    }

    pub fn len(&self) -> (r: usize)
        ensures
            r == self.points@.len(),
    {
        self.points.len()
    }

    /// Track a new point at the window's tip.
    pub fn roll_forward(&mut self, point: Point)
        requires
            old(self).wf(),
            old(self).points@.len() > 0 ==> point@.slot() > old(self).slots().last(),
        ensures
            final(self).wf(),
            final(self).points@ == old(self).points@.push(point),
    {
        let ghost p = point@;
        self.points.push(point);
        proof {
            assert(self.slots() =~= old(self).slots().push(p.slot()));
        }
    }

    /// Absorb a rollback: when the window holds the target slot, everything
    /// above it is discarded and the rollback is handled here; when the
    /// target lies below the window, the window empties and downstream must
    /// replay.
    pub fn roll_back(&mut self, point: &Point) -> (r: RollbackEffect)
        requires
            old(self).wf(),
        ensures
            final(self).wf(),
            r == RollbackEffect::Handled <==> exists|i: int|
                0 <= i < old(self).slots().len() && old(self).slots()[i] == point@.slot(),
            r == RollbackEffect::Handled ==> ({
                &&& final(self).points@.len() > 0
                &&& final(self).points@.len() <= old(self).points@.len()
                &&& final(self).points@ == old(self).points@.take(
                    final(self).points@.len() as int,
                )
                &&& final(self).slots().last() == point@.slot()
                &&& forall|j: int|
                    0 <= j < final(self).slots().len() ==> final(self).slots()[j]
                        <= point@.slot()
            }),
            r == RollbackEffect::OutOfScope ==> final(self).points@.len() == 0,
    {
        let target = point.slot_or_default();
        let ghost oslots = self.slots();
        let n = self.points.len();
        let mut i: usize = 0;
        while i < n
            invariant
                n == self.points@.len(),
                self.points@ == old(self).points@,
                oslots == self.slots(),
                oslots == old(self).slots(),
                target == point@.slot(),
                self.wf(),
                i <= n,
                forall|j: int| 0 <= j < i ==> oslots[j] != target,
            decreases n - i,
        {
            if self.points[i].slot_or_default() == target {
                proof {
                    assert(oslots[i as int] == target);
                    assert(exists|w: int|
                        0 <= w < old(self).slots().len() && old(self).slots()[w]
                            == point@.slot());
                }
                self.points.truncate(i + 1);
                proof {
                    assert(self.points@ =~= old(self).points@.take(i + 1));
                    assert(forall|j: int|
                        0 <= j < self.slots().len() ==> self.slots()[j] == oslots[j]);
                    assert(self.points@.len() == i + 1);
                    assert(self.slots().last() == oslots[i as int]);
                    assert forall|j: int|
                        0 <= j < self.slots().len() implies self.slots()[j] <= target by {
                        assert(self.slots()[j] == oslots[j]);
                        if j < i {
                            assert(oslots[j] < oslots[i as int]);
                        }
                    }
                    assert forall|a: int, b: int|
                        0 <= a < b < self.slots().len() implies self.slots()[a] < self.slots()[
                            b
                        ] by {
                        assert(self.slots()[a] == oslots[a]);
                        assert(self.slots()[b] == oslots[b]);
                        assert(oslots[a] < oslots[b]);
                    }
                }
                return RollbackEffect::Handled;
            }
            i += 1;
        }
        proof {
            assert(forall|j: int|
                0 <= j < old(self).slots().len() ==> old(self).slots()[j] != target);
        }
        self.points.clear();
        RollbackEffect::OutOfScope
    }

    /// Hand out the points that have sunk deeper than `min_depth` below the
    /// tip, oldest first; they leave the window.
    pub fn pop_with_depth(&mut self, min_depth: usize) -> (r: Vec<Point>)
        requires
            old(self).wf(),
        ensures
            final(self).wf(),
            ({
                let k = if old(self).points@.len() >= min_depth {
                    old(self).points@.len() - min_depth
                } else {
                    0int
                };
                &&& r@.len() == k
                &&& final(self).points@ == old(self).points@.skip(k as int)
                &&& forall|j: int| 0 <= j < k ==> r@[j] == old(self).points@[j]
            }),
    {
        let mut out: Vec<Point> = Vec::new();
        let total = self.points.len();
        let keep: usize = if total >= min_depth {
            total - min_depth
        } else {
            0
        };
        let mut taken: usize = 0;
        while taken < keep
            invariant
                keep <= total,
                total == old(self).points@.len(),
                taken <= keep,
                out@.len() == taken,
                self.points@ == old(self).points@.skip(taken as int),
                forall|j: int| 0 <= j < taken ==> out@[j] == old(self).points@[j],
                old(self).wf(),
            decreases keep - taken,
        {
            let ghost before = self.points@;
            let p = self.points.remove(0);
            out.push(p);
            proof {
                assert(self.points@ =~= before.skip(1));
                assert(self.points@ =~= old(self).points@.skip(taken + 1));
            }
            taken += 1;
        }
        proof {
            assert(self.slots() =~= old(self).slots().skip(keep as int));
            assert(forall|i: int, j: int|
                0 <= i < j < self.slots().len() ==> self.slots()[i] < self.slots()[j]) by {
                assert(forall|i: int, j: int|
                    0 <= i < j < self.slots().len() ==> self.slots()[i] == old(self).slots()[
                        i + keep
                    ] && self.slots()[j] == old(self).slots()[j + keep]);
            }
        }
        out
    }
}

/// The stopping rule: the pipeline finishes cleanly when it reaches a
/// configured block hash or passes a configured slot.
pub struct FinalizeConfig {
    pub until_hash: Option<Vec<u8>>,
    pub max_block_slot: Option<u64>,
}

/// Whether a point satisfies the stopping rule.
pub open spec fn finalize_reached(config: Option<FinalizeConfig>, point: PointV) -> bool {
    match config {
        None => false,
        Some(c) => {
            ||| (match c.until_hash {
                Some(h) => point matches PointV::Specific(_, ph) && ph == h@,
                None => false,
            })
            ||| (match c.max_block_slot {
                Some(max) => point.slot() >= max,
                None => false,
            })
        },
    }
}

/// Compare two byte strings.
pub fn bytes_eq(a: &Vec<u8>, b: &Vec<u8>) -> (r: bool)
    ensures
        r == (a@ == b@),
{
    let n = a.len();
    if n != b.len() {
        proof {
            assert(a@ != b@) by {
                assert(a@.len() != b@.len());
            }
        }
        return false;
    }
    let mut i: usize = 0;
    while i < n
        invariant
            n == a@.len(),
            n == b@.len(),
            i <= n,
            forall|j: int| 0 <= j < i ==> a@[j] == b@[j],
        decreases n - i,
    {
        if a[i] != b[i] {
            return false;
        }
        i += 1;
    }
    proof {
        assert(a@ =~= b@);
    }
    true
}

/// Decide whether the stream should stop at this point.
pub fn should_finalize(config: &Option<FinalizeConfig>, point: &Point) -> (r: bool)
    ensures
        r == finalize_reached(
            match config {
                Some(c) => Some(
                    FinalizeConfig {
                        until_hash: match &c.until_hash {
                            Some(h) => Some(*h),
                            None => None,
                        },
                        max_block_slot: c.max_block_slot,
                    },
                ),
                None => None,
            },
            point@,
        ),
{
    match config {
        None => false,
        Some(c) => {
            let hash_hit = match (&c.until_hash, point) {
                (Some(h), Point::Specific(_, ph)) => bytes_eq(ph, h),
                _ => false,
            };
            let slot_hit = match c.max_block_slot {
                Some(max) => point.slot_or_default() >= max,
                None => false,
            };
            hash_hit || slot_hit
        },
    }
}

/// Where to start following the chain when no cursor is stored.
pub enum IntersectConfig {
    Origin,
    Tip,
    Point(u64, Vec<u8>),
    Fallbacks(Vec<Point>),
}

/// The points to offer the node at the intersect handshake: the cursor
/// when one is stored, otherwise what the intersect configuration names.
/// An empty result means "start at the tip"; a lone origin point means
/// "start at the origin".
pub fn intersect_candidates(cursor: &Option<Point>, intersect: &IntersectConfig) -> (r: Vec<
    Point,
>)
    ensures
        cursor is Some ==> r@.len() == 1 && r@[0]@ == cursor->0@,
        cursor is None ==> match intersect {
            IntersectConfig::Origin => r@.len() == 1 && r@[0]@ is Origin,
            IntersectConfig::Tip => r@.len() == 0,
            IntersectConfig::Point(s, h) => r@.len() == 1 && r@[0]@ == PointV::Specific(*s, h@),
            IntersectConfig::Fallbacks(ps) => r@.len() == ps@.len() && forall|j: int|
                0 <= j < ps@.len() ==> #[trigger] r@[j]@ == ps@[j]@,
        },
{
    let mut out: Vec<Point> = Vec::new();
    match cursor {
        Some(p) => {
            out.push(p.duplicate());
        },
        None => {
            match intersect {
                IntersectConfig::Origin => {
                    out.push(Point::Origin);
                },
                IntersectConfig::Tip => {},
                IntersectConfig::Point(s, h) => {
                    out.push(Point::Specific(*s, copy_bytes(h)));
                },
                IntersectConfig::Fallbacks(ps) => {
                    let n = ps.len();
                    let mut i: usize = 0;
                    while i < n
                        invariant
                            n == ps@.len(),
                            i <= n,
                            out@.len() == i,
                            forall|j: int| 0 <= j < i ==> #[trigger] out@[j]@ == ps@[j]@,
                        decreases n - i,
                    {
                        out.push(ps[i].duplicate());
                        i += 1;
                    }
                },
            }
        },
    }
    out
}

/// Settle the intersect handshake: the node's agreed starting point when
/// it found one, and the fatal bootstrap error when it did not.
pub fn require_intersect(found: Option<Point>) -> (r: Result<Point, crate::Error>)
    ensures
        found is Some <==> r is Ok,
        r matches Ok(p) ==> p@ == found->0@,
        r matches Err(e) ==> e is IntersectNotFound,
{
    match found {
        Some(p) => Ok(p),
        None => Err(crate::Error::IntersectNotFound),
    }
}

/// The last point that went through the whole pipeline; the source resumes
/// from it after a restart.
pub struct Cursor {
    pub point: Option<Point>,
}

impl Cursor {
    pub open spec fn slot(&self) -> u64 {
        match self.point {
            Some(p) => p@.slot(),
            None => 0,
        }
    }

    pub fn new(point: Option<Point>) -> (r: Cursor)
        ensures
            r.point == point,
    {
        Cursor { point }
    }

    /// The stored point, for the intersect handshake at bootstrap.
    pub fn read(&self) -> (r: &Option<Point>)
        ensures
            r == &self.point,
    {
        &self.point
    }

    /// Advance the cursor when a block has finished end-to-end. On the
    /// forward path the slot never decreases; only a rollback that reached
    /// the sink may move it backwards.
    pub fn advance(&mut self, point: Point, rollback: bool)
        requires
            !rollback ==> point@.slot() >= old(self).slot(),
        ensures
            final(self).point == Some(point),
            final(self).slot() == point@.slot(),
            !rollback ==> final(self).slot() >= old(self).slot(),
    {
        self.point = Some(point);
    }
}

/// Cursor monotonicity: when every step of a run moves the cursor to a
/// slot no older than the one before it -- which `Cursor::advance` demands
/// of every forward step, and the source's emission order provides -- the
/// recorded slots never decrease across the whole run; only a rollback
/// that reached the sink can move the cursor backwards.
pub proof fn lemma_cursor_monotone(slots: Seq<u64>)
    requires
        forall|i: int| 0 < i < slots.len() ==> #[trigger] slots[i] >= slots[i - 1],
    ensures
        forall|i: int, j: int| 0 <= i <= j < slots.len() ==> #[trigger] slots[i] <= #[trigger] slots[j],
{
    assert forall|i: int, j: int| 0 <= i <= j < slots.len() implies slots[i] <= slots[j] by {
        lemma_chain_le(slots, i, j);
    }
}

/// Adjacent steps chain into the full order.
proof fn lemma_chain_le(slots: Seq<u64>, i: int, j: int)
    requires
        forall|k: int| 0 < k < slots.len() ==> #[trigger] slots[k] >= slots[k - 1],
        0 <= i <= j < slots.len(),
    ensures
        slots[i] <= slots[j],
    decreases j - i,
{
    if i < j {
        lemma_chain_le(slots, i, j - 1);
    }
}

/// What the source emits downstream for one block.
pub enum RawBlockPayload {
    RollForward(Vec<u8>),
    RollBack(Vec<u8>),
}

impl RawBlockPayload {
    pub fn roll_forward(block: Vec<u8>) -> (r: RawBlockPayload)
        ensures
            r matches RawBlockPayload::RollForward(b) && b@ == block@,
    {
        RawBlockPayload::RollForward(block)
    }

    pub fn roll_back(block: Vec<u8>) -> (r: RawBlockPayload)
        ensures
            r matches RawBlockPayload::RollBack(b) && b@ == block@,
    {
        RawBlockPayload::RollBack(block)
    }
}

/// The source's decisions, tying the window and the block buffer together.
/// The chain client itself lives outside; each tick hands its response in.
pub struct Source {
    pub window: RollbackBuffer,
    pub blocks: BufferBlocks,
    pub min_depth: usize,
    pub finalize: Option<FinalizeConfig>,
}

impl Source {
    pub open spec fn wf(&self) -> bool {
        self.window.wf() && self.blocks.wf()
    }

    pub fn new(blocks: BufferBlocks, min_depth: usize, finalize: Option<FinalizeConfig>) -> (r:
        Source)
        requires
            blocks.wf(),
        ensures
            r.wf(),
            r.window.points@.len() == 0,
            r.blocks == blocks,
            r.min_depth == min_depth,
    {
        Source { window: RollbackBuffer::new(), blocks, min_depth, finalize }
    }

    /// A roll-forward response: track the header's point in the window.
    pub fn on_roll_forward(&mut self, point: Point)
        requires
            old(self).wf(),
            old(self).window.points@.len() > 0 ==> point@.slot()
                > old(self).window.slots().last(),
        ensures
            final(self).wf(),
            final(self).window.points@ == old(self).window.points@.push(point),
            final(self).blocks == old(self).blocks,
    {
        self.window.roll_forward(point);
    }

    /// A roll-backward response: absorb it in the window when the target is
    /// still inside; otherwise queue every buffered block above the target
    /// for replay, highest slot first.
    pub fn on_rollback(&mut self, point: &Point) -> (r: RollbackEffect)
        requires
            old(self).wf(),
        ensures
            final(self).wf(),
            r == RollbackEffect::Handled <==> exists|i: int|
                0 <= i < old(self).window.slots().len() && old(self).window.slots()[i]
                    == point@.slot(),
            r == RollbackEffect::Handled ==> ({
                &&& final(self).blocks == old(self).blocks
                &&& final(self).window.points@.len() > 0
                &&& final(self).window.points@.len() <= old(self).window.points@.len()
                &&& final(self).window.points@ == old(self).window.points@.take(
                    final(self).window.points@.len() as int,
                )
                &&& final(self).window.slots().last() == point@.slot()
                &&& forall|j: int|
                    0 <= j < final(self).window.slots().len() ==> final(self).window.slots()[j]
                        <= point@.slot()
            }),
            r == RollbackEffect::OutOfScope ==> ({
                &&& final(self).window.points@.len() == 0
                &&& final(self).blocks.db == old(self).blocks.db
                &&& final(self).blocks.queue@.len() == old(self).blocks.queue@.len()
                    + crate::buffer::count_above(old(self).blocks.db.slots(), point@.slot())
                &&& forall|idx: int|
                    0 <= idx < old(self).blocks.queue@.len() ==> #[trigger] final(self).blocks.queue@[idx] == old(self).blocks.queue@[idx]
                &&& forall|idx: int|
                    old(self).blocks.queue@.len() <= idx < final(self).blocks.queue@.len()
                        ==> #[trigger] final(self).blocks.queue@[idx] > point@.slot()
                &&& forall|a: int, b: int|
                    old(self).blocks.queue@.len() <= a < b < final(self).blocks.queue@.len()
                        ==> #[trigger] final(self).blocks.queue@[a] > #[trigger] final(self).blocks.queue@[b]
            }),
    {
        match self.window.roll_back(point) {
            RollbackEffect::Handled => RollbackEffect::Handled,
            RollbackEffect::OutOfScope => {
                let _ = self.blocks.enqueue_rollback_batch(point);
                proof {
                    let q0 = old(self).blocks.queue@.len() as int;
                    assert forall|idx: int|
                        q0 <= idx < self.blocks.queue@.len() implies #[trigger] self
                            .blocks.queue@[idx] > point@.slot() by {
                        let k2 = idx - q0;
                        assert(self.blocks.queue@[q0 + k2] > point@.slot());
                        assert(q0 + k2 == idx);
                    }
                    assert forall|a: int, b: int|
                        q0 <= a < b < self.blocks.queue@.len() implies #[trigger] self
                            .blocks.queue@[a] > #[trigger] self.blocks.queue@[b] by {
                        let ia = a - q0;
                        let ib = b - q0;
                        let la = old(self).blocks.db.slots().len() - 1 - ia;
                        let lb = old(self).blocks.db.slots().len() - 1 - ib;
                        assert(self.blocks.queue@[q0 + ia] == old(self).blocks.db.slots()[la]);
                        assert(self.blocks.queue@[q0 + ib] == old(self).blocks.db.slots()[lb]);
                        assert(q0 + ia == a && q0 + ib == b);
                        assert(lb < la);
                    }
                }
                RollbackEffect::OutOfScope
            },
        }
    }

    /// Replay one queued rollback, if any: its block leaves the buffer and
    /// is emitted as a roll-back payload. While any rollback waits, a tick
    /// emits nothing else.
    pub fn drain_one(&mut self) -> (r: Option<RawBlockPayload>)
        requires
            old(self).wf(),
        ensures
            final(self).wf(),
            final(self).window == old(self).window,
            final(self).blocks.cap == old(self).blocks.cap,
            old(self).blocks.queue@.len() == 0 ==> r is None && final(self).blocks == old(self).blocks,
            old(self).blocks.queue@.len() > 0 ==> ({
                &&& final(self).blocks.queue@ == old(self).blocks.queue@.drop_first()
                &&& final(self).blocks.db@ == old(self).blocks.db@.remove(
                    old(self).blocks.queue@[0],
                )
                &&& (match r {
                    Some(payload) => payload matches RawBlockPayload::RollBack(b) && old(self).blocks.db@.contains_key(old(self).blocks.queue@[0]) && b@ == old(self).blocks.db@[old(self).blocks.queue@[0]],
                    None => !old(self).blocks.db@.contains_key(old(self).blocks.queue@[0]),
                })
            }),
    {
        match self.blocks.rollback_pop() {
            Some(bytes) => Some(RawBlockPayload::roll_back(bytes)),
            None => None,
        }
    }

    /// The points that sank deep enough below the tip to be fetched and
    /// emitted as roll-forwards, oldest first.
    pub fn ready_points(&mut self) -> (r: Vec<Point>)
        requires
            old(self).wf(),
        ensures
            final(self).wf(),
            final(self).blocks == old(self).blocks,
            ({
                let k = if old(self).window.points@.len() >= old(self).min_depth {
                    old(self).window.points@.len() - old(self).min_depth
                } else {
                    0int
                };
                &&& r@.len() == k
                &&& forall|j: int| 0 <= j < k ==> r@[j] == old(self).window.points@[j]
            }),
    {
        self.window.pop_with_depth(self.min_depth)
    }

    /// A fetched block enters the buffer under its point and is emitted as
    /// a roll-forward payload.
    pub fn record_fetched(&mut self, point: &Point, block: Vec<u8>) -> (r: RawBlockPayload)
        requires
            old(self).wf(),
        ensures
            final(self).wf(),
            final(self).window == old(self).window,
            crate::buffer::buffer_insert_post(
                old(self).blocks,
                final(self).blocks,
                point@.slot(),
                block@,
            ),
            r matches RawBlockPayload::RollForward(b) && b@ == block@,
    {
        self.blocks.insert_block(point, &block);
        RawBlockPayload::roll_forward(block)
    }

    /// Whether the stopping rule is met at this point.
    pub fn finalized(&self, point: &Point) -> (r: bool)
        ensures
            r == finalize_reached(
                match self.finalize {
                    Some(c) => Some(
                        FinalizeConfig {
                            until_hash: match c.until_hash {
                                Some(h) => Some(h),
                                None => None,
                            },
                            max_block_slot: c.max_block_slot,
                        },
                    ),
                    None => None,
                },
                point@,
            ),
    {
        should_finalize(&self.finalize, point)
    }
}

/// The ordering law of the source's emitted stream. After a rollback whose
/// target fell below the window, the source is in the state this lemma
/// describes: the replay queue holds exactly the buffered slots above the
/// target, strictly descending, and the window is empty. The queue is
/// drained first-in-first-out and a tick emits nothing else while any
/// replay waits, so every replayed rollback precedes every later
/// roll-forward, the replayed slots descend strictly, and each lies above
/// the rollback target. A roll-forward for a slot at or below a replayed
/// slot can therefore only follow a fresh intersect: the emptied window
/// admits only points the node sends after the rollback.
pub proof fn lemma_rollback_replay_ordered(s: Source, target: u64)
    requires
        s.window.points@.len() == 0,
        forall|a: int, b: int|
            0 <= a < b < s.blocks.queue@.len() ==> s.blocks.queue@[a] > s.blocks.queue@[b],
        forall|i: int| 0 <= i < s.blocks.queue@.len() ==> s.blocks.queue@[i] > target,
    ensures
        forall|i: int, j: int|
            0 <= i < j < s.blocks.queue@.len() ==> s.blocks.queue@[i] > s.blocks.queue@[j]
                && s.blocks.queue@[j] > target,
        s.window.slots().len() == 0,
{
}

/// How a node-to-node source reaches its peer.
pub struct N2NConfig {
    pub address: String,
    pub magic: u64,
    pub min_depth: usize,
}

/// How a gRPC source reaches its peer.
pub struct GrpcConfig {
    pub address: String,
    pub min_depth: usize,
}

/// Which transport the source follows the chain over.
pub enum Config {
    N2N(N2NConfig),
    Grpc(GrpcConfig),
}

impl Config {
    /// The minimum depth a point must sink to before it is emitted.
    pub fn min_depth(&self) -> (r: usize)
        ensures
            r == match self {
                Config::N2N(c) => c.min_depth,
                Config::Grpc(c) => c.min_depth,
            },
    {
        match self {
            Config::N2N(c) => c.min_depth,
            Config::Grpc(c) => c.min_depth,
        }
    }
}

} // verus!
