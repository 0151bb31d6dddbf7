//! The durable buffer of recent raw blocks, ordered by slot, with the FIFO
//! queue of blocks waiting to be replayed downstream as rollbacks.

use vstd::prelude::*;

use crate::model::Point;
use crate::model::copy_bytes;

verus! {

/// A slot-ordered store of raw block bytes.
pub struct SlotMap {
    pub entries: Vec<(u64, Vec<u8>)>,
}

/// The map described by a sequence of slot-value entries.
pub open spec fn slot_entries_map(s: Seq<(u64, Vec<u8>)>) -> Map<u64, Seq<u8>>
    decreases s.len(),
{
    if s.len() == 0 {
        Map::<u64, Seq<u8>>::empty()
    } else {
        slot_entries_map(s.drop_last()).insert(s.last().0, s.last().1@)
    }
}

/// An entry's slot maps to its value.
pub proof fn lemma_slot_map_index(s: Seq<(u64, Vec<u8>)>, i: int)
    requires
        0 <= i < s.len(),
        forall|a: int, b: int| 0 <= a < b < s.len() ==> s[a].0 != s[b].0,
    ensures
        slot_entries_map(s).contains_key(s[i].0),
        slot_entries_map(s)[s[i].0] == s[i].1@,
    decreases s.len(),
{
    if i < s.len() - 1 {
        lemma_slot_map_index(s.drop_last(), i);
    }
}

/// A slot is in the map's domain exactly when some entry holds it.
pub proof fn lemma_slot_map_dom(s: Seq<(u64, Vec<u8>)>, k: u64)
    ensures
        slot_entries_map(s).contains_key(k) <==> exists|i: int| 0 <= i < s.len() && s[i].0 == k,
    decreases s.len(),
{
    if s.len() > 0 {
        lemma_slot_map_dom(s.drop_last(), k);
        if slot_entries_map(s).contains_key(k) && s.last().0 != k {
            let i = choose|i: int| 0 <= i < s.len() - 1 && s.drop_last()[i].0 == k;
            assert(s[i].0 == k);
        }
        if exists|i: int| 0 <= i < s.len() && s[i].0 == k {
            let i = choose|i: int| 0 <= i < s.len() && s[i].0 == k;
            if i < s.len() - 1 {
                assert(s.drop_last()[i].0 == k);
            }
        }
    }
}

/// Removing an entry is the map's remove.
pub proof fn lemma_slot_map_erase(s: Seq<(u64, Vec<u8>)>, i: int)
    requires
        0 <= i < s.len(),
        forall|a: int, b: int| 0 <= a < b < s.len() ==> s[a].0 != s[b].0,
    ensures
        slot_entries_map(s.remove(i)) == slot_entries_map(s).remove(s[i].0),
    decreases s.len(),
{
    if i == s.len() - 1 {
        assert(s.remove(i) =~= s.drop_last());
        lemma_slot_map_absent(s.drop_last(), s[i].0);
        assert(slot_entries_map(s.remove(i)) =~= slot_entries_map(s).remove(s[i].0));
    } else {
        lemma_slot_map_erase(s.drop_last(), i);
        assert(s.remove(i).drop_last() =~= s.drop_last().remove(i));
        assert(s.remove(i).last() == s.last());
        assert(slot_entries_map(s.remove(i)) =~= slot_entries_map(s).remove(s[i].0));
    }
}

/// A slot held by no entry is outside the map's domain.
pub proof fn lemma_slot_map_absent(s: Seq<(u64, Vec<u8>)>, k: u64)
    requires
        forall|i: int| 0 <= i < s.len() ==> s[i].0 != k,
    ensures
        !slot_entries_map(s).contains_key(k),
        slot_entries_map(s).remove(k) == slot_entries_map(s),
    decreases s.len(),
{
    lemma_slot_map_dom(s, k);
    assert(slot_entries_map(s).remove(k) =~= slot_entries_map(s));
}

/// Inserting a fresh entry at a position is the map's insert.
pub proof fn lemma_slot_map_place(s: Seq<(u64, Vec<u8>)>, i: int, k: u64, v: Vec<u8>)
    requires
        0 <= i <= s.len(),
        forall|j: int| 0 <= j < s.len() ==> s[j].0 != k,
    ensures
        slot_entries_map(s.insert(i, (k, v))) == slot_entries_map(s).insert(k, v@),
    decreases s.len(),
{
    let t = s.insert(i, (k, v));
    if i == s.len() {
        assert(t.drop_last() =~= s);
        assert(t.last() == (k, v));
    } else {
        assert(t.drop_last() =~= s.drop_last().insert(i, (k, v)));
        assert(t.last() == s.last());
        lemma_slot_map_place(s.drop_last(), i, k, v);
        assert(slot_entries_map(t) =~= slot_entries_map(s).insert(k, v@));
    }
}

/// Overwriting an entry's value in place is the map's insert.
pub proof fn lemma_slot_map_overwrite(s: Seq<(u64, Vec<u8>)>, i: int, v: Vec<u8>)
    requires
        0 <= i < s.len(),
        forall|a: int, b: int| 0 <= a < b < s.len() ==> s[a].0 != s[b].0,
    ensures
        slot_entries_map(s.update(i, (s[i].0, v))) == slot_entries_map(s).insert(s[i].0, v@),
    decreases s.len(),
{
    let t = s.update(i, (s[i].0, v));
    if i == s.len() - 1 {
        assert(t.drop_last() =~= s.drop_last());
        assert(slot_entries_map(t) =~= slot_entries_map(s).insert(s[i].0, v@));
    } else {
        lemma_slot_map_overwrite(s.drop_last(), i, v);
        assert(t.drop_last() =~= s.drop_last().update(i, (s[i].0, v)));
        assert(t.last() == s.last());
        assert(slot_entries_map(t) =~= slot_entries_map(s).insert(s[i].0, v@));
    }
}

impl SlotMap {
    /// Entries stand in strictly increasing slot order.
    pub open spec fn wf(&self) -> bool {
        forall|i: int, j: int|
            0 <= i < j < self.entries@.len() ==> self.entries@[i].0 < self.entries@[j].0
    }

    /// The store as a map from slots to block bytes.
    pub open spec fn view(&self) -> Map<u64, Seq<u8>> {
        slot_entries_map(self.entries@)
    }

    /// The slots in increasing order.
    pub open spec fn slots(&self) -> Seq<u64> {
        self.entries@.map_values(|e: (u64, Vec<u8>)| e.0)
    }

    pub fn new() -> (r: SlotMap)
        ensures
            r.wf(),
            r@ == Map::<u64, Seq<u8>>::empty(),
            r.slots() =~= Seq::<u64>::empty(),
    {
        SlotMap { entries: Vec::new() }
    }

    pub fn len(&self) -> (r: usize)
        ensures
            r == self.entries@.len(),
            r == self.slots().len(),
    {
        self.entries.len()
    }

    /// Look a slot up and copy its block.
    pub fn get(&self, slot: u64) -> (r: Option<Vec<u8>>)
        requires
            self.wf(),
        ensures
            match r {
                Some(v) => self@.contains_key(slot) && v@ == self@[slot],
                None => !self@.contains_key(slot),
            },
    {
        let n = self.entries.len();
        let mut i: usize = 0;
        while i < n
            invariant
                n == self.entries@.len(),
                self.wf(),
                forall|j: int| 0 <= j < i ==> self.entries@[j].0 != slot,
            decreases n - i,
        {
            let e = &self.entries[i];
            if e.0 == slot {
                proof {
                    lemma_slot_map_index(self.entries@, i as int);
                }
                return Some(copy_bytes(&e.1));
            }
            i += 1;
        }
        proof {
            lemma_slot_map_dom(self.entries@, slot);
        }
        None
    }

    /// Insert a block under its slot; an existing entry is overwritten, a
    /// fresh slot takes its place in slot order.
    pub fn insert(&mut self, slot: u64, v: Vec<u8>)
        requires
            old(self).wf(),
        ensures
            final(self).wf(),
            final(self)@ == old(self)@.insert(slot, v@),
            old(self)@.contains_key(slot) ==> final(self).slots() == old(self).slots(),
            !old(self)@.contains_key(slot) && (forall|j: int|
                0 <= j < old(self).slots().len() ==> old(self).slots()[j] < slot) ==> final(self).slots() == old(self).slots() + seq![slot],
            final(self).entries@.len() == if old(self)@.contains_key(slot) {
                old(self).entries@.len() as int
            } else {
                old(self).entries@.len() + 1int
            },
    {
        let n = self.entries.len();
        let mut i: usize = 0;
        while i < n && self.entries[i].0 < slot
            invariant
                n == self.entries@.len(),
                self.entries@ == old(self).entries@,
                self.wf(),
                i <= n,
                forall|j: int| 0 <= j < i ==> self.entries@[j].0 < slot,
            decreases n - i,
        {
            i += 1;
        }
        if i < n && self.entries[i].0 == slot {
            proof {
                lemma_slot_map_index(self.entries@, i as int);
                lemma_slot_map_overwrite(self.entries@, i as int, v);
            }
            let ghost before = self.entries@;
            self.entries[i].1 = v;
            proof {
                assert(self.entries@ =~= before.update(i as int, (before[i as int].0, v)));
                assert(self.slots() =~= old(self).slots());
            }
        } else {
            proof {
                assert(forall|j: int| 0 <= j < self.entries@.len() ==> self.entries@[j].0 != slot)
                    by {
                    assert(forall|j: int|
                        i <= j < self.entries@.len() ==> self.entries@[j].0 >= self.entries@[
                            i as int
                        ].0 || j == i);
                }
                lemma_slot_map_dom(self.entries@, slot);
                lemma_slot_map_place(self.entries@, i as int, slot, v);
                if i < n {
                    assert(self.slots()[i as int] == self.entries@[i as int].0);
                }
            }
            let ghost before = self.entries@;
            self.entries.insert(i, (slot, v));
            proof {
                assert(self.entries@ =~= before.insert(i as int, (slot, v)));
                assert(self.wf()) by {
                    assert(forall|a: int|
                        0 <= a < i ==> self.entries@[a] == before[a]);
                    assert(forall|a: int|
                        i < a < self.entries@.len() ==> self.entries@[a] == before[a - 1]);
                    assert(forall|a: int| 0 <= a < i ==> self.entries@[a].0 < slot);
                    assert(forall|a: int|
                        i < a < self.entries@.len() ==> slot < self.entries@[a].0);
                }
                if i == before.len() {
                    assert(self.slots() =~= old(self).slots() + seq![slot]);
                }
            }
        }
    }

    /// Remove a slot; absent slots are left alone.
    pub fn remove(&mut self, slot: u64)
        requires
            old(self).wf(),
        ensures
            final(self).wf(),
            final(self)@ == old(self)@.remove(slot),
            final(self).slots() == old(self).slots().remove_value(slot),
    {
        let n = self.entries.len();
        let mut i: usize = 0;
        while i < n
            invariant
                n == self.entries@.len(),
                self.entries@ == old(self).entries@,
                self.wf(),
                forall|j: int| 0 <= j < i ==> self.entries@[j].0 != slot,
            decreases n - i,
        {
            let e = &self.entries[i];
            if e.0 == slot {
                proof {
                    lemma_slot_map_index(self.entries@, i as int);
                    lemma_slot_map_erase(self.entries@, i as int);
                    assert(self.slots()[i as int] == slot);
                    crate::store::lemma_first_index(self.slots(), slot, i as int);
                }
                self.entries.remove(i);
                proof {
                    assert(self.slots() =~= old(self).slots().remove(i as int));
                }
                return ;
            }
            i += 1;
        }
        proof {
            lemma_slot_map_dom(self.entries@, slot);
            assert(old(self)@.remove(slot) =~= old(self)@);
            assert(!self.slots().contains(slot)) by {
                assert(forall|j: int|
                    0 <= j < self.slots().len() ==> self.slots()[j] == self.entries@[j].0);
            }
            self.slots().index_of_first_ensures(slot);
        }
    }

    /// The greatest entry strictly below the given slot.
    pub fn get_lt(&self, slot: u64) -> (r: Option<(u64, Vec<u8>)>)
        requires
            self.wf(),
        ensures
            match r {
                Some(p) => self@.contains_key(p.0) && p.1@ == self@[p.0] && p.0 < slot
                    && forall|j: int|
                    0 <= j < self.slots().len() && self.slots()[j] < slot ==> self.slots()[j]
                        <= p.0,
                None => forall|j: int| 0 <= j < self.slots().len() ==> self.slots()[j] >= slot,
            },
    {
        let n = self.entries.len();
        let mut i: usize = n;
        while i > 0
            invariant
                n == self.entries@.len(),
                self.wf(),
                i <= n,
                forall|j: int| i <= j < n ==> self.entries@[j].0 >= slot,
            decreases i,
        {
            i -= 1;
            let e = &self.entries[i];
            if e.0 < slot {
                proof {
                    lemma_slot_map_index(self.entries@, i as int);
                    assert(forall|j: int|
                        0 <= j < self.slots().len() && self.slots()[j] < slot ==> j <= i);
                }
                return Some((e.0, copy_bytes(&e.1)));
            }
        }
        None
    }

    /// The highest entry of the store.
    pub fn tip(&self) -> (r: Option<(u64, Vec<u8>)>)
        requires
            self.wf(),
        ensures
            match r {
                Some(p) => self.entries@.len() > 0 && p.0 == self.entries@.last().0 && p.1@
                    == self.entries@.last().1@ && self@.contains_key(p.0),
                None => self.entries@.len() == 0,
            },
    {
        let n = self.entries.len();
        if n == 0 {
            None
        } else {
            let e = &self.entries[n - 1];
            proof {
                lemma_slot_map_index(self.entries@, n - 1);
            }
            Some((e.0, copy_bytes(&e.1)))
        }
    }

    /// All entries with slots strictly above the given one, highest first.
    pub fn collect_above(&self, slot: u64) -> (r: Vec<(u64, Vec<u8>)>)
        requires
            self.wf(),
        ensures
            forall|idx: int|
                0 <= idx < r@.len() ==> (#[trigger] r@[idx]).0 == self.slots()[
                    self.slots().len() - 1 - idx
                ] && r@[idx].0 > slot && r@[idx].1@ == self@[r@[idx].0] && self@.contains_key(
                    r@[idx].0,
                ),
            r@.len() <= self.slots().len(),
            self.slots().len() - r@.len() > 0 ==> self.slots()[
                self.slots().len() - r@.len() - 1
            ] <= slot,
    {
        let n = self.entries.len();
        let mut out: Vec<(u64, Vec<u8>)> = Vec::new();
        let mut i: usize = n;
        while i > 0
            invariant
                n == self.entries@.len(),
                self.wf(),
                i <= n,
                out@.len() == n - i,
                forall|idx: int|
                    0 <= idx < out@.len() ==> (#[trigger] out@[idx]).0 == self.entries@[
                        n - 1 - idx
                    ].0 && out@[idx].0 > slot && out@[idx].1@ == self@[out@[idx].0]
                        && self@.contains_key(out@[idx].0),
            decreases i,
        {
            let e = &self.entries[i - 1];
            if e.0 > slot {
                proof {
                    lemma_slot_map_index(self.entries@, i - 1);
                }
                out.push((e.0, copy_bytes(&e.1)));
                i -= 1;
            } else {
                proof {
                    assert(self.slots()[i - 1] == self.entries@[i - 1].0);
                }
                return out;
            }
        }
        out
    }
}

/// Where the buffer's three stores live on disk.
#[derive(Clone)]
pub struct BlockConfig {
    pub db_path: String,
    pub consumed_ring_path: String,
    pub produced_ring_path: String,
}

impl Default for BlockConfig {
    fn default() -> (r: BlockConfig) {
        BlockConfig {
            db_path: String::from_str("/opt/scrolls/block_buffer"),
            consumed_ring_path: String::from_str("/opt/scrolls/consumed_buffer"),
            produced_ring_path: String::from_str("/opt/scrolls/produced_buffer"),
        }
    }
}

/// How many recent blocks the buffer retains before dropping the oldest.
pub const DEFAULT_BUFFER_CAP: usize = 50000;

/// How one insert changes a buffer: the slot takes the new bytes; when
/// the buffer then exceeds its cap, the lowest slot not waiting in the
/// rollback queue leaves (or nothing leaves, when every slot waits); the
/// queue and the cap stay as they were.
pub open spec fn buffer_insert_post(
    pre: BufferBlocks,
    post: BufferBlocks,
    slot: u64,
    bytes: Seq<u8>,
) -> bool {
    let m1 = pre.db@.insert(slot, bytes);
    let grown = if pre.db@.contains_key(slot) {
        pre.db.entries@.len() as int
    } else {
        pre.db.entries@.len() + 1int
    };
    &&& post.queue == pre.queue
    &&& post.cap == pre.cap
    &&& (if grown > pre.cap {
        (exists|victim: u64|
            post.db@ == m1.remove(victim) && m1.contains_key(victim) && !pre.queue@.contains(
                victim,
            ) && forall|s: u64|
                #[trigger] m1.contains_key(s) && !pre.queue@.contains(s) ==> victim <= s) || (
        post.db@ == m1 && forall|s: u64|
            #[trigger] m1.contains_key(s) ==> pre.queue@.contains(s))
    } else {
        post.db@ == m1
    })
    &&& (pre.queue@.len() == 0 && !pre.db@.contains_key(slot) && (forall|j: int|
        0 <= j < pre.db.slots().len() ==> pre.db.slots()[j] < slot) ==> post.db.slots() == (
    if pre.db.entries@.len() + 1int > pre.cap {
        (pre.db.slots() + seq![slot]).drop_first()
    } else {
        pre.db.slots() + seq![slot]
    }))
}

/// The slot-ordered buffer of recent raw blocks, with its cap and the FIFO
/// queue of slots awaiting replay as rollbacks.
pub struct BufferBlocks {
    pub db: SlotMap,
    pub queue: Vec<u64>,
    pub cap: usize,
}

impl BufferBlocks {
    pub open spec fn wf(&self) -> bool {
        self.db.wf() && self.cap >= 1
    }

    /// Open the buffer described by the configuration, with the default
    /// cap.
    pub fn open_db(config: BlockConfig) -> (r: BufferBlocks)
        ensures
            r.wf(),
            r.db@ == Map::<u64, Seq<u8>>::empty(),
            r.queue@ == Seq::<u64>::empty(),
            r.cap == DEFAULT_BUFFER_CAP,
    {
        let _ = config;
        BufferBlocks { db: SlotMap::new(), queue: Vec::new(), cap: DEFAULT_BUFFER_CAP }
    }

    /// Open an empty buffer that retains at most `cap` blocks.
    pub fn with_cap(cap: usize) -> (r: BufferBlocks)
        requires
            cap >= 1,
        ensures
            r.wf(),
            r.db@ == Map::<u64, Seq<u8>>::empty(),
            r.queue@ == Seq::<u64>::empty(),
            r.cap == cap,
    {
        BufferBlocks { db: SlotMap::new(), queue: Vec::new(), cap }
    }

    /// Insert a block under its point's slot. When the buffer then holds
    /// more than `cap` blocks, the lowest slot that is not waiting in the
    /// rollback queue is dropped: a queued block is never evicted.
    #[verifier::loop_isolation(false)]
    pub fn insert_block(&mut self, point: &Point, block: &Vec<u8>)
        requires
            old(self).wf(),
        ensures
            final(self).wf(),
            buffer_insert_post(*old(self), *final(self), point@.slot(), block@),
    {
        let slot = point.slot_or_default();
        self.db.insert(slot, copy_bytes(block));
        let ghost m1 = self.db@;
        let ghost mid = self.db.slots();
        if self.db.len() > self.cap {
            let n = self.db.entries.len();
            let mut i: usize = 0;
            while i < n
                invariant
                    n == self.db.entries@.len(),
                    self.db.wf(),
                    self.db@ == m1,
                    self.db.slots() == mid,
                    self.queue == old(self).queue,
                    self.cap == old(self).cap,
                    i <= n,
                    forall|j: int| 0 <= j < i ==> self.queue@.contains(self.db.entries@[j].0),
                decreases n - i,
            {
                let candidate = self.db.entries[i].0;
                if !self.contains_queued(candidate) {
                    proof {
                        lemma_slot_map_index(self.db.entries@, i as int);
                        assert(forall|s: u64|
                            m1.contains_key(s) && !self.queue@.contains(s)
                                ==> candidate <= s) by {
                            assert forall|s: u64|
                                m1.contains_key(s) && !self.queue@.contains(s)
                                implies candidate <= s by {
                                lemma_slot_map_dom(self.db.entries@, s);
                                let k = choose|k: int|
                                    0 <= k < self.db.entries@.len() && self.db.entries@[k].0
                                        == s;
                                assert(k >= i);
                            }
                        }
                        if old(self).queue@.len() == 0 {
                            assert(i == 0) by {
                                if i > 0 {
                                    assert(self.queue@.contains(self.db.entries@[0].0));
                                }
                            }
                        }
                    }
                    self.db.remove(candidate);
                    proof {
                        if old(self).queue@.len() == 0 && !old(self).db@.contains_key(
                            point@.slot(),
                        ) && (forall|j: int|
                            0 <= j < old(self).db.slots().len() ==> old(self).db.slots()[j]
                                < point@.slot()) {
                            assert(mid == old(self).db.slots() + seq![point@.slot()]);
                            assert(mid[0] == candidate);
                            crate::store::lemma_first_index(mid, candidate, 0);
                            assert(self.db.slots() =~= mid.drop_first());
                        }
                    }
                    return ;
                }
                i += 1;
            }
            proof {
                assert(forall|s: u64| #[trigger] m1.contains_key(s)
                    ==> self.queue@.contains(s)) by {
                    assert forall|s: u64| m1.contains_key(s) implies self.queue@.contains(
                        s,
                    ) by {
                        lemma_slot_map_dom(self.db.entries@, s);
                    }
                }
                if old(self).queue@.len() == 0 {
                    lemma_slot_map_dom(self.db.entries@, point@.slot());
                    assert(m1.contains_key(point@.slot()));
                    assert(false);
                }
            }
        } else {
            proof {
                if old(self).queue@.len() == 0 && !old(self).db@.contains_key(point@.slot())
                    && (forall|j: int|
                    0 <= j < old(self).db.slots().len() ==> old(self).db.slots()[j]
                        < point@.slot()) {
                    assert(self.db.slots() == old(self).db.slots() + seq![point@.slot()]);
                }
            }
        }
    }

    /// Whether a slot waits in the rollback queue.
    fn contains_queued(&self, slot: u64) -> (r: bool)
        ensures
            r == self.queue@.contains(slot),
    {
        let n = self.queue.len();
        let mut i: usize = 0;
        while i < n
            invariant
                n == self.queue@.len(),
                forall|j: int| 0 <= j < i ==> self.queue@[j] != slot,
            decreases n - i,
        {
            if self.queue[i] == slot {
                return true;
            }
            i += 1;
        }
        false
    }

    /// Fetch the block stored under a point's slot.
    pub fn get_block_at_point(&self, point: &Point) -> (r: Option<Vec<u8>>)
        requires
            self.wf(),
        ensures
            match r {
                Some(v) => self.db@.contains_key(point@.slot()) && v@ == self.db@[point@.slot()],
                None => !self.db@.contains_key(point@.slot()),
            },
    {
        self.db.get(point.slot_or_default())
    }

    /// Flush the buffer; in memory there is nothing left to do.
    pub fn close(&self) {
    }

    /// The block of the greatest slot strictly below the given one.
    pub fn last_from(&self, slot: u64) -> (r: Option<Vec<u8>>)
        requires
            self.wf(),
        ensures
            match r {
                Some(v) => exists|s: u64|
                    self.db@.contains_key(s) && s < slot && v@ == self.db@[s] && forall|j: int|
                        0 <= j < self.db.slots().len() && self.db.slots()[j] < slot
                            ==> self.db.slots()[j] <= s,
                None => forall|j: int|
                    0 <= j < self.db.slots().len() ==> self.db.slots()[j] >= slot,
            },
    {
        match self.db.get_lt(slot) {
            Some(p) => {
                proof {
                    let (s, v) = p;
                    assert(self.db@.contains_key(s) && s < slot && v@ == self.db@[s]
                        && forall|j: int|
                        0 <= j < self.db.slots().len() && self.db.slots()[j] < slot
                            ==> self.db.slots()[j] <= s);
                }
                Some(p.1)
            },
            None => None,
        }
    }

    /// The block at the buffer's tip.
    pub fn tip_block(&self) -> (r: Option<Vec<u8>>)
        requires
            self.wf(),
        ensures
            r is Some <==> self.db.entries@.len() > 0,
            r matches Some(v) ==> v@ == self.db.entries@.last().1@,
    {
        match self.db.tip() {
            Some(p) => Some(p.1),
            None => None,
        }
    }

    /// Queue every buffered block above the target point for replay as a
    /// rollback, highest slot first, and hand their bytes back in that
    /// order. The buffer itself keeps the blocks until they are popped.
    pub fn enqueue_rollback_batch(&mut self, from: &Point) -> (r: Vec<Vec<u8>>)
        requires
            old(self).wf(),
        ensures
            final(self).wf(),
            final(self).db == old(self).db,
            final(self).cap == old(self).cap,
            r@.len() == count_above(old(self).db.slots(), from@.slot()),
            r@.len() <= old(self).db.slots().len(),
            final(self).queue@.len() == old(self).queue@.len() + r@.len(),
            forall|idx: int|
                0 <= idx < r@.len() ==> #[trigger] final(self).queue@[
                    old(self).queue@.len() + idx
                ] == old(self).db.slots()[old(self).db.slots().len() - 1 - idx] && final(self).queue@[old(self).queue@.len() + idx] > from@.slot() && r@[idx]@ == old(self).db@[final(self).queue@[old(self).queue@.len() + idx]],
            forall|idx: int|
                0 <= idx < old(self).queue@.len() ==> #[trigger] final(self).queue@[idx] == old(self).queue@[idx],
    {
        let target = from.slot_or_default();
        let above = self.db.collect_above(target);
        proof {
            let n0 = above@.len() as int;
            let m = self.db.slots().len() - n0;
            assert forall|j: int|
                m <= j < self.db.slots().len() implies self.db.slots()[j] > target by {
                let idx = self.db.slots().len() - 1 - j;
                assert(above@[idx].0 == self.db.slots()[j]);
                assert(above@[idx].0 > target);
            }
            assert forall|j: int| 0 <= j < m implies self.db.slots()[j] <= target by {
                if m > 0 {
                    assert(self.db.slots()[m - 1] <= target);
                    if j < m - 1 {
                        assert(self.db.entries@[j].0 < self.db.entries@[m - 1].0);
                        assert(self.db.slots()[j] == self.db.entries@[j].0);
                        assert(self.db.slots()[m - 1] == self.db.entries@[m - 1].0);
                    }
                }
            }
            lemma_count_above_split(self.db.slots(), target, m);
        }
        let mut out: Vec<Vec<u8>> = Vec::new();
        let n = above.len();
        let mut i: usize = 0;
        while i < n
            invariant
                n == above@.len(),
                i <= n,
                out@.len() == i,
                self.db == old(self).db,
                self.cap == old(self).cap,
                self.queue@.len() == old(self).queue@.len() + i,
                forall|idx: int|
                    0 <= idx < i ==> #[trigger] self.queue@[old(self).queue@.len() + idx]
                        == above@[idx].0 && out@[idx]@ == above@[idx].1@,
                forall|idx: int|
                    0 <= idx < old(self).queue@.len() ==> #[trigger] self.queue@[idx] == old(self).queue@[idx],
                forall|idx: int|
                    0 <= idx < n ==> (#[trigger] above@[idx]).0 == old(self).db.slots()[
                        old(self).db.slots().len() - 1 - idx
                    ] && above@[idx].0 > from@.slot() && above@[idx].1@ == old(self).db@[
                        above@[idx].0
                    ],
            decreases n - i,
        {
            let e = &above[i];
            self.queue.push(e.0);
            out.push(copy_bytes(&e.1));
            i += 1;
        }
        out
    }

    /// Pop the next queued rollback: its block leaves the buffer and its
    /// bytes are returned. An empty queue yields nothing.
    pub fn rollback_pop(&mut self) -> (r: Option<Vec<u8>>)
        requires
            old(self).wf(),
        ensures
            final(self).wf(),
            final(self).cap == old(self).cap,
            old(self).queue@.len() == 0 ==> r is None && final(self).queue == old(self).queue
                && final(self).db == old(self).db,
            old(self).queue@.len() > 0 ==> final(self).queue@ == old(self).queue@.drop_first()
                && final(self).db@ == old(self).db@.remove(old(self).queue@[0]) && (match r {
                Some(v) => old(self).db@.contains_key(old(self).queue@[0]) && v@ == old(self).db@[old(self).queue@[0]],
                None => !old(self).db@.contains_key(old(self).queue@[0]),
            }),
    {
        if self.queue.len() == 0 {
            return None;
        }
        let slot = self.queue.remove(0);
        proof {
            assert(self.queue@ =~= old(self).queue@.drop_first());
        }
        let block = self.db.get(slot);
        self.db.remove(slot);
        block
    }

    /// How many rollbacks wait to be replayed.
    pub fn rollback_queue_len(&self) -> (r: usize)
        ensures
            r == self.queue@.len(),
    {
        self.queue.len()
    }
}

/// Where the rollback store lives on disk.
#[derive(Clone)]
pub struct Config {
    pub db_path: String,
}

impl Default for Config {
    fn default() -> (r: Config) {
        Config { db_path: String::from_str("/data/sled_default1") }
    }
}

/// How many slots of a sorted sequence lie strictly above the given one.
pub open spec fn count_above(slots: Seq<u64>, slot: u64) -> int
    decreases slots.len(),
{
    if slots.len() == 0 {
        0
    } else if slots.last() > slot {
        1 + count_above(slots.drop_last(), slot)
    } else {
        count_above(slots.drop_last(), slot)
    }
}

/// In a sorted sequence split at `m`, with everything below `m` at or under
/// the slot and everything from `m` above it, exactly the suffix counts.
pub proof fn lemma_count_above_split(slots: Seq<u64>, slot: u64, m: int)
    requires
        0 <= m <= slots.len(),
        forall|j: int| 0 <= j < m ==> slots[j] <= slot,
        forall|j: int| m <= j < slots.len() ==> slots[j] > slot,
    ensures
        count_above(slots, slot) == slots.len() - m,
    decreases slots.len(),
{
    if slots.len() > 0 {
        if m == slots.len() {
            lemma_count_above_split(slots.drop_last(), slot, m - 1);
        } else {
            lemma_count_above_split(slots.drop_last(), slot, m);
        }
    }
}

/// A slot-keyed store of raw blocks kept for replaying rollbacks.
pub struct RollbackData {
    pub db: SlotMap,
}

impl RollbackData {
    pub open spec fn wf(&self) -> bool {
        self.db.wf()
    }

    /// Open the store described by the configuration.
    pub fn open_db(config: Config) -> (r: RollbackData)
        ensures
            r.wf(),
            r.db@ == Map::<u64, Seq<u8>>::empty(),
    {
        let _ = config;
        RollbackData { db: SlotMap::new() }
    }

    /// Flush the store; the number of entries it holds is reported.
    pub fn close(&self) -> (r: usize)
        ensures
            r == self.db.entries@.len(),
    {
        self.db.entries.len()
    }

    /// Store a block under its point's slot.
    pub fn insert_block(&mut self, point: &Point, block: &Vec<u8>)
        requires
            old(self).wf(),
        ensures
            final(self).wf(),
            final(self).db@ == old(self).db@.insert(point@.slot(), block@),
    {
        self.db.insert(point.slot_or_default(), copy_bytes(block));
    }

    /// Fetch the block stored under a point's slot.
    pub fn get_block_at_point(&self, point: &Point) -> (r: Option<Vec<u8>>)
        requires
            self.wf(),
        ensures
            match r {
                Some(v) => self.db@.contains_key(point@.slot()) && v@ == self.db@[point@.slot()],
                None => !self.db@.contains_key(point@.slot()),
            },
    {
        self.db.get(point.slot_or_default())
    }

    /// The blocks to replay when the chain rolls back to a point: the last
    /// block still valid below it, and every buffered block strictly above
    /// it, highest slot first, in the order the rollbacks are emitted.
    #[verifier::loop_isolation(false)]
    pub fn get_rollback_range(&self, from: &Point) -> (r: (Option<Vec<u8>>, Vec<Vec<u8>>))
        requires
            self.wf(),
        ensures
            from@ is Origin ==> r.0 is None && r.1@.len() == 0,
            from@ is Specific ==> match r.0 {
                Some(v) => exists|s: u64|
                    self.db@.contains_key(s) && s < from@.slot() && v@ == self.db@[s]
                        && forall|j: int|
                        0 <= j < self.db.slots().len() && self.db.slots()[j] < from@.slot()
                            ==> self.db.slots()[j] <= s,
                None => forall|j: int|
                    0 <= j < self.db.slots().len() ==> self.db.slots()[j] >= from@.slot(),
            },
            from@ is Specific ==> r.1@.len() == count_above(self.db.slots(), from@.slot()),
            from@ is Specific ==> forall|idx: int|
                0 <= idx < r.1@.len() ==> #[trigger] r.1@[idx]@ == self.db@[
                    self.db.slots()[self.db.slots().len() - 1 - idx]
                ] && self.db.slots()[self.db.slots().len() - 1 - idx] > from@.slot(),
    {
        if let Point::Origin = from {
            return (None, Vec::new());
        }
        let slot = from.slot_or_default();
        let last_valid = match self.db.get_lt(slot) {
            Some(p) => {
                proof {
                    let (s, v) = p;
                    assert(self.db@.contains_key(s) && s < slot && v@ == self.db@[s]
                        && forall|j: int|
                        0 <= j < self.db.slots().len() && self.db.slots()[j] < slot
                            ==> self.db.slots()[j] <= s);
                }
                Some(p.1)
            },
            None => None,
        };
        let above = self.db.collect_above(slot);
        let n = above.len();
        let mut blocks: Vec<Vec<u8>> = Vec::new();
        let mut i: usize = 0;
        while i < n
            invariant
                n == above@.len(),
                i <= n,
                blocks@.len() == i,
                forall|idx: int| 0 <= idx < i ==> #[trigger] blocks@[idx]@ == above@[idx].1@,
            decreases n - i,
        {
            blocks.push(copy_bytes(&above[i].1));
            i += 1;
        }
        proof {
            assert forall|j: int|
                self.db.slots().len() - n <= j < self.db.slots().len() implies self.db.slots()[j]
                    > slot by {
                let idx = self.db.slots().len() - 1 - j;
                assert(above@[idx].0 == self.db.slots()[j]);
                assert(above@[idx].0 > slot);
            }
            assert forall|j: int| 0 <= j < self.db.slots().len() - n implies self.db.slots()[j]
                <= slot by {
                let m = self.db.slots().len() - n;
                if m > 0 {
                    assert(self.db.slots()[m - 1] <= slot);
                    if j < m - 1 {
                        assert(self.db.entries@[j].0 < self.db.entries@[m - 1].0);
                        assert(self.db.slots()[j] == self.db.entries@[j].0);
                        assert(self.db.slots()[m - 1] == self.db.entries@[m - 1].0);
                    }
                }
            }
            lemma_count_above_split(self.db.slots(), slot, self.db.slots().len() - n);
            assert forall|idx: int| 0 <= idx < blocks@.len() implies #[trigger] blocks@[idx]@
                == self.db@[self.db.slots()[self.db.slots().len() - 1 - idx]]
                && self.db.slots()[self.db.slots().len() - 1 - idx] > slot by {
                assert(blocks@[idx]@ == above@[idx].1@);
                assert(above@[idx].0 == self.db.slots()[self.db.slots().len() - 1 - idx]);
                assert(above@[idx].1@ == self.db@[above@[idx].0]);
            }
        }
        (last_valid, blocks)
    }
}

/// The slot sequence after one insert at the buffer's tip: the new slot is
/// appended, and when the buffer would exceed its cap the oldest slot is
/// dropped.
pub open spec fn buf_insert_slots(slots: Seq<u64>, s: u64, cap: int) -> Seq<u64> {
    let grown = slots + seq![s];
    if grown.len() > cap {
        grown.drop_first()
    } else {
        grown
    }
}

/// The slot sequence after inserting a run of ascending slots, oldest
/// first.
pub open spec fn buf_fill(slots: Seq<u64>, ss: Seq<u64>, cap: int) -> Seq<u64>
    decreases ss.len(),
{
    if ss.len() == 0 {
        slots
    } else {
        buf_insert_slots(buf_fill(slots, ss.drop_last(), cap), ss.last(), cap)
    }
}

/// The buffer cap law: filling an empty buffer with N ascending slots
/// leaves exactly the `cap` highest of them when N exceeds the cap, and
/// all of them otherwise. Ascending runs are the only order the source
/// produces: points leave the window oldest first, and the window admits
/// strictly increasing slots.
pub proof fn lemma_buffer_cap(ss: Seq<u64>, cap: int)
    requires
        cap >= 1,
        forall|a: int, b: int| 0 <= a < b < ss.len() ==> ss[a] < ss[b],
    ensures
        buf_fill(Seq::<u64>::empty(), ss, cap) == if ss.len() <= cap {
            ss
        } else {
            ss.skip(ss.len() - cap)
        },
    decreases ss.len(),
{
    if ss.len() == 0 {
        assert(buf_fill(Seq::<u64>::empty(), ss, cap) =~= ss);
    } else {
        lemma_buffer_cap(ss.drop_last(), cap);
        let prev = buf_fill(Seq::<u64>::empty(), ss.drop_last(), cap);
        if ss.len() - 1 <= cap {
            assert(prev =~= ss.drop_last());
            if ss.len() <= cap {
                assert(buf_insert_slots(prev, ss.last(), cap) =~= ss);
            } else {
                assert(buf_insert_slots(prev, ss.last(), cap) =~= ss.skip(1));
            }
        } else {
            assert(prev == ss.drop_last().skip(ss.len() - 1 - cap));
            assert(prev.len() == cap);
            assert(buf_insert_slots(prev, ss.last(), cap) =~= ss.skip(ss.len() - cap));
        }
    }
}

} // verus!
