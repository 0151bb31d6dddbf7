//! The enrichment stage: the live index of unspent outputs and the two undo
//! rings that make any single block invertible.
//!
//! A forward block first records every output it produces (in the index and
//! the produced ring), then resolves the references it consumes, and finally
//! deletes the consumed entries while the consumed ring keeps their prior
//! values. A rollback block undoes exactly that: produced entries are
//! deleted, consumed entries are restored from the ring.

use vstd::prelude::*;

use crate::model::Block;
use crate::model::BlockContext;
use crate::model::Tx;
use crate::model::TxOutput;
use crate::model::UtxoVal;
use crate::model::UtxoValV;
use crate::model::OutputRef;
use crate::model::ref_key;
use crate::store::KvStore;

verus! {

/// The key-value pairs one transaction adds to the index.
pub open spec fn tx_produced_pairs(tx: Tx, era: u16) -> Seq<(Seq<char>, UtxoValV)> {
    tx.produces@.map_values(
        |p: (u64, TxOutput)| (ref_key(tx.hash@, p.0), UtxoValV { era, output: p.1@ }),
    )
}

/// The key-value pairs a block adds to the index, transaction by
/// transaction, in order.
pub open spec fn produced_pairs(txs: Seq<Tx>, era: u16) -> Seq<(Seq<char>, UtxoValV)>
    decreases txs.len(),
{
    if txs.len() == 0 {
        Seq::<(Seq<char>, UtxoValV)>::empty()
    } else {
        produced_pairs(txs.drop_last(), era) + tx_produced_pairs(txs.last(), era)
    }
}

/// The reference keys one transaction consumes.
pub open spec fn tx_consumed_keys(tx: Tx) -> Seq<Seq<char>> {
    tx.consumes@.map_values(|r: OutputRef| ref_key(r.tx_hash@, r.index))
}

/// The reference keys a block consumes, transaction by transaction, in
/// order.
pub open spec fn consumed_keys(txs: Seq<Tx>) -> Seq<Seq<char>>
    decreases txs.len(),
{
    if txs.len() == 0 {
        Seq::<Seq<char>>::empty()
    } else {
        consumed_keys(txs.drop_last()) + tx_consumed_keys(txs.last())
    }
}

/// The keys of a pair sequence.
pub open spec fn pair_keys(ps: Seq<(Seq<char>, UtxoValV)>) -> Seq<Seq<char>> {
    ps.map_values(|p: (Seq<char>, UtxoValV)| p.0)
}

/// Insert every pair, in order.
pub open spec fn insert_all(
    m: Map<Seq<char>, UtxoValV>,
    ps: Seq<(Seq<char>, UtxoValV)>,
) -> Map<Seq<char>, UtxoValV>
    decreases ps.len(),
{
    if ps.len() == 0 {
        m
    } else {
        insert_all(m, ps.drop_last()).insert(ps.last().0, ps.last().1)
    }
}

/// Mark every key present, in order, with an empty value.
pub open spec fn mark_all(m: Map<Seq<char>, Seq<u8>>, ks: Seq<Seq<char>>) -> Map<
    Seq<char>,
    Seq<u8>,
>
    decreases ks.len(),
{
    if ks.len() == 0 {
        m
    } else {
        mark_all(m, ks.drop_last()).insert(ks.last(), Seq::<u8>::empty())
    }
}

/// Remove every key, in order.
pub open spec fn remove_all<V>(m: Map<Seq<char>, V>, ks: Seq<Seq<char>>) -> Map<Seq<char>, V>
    decreases ks.len(),
{
    if ks.len() == 0 {
        m
    } else {
        remove_all(m, ks.drop_last()).remove(ks.last())
    }
}

/// Spend one key: when the index holds it, the prior value moves into the
/// consumed ring and the key leaves the index.
pub open spec fn spend_step(
    u: Map<Seq<char>, UtxoValV>,
    c: Map<Seq<char>, UtxoValV>,
    k: Seq<char>,
) -> (Map<Seq<char>, UtxoValV>, Map<Seq<char>, UtxoValV>) {
    if u.contains_key(k) {
        (u.remove(k), c.insert(k, u[k]))
    } else {
        (u, c)
    }
}

/// Spend the keys in order.
pub open spec fn spend_all(
    u: Map<Seq<char>, UtxoValV>,
    c: Map<Seq<char>, UtxoValV>,
    ks: Seq<Seq<char>>,
) -> (Map<Seq<char>, UtxoValV>, Map<Seq<char>, UtxoValV>)
    decreases ks.len(),
{
    if ks.len() == 0 {
        (u, c)
    } else {
        let prev = spend_all(u, c, ks.drop_last());
        spend_step(prev.0, prev.1, ks.last())
    }
}

/// Restore one key: when the consumed ring holds it, its prior value
/// re-enters the index and the ring entry is dropped; a key the ring does
/// not hold is skipped, since it was never in the index at forward time.
pub open spec fn restore_step(
    u: Map<Seq<char>, UtxoValV>,
    c: Map<Seq<char>, UtxoValV>,
    k: Seq<char>,
) -> (Map<Seq<char>, UtxoValV>, Map<Seq<char>, UtxoValV>) {
    if c.contains_key(k) {
        (u.insert(k, c[k]), c.remove(k))
    } else {
        (u, c)
    }
}

/// Restore the keys in reverse order: the last spend is undone first.
pub open spec fn restore_all(
    u: Map<Seq<char>, UtxoValV>,
    c: Map<Seq<char>, UtxoValV>,
    ks: Seq<Seq<char>>,
) -> (Map<Seq<char>, UtxoValV>, Map<Seq<char>, UtxoValV>)
    decreases ks.len(),
{
    if ks.len() == 0 {
        (u, c)
    } else {
        let first = restore_step(u, c, ks.last());
        restore_all(first.0, first.1, ks.drop_last())
    }
}

/// Resolve the keys against the index: every hit lands in the context.
pub open spec fn resolve_all(m: Map<Seq<char>, UtxoValV>, ks: Seq<Seq<char>>) -> Map<
    Seq<char>,
    UtxoValV,
>
    decreases ks.len(),
{
    if ks.len() == 0 {
        Map::<Seq<char>, UtxoValV>::empty()
    } else {
        let prev = resolve_all(m, ks.drop_last());
        if m.contains_key(ks.last()) {
            prev.insert(ks.last(), m[ks.last()])
        } else {
            prev
        }
    }
}

/// The view of a collected batch of key-value pairs.
pub open spec fn batch_view(s: Seq<(String, UtxoVal)>) -> Seq<(Seq<char>, UtxoValV)> {
    s.map_values(|e: (String, UtxoVal)| (e.0@, e.1@))
}

/// The view of a collected batch of keys.
pub open spec fn keys_view(s: Seq<String>) -> Seq<Seq<char>> {
    s.map_values(|k: String| k@)
}

/// Collect the index entries a block's transactions produce, in order.
pub fn collect_produced(block: &Block) -> (r: Vec<(String, UtxoVal)>)
    ensures
        batch_view(r@) == produced_pairs(block.txs@, block.era),
{
    let mut out: Vec<(String, UtxoVal)> = Vec::new();
    let n = block.txs.len();
    let mut i: usize = 0;
    while i < n
        invariant
            n == block.txs@.len(),
            i <= n,
            batch_view(out@) == produced_pairs(block.txs@.take(i as int), block.era),
        decreases n - i,
    {
        let tx = &block.txs[i];
        let m = tx.produces.len();
        let mut j: usize = 0;
        while j < m
            invariant
                n == block.txs@.len(),
                i < n,
                m == block.txs@[i as int].produces@.len(),
                j <= m,
                tx == &block.txs@[i as int],
                batch_view(out@) == produced_pairs(block.txs@.take(i as int), block.era)
                    + tx_produced_pairs(block.txs@[i as int], block.era).take(j as int),
            decreases m - j,
        {
            let p = &tx.produces[j];
            let key = OutputRef { tx_hash: crate::model::copy_bytes(&tx.hash), index: p.0 }
                .key_string();
            let val = UtxoVal { era: block.era, output: p.1.duplicate() };
            let ghost prev = out@;
            out.push((key, val));
            proof {
                assert(batch_view(out@) =~= batch_view(prev) + seq![
                    (ref_key(tx.hash@, p.0), UtxoValV { era: block.era, output: p.1@ }),
                ]);
                assert(tx_produced_pairs(block.txs@[i as int], block.era).take(j + 1)
                    =~= tx_produced_pairs(block.txs@[i as int], block.era).take(j as int)
                    + seq![
                    (ref_key(tx.hash@, p.0), UtxoValV { era: block.era, output: p.1@ }),
                ]);
                assert(batch_view(out@) =~= produced_pairs(
                    block.txs@.take(i as int),
                    block.era,
                ) + tx_produced_pairs(block.txs@[i as int], block.era).take(j + 1));
            }
            j += 1;
        }
        proof {
            assert(tx_produced_pairs(block.txs@[i as int], block.era).take(m as int)
                =~= tx_produced_pairs(block.txs@[i as int], block.era));
            assert(block.txs@.take(i + 1).drop_last() =~= block.txs@.take(i as int));
            assert(block.txs@.take(i + 1).last() == block.txs@[i as int]);
            assert(batch_view(out@) =~= produced_pairs(block.txs@.take(i + 1), block.era));
        }
        i += 1;
    }
    proof {
        assert(block.txs@.take(n as int) =~= block.txs@);
    }
    out
}

/// Collect the reference keys a block's transactions consume, in order.
pub fn collect_consumed(block: &Block) -> (r: Vec<String>)
    ensures
        keys_view(r@) == consumed_keys(block.txs@),
{
    let mut out: Vec<String> = Vec::new();
    let n = block.txs.len();
    let mut i: usize = 0;
    while i < n
        invariant
            n == block.txs@.len(),
            i <= n,
            keys_view(out@) == consumed_keys(block.txs@.take(i as int)),
        decreases n - i,
    {
        let tx = &block.txs[i];
        let m = tx.consumes.len();
        let mut j: usize = 0;
        while j < m
            invariant
                n == block.txs@.len(),
                i < n,
                m == block.txs@[i as int].consumes@.len(),
                j <= m,
                tx == &block.txs@[i as int],
                keys_view(out@) == consumed_keys(block.txs@.take(i as int))
                    + tx_consumed_keys(block.txs@[i as int]).take(j as int),
            decreases m - j,
        {
            let r = &tx.consumes[j];
            let key = r.key_string();
            let ghost prev = out@;
            out.push(key);
            proof {
                assert(keys_view(out@) =~= keys_view(prev) + seq![
                    ref_key(r.tx_hash@, r.index),
                ]);
                assert(tx_consumed_keys(block.txs@[i as int]).take(j + 1)
                    =~= tx_consumed_keys(block.txs@[i as int]).take(j as int) + seq![
                    ref_key(r.tx_hash@, r.index),
                ]);
                assert(keys_view(out@) =~= consumed_keys(block.txs@.take(i as int))
                    + tx_consumed_keys(block.txs@[i as int]).take(j + 1));
            }
            j += 1;
        }
        proof {
            assert(tx_consumed_keys(block.txs@[i as int]).take(m as int)
                =~= tx_consumed_keys(block.txs@[i as int]));
            assert(block.txs@.take(i + 1).drop_last() =~= block.txs@.take(i as int));
            assert(block.txs@.take(i + 1).last() == block.txs@[i as int]);
            assert(keys_view(out@) =~= consumed_keys(block.txs@.take(i + 1)));
        }
        i += 1;
    }
    proof {
        assert(block.txs@.take(n as int) =~= block.txs@);
    }
    out
}

/// Where the enrichment stage's three stores live on disk.
pub struct Config {
    pub db_path: String,
    pub consumed_ring_path: Option<String>,
    pub produced_ring_path: Option<String>,
}

/// The three stores the enrichment stage owns.
pub struct EnrichStores {
    pub utxos: KvStore<UtxoVal>,
    pub produced: KvStore<Vec<u8>>,
    pub consumed: KvStore<UtxoVal>,
}

impl EnrichStores {
    pub open spec fn wf(&self) -> bool {
        self.utxos.wf() && self.produced.wf() && self.consumed.wf()
    }

    pub fn new() -> (r: EnrichStores)
        ensures
            r.wf(),
            r.utxos@ == Map::<Seq<char>, UtxoValV>::empty(),
            r.produced@ == Map::<Seq<char>, Seq<u8>>::empty(),
            r.consumed@ == Map::<Seq<char>, UtxoValV>::empty(),
            r.produced.entries@.len() == 0,
            r.consumed.entries@.len() == 0,
    {
        EnrichStores { utxos: KvStore::new(), produced: KvStore::new(), consumed: KvStore::new() }
    }

    /// Open the stores the configuration describes; in memory they start
    /// empty.
    pub fn open(config: Config) -> (r: EnrichStores)
        ensures
            r.wf(),
            r.utxos@ == Map::<Seq<char>, UtxoValV>::empty(),
            r.produced@ == Map::<Seq<char>, Seq<u8>>::empty(),
            r.consumed@ == Map::<Seq<char>, UtxoValV>::empty(),
    {
        let _ = config;
        EnrichStores::new()
    }

    /// Record every output the block produces: the index gains the value,
    /// the produced ring gains the key.
    pub fn insert_produced_utxos(&mut self, block: &Block)
        requires
            old(self).wf(),
        ensures
            final(self).wf(),
            final(self).utxos@ == insert_all(
                old(self).utxos@,
                produced_pairs(block.txs@, block.era),
            ),
            final(self).produced@ == mark_all(
                old(self).produced@,
                pair_keys(produced_pairs(block.txs@, block.era)),
            ),
            final(self).consumed == old(self).consumed,
    {
        let batch = collect_produced(block);
        let ghost ps = batch_view(batch@);
        let n = batch.len();
        let mut i: usize = 0;
        while i < n
            invariant
                old(self).wf(),
                self.wf(),
                n == batch@.len(),
                i <= n,
                ps == batch_view(batch@),
                self.utxos@ == insert_all(old(self).utxos@, ps.take(i as int)),
                self.produced@ == mark_all(old(self).produced@, pair_keys(ps).take(i as int)),
                self.consumed == old(self).consumed,
            decreases n - i,
        {
            let e = &batch[i];
            let key2 = e.0.clone();
            let val = e.1.duplicate();
            self.utxos.insert(key2, val);
            self.produced.insert(e.0.clone(), Vec::new());
            proof {
                assert(ps.take(i + 1).drop_last() =~= ps.take(i as int));
                assert(ps.take(i + 1).last() == ps[i as int]);
                assert(pair_keys(ps).take(i + 1).drop_last() =~= pair_keys(ps).take(i as int));
                assert(pair_keys(ps).take(i + 1).last() == ps[i as int].0);
                assert(self.utxos@ =~= insert_all(old(self).utxos@, ps.take(i + 1)));
                assert(self.produced@ =~= mark_all(
                    old(self).produced@,
                    pair_keys(ps).take(i + 1),
                ));
            }
            i += 1;
        }
        proof {
            assert(ps.take(n as int) =~= ps);
            assert(pair_keys(ps).take(n as int) =~= pair_keys(ps));
        }
    }

    /// Resolve every reference the block consumes against the index; hits
    /// land in the block's context, misses are left out (a missing
    /// reference is tolerated, not fatal).
    pub fn fetch_referenced_utxos(&self, block: &Block) -> (r: BlockContext)
        requires
            self.wf(),
        ensures
            r.wf(),
            r@ == resolve_all(self.utxos@, consumed_keys(block.txs@)),
    {
        let keys = collect_consumed(block);
        let ghost ks = keys_view(keys@);
        let mut ctx = BlockContext::new();
        let n = keys.len();
        let mut i: usize = 0;
        while i < n
            invariant
                self.wf(),
                ctx.wf(),
                n == keys@.len(),
                i <= n,
                ks == keys_view(keys@),
                ctx@ == resolve_all(self.utxos@, ks.take(i as int)),
            decreases n - i,
        {
            let key = &keys[i];
            match self.utxos.get(key) {
                Some(v) => {
                    let val = v.duplicate();
                    ctx.import_ref_output(key.clone(), val);
                },
                None => {},
            }
            proof {
                assert(ks.take(i + 1).drop_last() =~= ks.take(i as int));
                assert(ks.take(i + 1).last() == ks[i as int]);
                assert(ctx@ =~= resolve_all(self.utxos@, ks.take(i + 1)));
            }
            i += 1;
        }
        proof {
            assert(ks.take(n as int) =~= ks);
        }
        ctx
    }

    /// Delete every reference the block consumes from the index; for each
    /// hit the consumed ring records the prior value.
    pub fn remove_consumed_utxos(&mut self, block: &Block)
        requires
            old(self).wf(),
        ensures
            final(self).wf(),
            (final(self).utxos@, final(self).consumed@) == spend_all(
                old(self).utxos@,
                old(self).consumed@,
                consumed_keys(block.txs@),
            ),
            final(self).produced == old(self).produced,
    {
        let keys = collect_consumed(block);
        let ghost ks = keys_view(keys@);
        let n = keys.len();
        let mut i: usize = 0;
        while i < n
            invariant
                old(self).wf(),
                self.wf(),
                n == keys@.len(),
                i <= n,
                ks == keys_view(keys@),
                (self.utxos@, self.consumed@) == spend_all(
                    old(self).utxos@,
                    old(self).consumed@,
                    ks.take(i as int),
                ),
                self.produced == old(self).produced,
            decreases n - i,
        {
            let key = &keys[i];
            let prior = match self.utxos.get(key) {
                Some(v) => Some(v.duplicate()),
                None => None,
            };
            match prior {
                Some(v) => {
                    self.consumed.insert(key.clone(), v);
                    self.utxos.remove(key);
                },
                None => {},
            }
            proof {
                assert(ks.take(i + 1).drop_last() =~= ks.take(i as int));
                assert(ks.take(i + 1).last() == ks[i as int]);
                assert((self.utxos@, self.consumed@) =~= spend_all(
                    old(self).utxos@,
                    old(self).consumed@,
                    ks.take(i + 1),
                ));
            }
            i += 1;
        }
        proof {
            assert(ks.take(n as int) =~= ks);
        }
    }

    /// Undo the block's production: its keys leave the index and the
    /// produced ring.
    pub fn remove_produced_utxos(&mut self, block: &Block)
        requires
            old(self).wf(),
        ensures
            final(self).wf(),
            final(self).utxos@ == remove_all(
                old(self).utxos@,
                pair_keys(produced_pairs(block.txs@, block.era)),
            ),
            final(self).produced@ == remove_all(
                old(self).produced@,
                pair_keys(produced_pairs(block.txs@, block.era)),
            ),
            final(self).consumed == old(self).consumed,
    {
        let batch = collect_produced(block);
        let ghost ps = batch_view(batch@);
        let n = batch.len();
        let mut i: usize = 0;
        while i < n
            invariant
                old(self).wf(),
                self.wf(),
                n == batch@.len(),
                i <= n,
                ps == batch_view(batch@),
                self.utxos@ == remove_all(old(self).utxos@, pair_keys(ps).take(i as int)),
                self.produced@ == remove_all(old(self).produced@, pair_keys(ps).take(i as int)),
                self.consumed == old(self).consumed,
            decreases n - i,
        {
            let e = &batch[i];
            self.utxos.remove(&e.0);
            self.produced.remove(&e.0);
            proof {
                assert(pair_keys(ps).take(i + 1).drop_last() =~= pair_keys(ps).take(i as int));
                assert(pair_keys(ps).take(i + 1).last() == ps[i as int].0);
                assert(self.utxos@ =~= remove_all(old(self).utxos@, pair_keys(ps).take(i + 1)));
                assert(self.produced@ =~= remove_all(
                    old(self).produced@,
                    pair_keys(ps).take(i + 1),
                ));
            }
            i += 1;
        }
        proof {
            assert(pair_keys(ps).take(n as int) =~= pair_keys(ps));
        }
    }

    /// Undo the block's spending: each consumed reference the ring still
    /// holds returns to the index with its prior value, last spend first; a
    /// reference without a ring entry is skipped.
    pub fn replace_consumed_utxos(&mut self, block: &Block)
        requires
            old(self).wf(),
        ensures
            final(self).wf(),
            (final(self).utxos@, final(self).consumed@) == restore_all(
                old(self).utxos@,
                old(self).consumed@,
                consumed_keys(block.txs@),
            ),
            final(self).produced == old(self).produced,
    {
        let keys = collect_consumed(block);
        let ghost ks = keys_view(keys@);
        let n = keys.len();
        let mut i: usize = n;
        proof {
            assert(ks.take(n as int) =~= ks);
        }
        while i > 0
            invariant
                old(self).wf(),
                self.wf(),
                n == keys@.len(),
                i <= n,
                ks == keys_view(keys@),
                restore_all(self.utxos@, self.consumed@, ks.take(i as int)) == restore_all(
                    old(self).utxos@,
                    old(self).consumed@,
                    ks,
                ),
                self.produced == old(self).produced,
            decreases i,
        {
            i -= 1;
            let key = &keys[i];
            let ghost u_before = self.utxos@;
            let ghost c_before = self.consumed@;
            let prior = match self.consumed.get(key) {
                Some(v) => Some(v.duplicate()),
                None => None,
            };
            match prior {
                Some(v) => {
                    self.utxos.insert(key.clone(), v);
                    self.consumed.remove(key);
                },
                None => {},
            }
            proof {
                assert(ks.take(i + 1).drop_last() =~= ks.take(i as int));
                assert(ks.take(i + 1).last() == ks[i as int]);
                assert((self.utxos@, self.consumed@) =~= restore_step(
                    u_before,
                    c_before,
                    ks[i as int],
                ));
                assert(restore_all(u_before, c_before, ks.take(i + 1)) == restore_all(
                    self.utxos@,
                    self.consumed@,
                    ks.take(i as int),
                ));
            }
        }
        proof {
            assert(ks.take(0) =~= Seq::<Seq<char>>::empty());
        }
    }

    /// Apply a forward block: record production, resolve the consumed
    /// references, then delete them while the ring keeps their prior
    /// values. The context returned resolves against the index as it stood
    /// after production, before spending.
    pub fn roll_forward(&mut self, block: &Block) -> (r: BlockContext)
        requires
            old(self).wf(),
        ensures
            final(self).wf(),
            final(self).utxos@ == spend_all(
                insert_all(old(self).utxos@, produced_pairs(block.txs@, block.era)),
                old(self).consumed@,
                consumed_keys(block.txs@),
            ).0,
            final(self).consumed@ == spend_all(
                insert_all(old(self).utxos@, produced_pairs(block.txs@, block.era)),
                old(self).consumed@,
                consumed_keys(block.txs@),
            ).1,
            final(self).produced@ == mark_all(
                old(self).produced@,
                pair_keys(produced_pairs(block.txs@, block.era)),
            ),
            r.wf(),
            r@ == resolve_all(
                insert_all(old(self).utxos@, produced_pairs(block.txs@, block.era)),
                consumed_keys(block.txs@),
            ),
    {
        self.insert_produced_utxos(block);
        let ctx = self.fetch_referenced_utxos(block);
        self.remove_consumed_utxos(block);
        ctx
    }

    /// Undo a block: delete what it produced, restore what it consumed,
    /// and resolve its references against the restored index so the
    /// reducers can undo with the view they saw on the way in.
    pub fn roll_back(&mut self, block: &Block) -> (r: BlockContext)
        requires
            old(self).wf(),
        ensures
            final(self).wf(),
            final(self).utxos@ == restore_all(
                remove_all(old(self).utxos@, pair_keys(produced_pairs(block.txs@, block.era))),
                old(self).consumed@,
                consumed_keys(block.txs@),
            ).0,
            final(self).consumed@ == restore_all(
                remove_all(old(self).utxos@, pair_keys(produced_pairs(block.txs@, block.era))),
                old(self).consumed@,
                consumed_keys(block.txs@),
            ).1,
            final(self).produced@ == remove_all(
                old(self).produced@,
                pair_keys(produced_pairs(block.txs@, block.era)),
            ),
            r.wf(),
            r@ == resolve_all(final(self).utxos@, consumed_keys(block.txs@)),
    {
        self.remove_produced_utxos(block);
        self.replace_consumed_utxos(block);
        let ctx = self.fetch_referenced_utxos(block);
        ctx
    }

    /// Prune each ring to its cap: exactly the oldest entries beyond the
    /// cap leave, and the newest `cap` entries survive unchanged. The cap
    /// must exceed the deepest rollback the source will ever emit, or
    /// rollbacks of very old blocks become lossy.
    pub fn prune_rings(&mut self, cap: usize)
        requires
            old(self).wf(),
        ensures
            final(self).wf(),
            final(self).utxos == old(self).utxos,
            final(self).produced.entries@ == old(self).produced.entries@.skip(
                if cap < old(self).produced.entries@.len() {
                    old(self).produced.entries@.len() - cap
                } else {
                    0int
                },
            ),
            final(self).consumed.entries@ == old(self).consumed.entries@.skip(
                if cap < old(self).consumed.entries@.len() {
                    old(self).consumed.entries@.len() - cap
                } else {
                    0int
                },
            ),
    {
        let np = self.produced.len();
        if np > cap {
            self.produced.prune_oldest(np - cap);
        } else {
            proof {
                assert(self.produced.entries@ =~= old(self).produced.entries@.skip(0));
            }
        }
        let nc = self.consumed.len();
        if nc > cap {
            self.consumed.prune_oldest(nc - cap);
        } else {
            proof {
                assert(self.consumed.entries@ =~= old(self).consumed.entries@.skip(0));
            }
        }
    }
}

} // verus!

verus! {

/// A key no pair holds is untouched by `insert_all`.
pub proof fn lemma_insert_all_untouched(
    m: Map<Seq<char>, UtxoValV>,
    ps: Seq<(Seq<char>, UtxoValV)>,
    k: Seq<char>,
)
    requires
        forall|i: int| 0 <= i < ps.len() ==> (#[trigger] ps[i]).0 != k,
    ensures
        insert_all(m, ps).contains_key(k) == m.contains_key(k),
        m.contains_key(k) ==> insert_all(m, ps)[k] == m[k],
    decreases ps.len(),
{
    if ps.len() > 0 {
        lemma_insert_all_untouched(m, ps.drop_last(), k);
    }
}

/// With distinct keys, each inserted pair is found afterwards.
pub proof fn lemma_insert_all_hit(
    m: Map<Seq<char>, UtxoValV>,
    ps: Seq<(Seq<char>, UtxoValV)>,
    i: int,
)
    requires
        0 <= i < ps.len(),
        forall|a: int, b: int| 0 <= a < b < ps.len() ==> (#[trigger] ps[a]).0 != (
        #[trigger] ps[b]).0,
    ensures
        insert_all(m, ps).contains_key(ps[i].0),
        insert_all(m, ps)[ps[i].0] == ps[i].1,
    decreases ps.len(),
{
    if i < ps.len() - 1 {
        lemma_insert_all_hit(m, ps.drop_last(), i);
    }
}

/// A key outside the list is untouched by `mark_all`.
pub proof fn lemma_mark_all_untouched(
    m: Map<Seq<char>, Seq<u8>>,
    ks: Seq<Seq<char>>,
    k: Seq<char>,
)
    requires
        !ks.contains(k),
    ensures
        mark_all(m, ks).contains_key(k) == m.contains_key(k),
        m.contains_key(k) ==> mark_all(m, ks)[k] == m[k],
    decreases ks.len(),
{
    if ks.len() > 0 {
        assert(!ks.drop_last().contains(k)) by {
            if ks.drop_last().contains(k) {
                let i = choose|i: int| 0 <= i < ks.len() - 1 && ks.drop_last()[i] == k;
                assert(ks[i] == k);
            }
        }
        lemma_mark_all_untouched(m, ks.drop_last(), k);
    }
}

/// Every marked key is present afterwards, with the empty value.
pub proof fn lemma_mark_all_hit(m: Map<Seq<char>, Seq<u8>>, ks: Seq<Seq<char>>, i: int)
    requires
        0 <= i < ks.len(),
    ensures
        mark_all(m, ks).contains_key(ks[i]),
        mark_all(m, ks)[ks[i]] == Seq::<u8>::empty(),
    decreases ks.len(),
{
    if i < ks.len() - 1 {
        lemma_mark_all_hit(m, ks.drop_last(), i);
        if ks.last() != ks[i] {
        }
    }
}

/// A key outside the list is untouched by `remove_all`.
pub proof fn lemma_remove_all_untouched<V>(m: Map<Seq<char>, V>, ks: Seq<Seq<char>>, k: Seq<char>)
    requires
        !ks.contains(k),
    ensures
        remove_all(m, ks).contains_key(k) == m.contains_key(k),
        m.contains_key(k) ==> remove_all(m, ks)[k] == m[k],
    decreases ks.len(),
{
    if ks.len() > 0 {
        assert(!ks.drop_last().contains(k)) by {
            if ks.drop_last().contains(k) {
                let i = choose|i: int| 0 <= i < ks.len() - 1 && ks.drop_last()[i] == k;
                assert(ks[i] == k);
            }
        }
        lemma_remove_all_untouched(m, ks.drop_last(), k);
    }
}

/// Every removed key is absent afterwards.
pub proof fn lemma_remove_all_hit<V>(m: Map<Seq<char>, V>, ks: Seq<Seq<char>>, i: int)
    requires
        0 <= i < ks.len(),
        forall|a: int, b: int| 0 <= a < b < ks.len() ==> ks[a] != ks[b],
    ensures
        !remove_all(m, ks).contains_key(ks[i]),
    decreases ks.len(),
{
    if i < ks.len() - 1 {
        lemma_remove_all_hit(m, ks.drop_last(), i);
    }
}

/// A key outside the list is untouched by `spend_all`, in the index and in
/// the ring alike.
pub proof fn lemma_spend_all_untouched(
    u: Map<Seq<char>, UtxoValV>,
    c: Map<Seq<char>, UtxoValV>,
    ks: Seq<Seq<char>>,
    k: Seq<char>,
)
    requires
        !ks.contains(k),
    ensures
        spend_all(u, c, ks).0.contains_key(k) == u.contains_key(k),
        u.contains_key(k) ==> spend_all(u, c, ks).0[k] == u[k],
        spend_all(u, c, ks).1.contains_key(k) == c.contains_key(k),
        c.contains_key(k) ==> spend_all(u, c, ks).1[k] == c[k],
    decreases ks.len(),
{
    if ks.len() > 0 {
        assert(!ks.drop_last().contains(k)) by {
            if ks.drop_last().contains(k) {
                let i = choose|i: int| 0 <= i < ks.len() - 1 && ks.drop_last()[i] == k;
                assert(ks[i] == k);
            }
        }
        lemma_spend_all_untouched(u, c, ks.drop_last(), k);
        assert(ks.last() != k) by {
            assert(ks[ks.len() - 1] == ks.last());
        }
    }
}

/// With distinct keys, spending leaves each listed key out of the index;
/// when the index held it, the ring now holds its prior value, and
/// otherwise the ring is unchanged at that key.
pub proof fn lemma_spend_all_hit(
    u: Map<Seq<char>, UtxoValV>,
    c: Map<Seq<char>, UtxoValV>,
    ks: Seq<Seq<char>>,
    i: int,
)
    requires
        0 <= i < ks.len(),
        forall|a: int, b: int| 0 <= a < b < ks.len() ==> ks[a] != ks[b],
    ensures
        !spend_all(u, c, ks).0.contains_key(ks[i]),
        u.contains_key(ks[i]) ==> spend_all(u, c, ks).1.contains_key(ks[i]) && spend_all(
            u,
            c,
            ks,
        ).1[ks[i]] == u[ks[i]],
        !u.contains_key(ks[i]) ==> spend_all(u, c, ks).1.contains_key(ks[i]) == c.contains_key(
            ks[i],
        ) && (c.contains_key(ks[i]) ==> spend_all(u, c, ks).1[ks[i]] == c[ks[i]]),
    decreases ks.len(),
{
    if i == ks.len() - 1 {
        assert(!ks.drop_last().contains(ks[i])) by {
            if ks.drop_last().contains(ks[i]) {
                let j = choose|j: int| 0 <= j < ks.len() - 1 && ks.drop_last()[j] == ks[i];
                assert(ks[j] == ks[i]);
            }
        }
        lemma_spend_all_untouched(u, c, ks.drop_last(), ks[i]);
    } else {
        lemma_spend_all_hit(u, c, ks.drop_last(), i);
        assert(ks.last() != ks[i]) by {
            assert(ks[ks.len() - 1] == ks.last());
        }
    }
}

/// A key outside the list is untouched by `restore_all`.
pub proof fn lemma_restore_all_untouched(
    u: Map<Seq<char>, UtxoValV>,
    c: Map<Seq<char>, UtxoValV>,
    ks: Seq<Seq<char>>,
    k: Seq<char>,
)
    requires
        !ks.contains(k),
    ensures
        restore_all(u, c, ks).0.contains_key(k) == u.contains_key(k),
        u.contains_key(k) ==> restore_all(u, c, ks).0[k] == u[k],
        restore_all(u, c, ks).1.contains_key(k) == c.contains_key(k),
        c.contains_key(k) ==> restore_all(u, c, ks).1[k] == c[k],
    decreases ks.len(),
{
    if ks.len() > 0 {
        assert(ks.last() != k) by {
            assert(ks[ks.len() - 1] == ks.last());
        }
        let first = restore_step(u, c, ks.last());
        assert(!ks.drop_last().contains(k)) by {
            if ks.drop_last().contains(k) {
                let i = choose|i: int| 0 <= i < ks.len() - 1 && ks.drop_last()[i] == k;
                assert(ks[i] == k);
            }
        }
        lemma_restore_all_untouched(first.0, first.1, ks.drop_last(), k);
    }
}

/// With distinct keys, restoring puts each ring-held key back into the
/// index with its prior value and clears its ring entry; a key the ring
/// does not hold is left alone.
pub proof fn lemma_restore_all_hit(
    u: Map<Seq<char>, UtxoValV>,
    c: Map<Seq<char>, UtxoValV>,
    ks: Seq<Seq<char>>,
    i: int,
)
    requires
        0 <= i < ks.len(),
        forall|a: int, b: int| 0 <= a < b < ks.len() ==> ks[a] != ks[b],
    ensures
        c.contains_key(ks[i]) ==> restore_all(u, c, ks).0.contains_key(ks[i]) && restore_all(
            u,
            c,
            ks,
        ).0[ks[i]] == c[ks[i]] && !restore_all(u, c, ks).1.contains_key(ks[i]),
        !c.contains_key(ks[i]) ==> restore_all(u, c, ks).0.contains_key(ks[i])
            == u.contains_key(ks[i]) && (u.contains_key(ks[i]) ==> restore_all(u, c, ks).0[ks[i]]
            == u[ks[i]]) && !restore_all(u, c, ks).1.contains_key(ks[i]) == !c.contains_key(
            ks[i],
        ),
    decreases ks.len(),
{
    if i == ks.len() - 1 {
        let first = restore_step(u, c, ks[i]);
        assert(!ks.drop_last().contains(ks[i])) by {
            if ks.drop_last().contains(ks[i]) {
                let j = choose|j: int| 0 <= j < ks.len() - 1 && ks.drop_last()[j] == ks[i];
                assert(ks[j] == ks[i]);
            }
        }
        lemma_restore_all_untouched(first.0, first.1, ks.drop_last(), ks[i]);
    } else {
        assert(ks.last() != ks[i]) by {
            assert(ks[ks.len() - 1] == ks.last());
        }
        let first = restore_step(u, c, ks.last());
        lemma_restore_all_hit(first.0, first.1, ks.drop_last(), i);
    }
}

/// Undo symmetry: a block applied forward and then rolled back leaves the
/// index, the produced ring and the consumed ring exactly as they were.
///
/// The block's produced keys must be fresh (no transaction hash is reused),
/// its consumed keys distinct from them and from each other (no output is
/// spent twice), and its consumed keys must have no stale ring entries --
/// all properties a well-formed chain gives every block, except one: the
/// disjointness hypothesis excludes a block that spends an output produced
/// earlier in the same block. With this rollback order -- produced entries
/// removed first, consumed entries restored after -- such a key would be
/// restored into the index; restoring before removing would make the
/// symmetry unconditional.
pub proof fn lemma_undo_symmetry(
    u0: Map<Seq<char>, UtxoValV>,
    p0: Map<Seq<char>, Seq<u8>>,
    c0: Map<Seq<char>, UtxoValV>,
    txs: Seq<Tx>,
    era: u16,
)
    requires
        forall|a: int, b: int|
            0 <= a < b < produced_pairs(txs, era).len() ==> (#[trigger] produced_pairs(
                txs,
                era,
            )[a]).0 != (#[trigger] produced_pairs(txs, era)[b]).0,
        forall|a: int, b: int|
            0 <= a < b < consumed_keys(txs).len() ==> #[trigger] consumed_keys(txs)[a]
                != #[trigger] consumed_keys(txs)[b],
        forall|a: int, b: int|
            0 <= a < produced_pairs(txs, era).len() && 0 <= b < consumed_keys(txs).len()
                ==> (#[trigger] produced_pairs(txs, era)[a]).0 != #[trigger] consumed_keys(
                txs,
            )[b],
        forall|i: int|
            0 <= i < produced_pairs(txs, era).len() ==> !u0.contains_key(
                (#[trigger] produced_pairs(txs, era)[i]).0,
            ) && !p0.contains_key((#[trigger] produced_pairs(txs, era)[i]).0),
        forall|j: int|
            0 <= j < consumed_keys(txs).len() ==> !c0.contains_key(
                #[trigger] consumed_keys(txs)[j],
            ),
    ensures
        ({
            let ps = produced_pairs(txs, era);
            let pks = pair_keys(ps);
            let cks = consumed_keys(txs);
            let u1 = insert_all(u0, ps);
            let marked = mark_all(p0, pks);
            let sp = spend_all(u1, c0, cks);
            let u3 = remove_all(sp.0, pks);
            let cleared = remove_all(marked, pks);
            let re = restore_all(u3, sp.1, cks);
            re.0 == u0 && cleared == p0 && re.1 == c0
        }),
{
    let ps = produced_pairs(txs, era);
    let pks = pair_keys(ps);
    let cks = consumed_keys(txs);
    let u1 = insert_all(u0, ps);
    let marked = mark_all(p0, pks);
    let sp = spend_all(u1, c0, cks);
    let u2 = sp.0;
    let c2 = sp.1;
    let u3 = remove_all(u2, pks);
    let cleared = remove_all(marked, pks);
    let re = restore_all(u3, c2, cks);
    let u4 = re.0;
    let c4 = re.1;

    assert(forall|i: int| 0 <= i < pks.len() ==> #[trigger] pks[i] == ps[i].0);
    assert(forall|a: int, b: int| 0 <= a < b < pks.len() ==> pks[a] != pks[b]);

    assert forall|k: Seq<char>|
        #![trigger u4.dom().contains(k)]
        #![trigger u0.dom().contains(k)]
        #![trigger cleared.dom().contains(k)]
        #![trigger p0.dom().contains(k)]
        #![trigger c4.dom().contains(k)]
        #![trigger c0.dom().contains(k)]
        u4.contains_key(k) == u0.contains_key(k) && (u0.contains_key(k) ==> u4[k] == u0[k])
        && cleared.contains_key(k) == p0.contains_key(k) && (p0.contains_key(k) ==> cleared[k] == p0[k])
        && c4.contains_key(k) == c0.contains_key(k) && (c0.contains_key(k) ==> c4[k]
        == c0[k]) by {
        if pks.contains(k) {
            let i = choose|i: int| 0 <= i < pks.len() && pks[i] == k;
            assert(ps[i].0 == k);
            assert(!cks.contains(k)) by {
                if cks.contains(k) {
                    let j = choose|j: int| 0 <= j < cks.len() && cks[j] == k;
                }
            }
            lemma_insert_all_hit(u0, ps, i);
            lemma_spend_all_untouched(u1, c0, cks, k);
            lemma_remove_all_hit::<UtxoValV>(u2, pks, i);
            lemma_restore_all_untouched(u3, c2, cks, k);
            lemma_mark_all_hit(p0, pks, i);
            lemma_remove_all_hit::<Seq<u8>>(marked, pks, i);
        } else if cks.contains(k) {
            let j = choose|j: int| 0 <= j < cks.len() && cks[j] == k;
            assert forall|i2: int| 0 <= i2 < ps.len() implies (#[trigger] ps[i2]).0 != k by {
                assert(ps[i2].0 != cks[j]);
            }
            assert(!pks.contains(k)) by {
                if pks.contains(k) {
                    let i2 = choose|i2: int| 0 <= i2 < pks.len() && pks[i2] == k;
                    assert(ps[i2].0 == k);
                }
            }
            lemma_insert_all_untouched(u0, ps, k);
            lemma_spend_all_hit(u1, c0, cks, j);
            lemma_remove_all_untouched::<UtxoValV>(u2, pks, k);
            lemma_restore_all_hit(u3, c2, cks, j);
            lemma_mark_all_untouched(p0, pks, k);
            lemma_remove_all_untouched::<Seq<u8>>(marked, pks, k);
        } else {
            assert forall|i2: int| 0 <= i2 < ps.len() implies (#[trigger] ps[i2]).0 != k by {
                if ps[i2].0 == k {
                    assert(pks[i2] == k);
                    assert(pks.contains(k));
                }
            }
            lemma_insert_all_untouched(u0, ps, k);
            lemma_spend_all_untouched(u1, c0, cks, k);
            lemma_remove_all_untouched::<UtxoValV>(u2, pks, k);
            lemma_restore_all_untouched(u3, c2, cks, k);
            lemma_mark_all_untouched(p0, pks, k);
            lemma_remove_all_untouched::<Seq<u8>>(marked, pks, k);
        }
    }
    assert(u4 =~= u0);
    assert(cleared =~= p0);
    assert(c4 =~= c0);
}

} // verus!
