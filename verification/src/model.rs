//! The logical data model: chain points, blocks, transactions, outputs,
//! the per-block context of resolved inputs, and the commands handed to the
//! downstream sink.

use vstd::prelude::*;

use crate::store::KvStore;
use crate::text::dec_of;
use crate::text::hex_of;

verus! {

/// Copy a byte string.
pub fn copy_bytes(v: &Vec<u8>) -> (r: Vec<u8>)
    ensures
        r@ == v@,
{
    let r = v.clone();
    proof {
        assert(forall|i: int| #![all_triggers] 0 <= i < v@.len() ==> r@[i] == v@[i]);
        assert(r@ =~= v@);
    }
    r
}

/// A point on the chain: the origin, or a slot with its block hash.
#[derive(Debug)]
pub enum Point {
    Origin,
    Specific(u64, Vec<u8>),
}

/// The abstract form of a point.
#[verifier::ext_equal]
pub ghost enum PointV {
    Origin,
    Specific(u64, Seq<u8>),
}

impl View for Point {
    type V = PointV;

    open spec fn view(&self) -> PointV {
        match self {
            Point::Origin => PointV::Origin,
            Point::Specific(slot, hash) => PointV::Specific(*slot, hash@),
        }
    }
}

impl PointV {
    /// The slot of a point; the origin sits at slot zero.
    pub open spec fn slot(self) -> u64 {
        match self {
            PointV::Origin => 0,
            PointV::Specific(slot, _) => slot,
        }
    }
}

impl Point {
    /// The slot of the point; the origin counts as slot zero.
    pub fn slot_or_default(&self) -> (r: u64)
        ensures
            r == self@.slot(),
    {
        match self {
            Point::Origin => 0,
            Point::Specific(slot, _) => *slot,
        }
    }

    /// An identical point.
    pub fn duplicate(&self) -> (r: Point)
        ensures
            r@ == self@,
    {
        match self {
            Point::Origin => Point::Origin,
            Point::Specific(slot, hash) => Point::Specific(*slot, copy_bytes(hash)),
        }
    }
}

/// A reference to one transaction output: producing transaction hash and
/// output index.
pub struct OutputRef {
    pub tx_hash: Vec<u8>,
    pub index: u64,
}

/// The key under which a referenced output stands in the index:
/// the hex of the transaction hash, `#`, and the decimal output index.
pub open spec fn ref_key(tx_hash: Seq<u8>, index: u64) -> Seq<char> {
    hex_of(tx_hash) + seq!['#'] + dec_of(index as nat)
}

impl OutputRef {
    /// Render the reference as its index key.
    pub fn key_string(&self) -> (r: String)
        ensures
            r@ == ref_key(self.tx_hash@, self.index),
    {
        proof {
            reveal_strlit("#");
        }
        let mut s = crate::digest::hex_string(self.tx_hash.as_slice());
        s.append("#");
        s.append(crate::text::u64_string(self.index).as_str());
        proof {
            assert(s@ =~= ref_key(self.tx_hash@, self.index));
        }
        s
    }
}

/// One native asset riding on an output.
pub struct Asset {
    pub policy: Vec<u8>,
    pub name: Vec<u8>,
    pub quantity: u64,
}

/// The abstract form of an asset.
#[verifier::ext_equal]
pub ghost struct AssetV {
    pub policy: Seq<u8>,
    pub name: Seq<u8>,
    pub quantity: u64,
}

impl View for Asset {
    type V = AssetV;

    open spec fn view(&self) -> AssetV {
        AssetV { policy: self.policy@, name: self.name@, quantity: self.quantity }
    }
}

/// One minted (positive) or burned (negative) asset quantity.
pub struct MintAsset {
    pub policy: Vec<u8>,
    pub name: Vec<u8>,
    pub quantity: i64,
}

/// A transaction metadatum.
pub enum Metadatum {
    Int(i64),
    Bytes(Vec<u8>),
    Text(String),
    Array(Vec<Metadatum>),
    Table(Vec<(Metadatum, Metadatum)>),
}

/// A transaction output: receiving address, coin amount, the assets riding
/// on it, and its raw encoding.
pub struct TxOutput {
    pub address: Vec<u8>,
    pub lovelace: u64,
    pub assets: Vec<Asset>,
    pub raw: Vec<u8>,
}

/// The abstract form of a transaction output.
#[verifier::ext_equal]
pub ghost struct TxOutputV {
    pub address: Seq<u8>,
    pub lovelace: u64,
    pub assets: Seq<AssetV>,
    pub raw: Seq<u8>,
}

impl View for TxOutput {
    type V = TxOutputV;

    open spec fn view(&self) -> TxOutputV {
        TxOutputV {
            address: self.address@,
            lovelace: self.lovelace,
            assets: self.assets@.map_values(|a: Asset| a@),
            raw: self.raw@,
        }
    }
}

impl TxOutput {
    /// An identical output.
    pub fn duplicate(&self) -> (r: TxOutput)
        ensures
            r@ == self@,
    {
        let mut assets: Vec<Asset> = Vec::new();
        let n = self.assets.len();
        let mut i: usize = 0;
        while i < n
            invariant
                n == self.assets@.len(),
                i <= n,
                i == assets@.len(),
                forall|j: int| 0 <= j < i ==> assets@[j]@ == self.assets@[j]@,
            decreases n - i,
        {
            let a = &self.assets[i];
            assets.push(
                Asset {
                    policy: copy_bytes(&a.policy),
                    name: copy_bytes(&a.name),
                    quantity: a.quantity,
                },
            );
            i += 1;
        }
        proof {
            assert(assets@.len() == self.assets@.len());
            assert(assets@.map_values(|a: Asset| a@) =~= self.assets@.map_values(
                |a: Asset| a@,
            )) by {
                assert(forall|j: int| #![all_triggers]
                    0 <= j < assets@.len() ==> assets@.map_values(|a: Asset| a@)[j]
                        == assets@[j]@ && self.assets@.map_values(|a: Asset| a@)[j]
                        == self.assets@[j]@);
            }
        }
        let r = TxOutput {
            address: copy_bytes(&self.address),
            lovelace: self.lovelace,
            assets,
            raw: copy_bytes(&self.raw),
        };
        proof {
            assert(r@ =~= self@);
        }
        r
    }
}

/// A transaction: its hash, the references it consumes, the outputs it
/// produces (with their indices), its mint list and its metadata.
pub struct Tx {
    pub hash: Vec<u8>,
    pub consumes: Vec<OutputRef>,
    pub produces: Vec<(u64, TxOutput)>,
    pub mint: Vec<MintAsset>,
    pub metadata: Vec<(u64, Metadatum)>,
}

/// A decoded block: position on the chain and its transactions in order.
pub struct Block {
    pub slot: u64,
    pub number: u64,
    pub hash: Vec<u8>,
    pub era: u16,
    pub txs: Vec<Tx>,
}

/// A value held by the index for one unspent output: the era it was
/// produced under and the output itself.
pub struct UtxoVal {
    pub era: u16,
    pub output: TxOutput,
}

/// The abstract form of an index value.
#[verifier::ext_equal]
pub ghost struct UtxoValV {
    pub era: u16,
    pub output: TxOutputV,
}

impl View for UtxoVal {
    type V = UtxoValV;

    open spec fn view(&self) -> UtxoValV {
        UtxoValV { era: self.era, output: self.output@ }
    }
}

impl UtxoVal {
    /// An identical value.
    pub fn duplicate(&self) -> (r: UtxoVal)
        ensures
            r@ == self@,
    {
        let r = UtxoVal { era: self.era, output: self.output.duplicate() };
        proof {
            assert(r@ =~= self@);
        }
        r
    }
}

/// The resolved inputs of one block: for every reference the block
/// consumes and the index could resolve, the value it resolved to.
pub struct BlockContext {
    pub utxos: KvStore<UtxoVal>,
}

impl BlockContext {
    pub open spec fn wf(&self) -> bool {
        self.utxos.wf()
    }

    /// The context as a map from reference keys to resolved values.
    pub open spec fn view(&self) -> Map<Seq<char>, UtxoValV> {
        self.utxos@
    }

    pub fn new() -> (r: BlockContext)
        ensures
            r.wf(),
            r@ == Map::<Seq<char>, UtxoValV>::empty(),
    {
        BlockContext { utxos: KvStore::new() }
    }

    /// Record a resolved reference.
    pub fn import_ref_output(&mut self, key: String, val: UtxoVal)
        requires
            old(self).wf(),
        ensures
            final(self).wf(),
            final(self)@ == old(self)@.insert(key@, val@),
    {
        self.utxos.insert(key, val);
    }

    /// Look a consumed reference up among the block's resolved inputs.
    pub fn find_utxo(&self, r: &OutputRef) -> (res: Option<&UtxoVal>)
        requires
            self.wf(),
        ensures
            match res {
                Some(v) => self@.contains_key(ref_key(r.tx_hash@, r.index)) && v@ == self@[
                    ref_key(r.tx_hash@, r.index)
                ],
                None => !self@.contains_key(ref_key(r.tx_hash@, r.index)),
            },
    {
        let key = r.key_string();
        self.utxos.get(&key)
    }
}

/// A value carried by a sink command.
pub enum Value {
    String(String),
    BigInt(i128),
    Cbor(Vec<u8>),
}

/// The abstract form of a command value.
#[verifier::ext_equal]
pub ghost enum ValueV {
    String(Seq<char>),
    BigInt(i128),
    Cbor(Seq<u8>),
}

impl View for Value {
    type V = ValueV;

    open spec fn view(&self) -> ValueV {
        match self {
            Value::String(s) => ValueV::String(s@),
            Value::BigInt(n) => ValueV::BigInt(*n),
            Value::Cbor(b) => ValueV::Cbor(b@),
        }
    }
}

/// A state-mutation command for the downstream key-value sink.
pub enum CRDTCommand {
    /// Framing: a block's commands follow.
    BlockStarting(Point),
    /// Unconditional overwrite.
    AnyWriteWins(String, Value),
    /// Overwrite only when the timestamp is not older than the stored one.
    LastWriteWins(String, Value, u64),
    SetAdd(String, String),
    SetRemove(String, String),
    /// The member's score accumulates the signed delta.
    SortedSetAdd(String, String, i64),
    HashSetValue(String, String, Value),
    HashSetMulti(String, Vec<String>, Vec<Value>),
    /// The field's counter accumulates the signed delta.
    HashCounter(String, String, i64),
    PNCounter(String, i64),
    UnsetKey(String),
    /// Framing: the block's commands are complete; the cursor may advance.
    BlockFinished(Point),
}

/// The abstract form of a command.
#[verifier::ext_equal]
pub ghost enum CommandV {
    BlockStarting(PointV),
    AnyWriteWins(Seq<char>, ValueV),
    LastWriteWins(Seq<char>, ValueV, u64),
    SetAdd(Seq<char>, Seq<char>),
    SetRemove(Seq<char>, Seq<char>),
    SortedSetAdd(Seq<char>, Seq<char>, i64),
    HashSetValue(Seq<char>, Seq<char>, ValueV),
    HashSetMulti(Seq<char>, Seq<Seq<char>>, Seq<ValueV>),
    HashCounter(Seq<char>, Seq<char>, i64),
    PNCounter(Seq<char>, i64),
    UnsetKey(Seq<char>),
    BlockFinished(PointV),
}

impl View for CRDTCommand {
    type V = CommandV;

    open spec fn view(&self) -> CommandV {
        match self {
            CRDTCommand::BlockStarting(p) => CommandV::BlockStarting(p@),
            CRDTCommand::AnyWriteWins(k, v) => CommandV::AnyWriteWins(k@, v@),
            CRDTCommand::LastWriteWins(k, v, t) => CommandV::LastWriteWins(k@, v@, *t),
            CRDTCommand::SetAdd(k, m) => CommandV::SetAdd(k@, m@),
            CRDTCommand::SetRemove(k, m) => CommandV::SetRemove(k@, m@),
            CRDTCommand::SortedSetAdd(k, m, d) => CommandV::SortedSetAdd(k@, m@, *d),
            CRDTCommand::HashSetValue(k, f, v) => CommandV::HashSetValue(k@, f@, v@),
            CRDTCommand::HashSetMulti(k, fs, vs) => CommandV::HashSetMulti(
                k@,
                fs@.map_values(|f: String| f@),
                vs@.map_values(|v: Value| v@),
            ),
            CRDTCommand::HashCounter(k, f, d) => CommandV::HashCounter(k@, f@, *d),
            CRDTCommand::PNCounter(k, d) => CommandV::PNCounter(k@, *d),
            CRDTCommand::UnsetKey(k) => CommandV::UnsetKey(k@),
            CRDTCommand::BlockFinished(p) => CommandV::BlockFinished(p@),
        }
    }
}

/// The abstract form of a command stream.
pub open spec fn cmds_view(s: Seq<CRDTCommand>) -> Seq<CommandV> {
    s.map_values(|c: CRDTCommand| c@)
}

/// Appending to a command stream appends to its abstract form.
pub proof fn lemma_cmds_view_push(s: Seq<CRDTCommand>, c: CRDTCommand)
    ensures
        cmds_view(s.push(c)) == cmds_view(s).push(c@),
{
    assert(cmds_view(s.push(c)) =~= cmds_view(s).push(c@));
}

/// A key under an optional dotted prefix.
pub open spec fn prefixed(prefix: Option<Seq<char>>, key: Seq<char>) -> Seq<char> {
    match prefix {
        Some(p) => p + seq!['.'] + key,
        None => key,
    }
}

/// Build a key under an optional dotted prefix.
pub fn prefixed_key(prefix: Option<&String>, key: &str) -> (r: String)
    ensures
        r@ == prefixed(
            match prefix {
                Some(p) => Some(p@),
                None => None,
            },
            key@,
        ),
{
    proof {
        reveal_strlit(".");
    }
    match prefix {
        Some(p) => {
            let mut s = p.clone();
            s.append(".");
            s.append(key);
            proof {
                assert(s@ =~= p@ + seq!['.'] + key@);
            }
            s
        },
        None => String::from_str(key),
    }
}

impl CRDTCommand {
    /// The framing command opening a block.
    pub fn block_starting(block: &Block) -> (r: CRDTCommand)
        ensures
            r@ == CommandV::BlockStarting(PointV::Specific(block.slot, block.hash@)),
    {
        CRDTCommand::BlockStarting(Point::Specific(block.slot, copy_bytes(&block.hash)))
    }

    /// The framing command closing a block.
    pub fn block_finished(block: &Block) -> (r: CRDTCommand)
        ensures
            r@ == CommandV::BlockFinished(PointV::Specific(block.slot, block.hash@)),
    {
        CRDTCommand::BlockFinished(Point::Specific(block.slot, copy_bytes(&block.hash)))
    }

    /// A set insertion under an optional key prefix.
    pub fn set_add(prefix: Option<&String>, key: &str, member: String) -> (r: CRDTCommand)
        ensures
            r@ == CommandV::SetAdd(
                prefixed(
                    match prefix {
                        Some(p) => Some(p@),
                        None => None,
                    },
                    key@,
                ),
                member@,
            ),
    {
        CRDTCommand::SetAdd(prefixed_key(prefix, key), member)
    }

    /// A set removal under an optional key prefix.
    pub fn set_remove(prefix: Option<&String>, key: &str, member: String) -> (r: CRDTCommand)
        ensures
            r@ == CommandV::SetRemove(
                prefixed(
                    match prefix {
                        Some(p) => Some(p@),
                        None => None,
                    },
                    key@,
                ),
                member@,
            ),
    {
        CRDTCommand::SetRemove(prefixed_key(prefix, key), member)
    }

    /// An unconditional overwrite under an optional key prefix.
    pub fn any_write_wins(prefix: Option<&String>, key: &str, value: Value) -> (r: CRDTCommand)
        ensures
            r@ == CommandV::AnyWriteWins(
                prefixed(
                    match prefix {
                        Some(p) => Some(p@),
                        None => None,
                    },
                    key@,
                ),
                value@,
            ),
    {
        CRDTCommand::AnyWriteWins(prefixed_key(prefix, key), value)
    }

    /// A key deletion under an optional key prefix.
    pub fn unset_key(prefix: Option<&String>, key: &str) -> (r: CRDTCommand)
        ensures
            r@ == CommandV::UnsetKey(
                prefixed(
                    match prefix {
                        Some(p) => Some(p@),
                        None => None,
                    },
                    key@,
                ),
            ),
    {
        CRDTCommand::UnsetKey(prefixed_key(prefix, key))
    }
}

/// Amounts small enough that a signed delta can carry them.
pub open spec fn txout_wf(o: TxOutputV) -> bool {
    &&& o.lovelace <= i64::MAX
    &&& forall|i: int| 0 <= i < o.assets.len() ==> (#[trigger] o.assets[i]).quantity <= i64::MAX
}

/// Every output the block produces has amounts a signed delta can carry.
pub open spec fn block_wf(b: Block) -> bool {
    forall|t: int, j: int|
        0 <= t < b.txs@.len() && 0 <= j < b.txs@[t].produces@.len() ==> txout_wf(
            (#[trigger] b.txs@[t].produces@[j]).1@,
        )
}

/// Every resolved input has amounts a signed delta can carry.
pub open spec fn ctx_wf(m: Map<Seq<char>, UtxoValV>) -> bool {
    forall|k: Seq<char>| #[trigger] m.contains_key(k) ==> txout_wf(m[k].output)
}

/// Decide whether one output's amounts fit a signed delta.
pub fn txout_within_deltas(o: &TxOutput) -> (r: bool)
    ensures
        r == txout_wf(o@),
{
    if o.lovelace > 0x7fff_ffff_ffff_ffff {
        return false;
    }
    let n = o.assets.len();
    let mut i: usize = 0;
    while i < n
        invariant
            n == o.assets@.len(),
            i <= n,
            o.lovelace <= i64::MAX,
            forall|j: int| 0 <= j < i ==> (#[trigger] o.assets@[j]@).quantity <= i64::MAX,
        decreases n - i,
    {
        if o.assets[i].quantity > 0x7fff_ffff_ffff_ffff {
            proof {
                assert(o@.assets[i as int] == o.assets@[i as int]@);
                assert(!txout_wf(o@));
            }
            return false;
        }
        i += 1;
    }
    proof {
        assert forall|j: int| 0 <= j < o@.assets.len() implies (#[trigger] o@.assets[j]).quantity
            <= i64::MAX by {
            assert(o@.assets[j] == o.assets@[j]@);
        }
    }
    true
}

/// Decide whether every output a block produces fits signed deltas, as the
/// reducers demand before they project it.
pub fn block_within_deltas(b: &Block) -> (r: bool)
    ensures
        r == block_wf(*b),
{
    let n = b.txs.len();
    let mut t: usize = 0;
    while t < n
        invariant
            n == b.txs@.len(),
            t <= n,
            forall|a: int, j: int|
                0 <= a < t && 0 <= j < b.txs@[a].produces@.len() ==> txout_wf(
                    (#[trigger] b.txs@[a].produces@[j]).1@,
                ),
        decreases n - t,
    {
        let tx = &b.txs[t];
        let m = tx.produces.len();
        let mut j: usize = 0;
        while j < m
            invariant
                n == b.txs@.len(),
                t < n,
                m == b.txs@[t as int].produces@.len(),
                j <= m,
                tx == &b.txs@[t as int],
                forall|k: int|
                    0 <= k < j ==> txout_wf((#[trigger] b.txs@[t as int].produces@[k]).1@),
            decreases m - j,
        {
            if !txout_within_deltas(&tx.produces[j].1) {
                proof {
                    assert(!txout_wf(b.txs@[t as int].produces@[j as int].1@));
                }
                return false;
            }
            j += 1;
        }
        t += 1;
    }
    true
}

impl BlockContext {
    /// Decide whether every resolved value fits signed deltas, as the
    /// reducers demand of the context.
    pub fn values_within_deltas(&self) -> (r: bool)
        requires
            self.wf(),
        ensures
            r == ctx_wf(self@),
    {
        let n = self.utxos.entries.len();
        let mut i: usize = 0;
        while i < n
            invariant
                n == self.utxos.entries@.len(),
                i <= n,
                self.wf(),
                forall|j: int|
                    0 <= j < i ==> txout_wf((#[trigger] self.utxos.entries@[j]).1@.output),
            decreases n - i,
        {
            let e = &self.utxos.entries[i];
            if !txout_within_deltas(&e.1.output) {
                proof {
                    crate::store::lemma_entries_map_index(self.utxos.entries@, i as int);
                    assert(self@.contains_key(self.utxos.entries@[i as int].0@));
                    assert(!txout_wf(self@[self.utxos.entries@[i as int].0@].output));
                }
                return false;
            }
            i += 1;
        }
        proof {
            assert forall|k: Seq<char>| #[trigger] self@.contains_key(k) implies txout_wf(
                self@[k].output,
            ) by {
                crate::store::lemma_entries_map_dom(self.utxos.entries@, k);
                let j = choose|j: int|
                    0 <= j < self.utxos.entries@.len() && self.utxos.entries@[j].0@ == k;
                crate::store::lemma_entries_map_index(self.utxos.entries@, j);
            }
        }
        true
    }
}

} // verus!
