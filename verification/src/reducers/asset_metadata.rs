//! Extracts the metadata published when an asset is minted and stores it
//! under the asset's fingerprint, rendered as a JSON fragment wrapped in
//! its metadata label, policy and asset name.
//!
//! Direction decision: the payloads are overwrites (last-write-wins or
//! any-write-wins), and the pre-block payload lives only in the sink, so
//! the undo direction emits nothing rather than republish a rolled-back
//! block's metadata. The payload the chain settles on returns with the
//! replacement blocks.

use vstd::prelude::*;

use crate::crosscut::ChainWellKnownInfo;
use crate::crosscut::NaiveProvider;
use crate::crosscut::wallclock_of;
use crate::digest::asset_fingerprint;
use crate::digest::fingerprint_of;
use crate::digest::hex_string;
use crate::digest::utf8_of;
use crate::digest::utf8_string;
use crate::model::Block;
use crate::model::CRDTCommand;
use crate::model::CommandV;
use crate::model::Metadatum;
use crate::model::MintAsset;
use crate::model::Tx;
use crate::model::Value;
use crate::model::ValueV;
use crate::model::cmds_view;
use crate::model::lemma_cmds_view_push;
use crate::text::dec_of;
use crate::text::dec_of_i64;
use crate::text::hex_digit;
use crate::text::hex_of;
use crate::text::i64_string;
use crate::text::push_char;
use crate::text::u64_string;

verus! {

/// The metadata label of minted-asset metadata.
pub const CIP25_META_NFT: u64 = 721;

/// The metadata label of token registry metadata.
pub const U_20_META_TOKEN: u64 = 20;

/// The metadata label of royalty metadata.
pub const CIP27_META_ROYALTIES: u64 = 777;

/// How stored payloads are projected. Only the JSON projection renders a
/// payload; the binary projection is dropped, since its byte string
/// rarely survives the text round trip.
#[derive(Clone, Copy, PartialEq, Eq, Structural, Debug)]
pub enum Projection {
    Cbor,
    Json,
}

pub struct Config {
    pub key_prefix: Option<String>,
    pub historical_metadata: Option<bool>,
    pub policy_asset_index: Option<bool>,
    pub royalty_metadata: Option<bool>,
    pub projection: Option<Projection>,
    pub filter: Option<Vec<String>>,
}

pub struct Reducer {
    pub config: Config,
    pub chain: ChainWellKnownInfo,
}

/// A JSON escape: quote, backslash and control characters are escaped,
/// anything else stands for itself.
pub open spec fn escape_char(c: char) -> Seq<char> {
    if c == '"' {
        seq!['\\', '"']
    } else if c == '\\' {
        seq!['\\', '\\']
    } else if c == '\n' {
        seq!['\\', 'n']
    } else if c == '\r' {
        seq!['\\', 'r']
    } else if c == '\t' {
        seq!['\\', 't']
    } else if (c as u32) < 32 {
        let hi = hex_digit((c as u32 / 16) as nat);
        let lo = hex_digit((c as u32 % 16) as nat);
        seq!['\\', 'u', '0', '0', hi, lo]
    } else {
        seq![c]
    }
}

pub open spec fn json_str_body(s: Seq<char>) -> Seq<char>
    decreases s.len(),
{
    if s.len() == 0 {
        Seq::<char>::empty()
    } else {
        json_str_body(s.drop_last()) + escape_char(s.last())
    }
}

/// A JSON string literal.
pub open spec fn json_quote(s: Seq<char>) -> Seq<char> {
    seq!['"'] + json_str_body(s) + seq!['"']
}

/// The JSON rendering of a metadatum: every leaf becomes a string (numbers
/// in decimal, bytes in hex), arrays and tables keep their shape, and
/// table entries whose key is not text are left out. Two rendering choices
/// are fixed here: table entries keep the order they were filed in (they
/// are not sorted by key), and every control character escapes in its
/// numeric `\u00..` form.
pub open spec fn json_of(m: Metadatum) -> Seq<char>
    decreases m,
{
    match m {
        Metadatum::Int(i) => json_quote(dec_of_i64(i as int)),
        Metadatum::Bytes(b) => json_quote(hex_of(b@)),
        Metadatum::Text(t) => json_quote(t@),
        Metadatum::Array(xs) => seq!['['] + json_items(xs@) + seq![']'],
        Metadatum::Table(kvs) => seq!['{'] + json_pairs(kvs@) + seq!['}'],
    }
}

pub open spec fn json_items(xs: Seq<Metadatum>) -> Seq<char>
    decreases xs,
{
    if xs.len() == 0 {
        Seq::<char>::empty()
    } else {
        json_items(xs.drop_last()) + (if xs.len() > 1 {
            seq![',']
        } else {
            Seq::<char>::empty()
        }) + json_of(xs.last())
    }
}

pub open spec fn json_pairs(kvs: Seq<(Metadatum, Metadatum)>) -> Seq<char>
    decreases kvs,
{
    if kvs.len() == 0 {
        Seq::<char>::empty()
    } else {
        let prev = json_pairs(kvs.drop_last());
        match kvs.last().0 {
            Metadatum::Text(k) => prev + (if prev.len() > 0 {
                seq![',']
            } else {
                Seq::<char>::empty()
            }) + json_quote(k@) + seq![':'] + json_of(kvs.last().1),
            _ => prev,
        }
    }
}

/// The first metadatum filed under a label.
pub open spec fn meta_find(md: Seq<(u64, Metadatum)>, label: u64) -> Option<Metadatum>
    decreases md.len(),
{
    if md.len() == 0 {
        None
    } else if md.first().0 == label {
        Some(md.first().1)
    } else {
        meta_find(md.drop_first(), label)
    }
}

/// Whether any of the minted-asset labels is present.
pub open spec fn has_meta_label(md: Seq<(u64, Metadatum)>) -> bool {
    exists|i: int|
        0 <= i < md.len() && ((#[trigger] md[i]).0 == CIP25_META_NFT || md[i].0
            == U_20_META_TOKEN || md[i].0 == CIP27_META_ROYALTIES)
}

/// The table filed under a policy id inside a label's table: the first
/// entry whose text key is the policy hex and whose value is a table.
pub open spec fn find_policy_assets(m: Metadatum, target: Seq<char>) -> Option<
    Seq<(Metadatum, Metadatum)>,
> {
    match m {
        Metadatum::Table(kvs) => find_policy_entry(kvs@, target),
        _ => None,
    }
}

pub open spec fn find_policy_entry(
    kvs: Seq<(Metadatum, Metadatum)>,
    target: Seq<char>,
) -> Option<Seq<(Metadatum, Metadatum)>>
    decreases kvs.len(),
{
    if kvs.len() == 0 {
        None
    } else if text_key_of(kvs.first().0) == Some(target) && kvs.first().1 is Table {
        match kvs.first().1 {
            Metadatum::Table(inner) => Some(inner@),
            _ => None,
        }
    } else {
        find_policy_entry(kvs.drop_first(), target)
    }
}

/// The text of a table key, when it is text.
pub open spec fn text_key_of(m: Metadatum) -> Option<Seq<char>> {
    match m {
        Metadatum::Text(t) => Some(t@),
        _ => None,
    }
}

/// The text of a table key, when it is text.
pub fn text_key<'x>(m: &'x Metadatum) -> (r: Option<&'x String>)
    ensures
        match r {
            Some(s) => text_key_of(*m) == Some(s@),
            None => text_key_of(*m) is None,
        },
{
    match m {
        Metadatum::Text(t) => Some(t),
        _ => None,
    }
}

/// The text form of an asset label: text itself, a number in decimal, or
/// bytes as UTF-8 (empty when invalid); other shapes have no label.
pub open spec fn label_of(m: Metadatum) -> Option<Seq<char>> {
    match m {
        Metadatum::Text(t) => Some(t@),
        Metadatum::Int(i) => Some(dec_of_i64(i as int)),
        Metadatum::Bytes(b) => Some(
            match utf8_of(b@) {
                Some(s) => s,
                None => Seq::<char>::empty(),
            },
        ),
        _ => None,
    }
}

/// The metadata table of one asset inside a policy's table: the first
/// entry labelled with the asset's name whose value is a table.
pub open spec fn find_asset_entry(
    kvs: Seq<(Metadatum, Metadatum)>,
    name: Seq<char>,
) -> Option<Seq<(Metadatum, Metadatum)>>
    decreases kvs.len(),
{
    if kvs.len() == 0 {
        None
    } else if label_of(kvs.first().0) == Some(name) && kvs.first().1 is Table {
        match kvs.first().1 {
            Metadatum::Table(inner) => Some(inner@),
            _ => None,
        }
    } else {
        find_asset_entry(kvs.drop_first(), name)
    }
}

/// The stored payload: the asset's metadata table wrapped under its name,
/// its policy and the metadata label.
pub open spec fn payload_of(
    cip: u64,
    policy_hex: Seq<char>,
    name: Seq<char>,
    inner: Seq<(Metadatum, Metadatum)>,
) -> Seq<char> {
    seq!['{'] + json_quote(dec_of(cip as nat)) + seq![':'] + seq!['{'] + json_quote(policy_hex)
        + seq![':'] + seq!['{'] + json_quote(name) + seq![':'] + seq!['{'] + json_pairs(inner)
        + seq!['}'] + seq!['}'] + seq!['}'] + seq!['}']
}

/// The key prefix of this projection; `m` when none is set.
pub open spec fn meta_prefix(c: Config) -> Seq<char> {
    match c.key_prefix {
        Some(p) => p@,
        None => "m"@,
    }
}

pub open spec fn flag_or(o: Option<bool>, default: bool) -> bool {
    match o {
        Some(b) => b,
        None => default,
    }
}

/// Whether the JSON projection is selected (the default).
pub open spec fn json_selected(c: Config) -> bool {
    match c.projection {
        Some(Projection::Json) => true,
        Some(Projection::Cbor) => false,
        None => true,
    }
}

/// The wallclock stamp of the minting block.
pub open spec fn stamp_of(chain: ChainWellKnownInfo, slot: u64) -> u64 {
    if wallclock_of(chain, slot) <= u64::MAX {
        wallclock_of(chain, slot) as u64
    } else {
        u64::MAX
    }
}

/// The commands stored for one asset found under one metadata label: the
/// royalty payload when configured and the label is the royalty label,
/// then the payload under the fingerprint (last-write-wins when history
/// is kept), then the policy index entry when configured.
pub open spec fn found_cmds(
    r: Reducer,
    slot: u64,
    cip: u64,
    policy: Seq<u8>,
    name_bytes: Seq<u8>,
    name: Seq<char>,
    inner: Seq<(Metadatum, Metadatum)>,
) -> Seq<CommandV> {
    if json_selected(r.config) {
        let payload = payload_of(cip, hex_of(policy), name, inner);
        let fp = fingerprint_of(policy, name_bytes);
        let ts = stamp_of(r.chain, slot);
        (if flag_or(r.config.royalty_metadata, true) && cip == CIP27_META_ROYALTIES {
            seq![
                CommandV::LastWriteWins(
                    meta_prefix(r.config) + ".r."@ + hex_of(policy),
                    ValueV::String(payload),
                    ts,
                ),
            ]
        } else {
            Seq::<CommandV>::empty()
        }) + (if flag_or(r.config.historical_metadata, false) {
            seq![
                CommandV::LastWriteWins(
                    meta_prefix(r.config) + seq!['.'] + fp,
                    ValueV::String(payload),
                    ts,
                ),
            ]
        } else {
            seq![
                CommandV::AnyWriteWins(
                    meta_prefix(r.config) + seq!['.'] + fp,
                    ValueV::String(payload),
                ),
            ]
        }) + (if flag_or(r.config.policy_asset_index, false) {
            seq![
                CommandV::LastWriteWins(
                    meta_prefix(r.config) + seq!['.'] + hex_of(policy),
                    ValueV::String(fp),
                    ts,
                ),
            ]
        } else {
            Seq::<CommandV>::empty()
        })
    } else {
        Seq::<CommandV>::empty()
    }
}

/// The commands of one minted asset under one label: nothing unless the
/// label is filed, its table names the policy, and the policy's table
/// names the asset with a table value.
pub open spec fn asset_label_cmds(
    r: Reducer,
    slot: u64,
    md: Seq<(u64, Metadatum)>,
    cip: u64,
    a: MintAsset,
) -> Seq<CommandV> {
    match utf8_of(a.name@) {
        Some(name) => match meta_find(md, cip) {
            Some(policy_map) => match find_policy_assets(policy_map, hex_of(a.policy@)) {
                Some(passets) => match find_asset_entry(passets, name) {
                    Some(inner) => found_cmds(r, slot, cip, a.policy@, a.name@, name, inner),
                    None => Seq::<CommandV>::empty(),
                },
                None => Seq::<CommandV>::empty(),
            },
            None => Seq::<CommandV>::empty(),
        },
        None => Seq::<CommandV>::empty(),
    }
}

/// The commands of one minted asset: the three supported labels in order,
/// for a positive quantity only.
pub open spec fn mint_asset_cmds(
    r: Reducer,
    slot: u64,
    md: Seq<(u64, Metadatum)>,
    a: MintAsset,
) -> Seq<CommandV> {
    if a.quantity >= 1 {
        asset_label_cmds(r, slot, md, CIP25_META_NFT, a) + asset_label_cmds(
            r,
            slot,
            md,
            U_20_META_TOKEN,
            a,
        ) + asset_label_cmds(r, slot, md, CIP27_META_ROYALTIES, a)
    } else {
        Seq::<CommandV>::empty()
    }
}

pub open spec fn mint_list_cmds(
    r: Reducer,
    slot: u64,
    md: Seq<(u64, Metadatum)>,
    ms: Seq<MintAsset>,
) -> Seq<CommandV>
    decreases ms.len(),
{
    if ms.len() == 0 {
        Seq::<CommandV>::empty()
    } else {
        mint_list_cmds(r, slot, md, ms.drop_last()) + mint_asset_cmds(r, slot, md, ms.last())
    }
}

/// The commands of one transaction: its mint list, provided it minted
/// anything and filed one of the supported labels.
pub open spec fn tx_meta_cmds(r: Reducer, slot: u64, tx: Tx) -> Seq<CommandV> {
    if tx.mint@.len() > 0 && has_meta_label(tx.metadata@) {
        mint_list_cmds(r, slot, tx.metadata@, tx.mint@)
    } else {
        Seq::<CommandV>::empty()
    }
}

pub open spec fn txs_meta_cmds(r: Reducer, slot: u64, txs: Seq<Tx>) -> Seq<CommandV>
    decreases txs.len(),
{
    if txs.len() == 0 {
        Seq::<CommandV>::empty()
    } else {
        txs_meta_cmds(r, slot, txs.drop_last()) + tx_meta_cmds(r, slot, txs.last())
    }
}

pub open spec fn block_cmds(r: Reducer, block: Block, rollback: bool) -> Seq<CommandV> {
    if rollback {
        Seq::<CommandV>::empty()
    } else {
        txs_meta_cmds(r, block.slot, block.txs@)
    }
}

/// Render one metadatum as JSON.
pub fn json_render(m: &Metadatum) -> (r: String)
    ensures
        r@ == json_of(*m),
    decreases *m,
{
    match m {
        Metadatum::Int(i) => json_quote_string(i64_string(*i).as_str()),
        Metadatum::Bytes(b) => json_quote_string(hex_string(b.as_slice()).as_str()),
        Metadatum::Text(t) => json_quote_string(t.as_str()),
        Metadatum::Array(xs) => {
            let mut out = String::new();
            push_char(&mut out, '[');
            let body = json_items_render(xs);
            out.append(body.as_str());
            push_char(&mut out, ']');
            proof {
                assert(out@ =~= json_of(*m));
            }
            out
        },
        Metadatum::Table(kvs) => {
            let mut out = String::new();
            push_char(&mut out, '{');
            let body = json_pairs_render(kvs);
            out.append(body.as_str());
            push_char(&mut out, '}');
            proof {
                assert(out@ =~= json_of(*m));
            }
            out
        },
    }
}

/// Render the items of a metadata array, comma separated.
pub fn json_items_render(xs: &Vec<Metadatum>) -> (r: String)
    ensures
        r@ == json_items(xs@),
    decreases xs,
{
    let mut out = String::new();
    let n = xs.len();
    let mut i: usize = 0;
    while i < n
        invariant
            n == xs@.len(),
            i <= n,
            out@ == json_items(xs@.take(i as int)),
        decreases n - i,
    {
        if i > 0 {
            push_char(&mut out, ',');
        }
        proof {
            assert(decreases_to!(*xs => xs@[i as int]));
        }
        let item = json_render(&xs[i]);
        out.append(item.as_str());
        proof {
            assert(xs@.take(i + 1).drop_last() =~= xs@.take(i as int));
            assert(xs@.take(i + 1).last() == xs@[i as int]);
            assert(out@ =~= json_items(xs@.take(i + 1)));
        }
        i += 1;
    }
    proof {
        assert(xs@.take(n as int) =~= xs@);
    }
    out
}

/// Render the entries of a metadata table, text-keyed entries only.
pub fn json_pairs_render(kvs: &Vec<(Metadatum, Metadatum)>) -> (r: String)
    ensures
        r@ == json_pairs(kvs@),
    decreases kvs,
{
    let mut out = String::new();
    let n = kvs.len();
    let mut i: usize = 0;
    let mut emitted = false;
    while i < n
        invariant
            n == kvs@.len(),
            i <= n,
            emitted == (json_pairs(kvs@.take(i as int)).len() > 0),
            out@ == json_pairs(kvs@.take(i as int)),
        decreases n - i,
    {
        let kv = &kvs[i];
        match &kv.0 {
            Metadatum::Text(k) => {
                if emitted {
                    push_char(&mut out, ',');
                }
                let ks = json_quote_string(k.as_str());
                out.append(ks.as_str());
                push_char(&mut out, ':');
                proof {
                    assert(decreases_to!(*kvs => kvs@[i as int].1));
                }
                let vs = json_render(&kv.1);
                out.append(vs.as_str());
                proof {
                    assert(json_quote(k@).len() >= 2);
                }
                emitted = true;
            },
            _ => {},
        }
        proof {
            assert(kvs@.take(i + 1).drop_last() =~= kvs@.take(i as int));
            assert(kvs@.take(i + 1).last() == kvs@[i as int]);
            assert(out@ =~= json_pairs(kvs@.take(i + 1)));
        }
        i += 1;
    }
    proof {
        assert(kvs@.take(n as int) =~= kvs@);
    }
    out
}

/// Render a JSON string literal, escaping as the format requires.
pub fn json_quote_string(s: &str) -> (r: String)
    ensures
        r@ == json_quote(s@),
{
    let mut out = String::new();
    push_char(&mut out, '"');
    let n = s.unicode_len();
    let mut i: usize = 0;
    while i < n
        invariant
            n == s@.len(),
            i <= n,
            out@ == seq!['"'] + json_str_body(s@.take(i as int)),
        decreases n - i,
    {
        let c = s.get_char(i);
        if c == '"' {
            push_char(&mut out, '\\');
            push_char(&mut out, '"');
        } else if c == '\\' {
            push_char(&mut out, '\\');
            push_char(&mut out, '\\');
        } else if c == '\n' {
            push_char(&mut out, '\\');
            push_char(&mut out, 'n');
        } else if c == '\r' {
            push_char(&mut out, '\\');
            push_char(&mut out, 'r');
        } else if c == '\t' {
            push_char(&mut out, '\\');
            push_char(&mut out, 't');
        } else if (c as u32) < 32 {
            push_char(&mut out, '\\');
            push_char(&mut out, 'u');
            push_char(&mut out, '0');
            push_char(&mut out, '0');
            push_char(&mut out, hex_digit_char((c as u32 / 16) as u8));
            push_char(&mut out, hex_digit_char((c as u32 % 16) as u8));
        } else {
            push_char(&mut out, c);
        }
        proof {
            assert(s@.take(i + 1).drop_last() =~= s@.take(i as int));
            assert(s@.take(i + 1).last() == s@[i as int]);
            assert(out@ =~= seq!['"'] + json_str_body(s@.take(i + 1)));
        }
        i += 1;
    }
    proof {
        assert(s@.take(n as int) =~= s@);
    }
    push_char(&mut out, '"');
    proof {
        assert(out@ =~= json_quote(s@));
    }
    out
}

/// The character of one hex digit.
fn hex_digit_char(d: u8) -> (r: char)
    requires
        d < 16,
    ensures
        r == hex_digit(d as nat),
{
    proof {
        reveal_strlit("0123456789abcdef");
    }
    let table = "0123456789abcdef";
    table.get_char(d as usize)
}

} // verus!

verus! {

/// Find the first metadatum filed under a label.
pub fn find_label<'a>(md: &'a Vec<(u64, Metadatum)>, label: u64) -> (r: Option<&'a Metadatum>)
    ensures
        match r {
            Some(v) => meta_find(md@, label) == Some(*v),
            None => meta_find(md@, label) is None,
        },
{
    let n = md.len();
    let mut i: usize = 0;
    proof {
        assert(md@.skip(0) =~= md@);
    }
    while i < n
        invariant
            n == md@.len(),
            i <= n,
            meta_find(md@, label) == meta_find(md@.skip(i as int), label),
        decreases n - i,
    {
        proof {
            assert(md@.skip(i as int).first() == md@[i as int]);
        }
        if md[i].0 == label {
            return Some(&md[i].1);
        }
        proof {
            assert(md@.skip(i as int).drop_first() =~= md@.skip(i + 1));
        }
        i += 1;
    }
    proof {
        assert(md@.skip(n as int) =~= Seq::<(u64, Metadatum)>::empty());
    }
    None
}

/// Whether one of the supported labels is filed.
pub fn has_label(md: &Vec<(u64, Metadatum)>) -> (r: bool)
    ensures
        r == has_meta_label(md@),
{
    let n = md.len();
    let mut i: usize = 0;
    while i < n
        invariant
            n == md@.len(),
            i <= n,
            forall|j: int|
                0 <= j < i ==> !((#[trigger] md@[j]).0 == CIP25_META_NFT || md@[j].0
                    == U_20_META_TOKEN || md@[j].0 == CIP27_META_ROYALTIES),
        decreases n - i,
    {
        let l = md[i].0;
        if l == CIP25_META_NFT || l == U_20_META_TOKEN || l == CIP27_META_ROYALTIES {
            proof {
                assert(has_meta_label(md@)) by {
                    assert((md@[i as int]).0 == CIP25_META_NFT || (md@[i as int]).0
                        == U_20_META_TOKEN || (md@[i as int]).0 == CIP27_META_ROYALTIES);
                }
            }
            return true;
        }
        i += 1;
    }
    false
}

/// Find a policy's table inside a label's table.
#[verifier::loop_isolation(false)]
pub fn find_policy<'a>(m: &'a Metadatum, target: &String) -> (r: Option<
    &'a Vec<(Metadatum, Metadatum)>,
>)
    ensures
        match r {
            Some(v) => find_policy_assets(*m, target@) == Some(v@),
            None => find_policy_assets(*m, target@) is None,
        },
{
    match m {
        Metadatum::Table(kvs) => {
            let n = kvs.len();
            let mut i: usize = 0;
            proof {
                assert(kvs@.skip(0) =~= kvs@);
            }
            while i < n
                invariant
                    n == kvs@.len(),
                    i <= n,
                    find_policy_entry(kvs@, target@) == find_policy_entry(
                        kvs@.skip(i as int),
                        target@,
                    ),
                decreases n - i,
            {
                proof {
                    assert(kvs@.skip(i as int).first() == kvs@[i as int]);
                }
                let kv = &kvs[i];
                let is_target = match text_key(&kv.0) {
                    Some(k) => *k == *target,
                    None => false,
                };
                let is_table = match &kv.1 {
                    Metadatum::Table(_) => true,
                    _ => false,
                };
                if is_target && is_table {
                    match &kv.1 {
                        Metadatum::Table(inner) => {
                            proof {
                                assert(*kv == kvs@[i as int]);
                                assert(text_key_of(kv.0) == Some(target@));
                                assert(text_key_of(kvs@[i as int].0) == Some(target@));
                                assert(kvs@[i as int].1 is Table);
                                assert(find_policy_entry(kvs@.skip(i as int), target@)
                                    == Some(inner@));
                            }
                            return Some(inner);
                        },
                        _ => {
                            proof {
                                assert(false);
                            }
                        },
                    }
                }
                proof {
                    assert(kvs@.skip(i as int).drop_first() =~= kvs@.skip(i + 1));
                    assert(!(text_key_of(kvs@[i as int].0) == Some(target@) && kvs@[
                        i as int
                    ].1 is Table));
                    assert(find_policy_entry(kvs@.skip(i as int), target@)
                        == find_policy_entry(kvs@.skip(i + 1), target@));
                }
                i += 1;
            }
            proof {
                assert(kvs@.skip(n as int) =~= Seq::<(Metadatum, Metadatum)>::empty());
            }
            None
        },
        _ => None,
    }
}

/// The text form of an asset label.
pub fn label_string(m: &Metadatum) -> (r: Option<String>)
    ensures
        match r {
            Some(s) => label_of(*m) == Some(s@),
            None => label_of(*m) is None,
        },
{
    match m {
        Metadatum::Text(t) => Some(t.clone()),
        Metadatum::Int(i) => Some(i64_string(*i)),
        Metadatum::Bytes(b) => match utf8_string(b) {
            Some(s) => Some(s),
            None => Some(String::new()),
        },
        _ => None,
    }
}

/// Find an asset's metadata table inside a policy's table.
pub fn find_asset<'a>(kvs: &'a Vec<(Metadatum, Metadatum)>, name: &String) -> (r: Option<
    &'a Vec<(Metadatum, Metadatum)>,
>)
    ensures
        match r {
            Some(v) => find_asset_entry(kvs@, name@) == Some(v@),
            None => find_asset_entry(kvs@, name@) is None,
        },
{
    let n = kvs.len();
    let mut i: usize = 0;
    proof {
        assert(kvs@.skip(0) =~= kvs@);
    }
    while i < n
        invariant
            n == kvs@.len(),
            i <= n,
            find_asset_entry(kvs@, name@) == find_asset_entry(kvs@.skip(i as int), name@),
        decreases n - i,
    {
        proof {
            assert(kvs@.skip(i as int).first() == kvs@[i as int]);
        }
        let kv = &kvs[i];
        let labelled = match label_string(&kv.0) {
            Some(s) => s == *name,
            None => false,
        };
        let is_table = match &kv.1 {
            Metadatum::Table(_) => true,
            _ => false,
        };
        if labelled && is_table {
            match &kv.1 {
                Metadatum::Table(inner) => {
                    return Some(inner);
                },
                _ => {
                    proof {
                        assert(false);
                    }
                },
            }
        }
        proof {
            assert(kvs@.skip(i as int).drop_first() =~= kvs@.skip(i + 1));
        }
        i += 1;
    }
    proof {
        assert(kvs@.skip(n as int) =~= Seq::<(Metadatum, Metadatum)>::empty());
    }
    None
}

impl Reducer {
    /// Emit the commands for one asset found under one label.
    pub fn emit_found(
        &self,
        slot: u64,
        cip: u64,
        policy: &Vec<u8>,
        name_bytes: &Vec<u8>,
        name: &String,
        inner: &Vec<(Metadatum, Metadatum)>,
        output: &mut Vec<CRDTCommand>,
    )
        ensures
            cmds_view(final(output)@) == cmds_view(old(output)@) + found_cmds(
                *self,
                slot,
                cip,
                policy@,
                name_bytes@,
                name@,
                inner@,
            ),
    {
        let json = match &self.config.projection {
            Some(Projection::Json) => true,
            Some(Projection::Cbor) => false,
            None => true,
        };
        if !json {
            proof {
                assert(cmds_view(output@) =~= cmds_view(output@) + found_cmds(
                    *self,
                    slot,
                    cip,
                    policy@,
                    name_bytes@,
                    name@,
                    inner@,
                ));
            }
            return ;
        }
        proof {
            reveal_strlit("m");
            reveal_strlit(".r.");
            reveal_strlit(".");
        }
        let mut payload = String::new();
        push_char(&mut payload, '{');
        payload.append(json_quote_string(u64_string(cip).as_str()).as_str());
        push_char(&mut payload, ':');
        push_char(&mut payload, '{');
        payload.append(json_quote_string(hex_string(policy.as_slice()).as_str()).as_str());
        push_char(&mut payload, ':');
        push_char(&mut payload, '{');
        payload.append(json_quote_string(name.as_str()).as_str());
        push_char(&mut payload, ':');
        push_char(&mut payload, '{');
        payload.append(json_pairs_render(inner).as_str());
        push_char(&mut payload, '}');
        push_char(&mut payload, '}');
        push_char(&mut payload, '}');
        push_char(&mut payload, '}');
        proof {
            assert(payload@ =~= payload_of(cip, hex_of(policy@), name@, inner@));
        }
        let fp = asset_fingerprint(policy.as_slice(), name_bytes.as_slice());
        let ts = NaiveProvider::new(self.chain).slot_to_wallclock(slot);
        let royalty = match &self.config.royalty_metadata {
            Some(b) => *b,
            None => true,
        };
        let historical = match &self.config.historical_metadata {
            Some(b) => *b,
            None => false,
        };
        let index = match &self.config.policy_asset_index {
            Some(b) => *b,
            None => false,
        };
        let ghost base = cmds_view(output@);
        if royalty && cip == CIP27_META_ROYALTIES {
            let mut key = match &self.config.key_prefix {
                Some(p) => p.clone(),
                None => String::from_str("m"),
            };
            key.append(".r.");
            key.append(hex_string(policy.as_slice()).as_str());
            proof {
                assert(key@ =~= meta_prefix(self.config) + ".r."@ + hex_of(policy@));
            }
            let ghost mid = output@;
            output.push(
                CRDTCommand::LastWriteWins(key, Value::String(payload.clone()), ts),
            );
            proof {
                lemma_cmds_view_push(mid, output@.last());
            }
        }
        let mut key2 = match &self.config.key_prefix {
            Some(p) => p.clone(),
            None => String::from_str("m"),
        };
        key2.append(".");
        key2.append(fp.as_str());
        proof {
            assert(key2@ =~= meta_prefix(self.config) + seq!['.'] + fingerprint_of(
                policy@,
                name_bytes@,
            ));
        }
        let ghost mid2 = output@;
        if historical {
            output.push(
                CRDTCommand::LastWriteWins(key2, Value::String(payload.clone()), ts),
            );
        } else {
            output.push(CRDTCommand::AnyWriteWins(key2, Value::String(payload.clone())));
        }
        proof {
            lemma_cmds_view_push(mid2, output@.last());
        }
        if index {
            let mut key3 = match &self.config.key_prefix {
                Some(p) => p.clone(),
                None => String::from_str("m"),
            };
            key3.append(".");
            key3.append(hex_string(policy.as_slice()).as_str());
            proof {
                assert(key3@ =~= meta_prefix(self.config) + seq!['.'] + hex_of(policy@));
            }
            let ghost mid3 = output@;
            output.push(CRDTCommand::LastWriteWins(key3, Value::String(fp), ts));
            proof {
                lemma_cmds_view_push(mid3, output@.last());
            }
        }
        proof {
            assert(cmds_view(output@) =~= base + found_cmds(
                *self,
                slot,
                cip,
                policy@,
                name_bytes@,
                name@,
                inner@,
            ));
        }
    }

    /// Emit the commands of one minted asset under one label.
    pub fn process_label(
        &self,
        slot: u64,
        md: &Vec<(u64, Metadatum)>,
        cip: u64,
        a: &MintAsset,
        name: &String,
        output: &mut Vec<CRDTCommand>,
    )
        requires
            utf8_of(a.name@) == Some(name@),
        ensures
            cmds_view(final(output)@) == cmds_view(old(output)@) + asset_label_cmds(
                *self,
                slot,
                md@,
                cip,
                *a,
            ),
    {
        let ghost target = asset_label_cmds(*self, slot, md@, cip, *a);
        match find_label(md, cip) {
            None => {
                proof {
                    assert(cmds_view(output@) =~= cmds_view(output@) + target);
                }
            },
            Some(policy_map) => {
                match find_policy(policy_map, &hex_string(a.policy.as_slice())) {
                    None => {
                        proof {
                            assert(cmds_view(output@) =~= cmds_view(output@) + target);
                        }
                    },
                    Some(passets) => {
                        match find_asset(passets, name) {
                            None => {
                                proof {
                                    assert(cmds_view(output@) =~= cmds_view(output@)
                                        + target);
                                }
                            },
                            Some(inner) => {
                                self.emit_found(
                                    slot,
                                    cip,
                                    &a.policy,
                                    &a.name,
                                    name,
                                    inner,
                                    output,
                                );
                            },
                        }
                    },
                }
            },
        }
    }

    /// Project one block: the metadata of every minted asset of every
    /// transaction that minted under a supported label; the undo direction
    /// emits nothing (see the module note).
    pub fn reduce_block(&self, block: &Block, rollback: bool, output: &mut Vec<CRDTCommand>)
        ensures
            cmds_view(final(output)@) == cmds_view(old(output)@) + block_cmds(
                *self,
                *block,
                rollback,
            ),
    {
        if rollback {
            proof {
                assert(cmds_view(output@) =~= cmds_view(output@) + block_cmds(
                    *self,
                    *block,
                    rollback,
                ));
            }
            return ;
        }
        let ghost base = cmds_view(output@);
        let slot = block.slot;
        let n = block.txs.len();
        let mut t: usize = 0;
        while t < n
            invariant
                n == block.txs@.len(),
                t <= n,
                slot == block.slot,
                cmds_view(output@) == base + txs_meta_cmds(
                    *self,
                    block.slot,
                    block.txs@.take(t as int),
                ),
            decreases n - t,
        {
            let tx = &block.txs[t];
            let ghost txbase = cmds_view(output@);
            if tx.mint.len() > 0 && has_label(&tx.metadata) {
                let nm = tx.mint.len();
                let mut j: usize = 0;
                while j < nm
                    invariant
                        nm == tx.mint@.len(),
                        j <= nm,
                        slot == block.slot,
                        tx == &block.txs@[t as int],
                        t < n,
                        n == block.txs@.len(),
                        cmds_view(output@) == txbase + mint_list_cmds(
                            *self,
                            block.slot,
                            tx.metadata@,
                            tx.mint@.take(j as int),
                        ),
                    decreases nm - j,
                {
                    let a = &tx.mint[j];
                    let ghost abase = cmds_view(output@);
                    if a.quantity >= 1 {
                        match utf8_string(&a.name) {
                            Some(name) => {
                                self.process_label(
                                    slot,
                                    &tx.metadata,
                                    CIP25_META_NFT,
                                    a,
                                    &name,
                                    output,
                                );
                                self.process_label(
                                    slot,
                                    &tx.metadata,
                                    U_20_META_TOKEN,
                                    a,
                                    &name,
                                    output,
                                );
                                self.process_label(
                                    slot,
                                    &tx.metadata,
                                    CIP27_META_ROYALTIES,
                                    a,
                                    &name,
                                    output,
                                );
                                proof {
                                    assert(cmds_view(output@) =~= abase + mint_asset_cmds(
                                        *self,
                                        slot,
                                        tx.metadata@,
                                        *a,
                                    ));
                                }
                            },
                            None => {
                                proof {
                                    assert(asset_label_cmds(
                                        *self,
                                        slot,
                                        tx.metadata@,
                                        CIP25_META_NFT,
                                        *a,
                                    ) =~= Seq::<CommandV>::empty());
                                    assert(asset_label_cmds(
                                        *self,
                                        slot,
                                        tx.metadata@,
                                        U_20_META_TOKEN,
                                        *a,
                                    ) =~= Seq::<CommandV>::empty());
                                    assert(asset_label_cmds(
                                        *self,
                                        slot,
                                        tx.metadata@,
                                        CIP27_META_ROYALTIES,
                                        *a,
                                    ) =~= Seq::<CommandV>::empty());
                                    assert(cmds_view(output@) =~= abase + mint_asset_cmds(
                                        *self,
                                        slot,
                                        tx.metadata@,
                                        *a,
                                    ));
                                }
                            },
                        }
                    } else {
                        proof {
                            assert(cmds_view(output@) =~= abase + mint_asset_cmds(
                                *self,
                                slot,
                                tx.metadata@,
                                *a,
                            ));
                        }
                    }
                    proof {
                        assert(tx.mint@.take(j + 1).drop_last() =~= tx.mint@.take(j as int));
                        assert(tx.mint@.take(j + 1).last() == tx.mint@[j as int]);
                        assert(cmds_view(output@) =~= txbase + mint_list_cmds(
                            *self,
                            block.slot,
                            tx.metadata@,
                            tx.mint@.take(j + 1),
                        ));
                    }
                    j += 1;
                }
                proof {
                    assert(tx.mint@.take(nm as int) =~= tx.mint@);
                }
            } else {
                proof {
                    assert(cmds_view(output@) =~= txbase + tx_meta_cmds(
                        *self,
                        block.slot,
                        block.txs@[t as int],
                    ));
                }
            }
            proof {
                assert(block.txs@.take(t + 1).drop_last() =~= block.txs@.take(t as int));
                assert(block.txs@.take(t + 1).last() == block.txs@[t as int]);
                assert(cmds_view(output@) =~= base + txs_meta_cmds(
                    *self,
                    block.slot,
                    block.txs@.take(t + 1),
                ));
            }
            t += 1;
        }
        proof {
            assert(block.txs@.take(n as int) =~= block.txs@);
        }
    }
}

impl Config {
    /// Register this projection.
    pub fn plugin(self, chain: &ChainWellKnownInfo) -> (r: crate::reducers::Reducer)
        ensures
            r matches crate::reducers::Reducer::AssetMetadata(x) && x.config == self && x.chain
                == *chain,
    {
        crate::reducers::Reducer::AssetMetadata(Reducer { config: self, chain: *chain })
    }
}

} // verus!
