//! Publishes the head of the chain as one hash set: epoch, height, slot,
//! hash, era, transaction count, and the first and last transaction of the
//! newest block.
//!
//! Direction decision: a rolled-back block's parameters must not be
//! republished, and the pre-block head lives only in the sink, so the undo
//! direction emits nothing; the head moves again with the next block
//! processed.

use vstd::prelude::*;

use crate::crosscut::ChainWellKnownInfo;
use crate::crosscut::block_epoch;
use crate::crosscut::epoch_of;
use crate::digest::hex_string;
use crate::model::Block;
use crate::model::CRDTCommand;
use crate::model::CommandV;
use crate::model::Value;
use crate::model::ValueV;
use crate::model::cmds_view;
use crate::model::lemma_cmds_view_push;
use crate::text::dec_of;
use crate::text::hex_of;
use crate::text::u64_string;

verus! {

pub struct Config {
    pub key_prefix: Option<String>,
}

pub struct Reducer {
    pub config: Config,
    pub chain: ChainWellKnownInfo,
}

/// The name an era number is published under; eras beyond the known list
/// fall back to their number.
pub open spec fn era_name(era: u16) -> Seq<char> {
    if era == 0 {
        "Byron"@
    } else if era == 1 {
        "Shelley"@
    } else if era == 2 {
        "Allegra"@
    } else if era == 3 {
        "Mary"@
    } else if era == 4 {
        "Alonzo"@
    } else if era == 5 {
        "Babbage"@
    } else if era == 6 {
        "Conway"@
    } else {
        dec_of(era as nat)
    }
}

/// The fields the head-of-chain set holds, in order.
pub open spec fn member_keys(b: Block) -> Seq<Seq<char>> {
    let fixed = seq![
        "epoch_no"@,
        "height"@,
        "slot_no"@,
        "block_hash"@,
        "block_era"@,
        "transactions_count"@,
    ];
    if b.txs@.len() > 0 {
        fixed + seq!["first_transaction_hash"@, "last_transaction_hash"@]
    } else {
        fixed
    }
}

/// The values the head-of-chain set holds, in the same order.
pub open spec fn member_values(r: Reducer, b: Block) -> Seq<ValueV> {
    let fixed = seq![
        ValueV::BigInt(epoch_of(r.chain, b.slot) as i128),
        ValueV::BigInt(b.number as i128),
        ValueV::BigInt(b.slot as i128),
        ValueV::String(hex_of(b.hash@)),
        ValueV::String(era_name(b.era)),
        ValueV::String(dec_of(b.txs@.len() as nat)),
    ];
    if b.txs@.len() > 0 {
        fixed + seq![
            ValueV::String(hex_of(b.txs@.first().hash@)),
            ValueV::String(hex_of(b.txs@.last().hash@)),
        ]
    } else {
        fixed
    }
}

/// The single command of a block: one multi-field write under the prefix
/// (`last_block` by default).
pub open spec fn block_cmds(r: Reducer, b: Block, rollback: bool) -> Seq<CommandV> {
    if rollback {
        Seq::<CommandV>::empty()
    } else {
        forward_cmds(r, b)
    }
}

pub open spec fn forward_cmds(r: Reducer, b: Block) -> Seq<CommandV> {
    seq![
        CommandV::HashSetMulti(
            match r.config.key_prefix {
                Some(p) => p@,
                None => "last_block"@,
            },
            member_keys(b),
            member_values(r, b),
        ),
    ]
}

impl Reducer {
    /// Publish the head-of-chain fields of one block; the undo direction
    /// emits nothing (see the module note).
    pub fn reduce_block(&self, block: &Block, rollback: bool, output: &mut Vec<CRDTCommand>)
        requires
            self.chain.wf(),
        ensures
            cmds_view(final(output)@) == cmds_view(old(output)@) + block_cmds(
                *self,
                *block,
                rollback,
            ),
    {
        if rollback {
            proof {
                assert(cmds_view(output@) =~= cmds_view(output@) + block_cmds(
                    *self,
                    *block,
                    rollback,
                ));
            }
            return ;
        }
        proof {
            reveal_strlit("epoch_no");
            reveal_strlit("height");
            reveal_strlit("slot_no");
            reveal_strlit("block_hash");
            reveal_strlit("block_era");
            reveal_strlit("transactions_count");
            reveal_strlit("first_transaction_hash");
            reveal_strlit("last_transaction_hash");
            reveal_strlit("last_block");
            reveal_strlit("Byron");
            reveal_strlit("Shelley");
            reveal_strlit("Allegra");
            reveal_strlit("Mary");
            reveal_strlit("Alonzo");
            reveal_strlit("Babbage");
            reveal_strlit("Conway");
        }
        let key = match &self.config.key_prefix {
            Some(p) => p.clone(),
            None => String::from_str("last_block"),
        };
        let mut member_keys_v: Vec<String> = Vec::new();
        member_keys_v.push(String::from_str("epoch_no"));
        member_keys_v.push(String::from_str("height"));
        member_keys_v.push(String::from_str("slot_no"));
        member_keys_v.push(String::from_str("block_hash"));
        member_keys_v.push(String::from_str("block_era"));
        member_keys_v.push(String::from_str("transactions_count"));
        let era_str = if block.era == 0 {
            String::from_str("Byron")
        } else if block.era == 1 {
            String::from_str("Shelley")
        } else if block.era == 2 {
            String::from_str("Allegra")
        } else if block.era == 3 {
            String::from_str("Mary")
        } else if block.era == 4 {
            String::from_str("Alonzo")
        } else if block.era == 5 {
            String::from_str("Babbage")
        } else if block.era == 6 {
            String::from_str("Conway")
        } else {
            u64_string(block.era as u64)
        };
        let epoch = block_epoch(&self.chain, block.slot);
        let mut member_values_v: Vec<Value> = Vec::new();
        member_values_v.push(Value::BigInt(epoch as i128));
        member_values_v.push(Value::BigInt(block.number as i128));
        member_values_v.push(Value::BigInt(block.slot as i128));
        member_values_v.push(Value::String(hex_string(block.hash.as_slice())));
        member_values_v.push(Value::String(era_str));
        member_values_v.push(Value::String(u64_string(block.txs.len() as u64)));
        if block.txs.len() > 0 {
            member_keys_v.push(String::from_str("first_transaction_hash"));
            member_keys_v.push(String::from_str("last_transaction_hash"));
            member_values_v.push(
                Value::String(hex_string(block.txs[0].hash.as_slice())),
            );
            member_values_v.push(
                Value::String(hex_string(block.txs[block.txs.len() - 1].hash.as_slice())),
            );
        }
        proof {
            assert(member_keys_v@.map_values(|f: String| f@) =~= member_keys(*block));
            assert(member_values_v@.map_values(|v: Value| v@) =~= member_values(
                *self,
                *block,
            ));
        }
        let ghost mid = output@;
        output.push(CRDTCommand::HashSetMulti(key, member_keys_v, member_values_v));
        proof {
            lemma_cmds_view_push(mid, output@.last());
            assert(cmds_view(output@) =~= cmds_view(mid) + block_cmds(*self, *block, rollback));
        }
    }
}

impl Config {
    /// Register this projection.
    pub fn plugin(self, chain: &ChainWellKnownInfo) -> (r: crate::reducers::Reducer)
        ensures
            r matches crate::reducers::Reducer::LastBlockParameters(x) && x.config == self
                && x.chain == *chain,
    {
        crate::reducers::Reducer::LastBlockParameters(Reducer { config: self, chain: *chain })
    }
}

} // verus!
