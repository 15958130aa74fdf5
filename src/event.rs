use vstd::prelude::*;
use crate::types::{BlockHash, InscriptionId, OutPoint, RuneId, SatPoint, SpacedRune, Txid};

verus! {

/// How an event reaches its consumer.
#[derive(Clone, Copy, Debug, PartialEq, Eq, Structural)]
pub enum Delivery {
    /// Telemetry: dropped when the consumer's channel is full.
    Droppable,
    /// Part of the canonical transfer log: never dropped.
    Durable,
}

/// One externally visible change, in the order the changes happen.
#[derive(Clone, Debug, PartialEq, Eq)]
pub enum Event {
    InscriptionCreated {
        block_height: u32,
        charms: u16,
        inscription_id: InscriptionId,
        location: Option<SatPoint>,
        parent_inscription_ids: Vec<InscriptionId>,
        sequence_number: u32,
    },
    InscriptionTransferred {
        block_height: u32,
        inscription_id: InscriptionId,
        new_location: SatPoint,
        old_location: SatPoint,
        sequence_number: u32,
    },
    RuneBurned {
        amount: u128,
        block_height: u32,
        tx_index: u32,
        block_hash: BlockHash,
        rune_id: RuneId,
        txid: Txid,
    },
    RuneEtched {
        block_height: u32,
        tx_index: u32,
        block_hash: BlockHash,
        txid: Txid,
        divisibility: u8,
        number: u64,
        premine: u128,
        spaced_rune: SpacedRune,
        symbol: char,
        turbo: bool,
        amount: Option<u128>,
        cap: Option<u128>,
        height_start: Option<u64>,
        height_end: Option<u64>,
        offset_start: Option<u64>,
        offset_end: Option<u64>,
    },
    RuneMinted {
        amount: u128,
        block_height: u32,
        block_hash: BlockHash,
        tx_index: u32,
        rune_id: RuneId,
        txid: Txid,
    },
    RuneUtxoSpent {
        block_height: u32,
        tx_index: u32,
        block_hash: BlockHash,
        prev_outpoint: OutPoint,
        from: String,
        txid: Txid,
    },
    RuneUtxoCreated {
        block_height: u32,
        tx_index: u32,
        block_hash: BlockHash,
        outpoint: OutPoint,
        to: String,
        txid: Txid,
    },
    RuneDebited {
        amount: u128,
        block_height: u32,
        block_hash: BlockHash,
        tx_index: u32,
        from: String,
        rune_id: RuneId,
        txid: Txid,
    },
    RuneCredited {
        amount: u128,
        block_height: u32,
        block_hash: BlockHash,
        tx_index: u32,
        rune_id: RuneId,
        to: String,
        txid: Txid,
    },
    ReorgDetected {
        depth: u32,
        height: u32,
    },
    BlockStart {
        height: u32,
        block_hash: BlockHash,
    },
    BlockEnd {
        height: u32,
        block_hash: BlockHash,
        event_count: u32,
    },
}

impl Event {
    pub open spec fn delivery_spec(&self) -> Delivery {
        match self {
            Event::RuneMinted { .. } => Delivery::Droppable,
            _ => Delivery::Durable,
        }
    }

    /// Mint notifications are telemetry; every other event is durable.
    pub fn delivery(&self) -> (r: Delivery)
        ensures
            r == self.delivery_spec(),
    {
        match self {
            Event::RuneMinted { .. } => Delivery::Droppable,
            _ => Delivery::Durable,
        }
    }
}

} // verus!
