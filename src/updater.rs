use vstd::prelude::*;
use crate::types::{
    Artifact, Balance, BlockHash, Etching, InscriptionId, OutPoint, Rune, RuneEntry, RuneId,
    SpacedRune, Transaction, TxIn, TxOut, Txid,
};
use crate::event::Event;
use crate::rune::commitment_bytes;
use crate::commit::{CommitScan, scan_inputs, scan_commitment};
use crate::settle::{check_totals, distinct_ids, totals_fit};
use crate::transaction::{Settlement, settle_transaction, settles, unrouted, settled_credits};
use crate::outputs::{OutputRecord, credited_where};
use crate::flows::{flow_events, address_of, Flow, debit_flows, credit_flows, transfer_events, owned_total, has_flow, distinct_flows, transfer_key, owned_pair, received_total};
use crate::balances::{total_of, Credit};

verus! {

/// Why a block cannot be indexed. Each aborts the whole block.
#[derive(Clone, Copy, Debug, PartialEq, Eq, Structural)]
pub enum UpdateError {
    /// The chain-data provider has no data on a commitment it must know, or
    /// places it above the block being indexed.
    ChainData,
    /// A balance or counter left its integer range.
    Overflow,
    /// A rune with burns to record has no entry.
    MissingEntry,
}

/// The stored balances and owner of one unspent outpoint.
#[derive(Clone, Debug, PartialEq, Eq)]
pub struct OutpointRecord {
    pub outpoint: OutPoint,
    pub balances: Vec<Balance>,
    /// The output's address, empty where its script has no standard address.
    pub owner: String,
}

/// A rune id and its stored entry.
#[derive(Clone, Copy, Debug, PartialEq, Eq)]
pub struct EntryRecord {
    pub id: RuneId,
    pub entry: RuneEntry,
}

/// The rune state that a block's transactions update, and the events the
/// updates emit, in order.
#[derive(Clone, Debug, PartialEq, Eq)]
pub struct RuneUpdater {
    pub block_time: u32,
    pub block_hash: BlockHash,
    pub height: u32,
    /// The smallest name that may be etched at this height.
    pub minimum: Rune,
    /// How many runes have been etched.
    pub runes: u64,
    /// How many reserved names have been given out.
    pub reserved_runes: u64,
    /// Burn totals of this block, one per rune, recorded at its end.
    pub burned: Vec<Balance>,
    pub id_to_entry: Vec<EntryRecord>,
    pub rune_to_id: Vec<(Rune, RuneId)>,
    pub outpoint_to_balances: Vec<OutpointRecord>,
    pub transaction_id_to_rune: Vec<(Txid, Rune)>,
    pub inscription_id_to_sequence_number: Vec<(InscriptionId, u32)>,
    pub sequence_number_to_rune_id: Vec<(u32, RuneId)>,
    pub events: Vec<Event>,
}

/// `i` is the first index of `s` whose id is `id`.
pub open spec fn first_entry(s: Seq<EntryRecord>, id: RuneId, i: int) -> bool {
    0 <= i < s.len() && s[i].id == id && forall|j: int| 0 <= j < i ==> s[j].id != id
}

pub open spec fn has_entry(s: Seq<EntryRecord>, id: RuneId) -> bool {
    exists|i: int| 0 <= i < s.len() && s[i].id == id
}

/// The entry of `id` with one more mint counted.
pub open spec fn minted_once(r: EntryRecord) -> EntryRecord {
    EntryRecord { id: r.id, entry: RuneEntry { mints: (r.entry.mints + 1) as u128, ..r.entry } }
}

/// The rune an artifact asks to etch: `None` where it etches nothing,
/// `Some(None)` where it etches without naming a rune.
pub open spec fn etching_rune(a: Artifact) -> Option<Option<Rune>> {
    match a {
        Artifact::Runestone(r) => match r.etching {
            Some(e) => Some(e.rune),
            None => None,
        },
        Artifact::Cenotaph(c) => match c.etching {
            Some(rune) => Some(Some(rune)),
            None => None,
        },
    }
}

/// Some stored name binding is for `rune`.
pub open spec fn name_taken(s: Seq<(Rune, RuneId)>, rune: Rune) -> bool {
    exists|i: int| 0 <= i < s.len() && s[i].0 == rune
}

/// The entry that an accepted etching registers.
pub open spec fn new_entry(a: Artifact, id: RuneId, rune: Rune, txid: Txid, number: u64, timestamp: u64) -> RuneEntry {
    match a {
        Artifact::Runestone(r) if r.etching.is_some() => {
            let e = r.etching.unwrap();
            RuneEntry {
                block: id.block,
                burned: 0,
                divisibility: match e.divisibility { Some(d) => d, None => 0 },
                etching: txid,
                mints: 0,
                number,
                premine: match e.premine { Some(p) => p, None => 0 },
                spaced_rune: SpacedRune { rune, spacers: match e.spacers { Some(s) => s, None => 0 } },
                symbol: e.symbol,
                terms: e.terms,
                timestamp,
                turbo: e.turbo,
            }
        },
        _ => RuneEntry {
            block: id.block,
            burned: 0,
            divisibility: 0,
            etching: txid,
            mints: 0,
            number,
            premine: 0,
            spaced_rune: SpacedRune { rune, spacers: 0 },
            symbol: None,
            terms: None,
            timestamp,
            turbo: false,
        },
    }
}

/// The event that announces an etching.
pub open spec fn etched_event(height: u32, block_hash: BlockHash, id: RuneId, txid: Txid, e: RuneEntry) -> Event {
    Event::RuneEtched {
        block_height: height,
        tx_index: id.tx,
        block_hash,
        txid,
        divisibility: e.divisibility,
        number: e.number,
        premine: e.premine,
        spaced_rune: e.spaced_rune,
        symbol: match e.symbol { Some(c) => c, None => '\0' },
        turbo: e.turbo,
        amount: match e.terms { Some(t) => t.amount, None => None },
        cap: match e.terms { Some(t) => t.cap, None => None },
        height_start: match e.terms { Some(t) => t.height.0, None => None },
        height_end: match e.terms { Some(t) => t.height.1, None => None },
        offset_start: match e.terms { Some(t) => t.offset.0, None => None },
        offset_end: match e.terms { Some(t) => t.offset.1, None => None },
    }
}

fn flatten_event(height: u32, block_hash: BlockHash, id: RuneId, txid: Txid, e: RuneEntry) -> (r: Event)
    ensures
        r == etched_event(height, block_hash, id, txid, e),
{
    let (amount, cap, height_start, height_end, offset_start, offset_end) = match e.terms {
        Some(t) => (t.amount, t.cap, t.height.0, t.height.1, t.offset.0, t.offset.1),
        None => (None, None, None, None, None, None),
    };
    Event::RuneEtched {
        block_height: height,
        tx_index: id.tx,
        block_hash,
        txid,
        divisibility: e.divisibility,
        number: e.number,
        premine: e.premine,
        spaced_rune: e.spaced_rune,
        symbol: match e.symbol { Some(c) => c, None => '\0' },
        turbo: e.turbo,
        amount,
        cap,
        height_start,
        height_end,
        offset_start,
        offset_end,
    }
}

/// No two stored records are for the same outpoint.
pub open spec fn distinct_outpoints(s: Seq<OutpointRecord>) -> bool {
    forall|i: int, j: int| 0 <= i < j < s.len() ==> s[i].outpoint != s[j].outpoint
}

/// A stored record as plain values: outpoint, balances, owner.
pub open spec fn record_view(r: OutpointRecord) -> (OutPoint, Seq<Balance>, Seq<char>) {
    (r.outpoint, r.balances@, r.owner@)
}

/// The stored records as plain values.
pub open spec fn views(s: Seq<OutpointRecord>) -> Seq<(OutPoint, Seq<Balance>, Seq<char>)> {
    s.map_values(|r: OutpointRecord| record_view(r))
}

/// `i` is the first index of `s` for outpoint `op`.
pub open spec fn first_view(s: Seq<(OutPoint, Seq<Balance>, Seq<char>)>, op: OutPoint, i: int) -> bool {
    0 <= i < s.len() && s[i].0 == op && forall|j: int| 0 <= j < i ==> s[j].0 != op
}

/// `s` with `v` stored: replacing the record of its outpoint, or added.
pub open spec fn upsert_view(s: Seq<(OutPoint, Seq<Balance>, Seq<char>)>, v: (OutPoint, Seq<Balance>, Seq<char>))
    -> Seq<(OutPoint, Seq<Balance>, Seq<char>)> {
    if exists|i: int| 0 <= i < s.len() && s[i].0 == v.0 {
        s.update(choose|i: int| first_view(s, v.0, i), v)
    } else {
        s.push(v)
    }
}

/// The record that output record `rec` of transaction `txid` is stored as.
pub open spec fn created_view(txid: Txid, outs: Seq<TxOut>, rec: OutputRecord) -> (OutPoint, Seq<Balance>, Seq<char>) {
    (OutPoint { txid, vout: rec.vout as u32 }, rec.balances@, address_of(outs, rec.vout as int))
}

/// `s` with the output records of transaction `txid` stored, in order.
pub open spec fn store_views(
    s: Seq<(OutPoint, Seq<Balance>, Seq<char>)>,
    records: Seq<OutputRecord>,
    txid: Txid,
    outs: Seq<TxOut>,
) -> Seq<(OutPoint, Seq<Balance>, Seq<char>)>
    decreases records.len(),
{
    if records.len() == 0 {
        s
    } else {
        upsert_view(store_views(s, records.drop_last(), txid, outs), created_view(txid, outs, records.last()))
    }
}

/// `i` is the first index of `s` that holds the inscription `id`.
pub open spec fn first_sequence(s: Seq<(InscriptionId, u32)>, id: InscriptionId, i: int) -> bool {
    0 <= i < s.len() && s[i].0 == id && forall|j: int| 0 <= j < i ==> s[j].0 != id
}

/// The sequence number stored for the inscription `id`, if any.
pub open spec fn sequence_of(s: Seq<(InscriptionId, u32)>, id: InscriptionId) -> Option<u32> {
    if exists|i: int| 0 <= i < s.len() && s[i].0 == id {
        Some(s[choose|i: int| first_sequence(s, id, i)].1)
    } else {
        None
    }
}

/// `i` is the first index of `s` that stores `op`.
pub open spec fn first_outpoint(s: Seq<OutpointRecord>, op: OutPoint, i: int) -> bool {
    0 <= i < s.len() && s[i].outpoint == op && forall|j: int| 0 <= j < i ==> s[j].outpoint != op
}

pub open spec fn has_outpoint(s: Seq<OutpointRecord>, op: OutPoint) -> bool {
    exists|i: int| 0 <= i < s.len() && s[i].outpoint == op
}

/// The balances that the inputs of a transaction bring in, oldest first.
#[derive(Clone, Debug, PartialEq, Eq)]
pub struct Unallocated {
    pub lots: Vec<Balance>,
    /// The owner each lot came from; `None` for newly created supply.
    pub owners: Vec<Option<String>>,
}

/// The stored records left after the inputs are spent, the lots they bring,
/// the owner of each lot, and the records spent, in input order.
pub open spec fn collect(recs: Seq<OutpointRecord>, inputs: Seq<TxIn>)
    -> (Seq<OutpointRecord>, Seq<Balance>, Seq<Option<String>>, Seq<OutpointRecord>)
    decreases inputs.len(),
{
    if inputs.len() == 0 {
        (recs, Seq::empty(), Seq::empty(), Seq::empty())
    } else {
        let (rs, lots, owners, spent) = collect(recs, inputs.drop_last());
        let op = inputs.last().previous_output;
        if has_outpoint(rs, op) {
            let i = choose|i: int| first_outpoint(rs, op, i);
            (
                rs.remove(i),
                lots + rs[i].balances@,
                owners + Seq::new(rs[i].balances@.len(), |k: int| Some(rs[i].owner)),
                spent.push(rs[i]),
            )
        } else {
            (rs, lots, owners, spent)
        }
    }
}

/// The event that records the spending of a stored outpoint.
pub open spec fn spent_event(height: u32, block_hash: BlockHash, tx_index: u32, txid: Txid, rec: OutpointRecord) -> Event {
    Event::RuneUtxoSpent { block_height: height, tx_index, block_hash, prev_outpoint: rec.outpoint, from: rec.owner, txid }
}

impl RuneUpdater {
    /// The index of the record of `op`, if there is one.
    pub fn find_outpoint(&self, op: OutPoint) -> (r: Option<usize>)
        ensures
            r.is_some() ==> first_outpoint(self.outpoint_to_balances@, op, r.unwrap() as int),
            r.is_none() ==> !has_outpoint(self.outpoint_to_balances@, op),
    {
        let mut i: usize = 0;
        while i < self.outpoint_to_balances.len()
            invariant
                i <= self.outpoint_to_balances@.len(),
                forall|j: int| 0 <= j < i ==> self.outpoint_to_balances@[j].outpoint != op,
            decreases self.outpoint_to_balances.len() - i,
        {
            if self.outpoint_to_balances[i].outpoint == op {
                return Some(i);
            }
            i = i + 1;
        }
        None
    }

    /// Takes the stored balances of every outpoint that `tx` spends out of
    /// the store, and records each spend as an event.
    pub fn unallocated(&mut self, txid: Txid, tx_index: u32, tx: &Transaction) -> (r: Unallocated)
        ensures
            ({
                let (rs, lots, owners, spent) = collect(old(self).outpoint_to_balances@, tx.input@);
                &&& final(self).outpoint_to_balances@ == rs
                &&& r.lots@ == lots
                &&& r.owners@ == owners
                &&& r.owners@.len() == r.lots@.len()
                &&& final(self).events@ == old(self).events@ + Seq::new(spent.len(), |k: int|
                    spent_event(old(self).height, old(self).block_hash, tx_index, txid, spent[k]))
            }),
            *final(self) == (RuneUpdater {
                outpoint_to_balances: final(self).outpoint_to_balances,
                events: final(self).events,
                ..*old(self)
            }),
            distinct_outpoints(old(self).outpoint_to_balances@) ==> distinct_outpoints(final(self).outpoint_to_balances@),
    {
        let ghost s0 = *self;
        let ghost ev0 = self.events@;
        let mut lots: Vec<Balance> = Vec::new();
        let mut owners: Vec<Option<String>> = Vec::new();
        let mut n: usize = 0;
        while n < tx.input.len()
            invariant
                n <= tx.input@.len(),
                *self == (RuneUpdater {
                    outpoint_to_balances: self.outpoint_to_balances,
                    events: self.events,
                    ..s0
                }),
                distinct_outpoints(s0.outpoint_to_balances@) ==> distinct_outpoints(self.outpoint_to_balances@),
                ({
                    let (rs, l, o, spent) = collect(s0.outpoint_to_balances@, tx.input@.take(n as int));
                    &&& self.outpoint_to_balances@ == rs
                    &&& lots@ == l
                    &&& owners@ == o
                    &&& owners@.len() == lots@.len()
                    &&& self.events@ == ev0 + Seq::new(spent.len(), |k: int|
                        spent_event(s0.height, s0.block_hash, tx_index, txid, spent[k]))
                }),
            decreases tx.input.len() - n,
        {
            proof {
                assert(tx.input@.take(n + 1).drop_last() =~= tx.input@.take(n as int));
            }
            let ghost prev = collect(s0.outpoint_to_balances@, tx.input@.take(n as int));
            let op = tx.input[n].previous_output;
            match self.find_outpoint(op) {
                None => {},
                Some(i) => {
                    proof {
                        assert(has_outpoint(prev.0, op));
                        assert(forall|j: int| first_outpoint(prev.0, op, j) ==> j == i);
                    }
                    let ghost before_remove = self.outpoint_to_balances@;
                    let rec = self.outpoint_to_balances.remove(i);
                    proof {
                        if distinct_outpoints(before_remove) {
                            assert forall|a: int, b: int| 0 <= a < b < self.outpoint_to_balances@.len()
                                implies self.outpoint_to_balances@[a].outpoint != self.outpoint_to_balances@[b].outpoint by {
                                let a2 = if a < i { a } else { a + 1 };
                                let b2 = if b < i { b } else { b + 1 };
                                assert(self.outpoint_to_balances@[a] == before_remove[a2]);
                                assert(self.outpoint_to_balances@[b] == before_remove[b2]);
                            }
                        }
                    }
                    self.events.push(Event::RuneUtxoSpent {
                        block_height: self.height,
                        tx_index,
                        block_hash: self.block_hash,
                        prev_outpoint: rec.outpoint,
                        from: rec.owner.clone(),
                        txid,
                    });
                    proof {
                        let spent = collect(s0.outpoint_to_balances@, tx.input@.take(n + 1)).3;
                        assert(self.events@ =~= ev0 + Seq::new(spent.len(), |k: int|
                            spent_event(s0.height, s0.block_hash, tx_index, txid, spent[k])));
                    }
                    let ghost l0 = lots@;
                    let ghost o0 = owners@;
                    let mut j: usize = 0;
                    while j < rec.balances.len()
                        invariant
                            j <= rec.balances@.len(),
                            lots@ == l0 + rec.balances@.take(j as int),
                            l0.len() == o0.len(),
                            owners@ == o0 + Seq::new(j as nat, |k: int| Some(rec.owner)),
                        decreases rec.balances.len() - j,
                    {
                        lots.push(rec.balances[j]);
                        owners.push(Some(rec.owner.clone()));
                        proof {
                            assert(lots@ =~= l0 + rec.balances@.take(j + 1));
                            assert(owners@ =~= o0 + Seq::new((j + 1) as nat, |k: int| Some(rec.owner)));
                        }
                        j = j + 1;
                    }
                    proof {
                        assert(rec.balances@.take(j as int) =~= rec.balances@);
                    }
                },
            }
            n = n + 1;
        }
        proof {
            assert(tx.input@.take(n as int) =~= tx.input@);
        }
        Unallocated { lots, owners }
    }

    /// Whether an input of `tx` commits to `rune`: pushes its commitment in
    /// a tapscript and spends a taproot output confirmed deeply enough.
    pub fn tx_commits_to_rune(&self, tx: &Transaction, rune: Rune) -> (r: Result<bool, UpdateError>)
        ensures
            r == match scan_inputs(tx.input@, 0, commitment_bytes(rune.0 as nat), self.height as u64) {
                CommitScan::Confirmed => Ok(true),
                CommitScan::Absent => Ok(false),
                CommitScan::Fault => Err::<bool, UpdateError>(UpdateError::ChainData),
            },
    {
        let c = rune.commitment();
        match scan_commitment(&tx.input, &c, self.height as u64) {
            CommitScan::Confirmed => Ok(true),
            CommitScan::Absent => Ok(false),
            CommitScan::Fault => Err(UpdateError::ChainData),
        }
    }

    /// Whether a name binding for `rune` is stored.
    pub fn is_name_taken(&self, rune: Rune) -> (r: bool)
        ensures
            r == name_taken(self.rune_to_id@, rune),
    {
        let mut i: usize = 0;
        while i < self.rune_to_id.len()
            invariant
                i <= self.rune_to_id@.len(),
                forall|j: int| 0 <= j < i ==> self.rune_to_id@[j].0 != rune,
            decreases self.rune_to_id.len() - i,
        {
            if self.rune_to_id[i].0 == rune {
                return true;
            }
            i = i + 1;
        }
        false
    }

    /// Decides whether the artifact of transaction `tx_index` etches a rune,
    /// and which. A named rune must be at least the minimum, outside the
    /// reserved range, free, and committed to by an input; an unnamed one
    /// gets the next reserved name.
    pub fn etched(&mut self, tx_index: u32, tx: &Transaction, artifact: &Artifact)
        -> (r: Result<Option<(RuneId, Rune)>, UpdateError>)
        ensures
            etching_rune(*artifact).is_none() ==> r == Ok::<Option<(RuneId, Rune)>, UpdateError>(None)
                && *final(self) == *old(self),
            etching_rune(*artifact) matches Some(Some(rune)) ==> {
                &&& *final(self) == *old(self)
                &&& r == if rune.0 < old(self).minimum.0 || rune.is_reserved_spec()
                    || name_taken(old(self).rune_to_id@, rune) {
                    Ok(None)
                } else {
                    match scan_inputs(tx.input@, 0, commitment_bytes(rune.0 as nat), old(self).height as u64) {
                        CommitScan::Confirmed => Ok(Some((RuneId { block: old(self).height as u64, tx: tx_index }, rune))),
                        CommitScan::Absent => Ok(None),
                        CommitScan::Fault => Err(UpdateError::ChainData),
                    }
                }
            },
            etching_rune(*artifact) == Some(None::<Rune>) ==> if old(self).reserved_runes == u64::MAX {
                r == Err::<Option<(RuneId, Rune)>, UpdateError>(UpdateError::Overflow) && *final(self) == *old(self)
            } else {
                &&& r == Ok::<Option<(RuneId, Rune)>, UpdateError>(Some((
                    RuneId { block: old(self).height as u64, tx: tx_index },
                    Rune::reserved_spec(old(self).height as u64, tx_index))))
                &&& *final(self) == (RuneUpdater { reserved_runes: (old(self).reserved_runes + 1) as u64, ..*old(self) })
            },
    {
        let rune: Option<Rune> = match artifact {
            Artifact::Runestone(runestone) => match runestone.etching {
                Some(etching) => etching.rune,
                None => return Ok(None),
            },
            Artifact::Cenotaph(cenotaph) => match cenotaph.etching {
                Some(rune) => Some(rune),
                None => return Ok(None),
            },
        };
        let rune = match rune {
            Some(rune) => {
                if rune.0 < self.minimum.0 || rune.is_reserved() || self.is_name_taken(rune) {
                    return Ok(None);
                }
                match self.tx_commits_to_rune(tx, rune) {
                    Err(e) => return Err(e),
                    Ok(false) => return Ok(None),
                    Ok(true) => {},
                }
                rune
            },
            None => {
                if self.reserved_runes == u64::MAX {
                    return Err(UpdateError::Overflow);
                }
                self.reserved_runes = self.reserved_runes + 1;
                Rune::reserved(self.height as u64, tx_index)
            },
        };
        Ok(Some((RuneId { block: self.height as u64, tx: tx_index }, rune)))
    }

    /// The sequence number of the inscription `id`, if one is stored.
    pub fn find_sequence_number(&self, id: InscriptionId) -> (r: Option<u32>)
        ensures
            r == sequence_of(self.inscription_id_to_sequence_number@, id),
    {
        let mut i: usize = 0;
        while i < self.inscription_id_to_sequence_number.len()
            invariant
                i <= self.inscription_id_to_sequence_number@.len(),
                forall|j: int| 0 <= j < i ==> self.inscription_id_to_sequence_number@[j].0 != id,
            decreases self.inscription_id_to_sequence_number.len() - i,
        {
            let (key, number) = self.inscription_id_to_sequence_number[i];
            if key == id {
                proof {
                    let s = self.inscription_id_to_sequence_number@;
                    assert(first_sequence(s, id, i as int));
                    assert(forall|j: int| first_sequence(s, id, j) ==> j == i);
                }
                return Some(number);
            }
            i = i + 1;
        }
        None
    }

    /// Registers the rune `rune` etched by `txid` under `id`: its entry, its
    /// name and transaction bindings, the rune counter, a link to an
    /// inscription revealed by the same transaction, and an etching event.
    pub fn create_rune_entry(&mut self, txid: Txid, artifact: &Artifact, id: RuneId, rune: Rune) -> (r: Result<(), UpdateError>)
        ensures
            old(self).runes == u64::MAX ==> r == Err::<(), UpdateError>(UpdateError::Overflow) && *final(self) == *old(self),
            old(self).runes < u64::MAX ==> {
                let entry = new_entry(*artifact, id, rune, txid, old(self).runes, old(self).block_time as u64);
                &&& r == Ok::<(), UpdateError>(())
                &&& final(self).runes == old(self).runes + 1
                &&& final(self).id_to_entry@ == old(self).id_to_entry@.push(EntryRecord { id, entry })
                &&& final(self).rune_to_id@ == old(self).rune_to_id@.push((rune, id))
                &&& final(self).transaction_id_to_rune@ == old(self).transaction_id_to_rune@.push((txid, rune))
                &&& final(self).events@ == old(self).events@.push(etched_event(old(self).height, old(self).block_hash, id, txid, entry))
                &&& final(self).sequence_number_to_rune_id@ == match sequence_of(
                    old(self).inscription_id_to_sequence_number@, InscriptionId { txid, index: 0 }) {
                    Some(n) => old(self).sequence_number_to_rune_id@.push((n, id)),
                    None => old(self).sequence_number_to_rune_id@,
                }
                &&& *final(self) == (RuneUpdater {
                    runes: final(self).runes,
                    id_to_entry: final(self).id_to_entry,
                    rune_to_id: final(self).rune_to_id,
                    transaction_id_to_rune: final(self).transaction_id_to_rune,
                    events: final(self).events,
                    sequence_number_to_rune_id: final(self).sequence_number_to_rune_id,
                    ..*old(self)
                })
            },
    {
        if self.runes == u64::MAX {
            return Err(UpdateError::Overflow);
        }
        self.rune_to_id.push((rune, id));
        self.transaction_id_to_rune.push((txid, rune));
        let number = self.runes;
        self.runes = self.runes + 1;
        let timestamp = self.block_time as u64;
        let entry = match artifact {
            Artifact::Runestone(runestone) if runestone.etching.is_some() => {
                let e: Etching = runestone.etching.unwrap();
                RuneEntry {
                    block: id.block,
                    burned: 0,
                    divisibility: match e.divisibility { Some(d) => d, None => 0 },
                    etching: txid,
                    mints: 0,
                    number,
                    premine: match e.premine { Some(p) => p, None => 0 },
                    spaced_rune: SpacedRune { rune, spacers: match e.spacers { Some(s) => s, None => 0 } },
                    symbol: e.symbol,
                    terms: e.terms,
                    timestamp,
                    turbo: e.turbo,
                }
            },
            _ => RuneEntry {
                block: id.block,
                burned: 0,
                divisibility: 0,
                etching: txid,
                mints: 0,
                number,
                premine: 0,
                spaced_rune: SpacedRune { rune, spacers: 0 },
                symbol: None,
                terms: None,
                timestamp,
                turbo: false,
            },
        };
        self.id_to_entry.push(EntryRecord { id, entry });
        let event = flatten_event(self.height, self.block_hash, id, txid, entry);
        self.events.push(event);
        if let Some(sequence_number) = self.find_sequence_number(InscriptionId { txid, index: 0 }) {
            self.sequence_number_to_rune_id.push((sequence_number, id));
        }
        Ok(())
    }

    /// The index of the entry of `id`, if there is one.
    pub fn find_entry(&self, id: RuneId) -> (r: Option<usize>)
        ensures
            r.is_some() ==> first_entry(self.id_to_entry@, id, r.unwrap() as int),
            r.is_none() ==> !has_entry(self.id_to_entry@, id),
    {
        let mut i: usize = 0;
        while i < self.id_to_entry.len()
            invariant
                i <= self.id_to_entry@.len(),
                forall|j: int| 0 <= j < i ==> self.id_to_entry@[j].id != id,
            decreases self.id_to_entry.len() - i,
        {
            if self.id_to_entry[i].id == id {
                return Some(i);
            }
            i = i + 1;
        }
        None
    }

    /// Mints `id` at this height: where its terms allow, counts the mint and
    /// returns the amount granted; otherwise changes nothing.
    pub fn mint(&mut self, id: RuneId) -> (r: Option<u128>)
        ensures
            *final(self) == (RuneUpdater { id_to_entry: final(self).id_to_entry, ..*old(self) }),
            final(self).id_to_entry@.len() == old(self).id_to_entry@.len(),
            r == minted(old(self).id_to_entry@, id, old(self).height),
            final(self).id_to_entry@ == after_mint_id(old(self).id_to_entry@, id, old(self).height),
            !has_entry(old(self).id_to_entry@, id) ==> r.is_none() && *final(self) == *old(self),
            forall|i: int| #[trigger] first_entry(old(self).id_to_entry@, id, i) ==> {
                match old(self).id_to_entry@[i].entry.mintable_spec(old(self).height as u64) {
                    Err(_) => r.is_none() && *final(self) == *old(self),
                    Ok(a) => r == Some(a) && *final(self) == (RuneUpdater {
                        id_to_entry: final(self).id_to_entry,
                        ..*old(self)
                    }) && final(self).id_to_entry@ == old(self).id_to_entry@.update(i, minted_once(old(self).id_to_entry@[i])),
                }
            },
    {
        let i = match self.find_entry(id) {
            None => return None,
            Some(i) => i,
        };
        proof {
            assert(has_entry(self.id_to_entry@, id));
            assert(forall|j: int| first_entry(self.id_to_entry@, id, j) ==> j == i);
        }
        let record = self.id_to_entry[i];
        match record.entry.mintable(self.height as u64) {
            Err(_) => None,
            Ok(amount) => {
                let entry = RuneEntry { mints: record.entry.mints + 1, ..record.entry };
                self.id_to_entry.set(i, EntryRecord { id: record.id, entry });
                Some(amount)
            },
        }
    }
}

/// The message etches a named rune that no input commits to with a
/// confirmed commitment.
pub open spec fn unconfirmed_etching(artifact: Option<Artifact>, inputs: Seq<TxIn>, height: u32) -> bool {
    match artifact {
        Some(a) => match etching_rune(a) {
            Some(Some(rune)) => scan_inputs(inputs, 0, commitment_bytes(rune.0 as nat), height as u64)
                != CommitScan::Confirmed,
            _ => false,
        },
        None => false,
    }
}

/// What a mint of `id` at `height` grants, given the stored entries.
pub open spec fn minted(entries: Seq<EntryRecord>, id: RuneId, height: u32) -> Option<u128> {
    if has_entry(entries, id) {
        let i = choose|i: int| first_entry(entries, id, i);
        match entries[i].entry.mintable_spec(height as u64) {
            Ok(amount) => Some(amount),
            Err(_) => None,
        }
    } else {
        None
    }
}

/// The entries after a mint of `id` at `height`: the mint is counted where
/// it grants anything.
pub open spec fn after_mint_id(entries: Seq<EntryRecord>, id: RuneId, height: u32) -> Seq<EntryRecord> {
    if minted(entries, id, height).is_some() {
        let i = choose|i: int| first_entry(entries, id, i);
        entries.update(i, minted_once(entries[i]))
    } else {
        entries
    }
}

/// The entries after the message's mint.
pub open spec fn after_mint(entries: Seq<EntryRecord>, artifact: Option<Artifact>, height: u32) -> Seq<EntryRecord> {
    match artifact {
        Some(a) => match a.mint_spec() {
            Some(id) => after_mint_id(entries, id, height),
            None => entries,
        },
        None => entries,
    }
}

/// The lot that the message's mint adds, if it grants anything.
pub open spec fn mint_part(entries: Seq<EntryRecord>, artifact: Option<Artifact>, height: u32) -> Seq<Balance> {
    match artifact {
        Some(a) => match a.mint_spec() {
            Some(id) => match minted(entries, id, height) {
                Some(amount) => seq![Balance { id, amount }],
                None => Seq::empty(),
            },
            None => Seq::empty(),
        },
        None => Seq::empty(),
    }
}

/// The premine lot of a rune that a well-formed message etched as `etched`.
pub open spec fn premine_part(artifact: Option<Artifact>, etched: Option<RuneId>) -> Seq<Balance> {
    match (artifact, etched) {
        (Some(Artifact::Runestone(r)), Some(id)) => seq![Balance {
            id,
            amount: match r.etching {
                Some(e) => match e.premine {
                    Some(p) => p,
                    None => 0,
                },
                None => 0,
            },
        }],
        _ => Seq::empty(),
    }
}

/// The rune that transaction `tx_index` etches where its etching is accepted:
/// the name it gives, or else the reserved name of the transaction.
pub open spec fn etched_rune(u: RuneUpdater, tx_index: u32, artifact: Option<Artifact>) -> Rune {
    match artifact {
        Some(a) => match etching_rune(a) {
            Some(Some(rune)) => rune,
            _ => Rune::reserved_spec(u.height as u64, tx_index),
        },
        None => Rune::reserved_spec(u.height as u64, tx_index),
    }
}

/// The etching, if any, does not end in a fault: the chain data on a named
/// rune that passes the name checks is consistent, and an unnamed rune finds
/// the reserved-name counter below its maximum.
pub open spec fn etch_ok(u: RuneUpdater, tx: Transaction, artifact: Option<Artifact>) -> bool {
    match artifact {
        None => true,
        Some(a) => match etching_rune(a) {
            None => true,
            Some(None) => u.reserved_runes < u64::MAX,
            Some(Some(rune)) => rune.0 < u.minimum.0 || rune.is_reserved_spec() || name_taken(u.rune_to_id@, rune)
                || scan_inputs(tx.input@, 0, commitment_bytes(rune.0 as nat), u.height as u64) != CommitScan::Fault,
        },
    }
}

/// The lots entering transaction `tx`, oldest first: those of its spent
/// inputs, then the mint, then the premine.
pub open spec fn entering(u: RuneUpdater, tx_index: u32, tx: Transaction, artifact: Option<Artifact>) -> Seq<Balance> {
    collect(u.outpoint_to_balances@, tx.input@).1 + mint_part(u.id_to_entry@, artifact, u.height)
        + premine_part(artifact, etched_spec(u, tx_index, tx, artifact))
}

/// How much of `x` transaction `tx` burns.
pub open spec fn burn_amount(u: RuneUpdater, tx_index: u32, tx: Transaction, artifact: Option<Artifact>, x: RuneId) -> int {
    let lots = entering(u, tx_index, tx, artifact);
    let e = etched_spec(u, tx_index, tx, artifact);
    unrouted(lots, artifact, e, tx.output@, x)
        + credited_where(settled_credits(lots, artifact, e, tx.output@), tx.output@, tx.output@.len(), x, true)
}

/// The tables after transaction `tx` is indexed on state `u`: the mint is
/// counted; an etched rune gets its entry, its name and transaction
/// bindings, its number and its inscription link; an unnamed etching takes
/// a reserved name; the block's identity and the inscription table stay.
pub open spec fn tables_after(u: RuneUpdater, tx_index: u32, tx: Transaction, txid: Txid, artifact: Option<Artifact>, f: RuneUpdater) -> bool {
    let entries = after_mint(u.id_to_entry@, artifact, u.height);
    let rune = etched_rune(u, tx_index, artifact);
    &&& f.block_time == u.block_time
    &&& f.block_hash == u.block_hash
    &&& f.height == u.height
    &&& f.minimum == u.minimum
    &&& f.inscription_id_to_sequence_number == u.inscription_id_to_sequence_number
    &&& f.reserved_runes == u.reserved_runes + if artifact matches Some(a) && etching_rune(a) == Some(None::<Rune>) { 1int } else { 0 }
    &&& match etched_spec(u, tx_index, tx, artifact) {
        Some(id) => {
            &&& f.id_to_entry@ == entries.push(EntryRecord {
                id,
                entry: new_entry(artifact.unwrap(), id, rune, txid, u.runes, u.block_time as u64),
            })
            &&& f.rune_to_id@ == u.rune_to_id@.push((rune, id))
            &&& f.transaction_id_to_rune@ == u.transaction_id_to_rune@.push((txid, rune))
            &&& f.runes == u.runes + 1
            &&& f.sequence_number_to_rune_id@ == match sequence_of(
                u.inscription_id_to_sequence_number@, InscriptionId { txid, index: 0 }) {
                Some(n) => u.sequence_number_to_rune_id@.push((n, id)),
                None => u.sequence_number_to_rune_id@,
            }
        },
        None => {
            &&& f.id_to_entry@ == entries
            &&& f.rune_to_id@ == u.rune_to_id@
            &&& f.transaction_id_to_rune@ == u.transaction_id_to_rune@
            &&& f.runes == u.runes
            &&& f.sequence_number_to_rune_id@ == u.sequence_number_to_rune_id@
        },
    }
}

/// A copy of `s`.
pub fn copy_balances(s: &Vec<Balance>) -> (r: Vec<Balance>)
    ensures
        r@ == s@,
{
    let mut r: Vec<Balance> = Vec::new();
    let mut i: usize = 0;
    while i < s.len()
        invariant
            i <= s@.len(),
            r@ == s@.take(i as int),
        decreases s.len() - i,
    {
        r.push(s[i]);
        proof {
            assert(r@ =~= s@.take(i + 1));
        }
        i = i + 1;
    }
    proof {
        assert(s@.take(i as int) =~= s@);
    }
    r
}

/// The events recording the spends of `spent`.
pub open spec fn spent_events(u: RuneUpdater, tx_index: u32, txid: Txid, spent: Seq<OutpointRecord>) -> Seq<Event> {
    Seq::new(spent.len(), |k: int| spent_event(u.height, u.block_hash, tx_index, txid, spent[k]))
}

/// The event of the message's mint, where it grants anything.
pub open spec fn mint_events(u: RuneUpdater, tx_index: u32, txid: Txid, artifact: Option<Artifact>) -> Seq<Event> {
    match artifact {
        Some(a) => match a.mint_spec() {
            Some(id) => match minted(u.id_to_entry@, id, u.height) {
                Some(amount) => seq![Event::RuneMinted {
                    amount,
                    block_height: u.height,
                    block_hash: u.block_hash,
                    tx_index,
                    rune_id: id,
                    txid,
                }],
                None => Seq::empty(),
            },
            None => Seq::empty(),
        },
        None => Seq::empty(),
    }
}

/// The event of the etching, where a rune is etched.
pub open spec fn etch_events(u: RuneUpdater, tx_index: u32, tx: Transaction, txid: Txid, artifact: Option<Artifact>) -> Seq<Event> {
    match etched_spec(u, tx_index, tx, artifact) {
        Some(id) => seq![etched_event(u.height, u.block_hash, id, txid,
            new_entry(artifact.unwrap(), id, etched_rune(u, tx_index, artifact), txid, u.runes, u.block_time as u64))],
        None => Seq::empty(),
    }
}

/// The events recording the burns of `burned`.
pub open spec fn burn_events(height: u32, block_hash: BlockHash, tx_index: u32, txid: Txid, burned: Seq<Balance>) -> Seq<Event> {
    Seq::new(burned.len(), |i: int| Event::RuneBurned {
        amount: burned[i].amount,
        block_height: height,
        tx_index,
        block_hash,
        rune_id: burned[i].id,
        txid,
    })
}

/// `e` records the creation of the outpoint that keeps output record `rec`.
pub open spec fn created_event(e: Event, height: u32, block_hash: BlockHash, tx_index: u32, txid: Txid, outs: Seq<TxOut>, rec: OutputRecord) -> bool {
    match e {
        Event::RuneUtxoCreated { block_height, tx_index: t, block_hash: h, outpoint, to, txid: id } =>
            block_height == height && t == tx_index && h == block_hash && id == txid
                && outpoint == (OutPoint { txid, vout: rec.vout as u32 }) && to@ == address_of(outs, rec.vout as int),
        _ => false,
    }
}

/// The events that indexing transaction `tx` on state `u` appends, in order:
/// the spends, the mint, the etching, one creation per output record, the
/// debits and credits of `o.flows`, and the burns.
pub open spec fn events_after(u: RuneUpdater, f: RuneUpdater, tx_index: u32, tx: Transaction, txid: Txid, artifact: Option<Artifact>, o: TxOutcome) -> bool {
    let pre = u.events@ + spent_events(u, tx_index, txid, collect(u.outpoint_to_balances@, tx.input@).3)
        + mint_events(u, tx_index, txid, artifact) + etch_events(u, tx_index, tx, txid, artifact);
    let records = o.settlement.records@;
    let tail = flow_events(o.flows@, u.height, u.block_hash, tx_index, txid)
        + burn_events(u.height, u.block_hash, tx_index, txid, o.settlement.burned@);
    &&& f.events@.len() == pre.len() + records.len() + tail.len()
    &&& f.events@.take(pre.len() as int) == pre
    &&& forall|k: int| 0 <= k < records.len() ==>
        created_event(#[trigger] f.events@[pre.len() + k], u.height, u.block_hash, tx_index, txid, tx.output@, records[k])
    &&& f.events@.skip((pre.len() + records.len()) as int) == tail
}

/// What indexing a transaction yields: how its runes settled, and what each
/// address gave up and received of each rune.
#[derive(Clone, Debug, PartialEq, Eq)]
pub struct TxOutcome {
    pub settlement: Settlement,
    pub flows: Vec<Flow>,
}

/// `flows` are the address flows of a transaction: one per address and rune,
/// debiting what the owned entering lots held and crediting what the records
/// give to outputs of that address, and none for a pair with neither.
pub open spec fn flows_exact(
    flows: Seq<Flow>,
    lots: Seq<Balance>,
    owners: Seq<Option<String>>,
    records: Seq<OutputRecord>,
    outs: Seq<TxOut>,
) -> bool {
    &&& distinct_flows(flows)
    &&& forall|k: int| 0 <= k < flows.len() ==> {
        let f = #[trigger] flows[k];
        f.debit == owned_total(lots, owners, f.address@, f.id)
            && f.credit == received_total(records, outs, f.address@, f.id)
    }
    &&& forall|a: Seq<char>, x: RuneId| !#[trigger] has_flow(flows, a, x)
        ==> owned_total(lots, owners, a, x) == 0 && received_total(records, outs, a, x) == 0
}

/// A poison marker that etches and mints nothing, in a transaction that
/// spends no runes: there is nothing to settle.
pub open spec fn nothing_to_index(u: RuneUpdater, tx: Transaction, artifact: Option<Artifact>) -> bool {
    &&& artifact matches Some(Artifact::Cenotaph(c))
    &&& artifact.unwrap()->Cenotaph_0.etching.is_none()
    &&& artifact.unwrap()->Cenotaph_0.mint.is_none()
    &&& collect(u.outpoint_to_balances@, tx.input@).1.len() == 0
}

/// Transaction `tx` can be indexed on state `u`: there is nothing to settle,
/// or the etching does not fault, the rune counter has room for an etched
/// rune, every rune's total entering fits in `u128`, and so does every
/// block burn total once this transaction's burns are added.
pub open spec fn index_ok(u: RuneUpdater, tx_index: u32, tx: Transaction, artifact: Option<Artifact>) -> bool {
    nothing_to_index(u, tx, artifact) || {
        &&& etch_ok(u, tx, artifact)
        &&& (etched_spec(u, tx_index, tx, artifact).is_some() ==> u.runes < u64::MAX)
        &&& totals_fit(entering(u, tx_index, tx, artifact))
        &&& forall|x: RuneId| #[trigger] total_of(u.burned@, x) + burn_amount(u, tx_index, tx, artifact, x) <= u128::MAX
    }
}

/// The id of the rune that transaction `tx_index` etches, if it etches one.
pub open spec fn etched_spec(u: RuneUpdater, tx_index: u32, tx: Transaction, artifact: Option<Artifact>) -> Option<RuneId> {
    let accepted = match artifact {
        None => false,
        Some(a) => match etching_rune(a) {
            None => false,
            Some(None) => u.reserved_runes < u64::MAX,
            Some(Some(rune)) => !(rune.0 < u.minimum.0 || rune.is_reserved_spec() || name_taken(u.rune_to_id@, rune))
                && scan_inputs(tx.input@, 0, commitment_bytes(rune.0 as nat), u.height as u64) == CommitScan::Confirmed,
        },
    };
    if accepted { Some(RuneId { block: u.height as u64, tx: tx_index }) } else { None }
}

/// `s` is how the runes entering transaction `tx` settle, where `etched` is
/// the rune it etched, if any: the lots that its inputs bring in from the
/// store of `u`, then the mint, then the premine.
pub open spec fn settles_entering(
    u: RuneUpdater,
    tx_index: u32,
    tx: Transaction,
    artifact: Option<Artifact>,
    etched: Option<RuneId>,
    s: Settlement,
) -> bool {
    settles(
        collect(u.outpoint_to_balances@, tx.input@).1 + mint_part(u.id_to_entry@, artifact, u.height)
            + premine_part(artifact, etched),
        artifact, etched, tx.output@, s.records@, s.burned@)
}

/// The events of `s` from index `from` on debit or credit nobody.
pub open spec fn no_transfers_from(s: Seq<Event>, from: int) -> bool {
    forall|k: int| from <= k < s.len() ==> (#[trigger] transfer_key(s[k])).is_none()
}

/// Among the events of `s` from index `from` on, no address is debited or
/// credited twice for one rune, so never both.
pub open spec fn one_transfer_per_pair(s: Seq<Event>, from: int) -> bool {
    forall|i: int, j: int| from <= i < j < s.len() && (#[trigger] transfer_key(s[i])).is_some()
        ==> transfer_key(s[i]) != #[trigger] transfer_key(s[j])
}

/// `new` is `old` with events appended.
pub open spec fn extends(old: Seq<Event>, new: Seq<Event>) -> bool {
    new.len() >= old.len() && forall|k: int| 0 <= k < old.len() ==> new[k] == old[k]
}

/// What settling a transaction may do to the entries and name bindings: add
/// at most one entry, none where a named etching lacks a confirmed
/// commitment, and touch neither where there is no message.
pub open spec fn kept_ok(
    entries0: Seq<EntryRecord>,
    names0: Seq<(Rune, RuneId)>,
    entries: Seq<EntryRecord>,
    names: Seq<(Rune, RuneId)>,
    unconfirmed: bool,
    artifact: Option<Artifact>,
) -> bool {
    &&& entries.len() <= entries0.len() + 1
    &&& unconfirmed ==> entries.len() == entries0.len() && names == names0
    &&& artifact.is_none() ==> entries == entries0 && names == names0
}

impl RuneUpdater {
    /// For each address and rune, what the owned lots entering a transaction
    /// hold: the debit side of its transfer events.
    pub fn get_address_balance(&self, unallocated: &Unallocated) -> (r: Vec<Flow>)
        requires
            crate::settle::totals_fit(unallocated.lots@),
            unallocated.owners@.len() == unallocated.lots@.len(),
        ensures
            distinct_flows(r@),
            forall|i: int| 0 <= i < r@.len() ==> (#[trigger] r@[i]).credit == 0
                && r@[i].debit == owned_total(unallocated.lots@, unallocated.owners@, r@[i].address@, r@[i].id),
            forall|a: Seq<char>, x: RuneId| !has_flow(r@, a, x)
                ==> owned_total(unallocated.lots@, unallocated.owners@, a, x) == 0,
            forall|k: int| #![trigger r@[k]] 0 <= k < r@.len() ==> owned_pair(unallocated.lots@, unallocated.owners@, r@[k].address@, r@[k].id),
    {
        debit_flows(&unallocated.lots, &unallocated.owners)
    }

    /// Stores `rec`, replacing a stored record of the same outpoint.
    pub fn store_record(&mut self, rec: OutpointRecord)
        ensures
            views(final(self).outpoint_to_balances@) == upsert_view(views(old(self).outpoint_to_balances@), record_view(rec)),
            distinct_outpoints(old(self).outpoint_to_balances@) ==> distinct_outpoints(final(self).outpoint_to_balances@),
            forall|i: int| #[trigger] first_outpoint(old(self).outpoint_to_balances@, rec.outpoint, i)
                ==> final(self).outpoint_to_balances@ == old(self).outpoint_to_balances@.update(i, rec),
            !has_outpoint(old(self).outpoint_to_balances@, rec.outpoint)
                ==> final(self).outpoint_to_balances@ == old(self).outpoint_to_balances@.push(rec),
            *final(self) == (RuneUpdater { outpoint_to_balances: final(self).outpoint_to_balances, ..*old(self) }),
    {
        let ghost s0 = self.outpoint_to_balances@;
        let ghost v = record_view(rec);
        match self.find_outpoint(rec.outpoint) {
            Some(i) => {
                self.outpoint_to_balances.set(i, rec);
                proof {
                    assert(first_view(views(s0), v.0, i as int));
                    assert(forall|j: int| first_view(views(s0), v.0, j) ==> j == i);
                    assert(views(s0)[i as int].0 == v.0);
                    assert(views(self.outpoint_to_balances@) =~= views(s0).update(i as int, v));
                }
            },
            None => {
                self.outpoint_to_balances.push(rec);
                proof {
                    assert forall|j: int| 0 <= j < views(s0).len() implies views(s0)[j].0 != v.0 by {
                        assert(s0[j].outpoint != rec.outpoint);
                    }
                    assert(views(self.outpoint_to_balances@) =~= views(s0).push(v));
                }
            },
        }
    }

    /// Adds `b` to the burn totals of the block.
    pub fn add_block_burn(&mut self, b: Balance) -> (r: Result<(), UpdateError>)
        requires
            distinct_ids(old(self).burned@),
        ensures
            distinct_ids(final(self).burned@),
            r.is_ok() <==> total_of(old(self).burned@, b.id) + b.amount <= u128::MAX,
            r.is_ok() ==> forall|x: RuneId| #[trigger] total_of(final(self).burned@, x)
                == total_of(old(self).burned@, x) + (if x == b.id { b.amount as int } else { 0 }),
            r.is_err() ==> *final(self) == *old(self) && r == Err::<(), UpdateError>(UpdateError::Overflow),
            *final(self) == (RuneUpdater { burned: final(self).burned, ..*old(self) }),
    {
        match find_balance(&self.burned, b.id) {
            Some(i) => {
                proof {
                    lemma_unique_total(self.burned@, i as int);
                }
                if self.burned[i].amount > u128::MAX - b.amount {
                    return Err(UpdateError::Overflow);
                }
            },
            None => {
                proof {
                    crate::balances::lemma_total_absent(self.burned@, b.id);
                }
            },
        }
        crate::settle::add_to(&mut self.burned, b.id, b.amount);
        Ok(())
    }

    /// Settles transaction `tx`, number `tx_index` of the block, whose message
    /// the decoder gave as `artifact`: collects what its inputs bring in,
    /// mints, etches, applies the edicts, routes or burns what is left,
    /// stores the balances of its outputs, and emits an event for each change.
    #[verifier::rlimit(100)]
    #[verifier::spinoff_prover]
    pub fn index_runes(&mut self, tx_index: u32, tx: &Transaction, txid: Txid, artifact: &Option<Artifact>)
        -> (r: Result<TxOutcome, UpdateError>)
        requires
            tx.output@.len() <= u32::MAX,
            distinct_ids(old(self).burned@),
        ensures
            r.is_ok() ==> settles_entering(*old(self), tx_index, *tx, *artifact,
                etched_spec(*old(self), tx_index, *tx, *artifact), r.unwrap().settlement),
            distinct_ids(final(self).burned@),
            kept_ok(old(self).id_to_entry@, old(self).rune_to_id@, final(self).id_to_entry@, final(self).rune_to_id@,
                unconfirmed_etching(*artifact, tx.input@, old(self).height), *artifact),
            extends(old(self).events@, final(self).events@),
            r.is_ok() ==> one_transfer_per_pair(final(self).events@, old(self).events@.len() as int),
            r matches Err(e) ==> e == UpdateError::ChainData || e == UpdateError::Overflow,
            r.is_ok() <==> index_ok(*old(self), tx_index, *tx, *artifact),
            r.is_ok() ==> tables_after(*old(self), tx_index, *tx, txid, *artifact, *final(self)),
            distinct_outpoints(old(self).outpoint_to_balances@) ==> distinct_outpoints(final(self).outpoint_to_balances@),
            r.is_ok() ==> events_after(*old(self), *final(self), tx_index, *tx, txid, *artifact, r.unwrap()),
            r.is_ok() ==> views(final(self).outpoint_to_balances@) == store_views(
                views(collect(old(self).outpoint_to_balances@, tx.input@).0), r.unwrap().settlement.records@, txid, tx.output@),
            r.is_ok() ==> forall|x: RuneId| #[trigger] total_of(final(self).burned@, x)
                == total_of(old(self).burned@, x) + total_of(r.unwrap().settlement.burned@, x),
            r.is_ok() ==> ({
                let c = collect(old(self).outpoint_to_balances@, tx.input@);
                flows_exact(r.unwrap().flows@, c.1, c.2, r.unwrap().settlement.records@, tx.output@)
            }),
            final(self).height == old(self).height,
            final(self).block_hash == old(self).block_hash,
    {
        let ghost n0 = old(self).events@.len() as int;
        let ghost unconfirmed = unconfirmed_etching(*artifact, tx.input@, old(self).height);
        let un = self.unallocated(txid, tx_index, tx);
        let Unallocated { lots, owners } = un;
        let ghost spent = lots@;
        let ghost ev_spent = self.events@;
        proof {
            assert(no_transfers_from(self.events@, n0));
            assert(ev_spent =~= old(self).events@
                + spent_events(*old(self), tx_index, txid, collect(old(self).outpoint_to_balances@, tx.input@).3));
        }
        let ghost entries0 = old(self).id_to_entry@;
        let mut lots = lots;
        let mut owners = owners;
        if let Some(Artifact::Cenotaph(c)) = artifact {
            if c.etching.is_none() && c.mint.is_none() && lots.len() == 0 {
                let nothing = Settlement { records: Vec::new(), burned: Vec::new() };
                proof {
                    let none = Seq::<Balance>::empty();
                    assert(settled_credits(none, *artifact, None, tx.output@) =~= Seq::<Credit>::empty());
                    assert forall|x: RuneId| #[trigger] credited_where(Seq::<Credit>::empty(), tx.output@, tx.output@.len(), x, true) == 0 by {
                        crate::outputs::lemma_where_zero(Seq::<Credit>::empty(), tx.output@, tx.output@.len(), x, true);
                    }
                    assert forall|v: int| #[trigger] crate::outputs::kept(Seq::<Credit>::empty(), tx.output@, v) implies false by {
                        let x = choose|x: RuneId| crate::balances::credited_to(Seq::<Credit>::empty(), v, x) != 0;
                    }
                    assert(settles(none, *artifact, None, tx.output@, nothing.records@, nothing.burned@));
                }
                proof {
                    assert(spent + mint_part(entries0, *artifact, old(self).height) + premine_part(*artifact, None)
                        =~= Seq::<Balance>::empty());
                    assert(spent == collect(old(self).outpoint_to_balances@, tx.input@).1);
                    assert(settles(
                        collect(old(self).outpoint_to_balances@, tx.input@).1
                            + mint_part(old(self).id_to_entry@, *artifact, old(self).height)
                            + premine_part(*artifact, None),
                        *artifact, None, tx.output@, nothing.records@, nothing.burned@));
                    assert(settles_entering(*old(self), tx_index, *tx, *artifact, None, nothing));
                }
                proof {
                    assert(one_transfer_per_pair(self.events@, n0));
                }
                proof {
                    let c = collect(old(self).outpoint_to_balances@, tx.input@);
                    assert(c.1.len() == 0);
                    assert forall|a: Seq<char>, x: RuneId| owned_total(c.1, c.2, a, x) == 0 by {}
                    assert forall|a: Seq<char>, x: RuneId| received_total(nothing.records@, tx.output@, a, x) == 0 by {}
                    assert(flows_exact(Seq::<Flow>::empty(), c.1, c.2, nothing.records@, tx.output@));
                }
                let outcome = TxOutcome { settlement: nothing, flows: Vec::new() };
                proof {
                    let pre = ev_spent + mint_events(*old(self), tx_index, txid, *artifact)
                        + etch_events(*old(self), tx_index, *tx, txid, *artifact);
                    assert(pre =~= ev_spent);
                    assert(flow_events(outcome.flows@, old(self).height, old(self).block_hash, tx_index, txid)
                        =~= Seq::<Event>::empty());
                    assert(self.events@.take(pre.len() as int) =~= pre);
                    assert(self.events@.skip(pre.len() as int) =~= Seq::<Event>::empty()
                        + burn_events(old(self).height, old(self).block_hash, tx_index, txid, outcome.settlement.burned@));
                    assert(events_after(*old(self), *self, tx_index, *tx, txid, *artifact, outcome));
                }
                return Ok(outcome);
            }
        }
        if !check_totals(&lots) {
            proof {
                let x = choose|x: RuneId| total_of(spent, x) > u128::MAX;
                lemma_total_grows(spent, mint_part(entries0, *artifact, old(self).height), x);
                lemma_total_grows(spent + mint_part(entries0, *artifact, old(self).height),
                    premine_part(*artifact, etched_spec(*old(self), tx_index, *tx, *artifact)), x);
                assert(!totals_fit(entering(*old(self), tx_index, *tx, *artifact)));
            }
            return Err(UpdateError::Overflow);
        }
        let debits = debit_flows(&lots, &owners);
        let ghost debits0 = debits@;
        let ghost owners0 = owners@;
        let mut etched: Option<RuneId> = None;
        if let Some(a) = artifact {
            if let Some(id) = a.mint() {
                let granted = self.mint(id);
                proof {
                    assert(mint_part(entries0, *artifact, old(self).height) == match granted {
                        Some(amount) => seq![Balance { id, amount }],
                        None => Seq::<Balance>::empty(),
                    });
                }
                if let Some(amount) = granted {
                    lots.push(Balance { id, amount });
                    owners.push(None);
                    self.events.push(Event::RuneMinted {
                        amount,
                        block_height: self.height,
                        block_hash: self.block_hash,
                        tx_index,
                        rune_id: id,
                        txid,
                    });
                }
            }
            proof {
                assert(self.events@ =~= ev_spent + mint_events(*old(self), tx_index, txid, *artifact));
            }
            let ghost with_mint = lots@;
            proof {
                assert(with_mint =~= spent + mint_part(entries0, *artifact, old(self).height));
            }
            let found = match self.etched(tx_index, tx, a) {
                Err(e) => {
                    proof {
                        assert(!etch_ok(*old(self), *tx, *artifact));
                    }
                    return Err(e);
                },
                Ok(found) => found,
            };
            proof {
                assert(etch_ok(*old(self), *tx, *artifact));
            }
            if let Some((id, rune)) = found {
                if let Artifact::Runestone(rs) = a {
                    let premine: u128 = match rs.etching {
                        Some(e) => match e.premine {
                            Some(p) => p,
                            None => 0,
                        },
                        None => 0,
                    };
                    lots.push(Balance { id, amount: premine });
                    owners.push(None);
                    proof {
                        assert(lots@ =~= with_mint + premine_part(*artifact, Some(id)));
                    }
                }
                match self.create_rune_entry(txid, a, id, rune) {
                    Err(e) => {
                        proof {
                            assert(etched_spec(*old(self), tx_index, *tx, *artifact).is_some());
                        }
                        return Err(e);
                    },
                    Ok(()) => {},
                }
                proof {
                    assert(old(self).runes < u64::MAX);
                }
                etched = Some(id);
            }
            proof {
                assert(lots@ =~= spent + mint_part(entries0, *artifact, old(self).height) + premine_part(*artifact, etched));
            }
        } else {
            proof {
                assert(lots@ =~= spent + mint_part(entries0, *artifact, old(self).height) + premine_part(*artifact, etched));
            }
        }
        proof {
            assert(etched == etched_spec(*old(self), tx_index, *tx, *artifact));
            assert(lots@ == entering(*old(self), tx_index, *tx, *artifact));
            assert(self.events@ =~= ev_spent + mint_events(*old(self), tx_index, txid, *artifact)
                + etch_events(*old(self), tx_index, *tx, txid, *artifact));
            assert(!nothing_to_index(*old(self), *tx, *artifact));
        }
        let ghost prefix_ok = etch_ok(*old(self), *tx, *artifact)
            && (etched_spec(*old(self), tx_index, *tx, *artifact).is_some() ==> old(self).runes < u64::MAX);
        assert(prefix_ok);
        if !check_totals(&lots) {
            return Err(UpdateError::Overflow);
        }
        let ghost lots_in = lots@;
        let settlement = settle_transaction(lots, artifact, etched, &tx.output);
        let Settlement { records, burned } = settlement;
        let mut flows = debits;
        proof {
            assert forall|a: Seq<char>, x: RuneId| #[trigger] received_total(records@, tx.output@, a, x) <= u128::MAX by {
                crate::flows::lemma_received_le_recorded(records@, tx.output@, a, x);
                crate::balances::lemma_total_nonneg(burned@, x);
                assert(totals_fit(lots_in));
                assert(total_of(lots_in, x) <= u128::MAX);
            }
        }
        credit_flows(&mut flows, &records, &tx.output);
        proof {
            let c = collect(old(self).outpoint_to_balances@, tx.input@);
            assert(spent == c.1 && owners0 == c.2);
            assert forall|k: int| 0 <= k < flows@.len() implies {
                let f = #[trigger] flows@[k];
                f.debit == owned_total(spent, owners0, f.address@, f.id)
                    && f.credit == received_total(records@, tx.output@, f.address@, f.id)
            } by {
                let f = flows@[k];
                if k < debits0.len() {
                    assert(debits0[k].address@ == f.address@ && debits0[k].id == f.id);
                } else {
                    if has_flow(debits0, f.address@, f.id) {
                        let m = choose|m: int| 0 <= m < debits0.len() && debits0[m].address@ == f.address@ && debits0[m].id == f.id;
                        assert(flows@[m].address@ == f.address@ && flows@[m].id == f.id);
                        assert(false);
                    }
                }
            }
            assert forall|a: Seq<char>, x: RuneId| !#[trigger] has_flow(flows@, a, x)
                implies owned_total(spent, owners0, a, x) == 0 && received_total(records@, tx.output@, a, x) == 0 by {
                assert(!has_flow(debits0, a, x));
            }
            assert(flows_exact(flows@, c.1, c.2, records@, tx.output@));
        }
        let ghost entries_kept = self.id_to_entry@;
        let ghost names_kept = self.rune_to_id@;
        let ghost mid = *self;
        let ghost pre = self.events@;
        proof {
            assert(pre == ev_spent + mint_events(*old(self), tx_index, txid, *artifact)
                + etch_events(*old(self), tx_index, *tx, txid, *artifact));
        }
        let ghost spent_left = collect(old(self).outpoint_to_balances@, tx.input@).0;
        proof {
            assert(kept_ok(old(self).id_to_entry@, old(self).rune_to_id@, entries_kept, names_kept, unconfirmed, *artifact));
            assert(tables_after(*old(self), tx_index, *tx, txid, *artifact, mid));
            assert(records@.take(0) =~= Seq::<OutputRecord>::empty());
        }
        let mut k: usize = 0;
        while k < records.len()
            invariant
                k <= records@.len(),
                *self == (RuneUpdater {
                    outpoint_to_balances: self.outpoint_to_balances,
                    events: self.events,
                    ..mid
                }),
                tables_after(*old(self), tx_index, *tx, txid, *artifact, mid),
                views(self.outpoint_to_balances@) == store_views(views(spent_left), records@.take(k as int), txid, tx.output@),
                self.events@.len() == pre.len() + k,
                self.events@.take(pre.len() as int) == pre,
                forall|j: int| 0 <= j < k ==> created_event(#[trigger] self.events@[pre.len() + j],
                    old(self).height, old(self).block_hash, tx_index, txid, tx.output@, records@[j]),
                spent_left == collect(old(self).outpoint_to_balances@, tx.input@).0,
                distinct_outpoints(old(self).outpoint_to_balances@) ==> distinct_outpoints(self.outpoint_to_balances@),
                self.id_to_entry@ == entries_kept,
                self.rune_to_id@ == names_kept,
                kept_ok(old(self).id_to_entry@, old(self).rune_to_id@, entries_kept, names_kept, unconfirmed, *artifact),
                unconfirmed == unconfirmed_etching(*artifact, tx.input@, old(self).height),
                extends(old(self).events@, self.events@),
                self.height == old(self).height,
                self.block_hash == old(self).block_hash,
                distinct_ids(self.burned@),
                settles(lots_in, *artifact, etched, tx.output@, records@, burned@),
                tx.output@.len() <= u32::MAX,
                self.burned@ == old(self).burned@,
                prefix_ok,
                lots_in == entering(*old(self), tx_index, *tx, *artifact),
                etched == etched_spec(*old(self), tx_index, *tx, *artifact),
                totals_fit(lots_in),
                !nothing_to_index(*old(self), *tx, *artifact),
                n0 == old(self).events@.len(),
                no_transfers_from(self.events@, n0),
            decreases records.len() - k,
        {
            proof {
                assert(records@.take(k + 1).drop_last() =~= records@.take(k as int));
            }
            let rec = &records[k];
            let outpoint = OutPoint { txid, vout: rec.vout as u32 };
            let owner: String = match &tx.output[rec.vout].address {
                Some(a) => a.clone(),
                None => String::new(),
            };
            let ghost ev_before = self.events@;
            self.events.push(Event::RuneUtxoCreated {
                block_height: self.height,
                tx_index,
                block_hash: self.block_hash,
                outpoint,
                to: owner.clone(),
                txid,
            });
            proof {
                assert(self.events@.take(pre.len() as int) =~= pre) by {
                    assert(forall|j: int| 0 <= j < pre.len() ==> self.events@[j] == ev_before[j]);
                }
                assert(forall|j: int| 0 <= j < k ==> #[trigger] self.events@[pre.len() + j] == ev_before[pre.len() + j]);
            }
            proof {
                assert(owner@ == address_of(tx.output@, rec.vout as int));
            }
            let kept = copy_balances(&rec.balances);
            self.store_record(OutpointRecord { outpoint, balances: kept, owner });
            proof {
                assert(records@.take(k + 1).last() == *rec);
            }
            k = k + 1;
        }
        proof {
            assert(records@.take(k as int) =~= records@);
        }
        let transfers = transfer_events(&flows, self.height, self.block_hash, tx_index, txid);
        let mut transfers = transfers;
        let ghost n1 = self.events@.len() as int;
        let ghost moved = transfers@;
        proof {
            crate::laws::one_transfer_event_per_address_and_rune(flows@, self.height, self.block_hash, tx_index, txid);
        }
        let ghost ev_records = self.events@;
        self.events.append(&mut transfers);
        proof {
            assert(self.events@ =~= ev_records + moved);
            assert(burned@.take(0) =~= Seq::<Balance>::empty());
            assert(self.events@ =~= ev_records + moved
                + burn_events(old(self).height, old(self).block_hash, tx_index, txid, burned@.take(0)));
        }
        let mut i: usize = 0;
        while i < burned.len()
            invariant
                self.id_to_entry@ == entries_kept,
                self.rune_to_id@ == names_kept,
                kept_ok(old(self).id_to_entry@, old(self).rune_to_id@, entries_kept, names_kept, unconfirmed, *artifact),
                unconfirmed == unconfirmed_etching(*artifact, tx.input@, old(self).height),
                extends(old(self).events@, self.events@),
                self.height == old(self).height,
                self.block_hash == old(self).block_hash,
                distinct_ids(self.burned@),
                settles(lots_in, *artifact, etched, tx.output@, records@, burned@),
                i <= burned@.len(),
                prefix_ok,
                *self == (RuneUpdater {
                    outpoint_to_balances: self.outpoint_to_balances,
                    events: self.events,
                    burned: self.burned,
                    ..mid
                }),
                tables_after(*old(self), tx_index, *tx, txid, *artifact, mid),
                views(self.outpoint_to_balances@) == store_views(views(spent_left), records@, txid, tx.output@),
                spent_left == collect(old(self).outpoint_to_balances@, tx.input@).0,
                distinct_outpoints(old(self).outpoint_to_balances@) ==> distinct_outpoints(self.outpoint_to_balances@),
                lots_in == entering(*old(self), tx_index, *tx, *artifact),
                etched == etched_spec(*old(self), tx_index, *tx, *artifact),
                totals_fit(lots_in),
                !nothing_to_index(*old(self), *tx, *artifact),
                distinct_ids(old(self).burned@),
                forall|x: RuneId| #[trigger] total_of(self.burned@, x)
                    == total_of(old(self).burned@, x) + total_of(burned@.take(i as int), x),
                forall|j: int| 0 <= j < i ==> total_of(old(self).burned@, (#[trigger] burned@[j]).id) + burned@[j].amount <= u128::MAX,
                self.events@ == ev_records + moved
                    + burn_events(old(self).height, old(self).block_hash, tx_index, txid, burned@.take(i as int)),
                moved == flow_events(flows@, old(self).height, old(self).block_hash, tx_index, txid),
                ev_records.len() == pre.len() + records@.len(),
                ev_records.take(pre.len() as int) == pre,
                forall|j: int| 0 <= j < records@.len() ==> created_event(#[trigger] ev_records[pre.len() + j],
                    old(self).height, old(self).block_hash, tx_index, txid, tx.output@, records@[j]),
                n0 == old(self).events@.len(),
                n0 <= n1 <= n1 + moved.len() <= self.events@.len(),
                forall|k: int| n0 <= k < n1 ==> (#[trigger] transfer_key(self.events@[k])).is_none(),
                forall|k: int| n1 + moved.len() <= k < self.events@.len()
                    ==> (#[trigger] transfer_key(self.events@[k])).is_none(),
                forall|k: int| n1 <= k < n1 + moved.len() ==> self.events@[k] == moved[k - n1],
                forall|a: int, b: int| 0 <= a < b < moved.len() ==>
                    transfer_key(#[trigger] moved[a]) != transfer_key(#[trigger] moved[b]),
                forall|a: int| 0 <= a < moved.len() ==> (#[trigger] transfer_key(moved[a])).is_some(),
            decreases burned.len() - i,
        {
            let b = burned[i];
            proof {
                assert(burned@.take(i + 1).drop_last() =~= burned@.take(i as int));
                assert forall|m: int| 0 <= m < i implies burned@.take(i as int)[m].id != b.id by {
                    assert(burned@[m].id != burned@[i as int].id);
                }
                crate::balances::lemma_total_absent(burned@.take(i as int), b.id);
                lemma_unique_total(burned@, i as int);
                assert(total_of(burned@, b.id) == burn_amount(*old(self), tx_index, *tx, *artifact, b.id));
            }
            match self.add_block_burn(b) {
                Err(e) => {
                    proof {
                        assert(total_of(old(self).burned@, b.id) + burn_amount(*old(self), tx_index, *tx, *artifact, b.id)
                            > u128::MAX);
                    }
                    return Err(e);
                },
                Ok(()) => {},
            }
            self.events.push(Event::RuneBurned {
                amount: b.amount,
                block_height: self.height,
                tx_index,
                block_hash: self.block_hash,
                rune_id: b.id,
                txid,
            });
            proof {
                assert(self.events@ =~= ev_records + moved
                    + burn_events(old(self).height, old(self).block_hash, tx_index, txid, burned@.take(i + 1)));
            }
            i = i + 1;
        }
        proof {
            assert(spent == collect(old(self).outpoint_to_balances@, tx.input@).1);
            assert(etched.is_none() || etched == Some(RuneId { block: old(self).height as u64, tx: tx_index }));
            assert(lots_in == spent + mint_part(entries0, *artifact, old(self).height) + premine_part(*artifact, etched));
        }
        proof {
            assert forall|a: int, b: int| n0 <= a < b < self.events@.len() && (#[trigger] transfer_key(self.events@[a])).is_some()
                implies transfer_key(self.events@[a]) != #[trigger] transfer_key(self.events@[b]) by {
                if n1 <= b < n1 + moved.len() {
                    assert(self.events@[b] == moved[b - n1]);
                    if a >= n1 {
                        assert(self.events@[a] == moved[a - n1]);
                    }
                }
            }
        }
        proof {
            assert(burned@.take(i as int) =~= burned@);
            assert forall|x: RuneId| #[trigger] total_of(old(self).burned@, x)
                + burn_amount(*old(self), tx_index, *tx, *artifact, x) <= u128::MAX by {
                if exists|j: int| 0 <= j < burned@.len() && burned@[j].id == x {
                    let j = choose|j: int| 0 <= j < burned@.len() && burned@[j].id == x;
                    lemma_unique_total(burned@, j);
                    assert(total_of(old(self).burned@, burned@[j].id) + burned@[j].amount <= u128::MAX);
                } else {
                    crate::balances::lemma_total_absent(burned@, x);
                    lemma_total_le_max(old(self).burned@, x);
                }
            }
            assert(index_ok(*old(self), tx_index, *tx, *artifact));
        }
        let result = Settlement { records, burned };
        let ghost flows_v = flows@;
        proof {
            assert(burned@.take(i as int) =~= burned@);
            let tail = moved + burn_events(old(self).height, old(self).block_hash, tx_index, txid, result.burned@);
            assert(self.events@ =~= ev_records + tail);
            assert(self.events@.take(pre.len() as int) =~= pre) by {
                assert(forall|j: int| 0 <= j < pre.len() ==> self.events@[j] == ev_records[j]);
                assert(forall|j: int| 0 <= j < pre.len() ==> ev_records[j] == pre[j]);
            }
            assert(self.events@.skip((pre.len() + records@.len()) as int) =~= tail);
            assert(forall|j: int| 0 <= j < records@.len() ==> #[trigger] self.events@[pre.len() + j] == ev_records[pre.len() + j]);
        }
        proof {
            assert(settles(
                collect(old(self).outpoint_to_balances@, tx.input@).1
                    + mint_part(old(self).id_to_entry@, *artifact, old(self).height)
                    + premine_part(*artifact, etched),
                *artifact, etched, tx.output@, result.records@, result.burned@));
            assert(etched == etched_spec(*old(self), tx_index, *tx, *artifact));
            assert(settles_entering(*old(self), tx_index, *tx, *artifact, etched, result));
        }
        proof {
            assert(flows_exact(flows_v, collect(old(self).outpoint_to_balances@, tx.input@).1,
                collect(old(self).outpoint_to_balances@, tx.input@).2, result.records@, tx.output@));
        }
        let outcome = TxOutcome { settlement: result, flows };
        proof {
            assert(outcome.flows@ == flows_v);
            assert(events_after(*old(self), *self, tx_index, *tx, txid, *artifact, outcome));
        }
        Ok(outcome)
    }

    /// Records the burn totals of the block in the entries of their runes,
    /// and empties them for the next block.
    pub fn update(&mut self) -> (r: Result<(), UpdateError>)
        requires
            distinct_ids(old(self).burned@),
        ensures
            *final(self) == (RuneUpdater { id_to_entry: final(self).id_to_entry, burned: final(self).burned, ..*old(self) }),
            r.is_ok() ==> final(self).burned@.len() == 0,
            r.is_err() ==> final(self).burned@ == old(self).burned@,
            r.is_ok() ==> forall|i: int| 0 <= i < old(self).burned@.len()
                ==> has_entry(old(self).id_to_entry@, #[trigger] old(self).burned@[i].id),
            r.is_ok() ==> final(self).id_to_entry@.len() == old(self).id_to_entry@.len(),
            r.is_ok() ==> forall|k: int| 0 <= k < final(self).id_to_entry@.len() ==> {
                let e = #[trigger] final(self).id_to_entry@[k];
                let o = old(self).id_to_entry@[k];
                &&& e.id == o.id
                &&& e.entry == (RuneEntry { burned: e.entry.burned, ..o.entry })
                &&& e.entry.burned == o.entry.burned
                    + if first_entry(old(self).id_to_entry@, o.id, k) { total_of(old(self).burned@, o.id) } else { 0 }
            },
            r == Err::<(), UpdateError>(UpdateError::MissingEntry) ==> exists|i: int| 0 <= i < old(self).burned@.len()
                && !has_entry(old(self).id_to_entry@, #[trigger] old(self).burned@[i].id),
            (forall|i: int| 0 <= i < old(self).burned@.len() ==> #[trigger] burn_fits(old(self).id_to_entry@, old(self).burned@[i]))
                ==> r.is_ok(),
    {
        let ghost e0 = self.id_to_entry@;
        let ghost b0 = self.burned@;
        let mut i: usize = 0;
        while i < self.burned.len()
            invariant
                i <= b0.len(),
                self.burned@ == b0,
                old(self).burned@ == b0,
                old(self).id_to_entry@ == e0,
                *self == (RuneUpdater { id_to_entry: self.id_to_entry, ..*old(self) }),
                distinct_ids(b0),
                self.id_to_entry@.len() == e0.len(),
                forall|k: int| 0 <= k < e0.len() ==> {
                    let e = #[trigger] self.id_to_entry@[k];
                    let o = e0[k];
                    &&& e.id == o.id
                    &&& e.entry == (RuneEntry { burned: e.entry.burned, ..o.entry })
                    &&& e.entry.burned == o.entry.burned
                        + if first_entry(e0, o.id, k) { total_of(b0.take(i as int), o.id) } else { 0 }
                },
                forall|j: int| 0 <= j < i ==> has_entry(e0, #[trigger] b0[j].id),
            decreases b0.len() - i,
        {
            proof {
                assert(b0.take(i + 1).drop_last() =~= b0.take(i as int));
            }
            let b = self.burned[i];
            let k = match self.find_entry(b.id) {
                None => {
                    proof {
                        assert forall|m: int| 0 <= m < e0.len() implies e0[m].id != b.id by {
                            assert(self.id_to_entry@[m].id == e0[m].id);
                        }
                        assert(!has_entry(e0, b0[i as int].id));
                    assert(!burn_fits(e0, b0[i as int]));
                    }
                    return Err(UpdateError::MissingEntry);
                },
                Some(k) => k,
            };
            let rec = self.id_to_entry[k];
            proof {
                assert forall|m: int| 0 <= m < i implies b0.take(i as int)[m].id != b.id by {
                    assert(b0[m].id != b0[i as int].id);
                }
                crate::balances::lemma_total_absent(b0.take(i as int), b.id);
                assert(forall|m: int| 0 <= m < k ==> #[trigger] self.id_to_entry@[m].id == e0[m].id);
                assert(self.id_to_entry@[k as int].id == e0[k as int].id);
                assert forall|m: int| 0 <= m < k implies e0[m].id != b.id by {
                    assert(self.id_to_entry@[m].id == e0[m].id);
                }
                assert(first_entry(e0, b.id, k as int));
                assert(rec.entry.burned == e0[k as int].entry.burned);
                if burn_fits(e0, b0[i as int]) {
                    let k2 = choose|k2: int| #[trigger] first_entry(e0, b.id, k2) && e0[k2].entry.burned + b.amount <= u128::MAX;
                    assert(k2 == k);
                }
            }
            if rec.entry.burned > u128::MAX - b.amount {
                proof {
                    assert(!burn_fits(e0, b0[i as int]));
                }
                return Err(UpdateError::Overflow);
            }
            let entry = RuneEntry { burned: rec.entry.burned + b.amount, ..rec.entry };
            let ghost before = self.id_to_entry@;
            self.id_to_entry.set(k, EntryRecord { id: rec.id, entry });
            proof {
                assert forall|m: int| 0 <= m < k implies e0[m].id != b.id by {
                    assert(before[m].id == e0[m].id);
                }
                assert(before[k as int].id == e0[k as int].id);
                assert(first_entry(e0, b.id, k as int));
                assert forall|m: int| 0 <= m < e0.len() implies {
                    let e = #[trigger] self.id_to_entry@[m];
                    let o = e0[m];
                    &&& e.id == o.id
                    &&& e.entry == (RuneEntry { burned: e.entry.burned, ..o.entry })
                    &&& e.entry.burned == o.entry.burned
                        + if first_entry(e0, o.id, m) { total_of(b0.take(i + 1), o.id) } else { 0 }
                } by {
                    assert(before[m].id == e0[m].id);
                    if m != k && first_entry(e0, e0[m].id, m) {
                        assert(e0[m].id != b.id);
                    }
                }
                assert(has_entry(e0, b0[i as int].id));
            }
            i = i + 1;
        }
        proof {
            assert(b0.take(i as int) =~= b0);
        }
        self.burned = Vec::new();
        Ok(())
    }
}

/// The index of the balance of `id`, if there is one.
pub fn find_balance(s: &Vec<Balance>, id: RuneId) -> (r: Option<usize>)
    ensures
        r.is_some() ==> r.unwrap() < s@.len() && s@[r.unwrap() as int].id == id,
        r.is_none() ==> forall|j: int| 0 <= j < s@.len() ==> s@[j].id != id,
{
    let mut i: usize = 0;
    while i < s.len()
        invariant
            i <= s@.len(),
            forall|j: int| 0 <= j < i ==> s@[j].id != id,
        decreases s.len() - i,
    {
        if s[i].id == id {
            return Some(i);
        }
        i = i + 1;
    }
    None
}

/// Appending lots never lowers a total.
pub proof fn lemma_total_grows(a: Seq<Balance>, b: Seq<Balance>, x: RuneId)
    ensures
        total_of(a, x) <= total_of(a + b, x),
{
    crate::balances::lemma_total_concat(a, b, x);
    crate::balances::lemma_total_nonneg(b, x);
}

/// With one balance per rune, every total fits in `u128`.
proof fn lemma_total_le_max(s: Seq<Balance>, x: RuneId)
    requires
        distinct_ids(s),
    ensures
        total_of(s, x) <= u128::MAX,
{
    if exists|j: int| 0 <= j < s.len() && s[j].id == x {
        let j = choose|j: int| 0 <= j < s.len() && s[j].id == x;
        lemma_unique_total(s, j);
    } else {
        crate::balances::lemma_total_absent(s, x);
    }
}

proof fn lemma_unique_total(s: Seq<Balance>, i: int)
    requires
        0 <= i < s.len(),
        distinct_ids(s),
    ensures
        total_of(s, s[i].id) == s[i].amount,
    decreases s.len(),
{
    if i < s.len() - 1 {
        lemma_unique_total(s.drop_last(), i);
    } else {
        crate::balances::lemma_total_absent(s.drop_last(), s[i].id);
    }
}

/// One transaction of a block, as the decoder hands it over.
#[derive(Clone, Debug, PartialEq, Eq)]
pub struct BlockTransaction {
    pub tx: Transaction,
    pub txid: Txid,
    pub artifact: Option<Artifact>,
}

/// Indexing `item` as transaction `tx_index` took state `g` to `f` and
/// yielded `o`, as `RuneUpdater::index_runes` promises on success.
pub open spec fn tx_step(g: RuneUpdater, f: RuneUpdater, tx_index: u32, item: BlockTransaction, o: TxOutcome) -> bool {
    let c = collect(g.outpoint_to_balances@, item.tx.input@);
    &&& index_ok(g, tx_index, item.tx, item.artifact)
    &&& settles_entering(g, tx_index, item.tx, item.artifact, etched_spec(g, tx_index, item.tx, item.artifact), o.settlement)
    &&& tables_after(g, tx_index, item.tx, item.txid, item.artifact, f)
    &&& views(f.outpoint_to_balances@) == store_views(views(c.0), o.settlement.records@, item.txid, item.tx.output@)
    &&& forall|x: RuneId| #[trigger] total_of(f.burned@, x) == total_of(g.burned@, x) + total_of(o.settlement.burned@, x)
    &&& flows_exact(o.flows@, c.1, c.2, o.settlement.records@, item.tx.output@)
    &&& events_after(g, f, tx_index, item.tx, item.txid, item.artifact, o)
    &&& distinct_ids(f.burned@)
}

/// `f` is reached from `u` by the block-start event and then indexing the
/// first `n` transactions of `txs` in order.
pub open spec fn block_run(u: RuneUpdater, txs: Seq<BlockTransaction>, n: nat, f: RuneUpdater) -> bool
    decreases n,
{
    if n == 0 {
        &&& f == (RuneUpdater { events: f.events, ..u })
        &&& f.events@ == u.events@.push(Event::BlockStart { height: u.height, block_hash: u.block_hash })
    } else {
        exists|g: RuneUpdater, o: TxOutcome| #[trigger] tx_step(g, f, (n - 1) as u32, txs[n - 1], o)
            && block_run(u, txs, (n - 1) as nat, g)
    }
}

/// Every burn total of `g` can be recorded in its rune's entry.
pub open spec fn update_ok(g: RuneUpdater) -> bool {
    forall|i: int| 0 <= i < g.burned@.len() ==> #[trigger] burn_fits(g.id_to_entry@, g.burned@[i])
}

/// `h` is `g` with its burn totals recorded in the entries and emptied, as
/// `RuneUpdater::update` promises on success.
pub open spec fn updated(g: RuneUpdater, h: RuneUpdater) -> bool {
    &&& h == (RuneUpdater { id_to_entry: h.id_to_entry, burned: h.burned, ..g })
    &&& h.burned@.len() == 0
    &&& h.id_to_entry@.len() == g.id_to_entry@.len()
    &&& forall|k: int| 0 <= k < h.id_to_entry@.len() ==> {
        let e = #[trigger] h.id_to_entry@[k];
        let o = g.id_to_entry@[k];
        &&& e.id == o.id
        &&& e.entry == (RuneEntry { burned: e.entry.burned, ..o.entry })
        &&& e.entry.burned == o.entry.burned
            + if first_entry(g.id_to_entry@, o.id, k) { total_of(g.burned@, o.id) } else { 0 }
    }
}

/// Some run of the block from `u` reaches a transaction that cannot be
/// indexed, or ends with burn totals that cannot be recorded.
pub open spec fn block_fails(u: RuneUpdater, txs: Seq<BlockTransaction>) -> bool {
    ||| exists|i: int, g: RuneUpdater| 0 <= i < txs.len() && #[trigger] block_run(u, txs, i as nat, g)
        && !index_ok(g, i as u32, txs[i].tx, txs[i].artifact)
    ||| exists|g: RuneUpdater| #[trigger] block_run(u, txs, txs.len(), g) && !update_ok(g)
}

/// `f` is the state after the block `txs`: all its transactions indexed,
/// its burns recorded, and a block-end event counting the events after the
/// block-start event (at most `u32::MAX`).
pub open spec fn block_done(u: RuneUpdater, txs: Seq<BlockTransaction>, f: RuneUpdater) -> bool {
    exists|g: RuneUpdater, h: RuneUpdater| #[trigger] block_run(u, txs, txs.len(), g) && #[trigger] updated(g, h)
        && f == (RuneUpdater { events: f.events, ..h })
        && f.events@ == h.events@.push(Event::BlockEnd {
            height: u.height,
            block_hash: u.block_hash,
            event_count: if h.events@.len() - u.events@.len() - 1 > u32::MAX {
                u32::MAX
            } else {
                (h.events@.len() - u.events@.len() - 1) as u32
            },
        })
}

impl RuneUpdater {
    /// Settles the transactions of the block in order, between a block-start
    /// and a block-end event, then records the block's burn totals and
    /// empties them. The block-end event counts the events between the two,
    /// up to `u32::MAX`.
    pub fn index_block(&mut self, txs: &Vec<BlockTransaction>) -> (r: Result<(), UpdateError>)
        requires
            distinct_ids(old(self).burned@),
            txs@.len() <= u32::MAX,
            forall|i: int| 0 <= i < txs@.len() ==> (#[trigger] txs@[i]).tx.output@.len() <= u32::MAX,
        ensures
            r.is_err() ==> block_fails(*old(self), txs@),
            r.is_ok() ==> block_done(*old(self), txs@, *final(self)),
    {
        let ghost u = *self;
        let start = self.events.len();
        let height = self.height;
        let block_hash = self.block_hash;
        self.events.push(Event::BlockStart { height, block_hash });
        proof {
            assert(block_run(u, txs@, 0, *self));
        }
        let mut i: usize = 0;
        while i < txs.len()
            invariant
                i <= txs@.len(),
                txs@.len() <= u32::MAX,
                forall|j: int| 0 <= j < txs@.len() ==> (#[trigger] txs@[j]).tx.output@.len() <= u32::MAX,
                distinct_ids(self.burned@),
                u == *old(self),
                start == u.events@.len(),
                block_run(u, txs@, i as nat, *self),
            decreases txs.len() - i,
        {
            let item = &txs[i];
            let ghost g = *self;
            match self.index_runes(i as u32, &item.tx, item.txid, &item.artifact) {
                Err(e) => {
                    proof {
                        let ii: int = i as int;
                        assert(block_run(u, txs@, ii as nat, g));
                        assert(!index_ok(g, ii as u32, txs@[ii].tx, txs@[ii].artifact));
                        assert(block_fails(u, txs@));
                    }
                    return Err(e);
                },
                Ok(o) => {
                    proof {
                        let n: nat = (i + 1) as nat;
                        assert(tx_step(g, *self, i as u32, txs@[i as int], o));
                        assert((n - 1) as u32 == i as u32);
                        assert(txs@[n - 1] == txs@[i as int]);
                        assert(((n - 1) as nat) == i as nat);
                        assert(tx_step(g, *self, (n - 1) as u32, txs@[n - 1], o) && block_run(u, txs@, (n - 1) as nat, g));
                        assert(block_run(u, txs@, n, *self));
                    }
                },
            }
            i = i + 1;
        }
        let ghost g = *self;
        match self.update() {
            Err(e) => {
                proof {
                    assert(!update_ok(g));
                    assert(block_fails(u, txs@));
                }
                return Err(e);
            },
            Ok(()) => {},
        }
        let ghost h = *self;
        proof {
            assert(updated(g, h));
            block_run_events(u, txs@, i as nat, g);
        }
        let count = self.events.len() - start - 1;
        let event_count: u32 = if count > u32::MAX as usize { u32::MAX } else { count as u32 };
        self.events.push(Event::BlockEnd { height, block_hash, event_count });
        proof {
            assert(block_done(u, txs@, *self));
        }
        Ok(())
    }
}

/// A run of the block only appends events after the block-start event, and
/// keeps the block's height and hash.
proof fn block_run_events(u: RuneUpdater, txs: Seq<BlockTransaction>, n: nat, f: RuneUpdater)
    requires
        block_run(u, txs, n, f),
    ensures
        f.events@.len() >= u.events@.len() + 1,
        f.height == u.height,
        f.block_hash == u.block_hash,
    decreases n,
{
    if n > 0 {
        let (g, o) = choose|g: RuneUpdater, o: TxOutcome| #[trigger] tx_step(g, f, (n - 1) as u32, txs[n - 1], o)
            && block_run(u, txs, (n - 1) as nat, g);
        block_run_events(u, txs, (n - 1) as nat, g);
    }
}

/// The rune of `b` has an entry, and its burned total can take `b`.
pub open spec fn burn_fits(entries: Seq<EntryRecord>, b: Balance) -> bool {
    exists|k: int| #[trigger] first_entry(entries, b.id, k) && entries[k].entry.burned + b.amount <= u128::MAX
}

} // verus!
