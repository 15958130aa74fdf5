use vstd::prelude::*;
use crate::types::{Balance, BlockHash, RuneId, Txid};
use crate::balances::{Credit, total_of};
use crate::allocate::{edict_claim, edict_credits};
use crate::flows::{Flow, distinct_flows, flow_events, transfer_key};
use crate::outputs::{id_lt, sorted_by_id, OutputRecord, has_record, kept, recorded, credited_where};
use crate::transaction::{settles, is_poison, settled_credits, Settlement};
use crate::types::{Artifact, OutPoint, Transaction, TxOut};
use crate::updater::{first_view, upsert_view, store_views, created_view, RuneUpdater, EntryRecord, settles_entering, collect, mint_part, premine_part, first_entry, minted};

verus! {

/// An edict of amount zero for a single existing output claims the whole
/// pool of its rune, and credits all of it to that output.
pub proof fn zero_amount_edict_claims_all(dests: Seq<usize>, n: int, id: RuneId, b: int, output: int)
    requires
        0 <= output < n,
        0 <= b <= u128::MAX,
    ensures
        edict_claim(dests, n, b, 0, output) == b,
        edict_credits(dests, n, id, b, 0, output) == seq![Credit { vout: output as usize, id, amount: b as u128 }],
{
}

/// Once the mints of a rune reach its cap, a mint of it grants nothing,
/// whatever the height; `RuneUpdater::mint` then leaves the state, and so
/// the mint counter, unchanged.
pub proof fn mint_beyond_cap_is_refused(entries: Seq<EntryRecord>, id: RuneId, i: int, height: u32)
    requires
        first_entry(entries, id, i),
        entries[i].entry.terms.is_some(),
        entries[i].entry.mints >= match entries[i].entry.terms.unwrap().cap { Some(c) => c, None => 0 },
    ensures
        minted(entries, id, height).is_none(),
        entries[i].entry.mintable_spec(height as u64).is_err(),
{
    assert(forall|j: int| first_entry(entries, id, j) ==> j == i);
}

proof fn lemma_event_keys(flows: Seq<Flow>, height: u32, block_hash: BlockHash, tx_index: u32, txid: Txid)
    ensures
        forall|k: int| 0 <= k < flow_events(flows, height, block_hash, tx_index, txid).len() ==>
            exists|m: int| 0 <= m < flows.len()
                && #[trigger] transfer_key(flow_events(flows, height, block_hash, tx_index, txid)[k])
                    == Some((flows[m].address@, flows[m].id)),
    decreases flows.len(),
{
    if flows.len() > 0 {
        let prev = flows.drop_last();
        lemma_event_keys(prev, height, block_hash, tx_index, txid);
        let es = flow_events(flows, height, block_hash, tx_index, txid);
        let ps = flow_events(prev, height, block_hash, tx_index, txid);
        assert forall|k: int| 0 <= k < es.len() implies exists|m: int| 0 <= m < flows.len()
            && #[trigger] transfer_key(es[k]) == Some((flows[m].address@, flows[m].id)) by {
            if k < ps.len() {
                assert(es[k] == ps[k]);
                let m = choose|m: int| 0 <= m < prev.len() && transfer_key(ps[k]) == Some((prev[m].address@, prev[m].id));
                assert(flows[m] == prev[m]);
            } else {
                assert(transfer_key(es[k]) == Some((flows[flows.len() - 1].address@, flows[flows.len() - 1].id)));
            }
        }
    }
}

/// Within one transaction, an address is never both debited and credited
/// for the same rune: the transfer events of its flows, one flow per
/// address and rune, name each address and rune at most once.
pub proof fn one_transfer_event_per_address_and_rune(
    flows: Seq<Flow>,
    height: u32,
    block_hash: BlockHash,
    tx_index: u32,
    txid: Txid,
)
    requires
        distinct_flows(flows),
    ensures
        forall|i: int, j: int| 0 <= i < j < flow_events(flows, height, block_hash, tx_index, txid).len() ==>
            transfer_key(#[trigger] flow_events(flows, height, block_hash, tx_index, txid)[i])
                != transfer_key(#[trigger] flow_events(flows, height, block_hash, tx_index, txid)[j]),
        forall|i: int| 0 <= i < flow_events(flows, height, block_hash, tx_index, txid).len() ==>
            transfer_key(#[trigger] flow_events(flows, height, block_hash, tx_index, txid)[i]).is_some(),
    decreases flows.len(),
{
    if flows.len() > 0 {
        let prev = flows.drop_last();
        assert(distinct_flows(prev));
        one_transfer_event_per_address_and_rune(prev, height, block_hash, tx_index, txid);
        lemma_event_keys(prev, height, block_hash, tx_index, txid);
        let es = flow_events(flows, height, block_hash, tx_index, txid);
        let ps = flow_events(prev, height, block_hash, tx_index, txid);
        let last = flows[flows.len() - 1];
        assert forall|i: int, j: int| 0 <= i < j < es.len() implies transfer_key(#[trigger] es[i]) != transfer_key(#[trigger] es[j]) by {
            if j >= ps.len() {
                assert(es[i] == ps[i]);
                let m = choose|m: int| 0 <= m < prev.len() && #[trigger] transfer_key(ps[i]) == Some((prev[m].address@, prev[m].id));
                assert(flows[m] == prev[m]);
                assert(transfer_key(es[j]) == Some((last.address@, last.id)));
            } else {
                assert(es[i] == ps[i] && es[j] == ps[j]);
            }
        }
        assert forall|i: int| 0 <= i < es.len() implies transfer_key(#[trigger] es[i]).is_some() by {
            if i < ps.len() {
                assert(es[i] == ps[i]);
            }
        }
    }
}

proof fn lemma_sorted_total(s: Seq<Balance>, i: int)
    requires
        sorted_by_id(s),
        0 <= i < s.len(),
    ensures
        total_of(s, s[i].id) == s[i].amount,
    decreases s.len(),
{
    if i < s.len() - 1 {
        assert(sorted_by_id(s.drop_last()));
        lemma_sorted_total(s.drop_last(), i);
        assert(id_lt(s[i].id, s.last().id));
    } else {
        assert forall|j: int| 0 <= j < s.len() - 1 implies s.drop_last()[j].id != s[i].id by {
            assert(id_lt(s[j].id, s[i].id));
        }
        crate::balances::lemma_total_absent(s.drop_last(), s[i].id);
    }
}

/// The balances an output keeps are determined by what it holds of each
/// rune: two lists in order of rune id, without zero amounts, that agree on
/// every rune's total are the same list.
pub proof fn sorted_balances_determined(s: Seq<Balance>, t: Seq<Balance>)
    requires
        sorted_by_id(s),
        sorted_by_id(t),
        forall|i: int| 0 <= i < s.len() ==> s[i].amount > 0,
        forall|i: int| 0 <= i < t.len() ==> t[i].amount > 0,
        forall|x: RuneId| #[trigger] total_of(s, x) == total_of(t, x),
    ensures
        s == t,
    decreases s.len() + t.len(),
{
    if s.len() > 0 && t.len() > 0 {
        let a = s.last();
        let b = t.last();
        lemma_sorted_total(s, s.len() - 1);
        lemma_sorted_total(t, t.len() - 1);
        if id_lt(a.id, b.id) {
            lemma_absent_above(s, b.id);
            assert(false);
        } else if id_lt(b.id, a.id) {
            lemma_absent_above(t, a.id);
            assert(false);
        }
        assert(a.id == b.id);
        assert(a == b);
        assert(sorted_by_id(s.drop_last()));
        assert(sorted_by_id(t.drop_last()));
        assert forall|x: RuneId| #[trigger] total_of(s.drop_last(), x) == total_of(t.drop_last(), x) by {
            assert(total_of(s, x) == total_of(s.drop_last(), x) + if a.id == x { a.amount as int } else { 0 });
            assert(total_of(t, x) == total_of(t.drop_last(), x) + if b.id == x { b.amount as int } else { 0 });
        }
        sorted_balances_determined(s.drop_last(), t.drop_last());
        assert(s =~= s.drop_last().push(a));
        assert(t =~= t.drop_last().push(b));
    } else if s.len() > 0 {
        lemma_sorted_total(s, 0);
        crate::balances::lemma_total_absent(t, s[0].id);
    } else if t.len() > 0 {
        lemma_sorted_total(t, 0);
        crate::balances::lemma_total_absent(s, t[0].id);
    } else {
        assert(s =~= t);
    }
}

/// A list in order of rune id whose last id is below `x` holds none of `x`.
proof fn lemma_absent_above(s: Seq<Balance>, x: RuneId)
    requires
        sorted_by_id(s),
        s.len() > 0,
        id_lt(s.last().id, x),
    ensures
        total_of(s, x) == 0,
{
    assert forall|j: int| 0 <= j < s.len() implies s[j].id != x by {
        if j < s.len() - 1 {
            assert(id_lt(s[j].id, s.last().id));
        }
    }
    crate::balances::lemma_total_absent(s, x);
}

/// Value is conserved: for every transaction and rune, the balance of the
/// spent inputs plus the mint plus the premine is what the outputs keep plus
/// what burns.
pub proof fn settlement_conserves_value(
    u: RuneUpdater,
    tx_index: u32,
    tx: Transaction,
    artifact: Option<Artifact>,
    etched: Option<RuneId>,
    s: Settlement,
    x: RuneId,
)
    requires
        settles_entering(u, tx_index, tx, artifact, etched, s),
    ensures
        total_of(collect(u.outpoint_to_balances@, tx.input@).1, x)
            + total_of(mint_part(u.id_to_entry@, artifact, u.height), x)
            + total_of(premine_part(artifact, etched), x)
            == recorded(s.records@, x) + total_of(s.burned@, x),
{
    let spent = collect(u.outpoint_to_balances@, tx.input@).1;
    let minted = mint_part(u.id_to_entry@, artifact, u.height);
    let premine = premine_part(artifact, etched);
    crate::balances::lemma_total_concat(spent, minted, x);
    crate::balances::lemma_total_concat(spent + minted, premine, x);
}

/// A poison marker burns all the value entering its transaction, whatever
/// instructions it holds.
pub proof fn poison_burns_everything(
    lots: Seq<Balance>,
    message: Option<Artifact>,
    etched: Option<RuneId>,
    outs: Seq<TxOut>,
    records: Seq<OutputRecord>,
    burned: Seq<Balance>,
    x: RuneId,
)
    requires
        settles(lots, message, etched, outs, records, burned),
        is_poison(message),
    ensures
        records.len() == 0,
        total_of(burned, x) == total_of(lots, x),
{
}

/// Value routed to a provably unspendable output is destroyed: no record is
/// kept for such an output, and all that it is credited burns.
pub proof fn unspendable_outputs_keep_nothing(
    lots: Seq<Balance>,
    message: Option<Artifact>,
    etched: Option<RuneId>,
    outs: Seq<TxOut>,
    records: Seq<OutputRecord>,
    burned: Seq<Balance>,
    x: RuneId,
)
    requires
        settles(lots, message, etched, outs, records, burned),
    ensures
        forall|k: int| 0 <= k < records.len() ==> !outs[records[k].vout as int].unspendable,
        total_of(burned, x) >= credited_where(settled_credits(lots, message, etched, outs), outs, outs.len(), x, true),
{
    let credits = settled_credits(lots, message, etched, outs);
    match crate::transaction::unclaimed_destination(message, outs) {
        Some(_) => {},
        None => {
            crate::balances::lemma_total_nonneg(crate::transaction::after_edicts(lots, message, etched, outs).0, x);
        },
    }
}

/// Records in strictly increasing output order.
pub open spec fn in_output_order(r: Seq<OutputRecord>) -> bool {
    forall|k: int, l: int| 0 <= k < l < r.len() ==> r[k].vout < r[l].vout
}

proof fn lemma_same_vouts(r1: Seq<OutputRecord>, r2: Seq<OutputRecord>)
    requires
        in_output_order(r1),
        in_output_order(r2),
        forall|v: int| #![trigger has_record(r1, v)] #![trigger has_record(r2, v)] has_record(r1, v) <==> has_record(r2, v),
    ensures
        r1.len() == r2.len(),
        forall|k: int| 0 <= k < r1.len() ==> r1[k].vout == r2[k].vout,
    decreases r1.len() + r2.len(),
{
    if r1.len() == 0 {
        if r2.len() > 0 {
            assert(has_record(r2, r2[0].vout as int));
            assert(has_record(r1, r2[0].vout as int));
        }
    } else if r2.len() == 0 {
        assert(has_record(r1, r1[0].vout as int));
        assert(has_record(r2, r1[0].vout as int));
    } else {
        let a = r1.last().vout as int;
        let b = r2.last().vout as int;
        assert(has_record(r1, a));
        assert(has_record(r2, b));
        assert(has_record(r2, a));
        assert(has_record(r1, b));
        let k2 = choose|k: int| 0 <= k < r2.len() && r2[k].vout == a;
        let k1 = choose|k: int| 0 <= k < r1.len() && r1[k].vout == b;
        assert(a <= b) by {
            if k2 < r2.len() - 1 {
                assert(r2[k2].vout < r2.last().vout);
            }
        }
        assert(b <= a) by {
            if k1 < r1.len() - 1 {
                assert(r1[k1].vout < r1.last().vout);
            }
        }
        let s1 = r1.drop_last();
        let s2 = r2.drop_last();
        assert forall|v: int| #![trigger has_record(s1, v)] #![trigger has_record(s2, v)] has_record(s1, v) <==> has_record(s2, v) by {
            if has_record(s1, v) {
                let k = choose|k: int| 0 <= k < s1.len() && s1[k].vout == v;
                assert(r1[k].vout < a);
                assert(has_record(r1, v));
                let m = choose|m: int| 0 <= m < r2.len() && r2[m].vout == v;
                assert(m != r2.len() - 1);
                assert(s2[m].vout == v);
            }
            if has_record(s2, v) {
                let k = choose|k: int| 0 <= k < s2.len() && s2[k].vout == v;
                assert(r2[k].vout < b);
                assert(has_record(r2, v));
                let m = choose|m: int| 0 <= m < r1.len() && r1[m].vout == v;
                assert(m != r1.len() - 1);
                assert(s1[m].vout == v);
            }
        }
        lemma_same_vouts(s1, s2);
        assert forall|k: int| 0 <= k < r1.len() implies r1[k].vout == r2[k].vout by {
            if k < r1.len() - 1 {
                assert(s1[k] == r1[k]);
                assert(s2[k] == r2[k]);
            }
        }
    }
}

proof fn lemma_record_kept(
    lots: Seq<Balance>,
    message: Option<Artifact>,
    etched: Option<RuneId>,
    outs: Seq<TxOut>,
    records: Seq<OutputRecord>,
    burned: Seq<Balance>,
    k: int,
)
    requires
        settles(lots, message, etched, outs, records, burned),
        0 <= k < records.len(),
    ensures
        kept(settled_credits(lots, message, etched, outs), outs, records[k].vout as int),
{
    let bal = records[k].balances@;
    lemma_sorted_total(bal, 0);
    assert(total_of(bal, bal[0].id) > 0);
}

/// Settlement is deterministic: the same entering lots, message, etching and
/// outputs admit one outcome, the same records in the same order and the
/// same burn total for every rune.
pub proof fn settlement_is_determined(
    lots: Seq<Balance>,
    message: Option<Artifact>,
    etched: Option<RuneId>,
    outs: Seq<TxOut>,
    records1: Seq<OutputRecord>,
    burned1: Seq<Balance>,
    records2: Seq<OutputRecord>,
    burned2: Seq<Balance>,
)
    requires
        settles(lots, message, etched, outs, records1, burned1),
        settles(lots, message, etched, outs, records2, burned2),
    ensures
        records1.len() == records2.len(),
        forall|k: int| 0 <= k < records1.len() ==> records1[k].vout == records2[k].vout
            && records1[k].balances@ == records2[k].balances@,
        forall|x: RuneId| #[trigger] total_of(burned1, x) == total_of(burned2, x),
{
    let credits = settled_credits(lots, message, etched, outs);
    assert forall|v: int| #![trigger has_record(records1, v)] #![trigger has_record(records2, v)] has_record(records1, v) <==> has_record(records2, v) by {
        if has_record(records1, v) {
            let k = choose|k: int| 0 <= k < records1.len() && records1[k].vout == v;
            lemma_record_kept(lots, message, etched, outs, records1, burned1, k);
        }
        if has_record(records2, v) {
            let k = choose|k: int| 0 <= k < records2.len() && records2[k].vout == v;
            lemma_record_kept(lots, message, etched, outs, records2, burned2, k);
        }
    }
    lemma_same_vouts(records1, records2);
    assert forall|k: int| 0 <= k < records1.len() implies records1[k].vout == records2[k].vout
        && records1[k].balances@ == records2[k].balances@ by {
        sorted_balances_determined(records1[k].balances@, records2[k].balances@);
    }
}

/// A lookup of `op` in the stored records finds `v`.
pub open spec fn found_at(s: Seq<(OutPoint, Seq<Balance>, Seq<char>)>, op: OutPoint, v: (OutPoint, Seq<Balance>, Seq<char>)) -> bool {
    exists|j: int| #[trigger] first_view(s, op, j) && s[j] == v
}

proof fn lemma_upsert_found(s: Seq<(OutPoint, Seq<Balance>, Seq<char>)>, v: (OutPoint, Seq<Balance>, Seq<char>), op: OutPoint, w: (OutPoint, Seq<Balance>, Seq<char>))
    ensures
        op == v.0 ==> found_at(upsert_view(s, v), op, v),
        op != v.0 && found_at(s, op, w) ==> found_at(upsert_view(s, v), op, w),
{
    let t = upsert_view(s, v);
    if exists|i: int| 0 <= i < s.len() && s[i].0 == v.0 {
        let i0 = choose|i: int| 0 <= i < s.len() && s[i].0 == v.0;
        let i = choose|i: int| first_view(s, v.0, i);
        assert(exists|i: int| first_view(s, v.0, i)) by {
            lemma_first_exists(s, v.0, i0);
        }
        if op == v.0 {
            assert(first_view(t, op, i));
        }
        if op != v.0 && found_at(s, op, w) {
            let j = choose|j: int| #[trigger] first_view(s, op, j) && s[j] == w;
            assert(j != i);
            assert(first_view(t, op, j));
        }
    } else {
        if op == v.0 {
            assert(first_view(t, op, s.len() as int));
        }
        if op != v.0 && found_at(s, op, w) {
            let j = choose|j: int| #[trigger] first_view(s, op, j) && s[j] == w;
            assert(first_view(t, op, j));
        }
    }
}

proof fn lemma_first_exists(s: Seq<(OutPoint, Seq<Balance>, Seq<char>)>, op: OutPoint, i: int)
    requires
        0 <= i < s.len(),
        s[i].0 == op,
    ensures
        exists|j: int| first_view(s, op, j),
    decreases i,
{
    if forall|j: int| 0 <= j < i ==> s[j].0 != op {
        assert(first_view(s, op, i));
    } else {
        let j = choose|j: int| 0 <= j < i && s[j].0 == op;
        lemma_first_exists(s, op, j);
    }
}

/// Every output record of a transaction is stored: a lookup of its outpoint
/// finds its balances and the address of its output.
pub proof fn records_are_stored(
    s: Seq<(OutPoint, Seq<Balance>, Seq<char>)>,
    records: Seq<OutputRecord>,
    txid: Txid,
    outs: Seq<TxOut>,
    k: int,
)
    requires
        in_output_order(records),
        forall|m: int| 0 <= m < records.len() ==> records[m].vout <= u32::MAX,
        0 <= k < records.len(),
    ensures
        found_at(store_views(s, records, txid, outs), OutPoint { txid, vout: records[k].vout as u32 },
            created_view(txid, outs, records[k])),
    decreases records.len(),
{
    let prev = records.drop_last();
    let last = records.last();
    let op = OutPoint { txid, vout: records[k].vout as u32 };
    if k == records.len() - 1 {
        lemma_upsert_found(store_views(s, prev, txid, outs), created_view(txid, outs, last), op, created_view(txid, outs, last));
    } else {
        assert(in_output_order(prev));
        records_are_stored(s, prev, txid, outs, k);
        assert(prev[k] == records[k]);
        assert(records[k].vout < last.vout);
        assert(op != created_view(txid, outs, last).0);
        lemma_upsert_found(store_views(s, prev, txid, outs), created_view(txid, outs, last), op, created_view(txid, outs, records[k]));
    }
}

} // verus!
