use vstd::prelude::*;
use crate::types::{Balance, BlockHash, RuneId, TxOut, Txid};
use crate::balances::{total_of, lemma_total_nonneg};
use crate::event::Event;
use crate::outputs::{OutputRecord, recorded};
use crate::settle::totals_fit;

verus! {

/// What one address gave up (`debit`) and received (`credit`) of one rune
/// in one transaction.
#[derive(Clone, Debug, PartialEq, Eq)]
pub struct Flow {
    pub address: String,
    pub id: RuneId,
    pub debit: u128,
    pub credit: u128,
}

/// No two flows are for the same address and rune.
pub open spec fn distinct_flows(s: Seq<Flow>) -> bool {
    forall|i: int, j: int| 0 <= i < j < s.len() ==> !(s[i].address@ == s[j].address@ && s[i].id == s[j].id)
}

/// Some flow is for `a` and `id`.
pub open spec fn has_flow(s: Seq<Flow>, a: Seq<char>, id: RuneId) -> bool {
    exists|i: int| 0 <= i < s.len() && s[i].address@ == a && s[i].id == id
}

/// How much of `id` the lots owned by `a` hold together.
pub open spec fn owned_total(lots: Seq<Balance>, owners: Seq<Option<String>>, a: Seq<char>, id: RuneId) -> int
    decreases lots.len(),
{
    if lots.len() == 0 || owners.len() != lots.len() {
        0
    } else {
        owned_total(lots.drop_last(), owners.drop_last(), a, id) + match owners.last() {
            Some(s) => if s@ == a && lots.last().id == id { lots.last().amount as int } else { 0 },
            None => 0,
        }
    }
}

/// The address that receives what output `vout` keeps: empty where its
/// script has no standard address.
pub open spec fn address_of(outs: Seq<TxOut>, vout: int) -> Seq<char> {
    match outs[vout].address {
        Some(s) => s@,
        None => Seq::empty(),
    }
}

/// How much of `id` the records give to outputs of address `a`.
pub open spec fn received_total(records: Seq<OutputRecord>, outs: Seq<TxOut>, a: Seq<char>, id: RuneId) -> int
    decreases records.len(),
{
    if records.len() == 0 {
        0
    } else {
        received_total(records.drop_last(), outs, a, id) + if address_of(outs, records.last().vout as int) == a {
            total_of(records.last().balances@, id)
        } else {
            0
        }
    }
}

proof fn lemma_owned_le_total(lots: Seq<Balance>, owners: Seq<Option<String>>, a: Seq<char>, id: RuneId)
    ensures
        0 <= owned_total(lots, owners, a, id) <= total_of(lots, id),
    decreases lots.len(),
{
    if lots.len() > 0 {
        lemma_owned_le_total(lots.drop_last(), owners.drop_last(), a, id);
        lemma_total_nonneg(lots, id);
    }
}

/// Adds `debit` and `credit` to the flow of `address` and `id`, failing
/// where either total leaves `u128`.
pub fn add_flow(flows: &mut Vec<Flow>, address: &String, id: RuneId, debit: u128, credit: u128) -> (r: Result<(), ()>)
    requires
        distinct_flows(old(flows)@),
    ensures
        distinct_flows(final(flows)@),
        r.is_ok() ==> forall|a: Seq<char>, x: RuneId| #[trigger] has_flow(final(flows)@, a, x)
            <==> has_flow(old(flows)@, a, x) || (a == address@ && x == id),
        r.is_ok() ==> final(flows)@.len() >= old(flows)@.len(),
        r.is_ok() ==> forall|i: int| 0 <= i < final(flows)@.len() ==> {
            let f = #[trigger] final(flows)@[i];
            if f.address@ == address@ && f.id == id {
                (if i < old(flows)@.len() {
                    old(flows)@[i].address@ == address@ && old(flows)@[i].id == id
                        && f.debit == old(flows)@[i].debit + debit && f.credit == old(flows)@[i].credit + credit
                } else {
                    f.debit == debit && f.credit == credit
                })
            } else {
                i < old(flows)@.len() && f == old(flows)@[i]
            }
        },
        r.is_err() ==> exists|i: int| 0 <= i < old(flows)@.len() && old(flows)@[i].address@ == address@
            && old(flows)@[i].id == id
            && (old(flows)@[i].debit + debit > u128::MAX || old(flows)@[i].credit + credit > u128::MAX),
{
    let ghost f0 = flows@;
    let mut i: usize = 0;
    while i < flows.len()
        invariant
            i <= flows@.len(),
            flows@ == f0,
            old(flows)@ == f0,
            distinct_flows(f0),
            forall|j: int| 0 <= j < i ==> !(flows@[j].address@ == address@ && flows@[j].id == id),
        decreases flows.len() - i,
    {
        if flows[i].id == id && flows[i].address == *address {
            let f_debit = flows[i].debit;
            let f_credit = flows[i].credit;
            if f_debit > u128::MAX - debit || f_credit > u128::MAX - credit {
                proof {
                    assert(f0[i as int].address@ == address@);
                }
                return Err(());
            }
            let ghost before = flows@;
            let f = Flow { address: address.clone(), id, debit: f_debit + debit, credit: f_credit + credit };
            flows.set(i, f);
            proof {
                assert forall|a: Seq<char>, x: RuneId| #[trigger] has_flow(flows@, a, x)
                    <==> has_flow(before, a, x) || (a == address@ && x == id) by {
                    if has_flow(before, a, x) {
                        let k = choose|k: int| 0 <= k < before.len() && before[k].address@ == a && before[k].id == x;
                        assert(flows@[k].address@ == a && flows@[k].id == x);
                    }
                    if a == address@ && x == id {
                        assert(before[i as int].address@ == a);
                    }
                }
            }
            return Ok(());
        }
        i = i + 1;
    }
    let ghost before = flows@;
    flows.push(Flow { address: address.clone(), id, debit, credit });
    proof {
        assert forall|a: Seq<char>, x: RuneId| #[trigger] has_flow(flows@, a, x)
            <==> has_flow(before, a, x) || (a == address@ && x == id) by {
            if has_flow(before, a, x) {
                let k = choose|k: int| 0 <= k < before.len() && before[k].address@ == a && before[k].id == x;
                assert(flows@[k] == before[k]);
            }
            if a == address@ && x == id {
                assert(flows@[before.len() as int].address@ == a);
            }
        }
    }
    Ok(())
}

/// The event a flow emits: a debit where the address lost value, a credit
/// where it gained, none where it broke even.
pub open spec fn flow_event(f: Flow, height: u32, block_hash: BlockHash, tx_index: u32, txid: Txid) -> Option<Event> {
    if f.debit > f.credit {
        Some(Event::RuneDebited {
            amount: (f.debit - f.credit) as u128,
            block_height: height,
            block_hash,
            tx_index,
            from: f.address,
            rune_id: f.id,
            txid,
        })
    } else if f.credit > f.debit {
        Some(Event::RuneCredited {
            amount: (f.credit - f.debit) as u128,
            block_height: height,
            block_hash,
            tx_index,
            rune_id: f.id,
            to: f.address,
            txid,
        })
    } else {
        None
    }
}

/// The events of the flows, in order.
pub open spec fn flow_events(flows: Seq<Flow>, height: u32, block_hash: BlockHash, tx_index: u32, txid: Txid) -> Seq<Event>
    decreases flows.len(),
{
    if flows.len() == 0 {
        Seq::empty()
    } else {
        let prev = flow_events(flows.drop_last(), height, block_hash, tx_index, txid);
        match flow_event(flows.last(), height, block_hash, tx_index, txid) {
            Some(e) => prev.push(e),
            None => prev,
        }
    }
}

/// The address and rune an event debits or credits.
pub open spec fn transfer_key(e: Event) -> Option<(Seq<char>, RuneId)> {
    match e {
        Event::RuneDebited { from, rune_id, .. } => Some((from@, rune_id)),
        Event::RuneCredited { to, rune_id, .. } => Some((to@, rune_id)),
        _ => None,
    }
}

/// The events of the flows, in order.
pub fn transfer_events(flows: &Vec<Flow>, height: u32, block_hash: BlockHash, tx_index: u32, txid: Txid) -> (r: Vec<Event>)
    ensures
        r@ == flow_events(flows@, height, block_hash, tx_index, txid),
{
    let mut r: Vec<Event> = Vec::new();
    let mut i: usize = 0;
    while i < flows.len()
        invariant
            i <= flows@.len(),
            r@ == flow_events(flows@.take(i as int), height, block_hash, tx_index, txid),
        decreases flows.len() - i,
    {
        proof {
            assert(flows@.take(i + 1).drop_last() =~= flows@.take(i as int));
        }
        let f = &flows[i];
        if f.debit > f.credit {
            r.push(Event::RuneDebited {
                amount: f.debit - f.credit,
                block_height: height,
                block_hash,
                tx_index,
                from: f.address.clone(),
                rune_id: f.id,
                txid,
            });
        } else if f.credit > f.debit {
            r.push(Event::RuneCredited {
                amount: f.credit - f.debit,
                block_height: height,
                block_hash,
                tx_index,
                rune_id: f.id,
                to: f.address.clone(),
                txid,
            });
        }
        i = i + 1;
    }
    proof {
        assert(flows@.take(i as int) =~= flows@);
    }
    r
}

/// Lot `m` is of rune `x` and owned by address `a`.
pub open spec fn owns(lots: Seq<Balance>, owners: Seq<Option<String>>, m: int, a: Seq<char>, x: RuneId) -> bool {
    0 <= m < lots.len() && m < owners.len() && lots[m].id == x && match owners[m] {
        Some(s) => s@ == a,
        None => false,
    }
}

/// Some lot of rune `x` is owned by address `a`.
pub open spec fn owned_pair(lots: Seq<Balance>, owners: Seq<Option<String>>, a: Seq<char>, x: RuneId) -> bool {
    exists|m: int| #[trigger] owns(lots, owners, m, a, x)
}

/// The debit flows of the lots that enter a transaction: for each address
/// and rune, what the lots it owned held. Lots of newly created supply have
/// no owner and debit nobody.
pub fn debit_flows(lots: &Vec<Balance>, owners: &Vec<Option<String>>) -> (r: Vec<Flow>)
    requires
        totals_fit(lots@),
        owners@.len() == lots@.len(),
    ensures
        distinct_flows(r@),
        forall|i: int| 0 <= i < r@.len() ==> (#[trigger] r@[i]).credit == 0
            && r@[i].debit == owned_total(lots@, owners@, r@[i].address@, r@[i].id),
        forall|a: Seq<char>, x: RuneId| !has_flow(r@, a, x) ==> owned_total(lots@, owners@, a, x) == 0,
        forall|k: int| #![trigger r@[k]] 0 <= k < r@.len() ==> owned_pair(lots@, owners@, r@[k].address@, r@[k].id),
{
    let mut flows: Vec<Flow> = Vec::new();
    let mut i: usize = 0;
    while i < lots.len()
        invariant
            i <= lots@.len(),
            owners@.len() == lots@.len(),
            totals_fit(lots@),
            distinct_flows(flows@),
            forall|k: int| 0 <= k < flows@.len() ==> (#[trigger] flows@[k]).credit == 0
                && flows@[k].debit == owned_total(lots@.take(i as int), owners@.take(i as int), flows@[k].address@, flows@[k].id),
            forall|a: Seq<char>, x: RuneId| !has_flow(flows@, a, x)
                ==> owned_total(lots@.take(i as int), owners@.take(i as int), a, x) == 0,
            forall|k: int| #![trigger flows@[k]] 0 <= k < flows@.len() ==> owned_pair(lots@, owners@, flows@[k].address@, flows@[k].id),
        decreases lots.len() - i,
    {
        let ghost lt = lots@.take(i + 1);
        let ghost ot = owners@.take(i + 1);
        proof {
            assert(lt.drop_last() =~= lots@.take(i as int));
            assert(ot.drop_last() =~= owners@.take(i as int));
        }
        match &owners[i] {
            None => {
                proof {
                    assert forall|a: Seq<char>, x: RuneId| owned_total(lt, ot, a, x)
                        == owned_total(lots@.take(i as int), owners@.take(i as int), a, x) by {}
                }
            },
            Some(address) => {
                let lot = lots[i];
                let ghost before = flows@;
                proof {
                    lemma_owned_le_total(lt, ot, address@, lot.id);
                    crate::settle::lemma_total_concat_take(lots@, i + 1, lot.id);
                    assert(owned_total(lt, ot, address@, lot.id)
                        == owned_total(lots@.take(i as int), owners@.take(i as int), address@, lot.id) + lot.amount);
                    assert(total_of(lots@, lot.id) <= u128::MAX);
                }
                let res = add_flow(&mut flows, address, lot.id, lot.amount, 0);
                proof {
                    if res.is_err() {
                        let k = choose|k: int| 0 <= k < before.len() && before[k].address@ == address@
                            && before[k].id == lot.id
                            && (before[k].debit + lot.amount > u128::MAX || before[k].credit + 0 > u128::MAX);
                        assert(before[k].debit == owned_total(lots@.take(i as int), owners@.take(i as int), address@, lot.id));
                    }
                    assert forall|a: Seq<char>, x: RuneId| owned_total(lt, ot, a, x)
                        == owned_total(lots@.take(i as int), owners@.take(i as int), a, x)
                            + (if a == address@ && x == lot.id { lot.amount as int } else { 0 }) by {}
                    assert forall|k: int| 0 <= k < flows@.len() implies (#[trigger] flows@[k]).credit == 0
                        && flows@[k].debit == owned_total(lt, ot, flows@[k].address@, flows@[k].id) by {
                        let f = flows@[k];
                        let a = f.address@;
                        let x = f.id;
                        assert(owned_total(lt, ot, a, x)
                            == owned_total(lots@.take(i as int), owners@.take(i as int), a, x)
                                + (if a == address@ && x == lot.id { lot.amount as int } else { 0 }));
                        if a == address@ && x == lot.id {
                            if k >= before.len() {
                                if has_flow(before, address@, lot.id) {
                                    let m = choose|m: int| 0 <= m < before.len() && before[m].address@ == address@
                                        && before[m].id == lot.id;
                                    assert(flows@[m].address@ == address@ && flows@[m].id == lot.id);
                                    assert(false);
                                }
                                assert(f.debit == lot.amount);
                            } else {
                                assert(before[k].debit == owned_total(lots@.take(i as int), owners@.take(i as int), a, x));
                                assert(f.debit == before[k].debit + lot.amount);
                            }
                        } else {
                            assert(f == before[k]);
                            assert(before[k].debit == owned_total(lots@.take(i as int), owners@.take(i as int), a, x));
                        }
                    }
                    assert forall|k: int| #![trigger flows@[k]] 0 <= k < flows@.len() implies owned_pair(lots@, owners@, flows@[k].address@, flows@[k].id) by {
                        let f = flows@[k];
                        if f.address@ == address@ && f.id == lot.id {
                            assert(owns(lots@, owners@, i as int, f.address@, f.id));
                        } else {
                            assert(f == before[k]);
                        }
                    }
                    assert forall|a: Seq<char>, x: RuneId| !has_flow(flows@, a, x)
                        implies owned_total(lt, ot, a, x) == 0 by {
                        assert(has_flow(flows@, a, x) <==> has_flow(before, a, x) || (a == address@ && x == lot.id));
                    }
                }
            },
        }
        i = i + 1;
    }
    proof {
        assert(lots@.take(i as int) =~= lots@);
        assert(owners@.take(i as int) =~= owners@);
    }
    flows
}

/// `new` is `old` with `gain(a, x)` more credited to each address `a` and
/// rune `x`, flows being added for pairs that had none.
pub open spec fn grown_by(old: Seq<Flow>, new: Seq<Flow>, gain: spec_fn(Seq<char>, RuneId) -> int) -> bool {
    &&& new.len() >= old.len()
    &&& forall|k: int| 0 <= k < new.len() ==> {
        let f = #[trigger] new[k];
        &&& (k < old.len() ==> f.address@ == old[k].address@ && f.id == old[k].id && f.debit == old[k].debit
            && f.credit == old[k].credit + gain(f.address@, f.id))
        &&& (k >= old.len() ==> f.debit == 0 && f.credit == gain(f.address@, f.id))
    }
    &&& forall|a: Seq<char>, x: RuneId| !#[trigger] has_flow(new, a, x) ==> !has_flow(old, a, x) && gain(a, x) == 0
}

proof fn lemma_grown_trans(
    a: Seq<Flow>,
    b: Seq<Flow>,
    c: Seq<Flow>,
    g1: spec_fn(Seq<char>, RuneId) -> int,
    g2: spec_fn(Seq<char>, RuneId) -> int,
    g: spec_fn(Seq<char>, RuneId) -> int,
)
    requires
        grown_by(a, b, g1),
        grown_by(b, c, g2),
        distinct_flows(c),
        forall|s: Seq<char>, x: RuneId| #[trigger] g(s, x) == g1(s, x) + g2(s, x),
    ensures
        grown_by(a, c, g),
{
    assert forall|k: int| 0 <= k < c.len() implies {
        let f = #[trigger] c[k];
        &&& (k < a.len() ==> f.address@ == a[k].address@ && f.id == a[k].id && f.debit == a[k].debit
            && f.credit == a[k].credit + g(f.address@, f.id))
        &&& (k >= a.len() ==> f.debit == 0 && f.credit == g(f.address@, f.id))
    } by {
        let f = c[k];
        if k >= b.len() {
            if has_flow(b, f.address@, f.id) {
                let m = choose|m: int| 0 <= m < b.len() && b[m].address@ == f.address@ && b[m].id == f.id;
                assert(c[m].address@ == f.address@ && c[m].id == f.id);
                assert(false);
            }
            assert(g1(f.address@, f.id) == 0);
        } else {
            assert(b[k].address@ == f.address@ && b[k].id == f.id);
        }
    }
    assert forall|s: Seq<char>, x: RuneId| !#[trigger] has_flow(c, s, x) implies !has_flow(a, s, x) && g(s, x) == 0 by {
        assert(!has_flow(b, s, x));
    }
}

proof fn lemma_grown_same(a: Seq<Flow>, g: spec_fn(Seq<char>, RuneId) -> int)
    requires
        forall|s: Seq<char>, x: RuneId| #[trigger] g(s, x) == 0,
    ensures
        grown_by(a, a, g),
{
}

proof fn lemma_received_nonneg(records: Seq<OutputRecord>, outs: Seq<TxOut>, a: Seq<char>, x: RuneId)
    ensures
        received_total(records, outs, a, x) >= 0,
    decreases records.len(),
{
    if records.len() > 0 {
        lemma_received_nonneg(records.drop_last(), outs, a, x);
        lemma_total_nonneg(records.last().balances@, x);
    }
}

proof fn lemma_received_prefix(records: Seq<OutputRecord>, outs: Seq<TxOut>, k: int, a: Seq<char>, x: RuneId)
    requires
        0 <= k <= records.len(),
    ensures
        received_total(records.take(k), outs, a, x) <= received_total(records, outs, a, x),
    decreases records.len() - k,
{
    if k < records.len() {
        lemma_received_prefix(records, outs, k + 1, a, x);
        assert(records.take(k + 1).drop_last() =~= records.take(k));
        lemma_total_nonneg(records[k].balances@, x);
    } else {
        assert(records.take(k) =~= records);
    }
}

/// What any address receives of a rune is at most what the records hold of it.
pub proof fn lemma_received_le_recorded(records: Seq<OutputRecord>, outs: Seq<TxOut>, a: Seq<char>, x: RuneId)
    ensures
        received_total(records, outs, a, x) <= recorded(records, x),
    decreases records.len(),
{
    if records.len() > 0 {
        lemma_received_le_recorded(records.drop_last(), outs, a, x);
        lemma_total_nonneg(records.last().balances@, x);
    }
}

/// Credits `balances` to `address`.
pub fn credit_balances(flows: &mut Vec<Flow>, address: &String, balances: &Vec<Balance>)
    requires
        distinct_flows(old(flows)@),
        forall|x: RuneId| #[trigger] total_of(balances@, x) <= u128::MAX,
        forall|k: int| #![trigger old(flows)@[k]] 0 <= k < old(flows)@.len() && old(flows)@[k].address@ == address@
            ==> old(flows)@[k].credit + total_of(balances@, old(flows)@[k].id) <= u128::MAX,
    ensures
        distinct_flows(final(flows)@),
        grown_by(old(flows)@, final(flows)@,
            |s: Seq<char>, x: RuneId| if s == address@ { total_of(balances@, x) } else { 0 }),
{
    let ghost f0 = flows@;
    let mut j: usize = 0;
    proof {
        lemma_grown_same(f0, |s: Seq<char>, x: RuneId| if s == address@ { total_of(balances@.take(0), x) } else { 0 });
    }
    while j < balances.len()
        invariant
            j <= balances@.len(),
            distinct_flows(flows@),
            forall|x: RuneId| #[trigger] total_of(balances@, x) <= u128::MAX,
            forall|k: int| #![trigger f0[k]] 0 <= k < f0.len() && f0[k].address@ == address@
                ==> f0[k].credit + total_of(balances@, f0[k].id) <= u128::MAX,
            grown_by(f0, flows@, |s: Seq<char>, x: RuneId| if s == address@ { total_of(balances@.take(j as int), x) } else { 0 }),
        decreases balances.len() - j,
    {
        proof {
            assert(balances@.take(j + 1).drop_last() =~= balances@.take(j as int));
        }
        let b = balances[j];
        let ghost before = flows@;
        let res = add_flow(flows, address, b.id, 0, b.amount);
        proof {
            crate::settle::lemma_total_concat_take(balances@, j + 1, b.id);
            assert(total_of(balances@.take(j + 1), b.id) == total_of(balances@.take(j as int), b.id) + b.amount);
            if res.is_err() {
                let i = choose|i: int| 0 <= i < before.len() && before[i].address@ == address@
                    && before[i].id == b.id
                    && (before[i].debit + 0 > u128::MAX || before[i].credit + b.amount > u128::MAX);
                let f = before[i];
                if i < f0.len() {
                    assert(f0[i].address@ == address@ && f0[i].id == b.id);
                }
                assert(false);
            }
        }
        proof {
            let g1 = |s: Seq<char>, x: RuneId| if s == address@ { total_of(balances@.take(j as int), x) } else { 0 };
            let g2 = |s: Seq<char>, x: RuneId| if s == address@ && x == b.id { b.amount as int } else { 0 };
            assert forall|k: int| 0 <= k < flows@.len() implies {
                let f = #[trigger] flows@[k];
                &&& (k < before.len() ==> f.address@ == before[k].address@ && f.id == before[k].id
                    && f.debit == before[k].debit && f.credit == before[k].credit + g2(f.address@, f.id))
                &&& (k >= before.len() ==> f.debit == 0 && f.credit == g2(f.address@, f.id))
            } by {
                let f = flows@[k];
                if k >= before.len() {
                    assert(f.address@ == address@ && f.id == b.id);
                }
            }
            assert forall|s: Seq<char>, x: RuneId| !#[trigger] has_flow(flows@, s, x)
                implies !has_flow(before, s, x) && g2(s, x) == 0 by {
                assert(has_flow(flows@, s, x) <==> has_flow(before, s, x) || (s == address@ && x == b.id));
            }
            assert(grown_by(before, flows@, g2));
            let g = |s: Seq<char>, x: RuneId| if s == address@ { total_of(balances@.take(j + 1), x) } else { 0 };
            lemma_grown_trans(f0, before, flows@, g1, g2, g);
        }
        j = j + 1;
    }
    proof {
        assert(balances@.take(j as int) =~= balances@);
    }
}

/// Credits the balances of every record to the address of its output.
pub fn credit_flows(flows: &mut Vec<Flow>, records: &Vec<OutputRecord>, outs: &Vec<TxOut>)
    requires
        distinct_flows(old(flows)@),
        forall|k: int| 0 <= k < records@.len() ==> records@[k].vout < outs@.len(),
        forall|a: Seq<char>, x: RuneId| #[trigger] received_total(records@, outs@, a, x) <= u128::MAX,
        forall|k: int| #![trigger old(flows)@[k]] 0 <= k < old(flows)@.len() ==>
            old(flows)@[k].credit + received_total(records@, outs@, old(flows)@[k].address@, old(flows)@[k].id) <= u128::MAX,
    ensures
        distinct_flows(final(flows)@),
        grown_by(old(flows)@, final(flows)@,
            |s: Seq<char>, x: RuneId| received_total(records@, outs@, s, x)),
{
    let ghost f0 = flows@;
    let mut k: usize = 0;
    proof {
        lemma_grown_same(f0, |s: Seq<char>, x: RuneId| received_total(records@.take(0), outs@, s, x));
    }
    while k < records.len()
        invariant
            k <= records@.len(),
            forall|m: int| 0 <= m < records@.len() ==> records@[m].vout < outs@.len(),
            forall|a: Seq<char>, x: RuneId| #[trigger] received_total(records@, outs@, a, x) <= u128::MAX,
            forall|m: int| #![trigger f0[m]] 0 <= m < f0.len() ==>
                f0[m].credit + received_total(records@, outs@, f0[m].address@, f0[m].id) <= u128::MAX,
            distinct_flows(flows@),
            grown_by(f0, flows@, |s: Seq<char>, x: RuneId| received_total(records@.take(k as int), outs@, s, x)),
        decreases records.len() - k,
    {
        proof {
            assert(records@.take(k + 1).drop_last() =~= records@.take(k as int));
        }
        let rec = &records[k];
        let address: String = match &outs[rec.vout].address {
            Some(a) => a.clone(),
            None => String::new(),
        };
        let ghost before = flows@;
        proof {
            assert(address@ == address_of(outs@, rec.vout as int));
            assert(records@.take(k + 1).last() == *rec);
            assert forall|x: RuneId| #[trigger] total_of(rec.balances@, x) <= u128::MAX by {
                lemma_received_nonneg(records@.take(k as int), outs@, address@, x);
                lemma_received_prefix(records@, outs@, k + 1, address@, x);
            }
            assert forall|m: int| #![trigger before[m]] 0 <= m < before.len() && before[m].address@ == address@
                implies before[m].credit + total_of(rec.balances@, before[m].id) <= u128::MAX by {
                let f = before[m];
                lemma_received_prefix(records@, outs@, k + 1, f.address@, f.id);
                if m < f0.len() {
                    assert(f0[m].address@ == f.address@ && f0[m].id == f.id);
                }
            }
        }
        credit_balances(flows, &address, &rec.balances);
        proof {
            let g1 = |s: Seq<char>, x: RuneId| received_total(records@.take(k as int), outs@, s, x);
            let g2 = |s: Seq<char>, x: RuneId| if s == address@ { total_of(rec.balances@, x) } else { 0 };
            let g = |s: Seq<char>, x: RuneId| received_total(records@.take(k + 1), outs@, s, x);
            assert forall|s: Seq<char>, x: RuneId| #[trigger] g(s, x) == g1(s, x) + g2(s, x) by {
                assert(records@.take(k + 1).last() == *rec);
            }
            lemma_grown_trans(f0, before, flows@, g1, g2, g);
        }
        k = k + 1;
    }
    proof {
        assert(records@.take(k as int) =~= records@);
    }
}

} // verus!
