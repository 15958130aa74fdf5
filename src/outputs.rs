use vstd::prelude::*;
use crate::types::{Balance, RuneId, TxOut};
use crate::balances::{Credit, total_of, credited, credited_to, lemma_total_concat, lemma_total_nonneg,
    lemma_total_update};
use crate::settle::{burn_all, distinct_ids, lemma_lot_le_total};

verus! {

/// Rune ids in their order: by block, then by transaction index.
pub open spec fn id_lt(a: RuneId, b: RuneId) -> bool {
    a.block < b.block || (a.block == b.block && a.tx < b.tx)
}

/// Balances in strictly increasing order of rune id.
pub open spec fn sorted_by_id(s: Seq<Balance>) -> bool {
    forall|i: int, j: int| 0 <= i < j < s.len() ==> id_lt(s[i].id, s[j].id)
}

/// The balances that one output of the transaction keeps.
#[derive(Clone, Debug, PartialEq, Eq)]
pub struct OutputRecord {
    pub vout: usize,
    pub balances: Vec<Balance>,
}

/// Output `v` is kept: its script is spendable and it is credited some rune.
pub open spec fn kept(s: Seq<Credit>, outs: Seq<TxOut>, v: int) -> bool {
    0 <= v < outs.len() && !outs[v].unspendable && exists|x: RuneId| credited_to(s, v, x) != 0
}

/// Some record is for output `v`.
pub open spec fn has_record(records: Seq<OutputRecord>, v: int) -> bool {
    exists|k: int| 0 <= k < records.len() && records[k].vout == v
}

/// How much of `id` the records hold together.
pub open spec fn recorded(s: Seq<OutputRecord>, id: RuneId) -> int
    decreases s.len(),
{
    if s.len() == 0 {
        0
    } else {
        recorded(s.drop_last(), id) + total_of(s.last().balances@, id)
    }
}

/// How much of `id` the credits grant to the outputs below `m` whose script
/// is provably unspendable (`unspendable`), or to the others.
pub open spec fn credited_where(s: Seq<Credit>, outs: Seq<TxOut>, m: nat, id: RuneId, unspendable: bool) -> int
    decreases m,
{
    if m == 0 {
        0
    } else {
        credited_where(s, outs, (m - 1) as nat, id, unspendable) + if outs[m - 1].unspendable == unspendable {
            credited_to(s, m - 1, id)
        } else {
            0
        }
    }
}

proof fn lemma_credited_to_nonneg(s: Seq<Credit>, v: int, id: RuneId)
    ensures
        credited_to(s, v, id) >= 0,
    decreases s.len(),
{
    if s.len() > 0 {
        lemma_credited_to_nonneg(s.drop_last(), v, id);
    }
}

proof fn lemma_where_push(s: Seq<Credit>, c: Credit, outs: Seq<TxOut>, m: nat, id: RuneId, u: bool)
    ensures
        credited_where(s.push(c), outs, m, id, u) == credited_where(s, outs, m, id, u)
            + if c.id == id && c.vout < m && outs[c.vout as int].unspendable == u { c.amount as int } else { 0 },
    decreases m,
{
    if m > 0 {
        lemma_where_push(s, c, outs, (m - 1) as nat, id, u);
        assert(s.push(c).drop_last() =~= s);
    }
}

/// Where every credit names an output below `m`, the two parts together are
/// everything credited.
proof fn lemma_where_total(s: Seq<Credit>, outs: Seq<TxOut>, m: nat, id: RuneId)
    requires
        forall|i: int| 0 <= i < s.len() ==> s[i].vout < m,
    ensures
        credited_where(s, outs, m, id, true) + credited_where(s, outs, m, id, false) == credited(s, id),
    decreases s.len(),
{
    if s.len() > 0 {
        let t = s.drop_last();
        lemma_where_total(t, outs, m, id);
        assert(t.push(s.last()) =~= s);
        lemma_where_push(t, s.last(), outs, m, id, true);
        lemma_where_push(t, s.last(), outs, m, id, false);
    } else {
        lemma_where_zero(s, outs, m, id, true);
        lemma_where_zero(s, outs, m, id, false);
    }
}

pub proof fn lemma_where_zero(s: Seq<Credit>, outs: Seq<TxOut>, m: nat, id: RuneId, u: bool)
    requires
        s.len() == 0,
    ensures
        credited_where(s, outs, m, id, u) == 0,
    decreases m,
{
    if m > 0 {
        lemma_where_zero(s, outs, (m - 1) as nat, id, u);
    }
}

proof fn lemma_where_mono(s: Seq<Credit>, outs: Seq<TxOut>, m: nat, n: nat, id: RuneId, u: bool)
    requires
        m <= n,
    ensures
        credited_where(s, outs, m, id, u) <= credited_where(s, outs, n, id, u),
    decreases n - m,
{
    if m < n {
        lemma_where_mono(s, outs, m, (n - 1) as nat, id, u);
        lemma_credited_to_nonneg(s, n - 1, id);
    }
}

proof fn lemma_total_insert(s: Seq<Balance>, p: int, v: Balance, id: RuneId)
    requires
        0 <= p <= s.len(),
    ensures
        total_of(s.insert(p, v), id) == total_of(s, id) + if v.id == id { v.amount as int } else { 0 },
{
    assert(s.insert(p, v) =~= (s.take(p).push(v)) + s.skip(p));
    assert(s =~= s.take(p) + s.skip(p));
    lemma_total_concat(s.take(p).push(v), s.skip(p), id);
    lemma_total_concat(s.take(p), s.skip(p), id);
    assert(s.take(p).push(v).drop_last() =~= s.take(p));
}

/// The balances credited to output `vout`: one per rune, nonzero, in order
/// of rune id.
pub fn output_balances(credits: &Vec<Credit>, vout: usize) -> (r: Vec<Balance>)
    requires
        forall|x: RuneId| #[trigger] credited_to(credits@, vout as int, x) <= u128::MAX,
    ensures
        sorted_by_id(r@),
        forall|i: int| 0 <= i < r@.len() ==> r@[i].amount > 0,
        forall|x: RuneId| #[trigger] total_of(r@, x) == credited_to(credits@, vout as int, x),
{
    let mut r: Vec<Balance> = Vec::new();
    let mut i: usize = 0;
    while i < credits.len()
        invariant
            i <= credits.len(),
            forall|x: RuneId| #[trigger] credited_to(credits@, vout as int, x) <= u128::MAX,
            sorted_by_id(r@),
            forall|k: int| 0 <= k < r@.len() ==> r@[k].amount > 0,
            forall|x: RuneId| #[trigger] total_of(r@, x) == credited_to(credits@.take(i as int), vout as int, x),
        decreases credits.len() - i,
    {
        proof {
            assert(credits@.take(i + 1).drop_last() =~= credits@.take(i as int));
            lemma_credited_to_prefix(credits@, i + 1, vout as int, credits@[i as int].id);
        }
        let c = credits[i];
        if c.vout == vout && c.amount > 0 {
            let mut p: usize = 0;
            while p < r.len() && (r[p].id.block < c.id.block || (r[p].id.block == c.id.block && r[p].id.tx < c.id.tx))
                invariant
                    p <= r@.len(),
                    forall|k: int| 0 <= k < p ==> id_lt(r@[k].id, c.id),
                decreases r.len() - p,
            {
                p = p + 1;
            }
            let ghost before = r@;
            if p < r.len() && r[p].id == c.id {
                proof {
                    lemma_lot_le_total(before, p as int);
                }
                let held = r[p].amount;
                r.set(p, Balance { id: c.id, amount: held + c.amount });
                proof {
                    assert forall|x: RuneId| #[trigger] total_of(r@, x)
                        == credited_to(credits@.take(i + 1), vout as int, x) by {
                        lemma_total_update(before, p as int, Balance { id: c.id, amount: (held + c.amount) as u128 }, x);
                    }
                }
            } else {
                r.insert(p, Balance { id: c.id, amount: c.amount });
                proof {
                    assert forall|x: RuneId| #[trigger] total_of(r@, x)
                        == credited_to(credits@.take(i + 1), vout as int, x) by {
                        lemma_total_insert(before, p as int, Balance { id: c.id, amount: c.amount }, x);
                    }
                    assert forall|a: int, b: int| 0 <= a < b < r@.len() implies id_lt(r@[a].id, r@[b].id) by {
                        if a < p && b > p {
                            assert(id_lt(before[a].id, c.id));
                            if p < before.len() {
                                assert(!id_lt(before[p as int].id, c.id));
                                assert(id_lt(before[p as int].id, before[b - 1].id) || b - 1 == p);
                            }
                        } else if a == p && b > p {
                            assert(!id_lt(before[p as int].id, c.id));
                            assert(id_lt(before[p as int].id, before[b - 1].id) || b - 1 == p);
                        }
                    }
                }
            }
        } else {
            proof {
                assert forall|x: RuneId| #[trigger] total_of(r@, x)
                    == credited_to(credits@.take(i + 1), vout as int, x) by {}
            }
        }
        i = i + 1;
    }
    proof {
        assert(credits@.take(i as int) =~= credits@);
    }
    r
}

proof fn lemma_credited_to_prefix(s: Seq<Credit>, i: int, v: int, id: RuneId)
    requires
        0 <= i <= s.len(),
    ensures
        credited_to(s.take(i), v, id) <= credited_to(s, v, id),
    decreases s.len() - i,
{
    if i < s.len() {
        lemma_credited_to_prefix(s, i + 1, v, id);
        assert(s.take(i + 1).drop_last() =~= s.take(i));
    } else {
        assert(s.take(i) =~= s);
    }
}

/// Settles the credits output by output: what an output whose script is
/// provably unspendable receives is added to the burn totals; every other
/// output that receives anything gets a record of its balances.
pub fn settle_outputs(credits: &Vec<Credit>, outs: &Vec<TxOut>, burned: &mut Vec<Balance>) -> (records: Vec<OutputRecord>)
    requires
        forall|i: int| 0 <= i < credits@.len() ==> credits@[i].vout < outs@.len(),
        distinct_ids(old(burned)@),
        forall|x: RuneId| #[trigger] total_of(old(burned)@, x) + credited(credits@, x) <= u128::MAX,
    ensures
        distinct_ids(final(burned)@),
        forall|x: RuneId| #[trigger] total_of(final(burned)@, x)
            == total_of(old(burned)@, x) + credited_where(credits@, outs@, outs@.len(), x, true),
        forall|x: RuneId| #[trigger] recorded(records@, x)
            == credited_where(credits@, outs@, outs@.len(), x, false),
        forall|x: RuneId| #[trigger] total_of(final(burned)@, x) + recorded(records@, x)
            == total_of(old(burned)@, x) + credited(credits@, x),
        forall|k: int| 0 <= k < records@.len() ==> {
            &&& records@[k].vout < outs@.len()
            &&& !outs@[records@[k].vout as int].unspendable
            &&& records@[k].balances@.len() > 0
            &&& sorted_by_id(records@[k].balances@)
            &&& forall|i: int| 0 <= i < records@[k].balances@.len() ==> records@[k].balances@[i].amount > 0
            &&& forall|x: RuneId| #[trigger] total_of(records@[k].balances@, x)
                == credited_to(credits@, records@[k].vout as int, x)
        },
        forall|k: int, l: int| 0 <= k < l < records@.len() ==> records@[k].vout < records@[l].vout,
        forall|v: int| #[trigger] kept(credits@, outs@, v) ==> has_record(records@, v),
{
    let ghost b0 = burned@;
    let n: usize = outs.len();
    let mut records: Vec<OutputRecord> = Vec::new();
    let mut vout: usize = 0;
    proof {
        assert forall|x: RuneId| #[trigger] credited_where(credits@, outs@, n as nat, x, true)
            + credited_where(credits@, outs@, n as nat, x, false) == credited(credits@, x) by {
            lemma_where_total(credits@, outs@, n as nat, x);
        }
    }
    while vout < n
        invariant
            vout <= n,
            n == outs@.len(),
            forall|i: int| 0 <= i < credits@.len() ==> credits@[i].vout < n,
            forall|x: RuneId| #[trigger] total_of(b0, x) + credited(credits@, x) <= u128::MAX,
            forall|x: RuneId| #[trigger] credited_where(credits@, outs@, n as nat, x, true)
                + credited_where(credits@, outs@, n as nat, x, false) == credited(credits@, x),
            distinct_ids(burned@),
            forall|x: RuneId| #[trigger] total_of(burned@, x)
                == total_of(b0, x) + credited_where(credits@, outs@, vout as nat, x, true),
            forall|x: RuneId| #[trigger] recorded(records@, x)
                == credited_where(credits@, outs@, vout as nat, x, false),
            forall|k: int| 0 <= k < records@.len() ==> {
                &&& records@[k].vout < vout
                &&& !outs@[records@[k].vout as int].unspendable
                &&& records@[k].balances@.len() > 0
                &&& sorted_by_id(records@[k].balances@)
                &&& forall|i: int| 0 <= i < records@[k].balances@.len() ==> records@[k].balances@[i].amount > 0
                &&& forall|x: RuneId| #[trigger] total_of(records@[k].balances@, x)
                    == credited_to(credits@, records@[k].vout as int, x)
            },
            forall|k: int, l: int| 0 <= k < l < records@.len() ==> records@[k].vout < records@[l].vout,
            forall|v: int| 0 <= v < vout && #[trigger] kept(credits@, outs@, v) ==> has_record(records@, v),
        decreases n - vout,
    {
        proof {
            assert forall|x: RuneId| #[trigger] credited_to(credits@, vout as int, x) <= u128::MAX
                && credited_where(credits@, outs@, (vout + 1) as nat, x, outs@[vout as int].unspendable)
                    <= credited(credits@, x) by {
                let u = outs@[vout as int].unspendable;
                lemma_where_mono(credits@, outs@, (vout + 1) as nat, n as nat, x, u);
                lemma_where_mono(credits@, outs@, 0, vout as nat, x, u);
                lemma_where_mono(credits@, outs@, 0, n as nat, x, !u);
                lemma_total_nonneg(b0, x);
            }
        }
        let bal = output_balances(credits, vout);
        if bal.len() > 0 {
            if outs[vout].unspendable {
                burn_all(&bal, burned);
            } else {
                let ghost before = records@;
                records.push(OutputRecord { vout, balances: bal });
                proof {
                    assert(records@.drop_last() =~= before);
                    assert forall|v: int| 0 <= v < vout + 1 && #[trigger] kept(credits@, outs@, v)
                        implies has_record(records@, v) by {
                        if v < vout {
                            let k = choose|k: int| 0 <= k < before.len() && before[k].vout == v;
                            assert(records@[k] == before[k]);
                        } else {
                            assert(records@[before.len() as int].vout == v);
                        }
                    }
                    assert forall|x: RuneId| #[trigger] recorded(records@, x)
                        == credited_where(credits@, outs@, (vout + 1) as nat, x, false) by {
                        assert(records@.drop_last() =~= before);
                        assert(records@.last().balances@ == bal@);
                        assert(recorded(before, x) == credited_where(credits@, outs@, vout as nat, x, false));
                        assert(recorded(records@, x) == recorded(before, x) + total_of(bal@, x));
                        assert(total_of(bal@, x) == credited_to(credits@, vout as int, x));
                        assert(credited_where(credits@, outs@, (vout + 1) as nat, x, false)
                            == credited_where(credits@, outs@, vout as nat, x, false) + credited_to(credits@, vout as int, x));
                    }
                }
            }
        } else {
            proof {
                assert forall|x: RuneId| #[trigger] credited_to(credits@, vout as int, x) == 0 by {
                    crate::balances::lemma_total_absent(bal@, x);
                }
                assert(!kept(credits@, outs@, vout as int));
            }
        }
        vout = vout + 1;
    }
    records
}

} // verus!
