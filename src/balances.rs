use vstd::prelude::*;
use crate::types::{Balance, RuneId};

verus! {

/// Value credited to output `vout` of the transaction being settled.
#[derive(Clone, Copy, Debug, PartialEq, Eq, Structural)]
pub struct Credit {
    pub vout: usize,
    pub id: RuneId,
    pub amount: u128,
}

/// How much of `id` the balances hold together.
pub open spec fn total_of(s: Seq<Balance>, id: RuneId) -> int
    decreases s.len(),
{
    if s.len() == 0 {
        0
    } else {
        total_of(s.drop_last(), id) + if s.last().id == id { s.last().amount as int } else { 0 }
    }
}

/// How much of `id` the credits grant together, over all outputs.
pub open spec fn credited(s: Seq<Credit>, id: RuneId) -> int
    decreases s.len(),
{
    if s.len() == 0 {
        0
    } else {
        credited(s.drop_last(), id) + if s.last().id == id { s.last().amount as int } else { 0 }
    }
}

/// How much of `id` the credits grant to output `vout`.
pub open spec fn credited_to(s: Seq<Credit>, vout: int, id: RuneId) -> int
    decreases s.len(),
{
    if s.len() == 0 {
        0
    } else {
        credited_to(s.drop_last(), vout, id) + if s.last().id == id && s.last().vout == vout {
            s.last().amount as int
        } else {
            0
        }
    }
}

/// Balances with no lot of `id` hold none of it.
pub proof fn lemma_total_absent(s: Seq<Balance>, id: RuneId)
    requires
        forall|j: int| 0 <= j < s.len() ==> s[j].id != id,
    ensures
        total_of(s, id) == 0,
    decreases s.len(),
{
    if s.len() > 0 {
        lemma_total_absent(s.drop_last(), id);
    }
}

pub proof fn lemma_total_nonneg(s: Seq<Balance>, id: RuneId)
    ensures
        total_of(s, id) >= 0,
    decreases s.len(),
{
    if s.len() > 0 {
        lemma_total_nonneg(s.drop_last(), id);
    }
}

pub proof fn lemma_total_concat(a: Seq<Balance>, b: Seq<Balance>, id: RuneId)
    ensures
        total_of(a + b, id) == total_of(a, id) + total_of(b, id),
    decreases b.len(),
{
    if b.len() > 0 {
        assert((a + b).drop_last() =~= a + b.drop_last());
        lemma_total_concat(a, b.drop_last(), id);
    } else {
        assert(a + b =~= a);
    }
}

pub proof fn lemma_total_update(s: Seq<Balance>, j: int, v: Balance, id: RuneId)
    requires
        0 <= j < s.len(),
    ensures
        total_of(s.update(j, v), id) == total_of(s, id)
            - (if s[j].id == id { s[j].amount as int } else { 0 })
            + (if v.id == id { v.amount as int } else { 0 }),
    decreases s.len(),
{
    if j < s.len() - 1 {
        assert(s.update(j, v).drop_last() =~= s.drop_last().update(j, v));
        lemma_total_update(s.drop_last(), j, v, id);
    } else {
        assert(s.update(j, v).drop_last() =~= s.drop_last());
    }
}

pub proof fn lemma_credited_nonneg(s: Seq<Credit>, id: RuneId)
    ensures
        credited(s, id) >= 0,
    decreases s.len(),
{
    if s.len() > 0 {
        lemma_credited_nonneg(s.drop_last(), id);
    }
}

/// Sums the amounts of `id` in `lots`, failing where the sum exceeds `u128`.
pub fn checked_total(lots: &Vec<Balance>, id: RuneId) -> (r: Option<u128>)
    ensures
        r.is_some() <==> total_of(lots@, id) <= u128::MAX,
        r.is_some() ==> r.unwrap() as int == total_of(lots@, id),
{
    let mut sum: u128 = 0;
    let mut i: usize = 0;
    while i < lots.len()
        invariant
            i <= lots.len(),
            sum as int == total_of(lots@.take(i as int), id),
        decreases lots.len() - i,
    {
        proof {
            assert(lots@.take(i + 1).drop_last() =~= lots@.take(i as int));
        }
        if lots[i].id == id {
            if sum > u128::MAX - lots[i].amount {
                proof {
                    lemma_total_concat(lots@.take(i + 1), lots@.skip(i + 1), id);
                    lemma_total_nonneg(lots@.skip(i + 1), id);
                    assert(lots@.take(i + 1) + lots@.skip(i + 1) =~= lots@);
                }
                return None;
            }
            sum = sum + lots[i].amount;
        }
        i = i + 1;
    }
    proof {
        assert(lots@.take(i as int) =~= lots@);
    }
    Some(sum)
}

} // verus!
