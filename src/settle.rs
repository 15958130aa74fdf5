use vstd::prelude::*;
use crate::types::{Balance, Edict, RuneId, TxOut};
use crate::balances::{Credit, total_of, credited, lemma_total_nonneg, lemma_credited_nonneg, lemma_total_update};
use crate::allocate::{eligible, eligible_outputs, edict_credits, edict_claim, consume, apply_edict};

verus! {

/// The rune an edict speaks of: the wildcard stands for the rune etched by
/// the same transaction, and for nothing where there is none.
pub open spec fn resolve(id: RuneId, etched: Option<RuneId>) -> Option<RuneId> {
    if id.is_wildcard_spec() { etched } else { Some(id) }
}

/// The pool and the credits after one more edict.
pub open spec fn edict_step(
    state: (Seq<Balance>, Seq<Credit>),
    e: Edict,
    etched: Option<RuneId>,
    outs: Seq<TxOut>,
) -> (Seq<Balance>, Seq<Credit>) {
    let n = outs.len() as int;
    if e.output > n {
        state
    } else {
        match resolve(e.id, etched) {
            None => state,
            Some(id) => {
                let b = total_of(state.0, id);
                let claim = edict_claim(eligible(outs), n, b, e.amount as int, e.output as int);
                (
                    consume(state.0, id, claim),
                    state.1 + edict_credits(eligible(outs), n, id, b, e.amount as int, e.output as int),
                )
            },
        }
    }
}

/// The pool and the credits after the edicts, applied in order.
pub open spec fn run_edicts_spec(
    lots: Seq<Balance>,
    credits: Seq<Credit>,
    edicts: Seq<Edict>,
    etched: Option<RuneId>,
    outs: Seq<TxOut>,
) -> (Seq<Balance>, Seq<Credit>)
    decreases edicts.len(),
{
    if edicts.len() == 0 {
        (lots, credits)
    } else {
        edict_step(run_edicts_spec(lots, credits, edicts.drop_last(), etched, outs), edicts.last(), etched, outs)
    }
}

/// Every rune's total in `lots` fits in `u128`.
pub open spec fn totals_fit(lots: Seq<Balance>) -> bool {
    forall|x: RuneId| #[trigger] total_of(lots, x) <= u128::MAX
}

/// Whether every rune's total in `lots` fits in `u128`.
pub fn check_totals(lots: &Vec<Balance>) -> (r: bool)
    ensures
        r == totals_fit(lots@),
{
    let mut i: usize = 0;
    while i < lots.len()
        invariant
            i <= lots.len(),
            forall|j: int| 0 <= j < i ==> total_of(lots@, #[trigger] lots@[j].id) <= u128::MAX,
        decreases lots.len() - i,
    {
        if crate::balances::checked_total(lots, lots[i].id).is_none() {
            return false;
        }
        i = i + 1;
    }
    proof {
        assert forall|x: RuneId| #[trigger] total_of(lots@, x) <= u128::MAX by {
            if forall|j: int| 0 <= j < lots@.len() ==> lots@[j].id != x {
                crate::balances::lemma_total_absent(lots@, x);
            }
        }
    }
    true
}

/// Applies the edicts in order. An edict whose output lies beyond the
/// broadcast index, or whose wildcard has no etched rune to stand for, does
/// nothing.
pub fn run_edicts(
    lots: &mut Vec<Balance>,
    credits: &mut Vec<Credit>,
    edicts: &Vec<Edict>,
    etched: Option<RuneId>,
    outs: &Vec<TxOut>,
)
    requires
        forall|x: RuneId| #[trigger] total_of(old(lots)@, x) + credited(old(credits)@, x) <= u128::MAX,
    ensures
        (final(lots)@, final(credits)@) == run_edicts_spec(old(lots)@, old(credits)@, edicts@, etched, outs@),
        (forall|i: int| 0 <= i < old(credits)@.len() ==> old(credits)@[i].vout < outs@.len())
            ==> (forall|i: int| 0 <= i < final(credits)@.len() ==> final(credits)@[i].vout < outs@.len()),
        forall|x: RuneId| #[trigger] total_of(final(lots)@, x) + credited(final(credits)@, x)
            == total_of(old(lots)@, x) + credited(old(credits)@, x),
{
    let ghost l0 = lots@;
    let ghost c0 = credits@;
    let dests = eligible_outputs(outs);
    let n: usize = outs.len();
    let mut i: usize = 0;
    while i < edicts.len()
        invariant
            i <= edicts.len(),
            n == outs@.len(),
            dests@ == eligible(outs@),
            forall|x: RuneId| #[trigger] total_of(l0, x) + credited(c0, x) <= u128::MAX,
            (lots@, credits@) == run_edicts_spec(l0, c0, edicts@.take(i as int), etched, outs@),
            forall|x: RuneId| #[trigger] total_of(lots@, x) + credited(credits@, x)
                == total_of(l0, x) + credited(c0, x),
            (forall|j: int| 0 <= j < c0.len() ==> c0[j].vout < n)
                ==> (forall|j: int| 0 <= j < credits@.len() ==> credits@[j].vout < n),
            forall|j: int| 0 <= j < dests@.len() ==> dests@[j] < n,
        decreases edicts.len() - i,
    {
        proof {
            assert(edicts@.take(i + 1).drop_last() =~= edicts@.take(i as int));
        }
        let e = edicts[i];
        if e.output as usize <= n {
            let target: Option<RuneId> = if e.id.is_wildcard() { etched } else { Some(e.id) };
            if let Some(id) = target {
                proof {
                    lemma_credited_nonneg(credits@, id);
                    assert(total_of(l0, id) + credited(c0, id) <= u128::MAX);
                }
                apply_edict(lots, credits, &dests, n, id, e.amount, e.output as usize);
            }
        }
        i = i + 1;
    }
    proof {
        assert(edicts@.take(i as int) =~= edicts@);
    }
}

/// No two balances are of the same rune.
pub open spec fn distinct_ids(s: Seq<Balance>) -> bool {
    forall|i: int, j: int| 0 <= i < j < s.len() ==> s[i].id != s[j].id
}

/// Whether no two balances are of the same rune.
pub fn check_distinct_ids(s: &Vec<Balance>) -> (r: bool)
    ensures
        r == distinct_ids(s@),
{
    let mut j: usize = 0;
    while j < s.len()
        invariant
            j <= s@.len(),
            forall|a: int, b: int| 0 <= a < b < j ==> s@[a].id != s@[b].id,
        decreases s.len() - j,
    {
        let mut i: usize = 0;
        while i < j
            invariant
                i <= j < s@.len(),
                forall|a: int| 0 <= a < i ==> s@[a].id != s@[j as int].id,
            decreases j - i,
        {
            if s[i].id == s[j].id {
                return false;
            }
            i = i + 1;
        }
        j = j + 1;
    }
    true
}

pub proof fn lemma_lot_le_total(s: Seq<Balance>, i: int)
    requires
        0 <= i < s.len(),
    ensures
        s[i].amount <= total_of(s, s[i].id),
    decreases s.len(),
{
    if i < s.len() - 1 {
        lemma_lot_le_total(s.drop_last(), i);
    } else {
        lemma_total_nonneg(s.drop_last(), s[i].id);
    }
}

/// Adds `amount` of `id` to the totals in `burned`.
pub fn add_to(burned: &mut Vec<Balance>, id: RuneId, amount: u128)
    requires
        total_of(old(burned)@, id) + amount <= u128::MAX,
        distinct_ids(old(burned)@),
    ensures
        distinct_ids(final(burned)@),
        forall|x: RuneId| #[trigger] total_of(final(burned)@, x)
            == total_of(old(burned)@, x) + (if x == id { amount as int } else { 0 }),
{
    let ghost b0 = burned@;
    let mut i: usize = 0;
    while i < burned.len()
        invariant
            i <= burned.len(),
            burned@ == b0,
            old(burned)@ == b0,
            distinct_ids(b0),
            total_of(b0, id) + amount <= u128::MAX,
            forall|j: int| 0 <= j < i ==> burned@[j].id != id,
        decreases burned.len() - i,
    {
        if burned[i].id == id {
            let ghost before = burned@;
            proof {
                lemma_lot_le_total(before, i as int);
            }
            let held = burned[i].amount;
            burned.set(i, Balance { id, amount: held + amount });
            proof {
                assert(distinct_ids(burned@));
                assert forall|x: RuneId| #[trigger] total_of(burned@, x)
                    == total_of(before, x) + (if x == id { amount as int } else { 0 }) by {
                    lemma_total_update(before, i as int, Balance { id, amount: (held + amount) as u128 }, x);
                }
            }
            return;
        }
        i = i + 1;
    }
    let ghost before = burned@;
    burned.push(Balance { id, amount });
    proof {
        assert(burned@.drop_last() =~= before);
        assert forall|x: RuneId| #[trigger] total_of(burned@, x)
            == total_of(before, x) + (if x == id { amount as int } else { 0 }) by {
            assert(burned@.drop_last() =~= before);
        }
    }
}

/// Where balance left unclaimed by the edicts goes: the pointer where it
/// names an output, else the first output that is not provably unspendable,
/// else nowhere (it burns).
pub open spec fn default_output(outs: Seq<TxOut>, pointer: Option<u32>) -> Option<usize> {
    if pointer.is_some() && (pointer.unwrap() as int) < outs.len() {
        Some(pointer.unwrap() as usize)
    } else if eligible(outs).len() > 0 {
        Some(eligible(outs)[0])
    } else {
        None
    }
}

/// One credit to `vout` for each lot.
pub open spec fn credits_to(lots: Seq<Balance>, vout: usize) -> Seq<Credit> {
    Seq::new(lots.len(), |j: int| Credit { vout, id: lots[j].id, amount: lots[j].amount })
}

pub fn default_output_of(outs: &Vec<TxOut>, pointer: Option<u32>) -> (r: Option<usize>)
    ensures
        r == default_output(outs@, pointer),
        r.is_some() ==> r.unwrap() < outs@.len(),
{
    if let Some(p) = pointer {
        if (p as usize) < outs.len() {
            return Some(p as usize);
        }
    }
    let dests = eligible_outputs(outs);
    if dests.len() > 0 {
        Some(dests[0])
    } else {
        None
    }
}

/// Adds every balance of `lots` to the burn totals.
pub fn burn_all(lots: &Vec<Balance>, burned: &mut Vec<Balance>)
    requires
        distinct_ids(old(burned)@),
        forall|x: RuneId| #[trigger] total_of(old(burned)@, x) + total_of(lots@, x) <= u128::MAX,
    ensures
        distinct_ids(final(burned)@),
        forall|x: RuneId| #[trigger] total_of(final(burned)@, x) == total_of(old(burned)@, x) + total_of(lots@, x),
{
    let ghost b0 = burned@;
    let mut i: usize = 0;
    while i < lots.len()
        invariant
            i <= lots.len(),
            distinct_ids(burned@),
            forall|x: RuneId| #[trigger] total_of(b0, x) + total_of(lots@, x) <= u128::MAX,
            forall|x: RuneId| #[trigger] total_of(burned@, x) == total_of(b0, x) + total_of(lots@.take(i as int), x),
        decreases lots.len() - i,
    {
        proof {
            assert(lots@.take(i + 1).drop_last() =~= lots@.take(i as int));
            lemma_total_concat_take(lots@, i as int + 1, lots@[i as int].id);
        }
        add_to(burned, lots[i].id, lots[i].amount);
        i = i + 1;
    }
    proof {
        assert(lots@.take(i as int) =~= lots@);
    }
}

/// Routes what the edicts left in `lots`: to output `vout`, where there is
/// one, else to the burn totals.
pub fn route_unallocated(lots: &Vec<Balance>, credits: &mut Vec<Credit>, burned: &mut Vec<Balance>, vout: Option<usize>)
    requires
        distinct_ids(old(burned)@),
        forall|x: RuneId| #[trigger] total_of(old(burned)@, x) + total_of(lots@, x) <= u128::MAX,
    ensures
        distinct_ids(final(burned)@),
        vout.is_some() ==> final(credits)@ == old(credits)@ + credits_to(lots@, vout.unwrap()),
        vout.is_some() ==> final(burned)@ == old(burned)@,
        vout.is_none() ==> final(credits)@ == old(credits)@,
        vout.is_none() ==> forall|x: RuneId| #[trigger] total_of(final(burned)@, x)
            == total_of(old(burned)@, x) + total_of(lots@, x),
        forall|x: RuneId| #[trigger] total_of(final(burned)@, x) + credited(final(credits)@, x)
            == total_of(old(burned)@, x) + credited(old(credits)@, x) + total_of(lots@, x),
{
    match vout {
        None => {
            burn_all(lots, burned);
        },
        Some(v) => {
            let ghost c0 = credits@;
            let mut i: usize = 0;
            while i < lots.len()
                invariant
                    i <= lots.len(),
                    credits@ == c0 + credits_to(lots@.take(i as int), v),
                    forall|x: RuneId| #[trigger] credited(credits@, x)
                        == credited(c0, x) + total_of(lots@.take(i as int), x),
                decreases lots.len() - i,
            {
                proof {
                    assert(lots@.take(i + 1).drop_last() =~= lots@.take(i as int));
                }
                let lot = lots[i];
                let ghost before = credits@;
                credits.push(Credit { vout: v, id: lot.id, amount: lot.amount });
                proof {
                    assert(credits@ =~= c0 + credits_to(lots@.take(i + 1), v));
                    assert forall|x: RuneId| #[trigger] credited(credits@, x)
                        == credited(c0, x) + total_of(lots@.take(i + 1), x) by {
                        assert(credits@.drop_last() =~= before);
                        assert(lots@.take(i + 1).last() == lot);
                        assert(credits@.last() == Credit { vout: v, id: lot.id, amount: lot.amount });
                        assert(credited(before, x) == credited(c0, x) + total_of(lots@.take(i as int), x));
                        assert(credited(credits@, x) == credited(before, x)
                            + (if lot.id == x { lot.amount as int } else { 0 }));
                        assert(total_of(lots@.take(i + 1), x) == total_of(lots@.take(i as int), x)
                            + (if lot.id == x { lot.amount as int } else { 0 }));
                    }
                }
                i = i + 1;
            }
            proof {
                assert(lots@.take(i as int) =~= lots@);
            }
        },
    }
}

pub proof fn lemma_total_concat_take(s: Seq<Balance>, i: int, x: RuneId)
    requires
        0 <= i <= s.len(),
    ensures
        total_of(s.take(i), x) <= total_of(s, x),
{
    crate::balances::lemma_total_concat(s.take(i), s.skip(i), x);
    lemma_total_nonneg(s.skip(i), x);
    assert(s.take(i) + s.skip(i) =~= s);
}

} // verus!
