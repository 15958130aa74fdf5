use vstd::prelude::*;
use vstd::arithmetic::div_mod::lemma_fundamental_div_mod;
use crate::types::{Balance, RuneId, TxOut};
use crate::balances::{Credit, total_of, credited, lemma_total_update, checked_total};

verus! {

/// The indices of the outputs whose script is not provably unspendable, in
/// index order.
pub open spec fn eligible(outs: Seq<TxOut>) -> Seq<usize>
    decreases outs.len(),
{
    if outs.len() == 0 {
        Seq::empty()
    } else if outs.last().unspendable {
        eligible(outs.drop_last())
    } else {
        eligible(outs.drop_last()).push((outs.len() - 1) as usize)
    }
}

/// The indices of the outputs that may receive runes.
pub fn eligible_outputs(outs: &Vec<TxOut>) -> (r: Vec<usize>)
    ensures
        r@ == eligible(outs@),
        forall|i: int| 0 <= i < r@.len() ==> r@[i] < outs@.len(),
{
    let mut r: Vec<usize> = Vec::new();
    let mut i: usize = 0;
    while i < outs.len()
        invariant
            i <= outs.len(),
            r@ == eligible(outs@.take(i as int)),
            forall|j: int| 0 <= j < r@.len() ==> r@[j] < i,
        decreases outs.len() - i,
    {
        proof {
            assert(outs@.take(i + 1).drop_last() =~= outs@.take(i as int));
        }
        if !outs[i].unspendable {
            r.push(i);
        }
        i = i + 1;
    }
    proof {
        assert(outs@.take(i as int) =~= outs@);
    }
    r
}

/// Share of output number `i` (among `k`) when `b` is split evenly, the
/// first `b % k` outputs getting one unit more.
pub open spec fn even_share(b: int, k: int, i: int) -> int {
    b / k + if i < b % k { 1int } else { 0int }
}

/// What is left of `b` after `i` outputs each took up to `a` of it.
pub open spec fn greedy_left(b: int, a: int, i: nat) -> int
    decreases i,
{
    if i == 0 {
        b
    } else {
        let left = greedy_left(b, a, (i - 1) as nat);
        left - if a < left { a } else { left }
    }
}

/// Share of output number `i` when each output takes up to `a` of `b` in turn.
pub open spec fn greedy_share(b: int, a: int, i: nat) -> int {
    let left = greedy_left(b, a, i);
    if a < left { a } else { left }
}

/// The credits that one edict for `id`, whose pool holds `b`, makes among
/// `n` outputs of which `dests` are eligible.
pub open spec fn edict_credits(dests: Seq<usize>, n: int, id: RuneId, b: int, amount: int, output: int) -> Seq<Credit> {
    if output == n {
        if dests.len() == 0 {
            Seq::empty()
        } else if amount == 0 {
            Seq::new(dests.len(), |i: int| Credit { vout: dests[i], id, amount: even_share(b, dests.len() as int, i) as u128 })
        } else {
            Seq::new(dests.len(), |i: int| Credit { vout: dests[i], id, amount: greedy_share(b, amount, i as nat) as u128 })
        }
    } else if output < n {
        seq![Credit { vout: output as usize, id, amount: (if amount == 0 || b < amount { b } else { amount }) as u128 }]
    } else {
        Seq::empty()
    }
}

/// How much of the pool one edict claims in total.
pub open spec fn edict_claim(dests: Seq<usize>, n: int, b: int, amount: int, output: int) -> int {
    if output == n {
        if dests.len() == 0 {
            0
        } else if amount == 0 {
            b
        } else {
            b - greedy_left(b, amount, dests.len())
        }
    } else if output < n {
        if amount == 0 || b < amount { b } else { amount }
    } else {
        0
    }
}

/// What output `j` of the pool gives up when `used` is taken from the lots of
/// `id`, oldest first.
pub open spec fn taken_at(s: Seq<Balance>, id: RuneId, used: int, j: int) -> int {
    let before = used - total_of(s.take(j), id);
    if s[j].id != id || before <= 0 {
        0
    } else if before < s[j].amount {
        before
    } else {
        s[j].amount as int
    }
}

/// The lots after `used` of `id` has been taken from them, oldest first.
pub open spec fn consume(s: Seq<Balance>, id: RuneId, used: int) -> Seq<Balance> {
    Seq::new(s.len(), |j: int| Balance { id: s[j].id, amount: (s[j].amount - taken_at(s, id, used, j)) as u128 })
}

proof fn lemma_greedy_bounds(b: int, a: int, i: nat)
    requires
        b >= 0,
        a >= 0,
    ensures
        0 <= greedy_left(b, a, i) <= b,
    decreases i,
{
    if i > 0 {
        lemma_greedy_bounds(b, a, (i - 1) as nat);
    }
}

/// Takes `used` of `id` from `lots`, oldest lots first.
pub fn consume_lots(lots: &mut Vec<Balance>, id: RuneId, used: u128)
    requires
        used <= total_of(old(lots)@, id),
    ensures
        final(lots)@ == consume(old(lots)@, id, used as int),
        forall|x: RuneId| #[trigger] total_of(final(lots)@, x)
            == total_of(old(lots)@, x) - (if x == id { used as int } else { 0 }),
{
    let ghost orig = lots@;
    let mut left: u128 = used;
    let mut j: usize = 0;
    while j < lots.len()
        invariant
            j <= lots.len(),
            lots@.len() == orig.len(),
            used <= total_of(orig, id),
            left as int == if used - total_of(orig.take(j as int), id) > 0 {
                used - total_of(orig.take(j as int), id)
            } else {
                0
            },
            forall|k: int| j <= k < orig.len() ==> lots@[k] == orig[k],
            forall|k: int| 0 <= k < j ==> lots@[k] == consume(orig, id, used as int)[k],
            forall|x: RuneId| #[trigger] total_of(lots@, x)
                == total_of(orig, x) - (if x == id { used - left } else { 0 }),
        decreases lots.len() - j,
    {
        proof {
            assert(orig.take(j + 1).drop_last() =~= orig.take(j as int));
        }
        let lot = lots[j];
        if lot.id == id && left > 0 {
            let take: u128 = if left < lot.amount { left } else { lot.amount };
            let ghost before = lots@;
            lots.set(j, Balance { id, amount: lot.amount - take });
            proof {
                assert forall|x: RuneId| #[trigger] total_of(lots@, x)
                    == total_of(orig, x) - (if x == id { used - (left - take) } else { 0 }) by {
                    lemma_total_update(before, j as int, Balance { id, amount: (lot.amount - take) as u128 }, x);
                }
            }
            left = left - take;
        }
        j = j + 1;
    }
    proof {
        assert(orig.take(j as int) =~= orig);
        assert(lots@ =~= consume(orig, id, used as int));
    }
}

/// Applies one edict for `id`: credits the outputs it names from the pool of
/// `id` and takes what they got from the lots, oldest first. `dests` are the
/// eligible outputs among `n` outputs.
pub fn apply_edict(
    lots: &mut Vec<Balance>,
    credits: &mut Vec<Credit>,
    dests: &Vec<usize>,
    n: usize,
    id: RuneId,
    amount: u128,
    output: usize,
)
    requires
        total_of(old(lots)@, id) <= u128::MAX,
    ensures
        final(credits)@ == old(credits)@ + edict_credits(
            dests@, n as int, id, total_of(old(lots)@, id), amount as int, output as int),
        final(lots)@ == consume(old(lots)@, id,
            edict_claim(dests@, n as int, total_of(old(lots)@, id), amount as int, output as int)),
        0 <= edict_claim(dests@, n as int, total_of(old(lots)@, id), amount as int, output as int)
            <= total_of(old(lots)@, id),
        forall|x: RuneId| #[trigger] total_of(final(lots)@, x) + credited(final(credits)@, x)
            == total_of(old(lots)@, x) + credited(old(credits)@, x),
{
    let b: u128 = match checked_total(lots, id) {
        Some(t) => t,
        None => 0,
    };
    let ghost c0 = credits@;
    let mut left: u128 = b;
    if output == n {
        let k: usize = dests.len();
        if k == 0 {
            proof { assert(credits@ =~= c0 + Seq::<Credit>::empty()); }
        } else if amount == 0 {
            let q: u128 = b / (k as u128);
            let r: u128 = b % (k as u128);
            proof {
                lemma_fundamental_div_mod(b as int, k as int);
                assert(q * k + r == b) by (nonlinear_arith)
                    requires k * (b as int / k as int) + b as int % k as int == b, q == b as int / k as int,
                        r == b as int % k as int;
            }
            let mut i: usize = 0;
            while i < k
                invariant
                    k == dests@.len(),
                    k > 0,
                    i <= k,
                    q == b as int / k as int,
                    r == b as int % k as int,
                    r < k,
                    q >= 0,
                    left as int == q * (k - i) + (r - if i < r { i as int } else { r as int }),
                    credits@ == c0 + Seq::new(i as nat, |j: int| Credit {
                        vout: dests@[j], id, amount: even_share(b as int, k as int, j) as u128 }),
                    forall|x: RuneId| #[trigger] credited(credits@, x)
                        == credited(c0, x) + (if x == id { b - left } else { 0 }),
                decreases k - i,
            {
                proof {
                    assert(q * (k - i) >= q) by (nonlinear_arith) requires k - i >= 1, q >= 0;
                    assert(q * (k - i) == q * (k - i - 1) + q) by (nonlinear_arith);
                }
                let share: u128 = if (i as u128) < r { q + 1 } else { q };
                let ghost before = credits@;
                credits.push(Credit { vout: dests[i], id, amount: share });
                proof {
                    assert(credits@.drop_last() =~= before);
                    assert forall|x: RuneId| #[trigger] credited(credits@, x)
                        == credited(before, x) + (if x == id { share as int } else { 0 }) by {
                        assert(credits@.drop_last() =~= before);
                    }
                    assert(credits@ =~= c0 + Seq::new((i + 1) as nat, |j: int| Credit {
                        vout: dests@[j], id, amount: even_share(b as int, k as int, j) as u128 }));
                }
                left = left - share;
                i = i + 1;
            }
            proof {
                assert(q * (k - i) == 0) by (nonlinear_arith) requires i == k;
            }
        } else {
            let mut i: usize = 0;
            while i < k
                invariant
                    k == dests@.len(),
                    i <= k,
                    amount > 0,
                    left as int == greedy_left(b as int, amount as int, i as nat),
                    credits@ == c0 + Seq::new(i as nat, |j: int| Credit {
                        vout: dests@[j], id, amount: greedy_share(b as int, amount as int, j as nat) as u128 }),
                    forall|x: RuneId| #[trigger] credited(credits@, x)
                        == credited(c0, x) + (if x == id { b - left } else { 0 }),
                decreases k - i,
            {
                let share: u128 = if amount < left { amount } else { left };
                let ghost before = credits@;
                credits.push(Credit { vout: dests[i], id, amount: share });
                proof {
                    assert(credits@.drop_last() =~= before);
                    assert forall|x: RuneId| #[trigger] credited(credits@, x)
                        == credited(before, x) + (if x == id { share as int } else { 0 }) by {
                        assert(credits@.drop_last() =~= before);
                    }
                    assert(credits@ =~= c0 + Seq::new((i + 1) as nat, |j: int| Credit {
                        vout: dests@[j], id, amount: greedy_share(b as int, amount as int, j as nat) as u128 }));
                }
                left = left - share;
                i = i + 1;
            }
            proof {
                lemma_greedy_bounds(b as int, amount as int, k as nat);
            }
        }
    } else if output < n {
        let claim: u128 = if amount == 0 || b < amount { b } else { amount };
        credits.push(Credit { vout: output, id, amount: claim });
        proof {
            assert(credits@.drop_last() =~= c0);
            assert(credits@ =~= c0 + seq![Credit { vout: output, id, amount: claim }]);
        }
        left = b - claim;
    } else {
        proof { assert(credits@ =~= c0 + Seq::<Credit>::empty()); }
    }
    consume_lots(lots, id, b - left);
}

} // verus!
