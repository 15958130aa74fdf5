use vstd::prelude::*;
use crate::types::{Artifact, Balance, RuneId, TxOut};
use crate::balances::{Credit, total_of, credited, credited_to, lemma_credited_nonneg};
use crate::settle::{
    run_edicts_spec, default_output, credits_to, totals_fit, distinct_ids, run_edicts, default_output_of,
    route_unallocated, burn_all,
};
use crate::outputs::{OutputRecord, recorded, credited_where, sorted_by_id, settle_outputs, lemma_where_zero, kept, has_record};

verus! {

/// The outcome of settling one transaction: the balances its outputs keep,
/// and what it burns, one total per rune.
#[derive(Clone, Debug, PartialEq, Eq)]
pub struct Settlement {
    pub records: Vec<OutputRecord>,
    pub burned: Vec<Balance>,
}

/// Whether the message is a poison marker.
pub open spec fn is_poison(message: Option<Artifact>) -> bool {
    message matches Some(Artifact::Cenotaph(_))
}

/// The edict credits of the message, and the lots they leave unclaimed.
pub open spec fn after_edicts(lots: Seq<Balance>, message: Option<Artifact>, etched: Option<RuneId>, outs: Seq<TxOut>) -> (Seq<Balance>, Seq<Credit>) {
    match message {
        Some(Artifact::Runestone(r)) => run_edicts_spec(lots, Seq::empty(), r.edicts@, etched, outs),
        _ => (lots, Seq::empty()),
    }
}

/// Where unclaimed balance goes; `None` burns it.
pub open spec fn unclaimed_destination(message: Option<Artifact>, outs: Seq<TxOut>) -> Option<usize> {
    match message {
        Some(Artifact::Cenotaph(_)) => None,
        Some(Artifact::Runestone(r)) => default_output(outs, r.pointer),
        None => default_output(outs, None),
    }
}

/// Every credit the transaction makes: the edicts', then the unclaimed
/// balance to its destination.
pub open spec fn settled_credits(lots: Seq<Balance>, message: Option<Artifact>, etched: Option<RuneId>, outs: Seq<TxOut>) -> Seq<Credit> {
    let (rest, credits) = after_edicts(lots, message, etched, outs);
    match unclaimed_destination(message, outs) {
        Some(d) => credits + credits_to(rest, d),
        None => credits,
    }
}

/// How much of `id` burns for want of a destination.
pub open spec fn unrouted(lots: Seq<Balance>, message: Option<Artifact>, etched: Option<RuneId>, outs: Seq<TxOut>, id: RuneId) -> int {
    match unclaimed_destination(message, outs) {
        Some(d) => 0,
        None => total_of(after_edicts(lots, message, etched, outs).0, id),
    }
}

/// `records` and `burned` are how the lots entering a transaction settle
/// under its message, among its outputs `outs`:
/// - every rune's total entering is what the records keep plus what burns;
/// - under a poison marker nothing is kept and everything burns;
/// - what burns is what had no destination plus what was credited to outputs
///   whose script is provably unspendable;
/// - each record is for a spendable output and holds, in order of rune id and
///   without zero amounts, exactly what that output was credited;
/// - the records are in output order, one for each spendable output credited
///   anything; the burn totals are one per rune.
pub open spec fn settles(
    lots: Seq<Balance>,
    message: Option<Artifact>,
    etched: Option<RuneId>,
    outs: Seq<TxOut>,
    records: Seq<OutputRecord>,
    burned: Seq<Balance>,
) -> bool {
    let credits = settled_credits(lots, message, etched, outs);
    &&& forall|x: RuneId| #[trigger] total_of(lots, x) == recorded(records, x) + total_of(burned, x)
    &&& is_poison(message) ==> records.len() == 0
    &&& is_poison(message) ==> forall|x: RuneId| #[trigger] total_of(burned, x) == total_of(lots, x)
    &&& forall|x: RuneId| #[trigger] total_of(burned, x)
        == unrouted(lots, message, etched, outs, x) + credited_where(credits, outs, outs.len(), x, true)
    &&& forall|k: int| 0 <= k < records.len() ==> {
        &&& records[k].vout < outs.len()
        &&& !outs[records[k].vout as int].unspendable
        &&& records[k].balances@.len() > 0
        &&& sorted_by_id(records[k].balances@)
        &&& forall|i: int| 0 <= i < records[k].balances@.len() ==> records[k].balances@[i].amount > 0
        &&& forall|x: RuneId| #[trigger] total_of(records[k].balances@, x)
            == credited_to(credits, records[k].vout as int, x)
    }
    &&& forall|k: int, l: int| 0 <= k < l < records.len() ==> records[k].vout < records[l].vout
    &&& forall|v: int| #[trigger] kept(credits, outs, v) ==> has_record(records, v)
    &&& distinct_ids(burned)
}

/// Settles the runes entering a transaction (`lots`, oldest first) among its
/// outputs, as its decoded message says.
pub fn settle_transaction(lots: Vec<Balance>, message: &Option<Artifact>, etched: Option<RuneId>, outs: &Vec<TxOut>) -> (r: Settlement)
    requires
        totals_fit(lots@),
    ensures
        settles(lots@, *message, etched, outs@, r.records@, r.burned@),
{
    let ghost l0 = lots@;
    let mut lots = lots;
    let mut credits: Vec<Credit> = Vec::new();
    let mut burned: Vec<Balance> = Vec::new();
    let dest: Option<usize> = match message {
        Some(Artifact::Cenotaph(_)) => {
            burn_all(&lots, &mut burned);
            proof {
                assert forall|x: RuneId| #[trigger] credited_where(Seq::<Credit>::empty(), outs@, outs@.len(), x, true) == 0 by {
                    lemma_where_zero(Seq::<Credit>::empty(), outs@, outs@.len(), x, true);
                }
                assert forall|v: int| #[trigger] kept(Seq::<Credit>::empty(), outs@, v) implies false by {
                    if kept(Seq::<Credit>::empty(), outs@, v) {
                        let x = choose|x: RuneId| credited_to(Seq::<Credit>::empty(), v, x) != 0;
                    }
                }
            }
            return Settlement { records: Vec::new(), burned };
        },
        Some(Artifact::Runestone(rs)) => {
            run_edicts(&mut lots, &mut credits, &rs.edicts, etched, outs);
            default_output_of(outs, rs.pointer)
        },
        None => default_output_of(outs, None),
    };
    proof {
        assert(credits@ == after_edicts(l0, *message, etched, outs@).1);
        assert(lots@ == after_edicts(l0, *message, etched, outs@).0);
        assert forall|x: RuneId| #[trigger] total_of(burned@, x) + total_of(lots@, x) <= u128::MAX by {
            lemma_credited_nonneg(credits@, x);
            assert(total_of(l0, x) <= u128::MAX);
        }
    }
    route_unallocated(&lots, &mut credits, &mut burned, dest);
    proof {
        assert(credits@ == settled_credits(l0, *message, etched, outs@));
        assert forall|i: int| 0 <= i < credits@.len() implies credits@[i].vout < outs@.len() by {
            if dest.is_some() {
                let c1 = after_edicts(l0, *message, etched, outs@).1;
                if i >= c1.len() {
                    assert(credits@[i] == credits_to(lots@, dest.unwrap())[i - c1.len()]);
                }
            }
        }
    }
    let records = settle_outputs(&credits, outs, &mut burned);
    Settlement { records, burned }
}

} // verus!
