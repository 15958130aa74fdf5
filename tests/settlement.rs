use rune_settlement::allocate::apply_edict;
use rune_settlement::balances::Credit;
use rune_settlement::transaction::settle_transaction;
use rune_settlement::types::{Artifact, Balance, Cenotaph, Edict, RuneId, Runestone, TxOut};

fn id(block: u64, tx: u32) -> RuneId {
    RuneId { block, tx }
}

fn out(unspendable: bool, address: Option<&str>) -> TxOut {
    TxOut { unspendable, address: address.map(|a| a.to_string()) }
}

fn runestone(edicts: Vec<Edict>, pointer: Option<u32>) -> Option<Artifact> {
    Some(Artifact::Runestone(Runestone { edicts, etching: None, mint: None, pointer }))
}

fn total(s: &[Balance], x: RuneId) -> u128 {
    s.iter().filter(|b| b.id == x).map(|b| b.amount).sum()
}

#[test]
fn zero_amount_single_output_edict_claims_everything() {
    let a = id(840000, 1);
    let mut lots = vec![Balance { id: a, amount: 7 }, Balance { id: a, amount: 5 }];
    let mut credits: Vec<Credit> = Vec::new();
    apply_edict(&mut lots, &mut credits, &vec![0, 1], 2, a, 0, 1);
    assert_eq!(credits, vec![Credit { vout: 1, id: a, amount: 12 }]);
    assert_eq!(total(&lots, a), 0);
}

#[test]
fn zero_amount_broadcast_splits_ten_four_three_three() {
    let a = id(840000, 1);
    let outs = vec![out(false, Some("a")), out(true, None), out(false, Some("b")), out(false, Some("c"))];
    let message = runestone(vec![Edict { id: a, amount: 0, output: 4 }], None);
    let s = settle_transaction(vec![Balance { id: a, amount: 10 }], &message, None, &outs);
    let kept: Vec<(usize, u128)> = s.records.iter().map(|r| (r.vout, total(&r.balances, a))).collect();
    assert_eq!(kept, vec![(0, 4), (2, 3), (3, 3)]);
    assert_eq!(total(&s.burned, a), 0);
}

#[test]
fn nonzero_broadcast_takes_greedily_in_index_order() {
    let a = id(1, 0);
    let outs = vec![out(false, None), out(false, None), out(false, None)];
    let message = runestone(vec![Edict { id: a, amount: 4, output: 3 }], None);
    let s = settle_transaction(vec![Balance { id: a, amount: 10 }], &message, None, &outs);
    let kept: Vec<(usize, u128)> = s.records.iter().map(|r| (r.vout, total(&r.balances, a))).collect();
    assert_eq!(kept, vec![(0, 4), (1, 4), (2, 2)]);
}

#[test]
fn poison_marker_burns_everything() {
    let a = id(1, 0);
    let b = id(2, 3);
    let outs = vec![out(false, Some("a"))];
    let message = Some(Artifact::Cenotaph(Cenotaph { etching: None, mint: None }));
    let s = settle_transaction(
        vec![Balance { id: a, amount: 3 }, Balance { id: b, amount: 9 }, Balance { id: a, amount: 4 }],
        &message,
        None,
        &outs,
    );
    assert!(s.records.is_empty());
    assert_eq!(total(&s.burned, a), 7);
    assert_eq!(total(&s.burned, b), 9);
}

#[test]
fn wildcard_edict_targets_the_rune_just_etched() {
    let etched = id(840000, 7);
    let outs = vec![out(false, Some("a")), out(false, Some("b"))];
    let message = runestone(vec![Edict { id: id(0, 0), amount: 30, output: 1 }], None);
    let s = settle_transaction(vec![Balance { id: etched, amount: 100 }], &message, Some(etched), &outs);
    let kept: Vec<(usize, u128)> = s.records.iter().map(|r| (r.vout, total(&r.balances, etched))).collect();
    assert_eq!(kept, vec![(0, 70), (1, 30)]);
}

#[test]
fn wildcard_edict_without_etching_does_nothing() {
    let a = id(3, 3);
    let outs = vec![out(false, None), out(false, None)];
    let message = runestone(vec![Edict { id: id(0, 0), amount: 0, output: 1 }], None);
    let s = settle_transaction(vec![Balance { id: a, amount: 9 }], &message, None, &outs);
    let kept: Vec<(usize, u128)> = s.records.iter().map(|r| (r.vout, total(&r.balances, a))).collect();
    assert_eq!(kept, vec![(0, 9)]);
}

#[test]
fn edict_beyond_the_outputs_is_ignored() {
    let a = id(3, 3);
    let outs = vec![out(false, None), out(false, None)];
    let message = runestone(vec![Edict { id: a, amount: 0, output: 5 }], Some(1));
    let s = settle_transaction(vec![Balance { id: a, amount: 9 }], &message, None, &outs);
    let kept: Vec<(usize, u128)> = s.records.iter().map(|r| (r.vout, total(&r.balances, a))).collect();
    assert_eq!(kept, vec![(1, 9)]);
}

#[test]
fn pointer_out_of_range_falls_back_to_first_spendable_output() {
    let a = id(3, 3);
    let outs = vec![out(true, None), out(false, None)];
    let message = runestone(vec![], Some(9));
    let s = settle_transaction(vec![Balance { id: a, amount: 4 }], &message, None, &outs);
    let kept: Vec<(usize, u128)> = s.records.iter().map(|r| (r.vout, total(&r.balances, a))).collect();
    assert_eq!(kept, vec![(1, 4)]);
}

#[test]
fn balances_of_an_output_are_sorted_by_rune_id() {
    let a = id(9, 1);
    let b = id(2, 8);
    let c = id(9, 0);
    let outs = vec![out(false, None)];
    let s = settle_transaction(
        vec![Balance { id: a, amount: 1 }, Balance { id: b, amount: 2 }, Balance { id: c, amount: 3 }, Balance { id: a, amount: 4 }],
        &None,
        None,
        &outs,
    );
    assert_eq!(s.records.len(), 1);
    assert_eq!(s.records[0].balances, vec![Balance { id: b, amount: 2 }, Balance { id: c, amount: 3 }, Balance { id: a, amount: 5 }]);
}

#[test]
fn spent_value_is_conserved_across_outputs_and_burns() {
    let a = id(1, 1);
    let b = id(2, 2);
    let outs = vec![out(false, None), out(true, None), out(false, None)];
    let message = runestone(
        vec![Edict { id: a, amount: 5, output: 1 }, Edict { id: b, amount: 0, output: 3 }, Edict { id: a, amount: 2, output: 2 }],
        None,
    );
    let lots = vec![Balance { id: a, amount: 20 }, Balance { id: b, amount: 7 }];
    let s = settle_transaction(lots, &message, None, &outs);
    for x in [a, b] {
        let kept: u128 = s.records.iter().map(|r| total(&r.balances, x)).sum();
        assert_eq!(kept + total(&s.burned, x), if x == a { 20 } else { 7 });
    }
    assert_eq!(total(&s.burned, a), 5);
}
