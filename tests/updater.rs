use rune_settlement::commit::CommitScan;
use rune_settlement::entry::MintError;
use rune_settlement::event::{Delivery, Event};
use rune_settlement::flows::Flow;
use rune_settlement::rune::{COMMIT_CONFIRMATIONS, RESERVED};
use rune_settlement::types::{
    Artifact, Balance, BlockHash, Cenotaph, Edict, Etching, Instruction, OutPoint, PrevOutput, Rune, RuneEntry,
    RuneId, Runestone, SpacedRune, Terms, Transaction, TxIn, TxOut, Txid,
};
use rune_settlement::updater::{BlockTransaction, EntryRecord, OutpointRecord, RuneUpdater, Unallocated, UpdateError};

const HEIGHT: u32 = 840_010;

fn txid(n: u128) -> Txid {
    Txid { hi: 0, lo: n }
}

fn updater() -> RuneUpdater {
    RuneUpdater {
        block_time: 1_700_000_000,
        block_hash: BlockHash { hi: 1, lo: 2 },
        height: HEIGHT,
        minimum: Rune(1000),
        runes: 0,
        reserved_runes: 0,
        burned: Vec::new(),
        id_to_entry: Vec::new(),
        rune_to_id: Vec::new(),
        outpoint_to_balances: Vec::new(),
        transaction_id_to_rune: Vec::new(),
        inscription_id_to_sequence_number: Vec::new(),
        sequence_number_to_rune_id: Vec::new(),
        events: Vec::new(),
    }
}

fn entry(block: u64, terms: Option<Terms>, mints: u128) -> RuneEntry {
    RuneEntry {
        block,
        burned: 0,
        divisibility: 0,
        etching: txid(99),
        mints,
        number: 0,
        premine: 0,
        spaced_rune: SpacedRune { rune: Rune(5000), spacers: 0 },
        symbol: None,
        terms,
        timestamp: 0,
        turbo: false,
    }
}

fn terms(amount: u128, cap: u128) -> Terms {
    Terms { amount: Some(amount), cap: Some(cap), height: (None, None), offset: (None, None) }
}

fn input(prev: OutPoint) -> TxIn {
    TxIn { previous_output: prev, tapscript: None, prev_output: None }
}

fn out(unspendable: bool, address: Option<&str>) -> TxOut {
    TxOut { unspendable, address: address.map(|a| a.to_string()) }
}

fn stored(u: &RuneUpdater, op: OutPoint) -> Option<&OutpointRecord> {
    u.outpoint_to_balances.iter().find(|r| r.outpoint == op)
}

fn sum(s: &[Balance], x: RuneId) -> u128 {
    s.iter().filter(|b| b.id == x).map(|b| b.amount).sum()
}

fn named_etching(rune: u128, premine: u128) -> Option<Artifact> {
    Some(Artifact::Runestone(Runestone {
        edicts: Vec::new(),
        etching: Some(Etching {
            divisibility: Some(2),
            premine: Some(premine),
            rune: Some(Rune(rune)),
            spacers: None,
            symbol: Some('R'),
            terms: Some(terms(10, 3)),
            turbo: true,
        }),
        mint: None,
        pointer: None,
    }))
}

fn committing_input(rune: Rune, prev: Option<PrevOutput>) -> TxIn {
    TxIn {
        previous_output: OutPoint { txid: txid(7), vout: 0 },
        tapscript: Some(vec![Instruction::Op(0x20), Instruction::Push(rune.commitment())]),
        prev_output: prev,
    }
}

#[test]
fn commitment_is_little_endian_without_trailing_zeros() {
    assert_eq!(Rune(0).commitment(), Vec::<u8>::new());
    assert_eq!(Rune(0x0102).commitment(), vec![0x02, 0x01]);
    assert_eq!(Rune(256).commitment(), vec![0x00, 0x01]);
}

#[test]
fn reserved_names_follow_block_and_index() {
    assert_eq!(Rune::reserved(0, 0), Rune(RESERVED));
    assert_eq!(Rune::reserved(1, 2), Rune(RESERVED + (1u128 << 32) + 2));
    assert!(Rune::reserved(5, 5).is_reserved());
    assert!(!Rune(RESERVED - 1).is_reserved());
}

#[test]
fn mintable_reports_each_closed_window() {
    assert_eq!(entry(10, None, 0).mintable(20), Err(MintError::Unmintable));
    let windowed = Terms { amount: Some(5), cap: Some(10), height: (Some(100), Some(200)), offset: (Some(50), Some(150)) };
    let e = entry(10, Some(windowed), 0);
    assert_eq!(e.start(), Some(100));
    assert_eq!(e.end(), Some(160));
    assert_eq!(e.mintable(99), Err(MintError::Start(100)));
    assert_eq!(e.mintable(160), Err(MintError::End(160)));
    assert_eq!(e.mintable(100), Ok(5));
    assert_eq!(entry(10, Some(terms(5, 2)), 2).mintable(20), Err(MintError::Cap(2)));
}

#[test]
fn mint_within_cap_counts_the_mint() {
    let a = RuneId { block: 100, tx: 1 };
    let mut u = updater();
    u.id_to_entry.push(EntryRecord { id: a, entry: entry(100, Some(terms(25, 3)), 1) });
    assert_eq!(u.mint(a), Some(25));
    assert_eq!(u.id_to_entry[0].entry.mints, 2);
}

#[test]
fn mint_beyond_cap_grants_nothing_and_keeps_the_counter() {
    let a = RuneId { block: 100, tx: 1 };
    let mut u = updater();
    u.id_to_entry.push(EntryRecord { id: a, entry: entry(100, Some(terms(25, 3)), 3) });
    let before = u.clone();
    assert_eq!(u.mint(a), None);
    assert_eq!(u, before);
    assert_eq!(u.mint(RuneId { block: 1, tx: 1 }), None);
}

#[test]
fn collector_takes_spent_records_out_of_the_store() {
    let a = RuneId { block: 1, tx: 0 };
    let op = OutPoint { txid: txid(1), vout: 0 };
    let mut u = updater();
    u.outpoint_to_balances.push(OutpointRecord {
        outpoint: op,
        balances: vec![Balance { id: a, amount: 30 }],
        owner: "bc1alice".to_string(),
    });
    let tx = Transaction { input: vec![input(op), input(op)], output: vec![] };
    let un: Unallocated = u.unallocated(txid(2), 0, &tx);
    assert_eq!(un.lots, vec![Balance { id: a, amount: 30 }]);
    assert_eq!(un.owners, vec![Some("bc1alice".to_string())]);
    assert!(u.outpoint_to_balances.is_empty());
    assert!(matches!(&u.events[0], Event::RuneUtxoSpent { from, .. } if from == "bc1alice"));
    let flows: Vec<Flow> = u.get_address_balance(&un);
    assert_eq!(flows, vec![Flow { address: "bc1alice".to_string(), id: a, debit: 30, credit: 0 }]);
}

#[test]
fn transfer_debits_sender_and_credits_receiver() {
    let a = RuneId { block: 1, tx: 0 };
    let op = OutPoint { txid: txid(1), vout: 0 };
    let mut u = updater();
    u.outpoint_to_balances.push(OutpointRecord {
        outpoint: op,
        balances: vec![Balance { id: a, amount: 100 }],
        owner: "alice".to_string(),
    });
    let tx = Transaction { input: vec![input(op)], output: vec![out(false, Some("bob")), out(false, Some("alice"))] };
    let message = Some(Artifact::Runestone(Runestone {
        edicts: vec![Edict { id: a, amount: 60, output: 0 }],
        etching: None,
        mint: None,
        pointer: Some(1),
    }));
    assert!(u.index_runes(3, &tx, txid(2), &message).is_ok());
    let bob = stored(&u, OutPoint { txid: txid(2), vout: 0 }).unwrap();
    assert_eq!(bob.balances, vec![Balance { id: a, amount: 60 }]);
    assert_eq!(bob.owner, "bob");
    let change = stored(&u, OutPoint { txid: txid(2), vout: 1 }).unwrap();
    assert_eq!(change.balances, vec![Balance { id: a, amount: 40 }]);
    let debits: Vec<(String, u128)> = u.events.iter().filter_map(|e| match e {
        Event::RuneDebited { from, amount, .. } => Some((from.clone(), *amount)),
        _ => None,
    }).collect();
    let credits: Vec<(String, u128)> = u.events.iter().filter_map(|e| match e {
        Event::RuneCredited { to, amount, .. } => Some((to.clone(), *amount)),
        _ => None,
    }).collect();
    assert_eq!(debits, vec![("alice".to_string(), 60)]);
    assert_eq!(credits, vec![("bob".to_string(), 60)]);
}

#[test]
fn value_sent_to_op_return_is_burned() {
    let a = RuneId { block: 1, tx: 0 };
    let op = OutPoint { txid: txid(1), vout: 0 };
    let mut u = updater();
    u.outpoint_to_balances.push(OutpointRecord { outpoint: op, balances: vec![Balance { id: a, amount: 50 }], owner: String::new() });
    let tx = Transaction { input: vec![input(op)], output: vec![out(true, None), out(false, Some("carol"))] };
    let message = Some(Artifact::Runestone(Runestone {
        edicts: vec![Edict { id: a, amount: 20, output: 0 }],
        etching: None,
        mint: None,
        pointer: None,
    }));
    assert!(u.index_runes(0, &tx, txid(2), &message).is_ok());
    assert!(stored(&u, OutPoint { txid: txid(2), vout: 0 }).is_none());
    assert_eq!(stored(&u, OutPoint { txid: txid(2), vout: 1 }).unwrap().balances, vec![Balance { id: a, amount: 30 }]);
    assert_eq!(sum(&u.burned, a), 20);
    assert!(u.events.iter().any(|e| matches!(e, Event::RuneBurned { amount: 20, .. })));
}

#[test]
fn unclaimed_value_burns_without_a_spendable_output() {
    let a = RuneId { block: 1, tx: 0 };
    let op = OutPoint { txid: txid(1), vout: 0 };
    let mut u = updater();
    u.outpoint_to_balances.push(OutpointRecord { outpoint: op, balances: vec![Balance { id: a, amount: 8 }], owner: String::new() });
    let tx = Transaction { input: vec![input(op)], output: vec![out(true, None)] };
    assert!(u.index_runes(0, &tx, txid(2), &None).is_ok());
    assert_eq!(sum(&u.burned, a), 8);
    assert!(u.outpoint_to_balances.is_empty());
}

#[test]
fn etching_without_commitment_registers_nothing() {
    let mut u = updater();
    let rune = Rune(1_000_000);
    let tx = Transaction { input: vec![input(OutPoint { txid: txid(7), vout: 0 })], output: vec![out(false, Some("dave"))] };
    assert!(u.index_runes(4, &tx, txid(3), &named_etching(rune.0, 500)).is_ok());
    assert!(u.id_to_entry.is_empty());
    assert!(u.rune_to_id.is_empty());
    assert!(u.outpoint_to_balances.is_empty());
}

#[test]
fn etching_with_shallow_commitment_registers_nothing() {
    let mut u = updater();
    let rune = Rune(1_000_000);
    let prev = PrevOutput { taproot: true, height: HEIGHT as u64 - COMMIT_CONFIRMATIONS + 2 };
    let tx = Transaction { input: vec![committing_input(rune, Some(prev))], output: vec![out(false, None)] };
    assert!(u.index_runes(4, &tx, txid(3), &named_etching(rune.0, 500)).is_ok());
    assert!(u.id_to_entry.is_empty());
}

#[test]
fn etching_with_confirmed_commitment_registers_the_rune() {
    let mut u = updater();
    let rune = Rune(1_000_000);
    let prev = PrevOutput { taproot: true, height: HEIGHT as u64 - COMMIT_CONFIRMATIONS + 1 };
    let tx = Transaction { input: vec![committing_input(rune, Some(prev))], output: vec![out(false, Some("erin"))] };
    assert_eq!(u.tx_commits_to_rune(&tx, rune), Ok(true));
    assert!(u.index_runes(4, &tx, txid(3), &named_etching(rune.0, 500)).is_ok());
    let id = RuneId { block: HEIGHT as u64, tx: 4 };
    assert_eq!(u.id_to_entry.len(), 1);
    assert_eq!(u.id_to_entry[0].id, id);
    assert_eq!(u.id_to_entry[0].entry.premine, 500);
    assert_eq!(u.id_to_entry[0].entry.divisibility, 2);
    assert_eq!(u.rune_to_id, vec![(rune, id)]);
    assert_eq!(u.runes, 1);
    let premine = stored(&u, OutPoint { txid: txid(3), vout: 0 }).unwrap();
    assert_eq!(premine.balances, vec![Balance { id, amount: 500 }]);
    assert!(u.events.iter().any(|e| matches!(e, Event::RuneEtched { premine: 500, cap: Some(3), .. })));
}

#[test]
fn commitment_without_chain_data_aborts() {
    let u = updater();
    let rune = Rune(1_000_000);
    let tx = Transaction { input: vec![committing_input(rune, None)], output: vec![] };
    assert_eq!(u.tx_commits_to_rune(&tx, rune), Err(UpdateError::ChainData));
    let above = PrevOutput { taproot: true, height: HEIGHT as u64 + 1 };
    let tx = Transaction { input: vec![committing_input(rune, Some(above))], output: vec![] };
    assert_eq!(rune_settlement::commit::scan_commitment(&tx.input, &rune.commitment(), HEIGHT as u64), CommitScan::Fault);
}

#[test]
fn unnamed_etching_takes_a_reserved_name() {
    let mut u = updater();
    let message = Artifact::Cenotaph(Cenotaph { etching: None, mint: None });
    let tx = Transaction { input: vec![], output: vec![] };
    assert_eq!(u.etched(9, &tx, &message), Ok(None));
    let unnamed = Artifact::Runestone(Runestone {
        edicts: vec![],
        etching: Some(Etching { divisibility: None, premine: None, rune: None, spacers: None, symbol: None, terms: None, turbo: false }),
        mint: None,
        pointer: None,
    });
    let expected = Rune::reserved(HEIGHT as u64, 9);
    assert_eq!(u.etched(9, &tx, &unnamed), Ok(Some((RuneId { block: HEIGHT as u64, tx: 9 }, expected))));
    assert_eq!(u.reserved_runes, 1);
}

#[test]
fn poisoned_transaction_burns_spent_value_and_mint() {
    let a = RuneId { block: 1, tx: 0 };
    let op = OutPoint { txid: txid(1), vout: 0 };
    let mut u = updater();
    u.id_to_entry.push(EntryRecord { id: a, entry: entry(1, Some(terms(7, 100)), 0) });
    u.outpoint_to_balances.push(OutpointRecord { outpoint: op, balances: vec![Balance { id: a, amount: 13 }], owner: "frank".to_string() });
    let tx = Transaction { input: vec![input(op)], output: vec![out(false, Some("frank"))] };
    let message = Some(Artifact::Cenotaph(Cenotaph { etching: None, mint: Some(a) }));
    assert!(u.index_runes(0, &tx, txid(2), &message).is_ok());
    assert!(u.outpoint_to_balances.is_empty());
    assert_eq!(sum(&u.burned, a), 20);
    assert_eq!(u.id_to_entry[0].entry.mints, 1);
    assert!(u.events.iter().any(|e| matches!(e, Event::RuneDebited { amount: 13, .. })));
}

#[test]
fn same_transaction_on_same_state_settles_the_same_way() {
    let a = RuneId { block: 1, tx: 0 };
    let op = OutPoint { txid: txid(1), vout: 0 };
    let mut u = updater();
    u.outpoint_to_balances.push(OutpointRecord { outpoint: op, balances: vec![Balance { id: a, amount: 11 }], owner: "g".to_string() });
    let tx = Transaction { input: vec![input(op)], output: vec![out(false, Some("h")), out(false, Some("i")), out(true, None)] };
    let message = Some(Artifact::Runestone(Runestone {
        edicts: vec![Edict { id: a, amount: 0, output: 3 }],
        etching: None,
        mint: None,
        pointer: None,
    }));
    let mut v = u.clone();
    let first = u.index_runes(0, &tx, txid(2), &message);
    let second = v.index_runes(0, &tx, txid(2), &message);
    assert!(first.is_ok());
    assert_eq!(first, second);
    assert_eq!(u, v);
    let kept: Vec<(usize, Vec<Balance>)> = first.unwrap().settlement.records.into_iter().map(|r| (r.vout, r.balances)).collect();
    assert_eq!(kept, vec![(0, vec![Balance { id: a, amount: 6 }]), (1, vec![Balance { id: a, amount: 5 }])]);
}

#[test]
fn block_burns_are_recorded_in_entries() {
    let a = RuneId { block: 1, tx: 0 };
    let mut u = updater();
    u.id_to_entry.push(EntryRecord { id: a, entry: entry(1, None, 0) });
    assert_eq!(u.add_block_burn(Balance { id: a, amount: 4 }), Ok(()));
    assert_eq!(u.add_block_burn(Balance { id: a, amount: 6 }), Ok(()));
    assert_eq!(u.add_block_burn(Balance { id: a, amount: u128::MAX }), Err(UpdateError::Overflow));
    assert_eq!(u.update(), Ok(()));
    assert_eq!(u.id_to_entry[0].entry.burned, 10);
    let mut w = updater();
    w.burned.push(Balance { id: a, amount: 1 });
    assert_eq!(w.update(), Err(UpdateError::MissingEntry));
}

#[test]
fn mint_events_are_droppable_and_others_durable() {
    let minted = Event::RuneMinted { amount: 1, block_height: 1, block_hash: BlockHash { hi: 0, lo: 0 }, tx_index: 0, rune_id: RuneId { block: 1, tx: 0 }, txid: txid(1) };
    assert_eq!(minted.delivery(), Delivery::Droppable);
    assert_eq!(Event::ReorgDetected { depth: 2, height: 5 }.delivery(), Delivery::Durable);
}

#[test]
fn block_is_bracketed_and_burns_are_flushed() {
    let a = RuneId { block: 1, tx: 0 };
    let op = OutPoint { txid: txid(1), vout: 0 };
    let mut u = updater();
    u.id_to_entry.push(EntryRecord { id: a, entry: entry(1, None, 0) });
    u.outpoint_to_balances.push(OutpointRecord { outpoint: op, balances: vec![Balance { id: a, amount: 5 }], owner: "k".to_string() });
    let txs = vec![BlockTransaction {
        tx: Transaction { input: vec![input(op)], output: vec![out(true, None)] },
        txid: txid(2),
        artifact: None,
    }];
    assert_eq!(u.index_block(&txs), Ok(()));
    assert_eq!(u.events.first(), Some(&Event::BlockStart { height: HEIGHT, block_hash: u.block_hash }));
    let n = u.events.len() as u32 - 2;
    assert_eq!(u.events.last(), Some(&Event::BlockEnd { height: HEIGHT, block_hash: u.block_hash, event_count: n }));
    assert_eq!(u.id_to_entry[0].entry.burned, 5);
}

#[test]
fn no_address_is_both_debited_and_credited_for_a_rune() {
    let a = RuneId { block: 1, tx: 0 };
    let op1 = OutPoint { txid: txid(1), vout: 0 };
    let op2 = OutPoint { txid: txid(1), vout: 1 };
    let mut u = updater();
    u.outpoint_to_balances.push(OutpointRecord { outpoint: op1, balances: vec![Balance { id: a, amount: 10 }], owner: "m".to_string() });
    u.outpoint_to_balances.push(OutpointRecord { outpoint: op2, balances: vec![Balance { id: a, amount: 10 }], owner: "m".to_string() });
    let tx = Transaction { input: vec![input(op1), input(op2)], output: vec![out(false, Some("m")), out(false, Some("n"))] };
    let message = Some(Artifact::Runestone(Runestone {
        edicts: vec![Edict { id: a, amount: 3, output: 1 }],
        etching: None,
        mint: None,
        pointer: None,
    }));
    assert!(u.index_runes(0, &tx, txid(2), &message).is_ok());
    let credited_m = u.events.iter().any(|e| matches!(e, Event::RuneCredited { to, .. } if to == "m"));
    let debited_m: Vec<u128> = u.events.iter().filter_map(|e| match e {
        Event::RuneDebited { from, amount, .. } if from == "m" => Some(*amount),
        _ => None,
    }).collect();
    assert!(!credited_m);
    assert_eq!(debited_m, vec![3]);
}

#[test]
fn exhausted_counters_are_reported_as_overflow() {
    let tx = Transaction { input: vec![], output: vec![] };
    let unnamed = Artifact::Runestone(Runestone {
        edicts: vec![],
        etching: Some(Etching { divisibility: None, premine: None, rune: None, spacers: None, symbol: None, terms: None, turbo: false }),
        mint: None,
        pointer: None,
    });
    let mut u = updater();
    u.reserved_runes = u64::MAX;
    assert_eq!(u.etched(0, &tx, &unnamed), Err(UpdateError::Overflow));
    let mut w = updater();
    w.runes = u64::MAX;
    let id = RuneId { block: 1, tx: 0 };
    assert_eq!(w.create_rune_entry(txid(5), &unnamed, id, Rune(4000)), Err(UpdateError::Overflow));
    assert!(w.id_to_entry.is_empty());
}

#[test]
fn block_burns_are_emptied_after_being_recorded() {
    let a = RuneId { block: 1, tx: 0 };
    let mut u = updater();
    u.id_to_entry.push(EntryRecord { id: a, entry: entry(1, None, 0) });
    let op = OutPoint { txid: txid(1), vout: 0 };
    u.outpoint_to_balances.push(OutpointRecord { outpoint: op, balances: vec![Balance { id: a, amount: 5 }], owner: String::new() });
    let burn_block = vec![BlockTransaction {
        tx: Transaction { input: vec![input(op)], output: vec![out(true, None)] },
        txid: txid(2),
        artifact: None,
    }];
    assert_eq!(u.index_block(&burn_block), Ok(()));
    assert!(u.burned.is_empty());
    assert_eq!(u.index_block(&vec![]), Ok(()));
    assert_eq!(u.id_to_entry[0].entry.burned, 5);
}

#[test]
fn outcome_reports_debit_and_credit_per_address() {
    let a = RuneId { block: 1, tx: 0 };
    let op = OutPoint { txid: txid(1), vout: 0 };
    let mut u = updater();
    u.outpoint_to_balances.push(OutpointRecord { outpoint: op, balances: vec![Balance { id: a, amount: 9 }], owner: "p".to_string() });
    let tx = Transaction { input: vec![input(op)], output: vec![out(false, Some("q")), out(false, Some("p"))] };
    let message = Some(Artifact::Runestone(Runestone {
        edicts: vec![Edict { id: a, amount: 4, output: 0 }],
        etching: None,
        mint: None,
        pointer: Some(1),
    }));
    let outcome = u.index_runes(0, &tx, txid(2), &message).unwrap();
    assert_eq!(outcome.flows, vec![
        Flow { address: "p".to_string(), id: a, debit: 9, credit: 5 },
        Flow { address: "q".to_string(), id: a, debit: 0, credit: 4 },
    ]);
}
