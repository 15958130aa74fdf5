use vstd::prelude::*;
use crate::types::{Instruction, PrevOutput, TxIn};
use crate::rune::COMMIT_CONFIRMATIONS;

verus! {

/// What a search for a rune's commitment among a transaction's inputs finds.
#[derive(Clone, Copy, Debug, PartialEq, Eq, Structural)]
pub enum CommitScan {
    /// A push of the commitment in the tapscript of an input that spends a
    /// taproot output confirmed deeply enough.
    Confirmed,
    /// No such push.
    Absent,
    /// The chain data on a spent output that pushes the commitment is
    /// missing, or places it above the current height.
    Fault,
}

/// The search from instruction `j` of one input's tapscript. A push of the
/// commitment counts where the spent output is taproot and confirmed at least
/// `COMMIT_CONFIRMATIONS` times; a script that cannot be decoded further ends
/// the search of this input.
pub open spec fn scan_script(ins: Seq<Instruction>, j: int, c: Seq<u8>, prev: Option<PrevOutput>, height: u64) -> CommitScan
    decreases ins.len() - j,
{
    if j < 0 || j >= ins.len() {
        CommitScan::Absent
    } else {
        match ins[j] {
            Instruction::Invalid => CommitScan::Absent,
            Instruction::Op(_) => scan_script(ins, j + 1, c, prev, height),
            Instruction::Push(b) => {
                if b@ != c {
                    scan_script(ins, j + 1, c, prev, height)
                } else {
                    match prev {
                        None => CommitScan::Fault,
                        Some(p) => {
                            if !p.taproot {
                                scan_script(ins, j + 1, c, prev, height)
                            } else if p.height > height {
                                CommitScan::Fault
                            } else if height - p.height + 1 >= COMMIT_CONFIRMATIONS {
                                CommitScan::Confirmed
                            } else {
                                scan_script(ins, j + 1, c, prev, height)
                            }
                        },
                    }
                }
            },
        }
    }
}

/// The search from input `i` on, input by input.
pub open spec fn scan_inputs(inputs: Seq<TxIn>, i: int, c: Seq<u8>, height: u64) -> CommitScan
    decreases inputs.len() - i,
{
    if i < 0 || i >= inputs.len() {
        CommitScan::Absent
    } else {
        match inputs[i].tapscript {
            None => scan_inputs(inputs, i + 1, c, height),
            Some(ins) => match scan_script(ins@, 0, c, inputs[i].prev_output, height) {
                CommitScan::Absent => scan_inputs(inputs, i + 1, c, height),
                v => v,
            },
        }
    }
}

/// Whether two byte strings are equal.
pub fn bytes_eq(a: &Vec<u8>, b: &Vec<u8>) -> (r: bool)
    ensures
        r == (a@ == b@),
{
    if a.len() != b.len() {
        return false;
    }
    let mut i: usize = 0;
    while i < a.len()
        invariant
            i <= a@.len(),
            a@.len() == b@.len(),
            forall|k: int| 0 <= k < i ==> a@[k] == b@[k],
        decreases a.len() - i,
    {
        if a[i] != b[i] {
            return false;
        }
        i = i + 1;
    }
    proof {
        assert(a@ =~= b@);
    }
    true
}

/// Searches one input's tapscript for the commitment `c`.
pub fn scan_tapscript(ins: &Vec<Instruction>, c: &Vec<u8>, prev: Option<PrevOutput>, height: u64) -> (r: CommitScan)
    ensures
        r == scan_script(ins@, 0, c@, prev, height),
{
    let mut j: usize = 0;
    while j < ins.len()
        invariant
            j <= ins@.len(),
            scan_script(ins@, 0, c@, prev, height) == scan_script(ins@, j as int, c@, prev, height),
        decreases ins.len() - j,
    {
        match &ins[j] {
            Instruction::Invalid => return CommitScan::Absent,
            Instruction::Op(_) => {},
            Instruction::Push(b) => {
                if bytes_eq(b, c) {
                    match prev {
                        None => return CommitScan::Fault,
                        Some(p) => {
                            if p.taproot {
                                if p.height > height {
                                    return CommitScan::Fault;
                                }
                                if height - p.height >= COMMIT_CONFIRMATIONS - 1 {
                                    return CommitScan::Confirmed;
                                }
                            }
                        },
                    }
                }
            },
        }
        j = j + 1;
    }
    CommitScan::Absent
}

/// Searches the inputs, in order, for the commitment `c`.
pub fn scan_commitment(inputs: &Vec<TxIn>, c: &Vec<u8>, height: u64) -> (r: CommitScan)
    ensures
        r == scan_inputs(inputs@, 0, c@, height),
{
    let mut i: usize = 0;
    while i < inputs.len()
        invariant
            i <= inputs@.len(),
            scan_inputs(inputs@, 0, c@, height) == scan_inputs(inputs@, i as int, c@, height),
        decreases inputs.len() - i,
    {
        match &inputs[i].tapscript {
            None => {},
            Some(ins) => {
                let v = scan_tapscript(ins, c, inputs[i].prev_output, height);
                match v {
                    CommitScan::Absent => {},
                    _ => return v,
                }
            },
        }
        i = i + 1;
    }
    CommitScan::Absent
}

} // verus!
