use vstd::prelude::*;

verus! {

/// Identifies a rune by the height of the block that etched it and the
/// index of the etching transaction within that block.
#[derive(Clone, Copy, Debug, PartialEq, Eq, Structural, Hash, PartialOrd, Ord)]
pub struct RuneId {
    pub block: u64,
    pub tx: u32,
}

impl RuneId {
    /// The wildcard id `0:0`, which an edict uses to name the rune etched by
    /// its own transaction.
    pub open spec fn is_wildcard_spec(self) -> bool {
        self.block == 0 && self.tx == 0
    }

    pub fn is_wildcard(&self) -> (r: bool)
        ensures
            r == self.is_wildcard_spec(),
    {
        self.block == 0 && self.tx == 0
    }
}


/// A 256-bit transaction hash, held as its high and low 128-bit halves.
#[derive(Clone, Copy, Debug, PartialEq, Eq, Structural, Hash, PartialOrd, Ord)]
pub struct Txid {
    pub hi: u128,
    pub lo: u128,
}

/// A 256-bit block hash, held as its high and low 128-bit halves.
#[derive(Clone, Copy, Debug, PartialEq, Eq, Structural, Hash, PartialOrd, Ord)]
pub struct BlockHash {
    pub hi: u128,
    pub lo: u128,
}

/// A reference to one output of one transaction.
#[derive(Clone, Copy, Debug, PartialEq, Eq, Structural, Hash, PartialOrd, Ord)]
pub struct OutPoint {
    pub txid: Txid,
    pub vout: u32,
}

/// Identifies an inscription by its reveal transaction and its index there.
#[derive(Clone, Copy, Debug, PartialEq, Eq, Structural, Hash, PartialOrd, Ord)]
pub struct InscriptionId {
    pub txid: Txid,
    pub index: u32,
}

/// A position of a single sat: an outpoint and an offset into its value.
#[derive(Clone, Copy, Debug, PartialEq, Eq, Structural, Hash, PartialOrd, Ord)]
pub struct SatPoint {
    pub outpoint: OutPoint,
    pub offset: u64,
}

/// A rune name, as a number in the 128-bit ordered name space.
#[derive(Clone, Copy, Debug, PartialEq, Eq, Structural, Hash, PartialOrd, Ord)]
pub struct Rune(pub u128);

/// A rune name together with the positions of its spacers.
#[derive(Clone, Copy, Debug, PartialEq, Eq, Structural, Hash)]
pub struct SpacedRune {
    pub rune: Rune,
    pub spacers: u32,
}

/// The minting policy of a rune, fixed when it is etched.
#[derive(Clone, Copy, Debug, PartialEq, Eq, Hash)]
pub struct Terms {
    pub amount: Option<u128>,
    pub cap: Option<u128>,
    pub height: (Option<u64>, Option<u64>),
    pub offset: (Option<u64>, Option<u64>),
}

/// The etching part of a well-formed message.
#[derive(Clone, Copy, Debug, PartialEq, Eq, Hash)]
pub struct Etching {
    pub divisibility: Option<u8>,
    pub premine: Option<u128>,
    pub rune: Option<Rune>,
    pub spacers: Option<u32>,
    pub symbol: Option<char>,
    pub terms: Option<Terms>,
    pub turbo: bool,
}

/// An instruction to move `amount` of rune `id` to output `output`.
/// An amount of zero claims everything available; an output equal to the
/// number of outputs of the transaction broadcasts to every eligible output.
#[derive(Clone, Copy, Debug, PartialEq, Eq, Structural, Hash)]
pub struct Edict {
    pub id: RuneId,
    pub amount: u128,
    pub output: u32,
}

/// A well-formed protocol message.
#[derive(Clone, Debug, PartialEq, Eq)]
pub struct Runestone {
    pub edicts: Vec<Edict>,
    pub etching: Option<Etching>,
    pub mint: Option<RuneId>,
    pub pointer: Option<u32>,
}

/// A malformed protocol message: every rune it touches is burned.
#[derive(Clone, Copy, Debug, PartialEq, Eq, Structural, Hash)]
pub struct Cenotaph {
    pub etching: Option<Rune>,
    pub mint: Option<RuneId>,
}

/// What the decoder makes of a transaction that carries a protocol message.
#[derive(Clone, Debug, PartialEq, Eq)]
pub enum Artifact {
    Runestone(Runestone),
    Cenotaph(Cenotaph),
}

impl Artifact {
    pub open spec fn mint_spec(&self) -> Option<RuneId> {
        match self {
            Artifact::Runestone(r) => r.mint,
            Artifact::Cenotaph(c) => c.mint,
        }
    }

    /// The rune that the message asks to mint, if any.
    pub fn mint(&self) -> (r: Option<RuneId>)
        ensures
            r == self.mint_spec(),
    {
        match self {
            Artifact::Runestone(r) => r.mint,
            Artifact::Cenotaph(c) => c.mint,
        }
    }
}

/// The persistent metadata of an etched rune.
#[derive(Clone, Copy, Debug, PartialEq, Eq, Hash)]
pub struct RuneEntry {
    pub block: u64,
    pub burned: u128,
    pub divisibility: u8,
    pub etching: Txid,
    pub mints: u128,
    pub number: u64,
    pub premine: u128,
    pub spaced_rune: SpacedRune,
    pub symbol: Option<char>,
    pub terms: Option<Terms>,
    pub timestamp: u64,
    pub turbo: bool,
}

/// A quantity of one rune.
#[derive(Clone, Copy, Debug, PartialEq, Eq, Structural, Hash, PartialOrd, Ord)]
pub struct Balance {
    pub id: RuneId,
    pub amount: u128,
}

/// One element of an input's tapscript, as the script decoder gives it.
#[derive(Clone, Debug, PartialEq, Eq)]
pub enum Instruction {
    /// A data push.
    Push(Vec<u8>),
    /// Any other opcode.
    Op(u8),
    /// The script could not be decoded past this point.
    Invalid,
}

/// What the chain-data provider reports on the output an input spends.
#[derive(Clone, Copy, Debug, PartialEq, Eq, Structural, Hash)]
pub struct PrevOutput {
    /// Whether the spent output is a taproot output.
    pub taproot: bool,
    /// The height of the block that confirmed the spent output's transaction.
    pub height: u64,
}

/// A transaction input.
#[derive(Clone, Debug, PartialEq, Eq)]
pub struct TxIn {
    pub previous_output: OutPoint,
    /// The tapscript of the witness, when the witness has one.
    pub tapscript: Option<Vec<Instruction>>,
    /// Chain data on the spent output, `None` when the provider has none.
    pub prev_output: Option<PrevOutput>,
}

/// A transaction output.
#[derive(Clone, Debug, PartialEq, Eq)]
pub struct TxOut {
    /// Whether the output script is provably unspendable (`OP_RETURN`).
    pub unspendable: bool,
    /// The standard address of the output script, if it has one.
    pub address: Option<String>,
}

/// A transaction, as far as rune settlement reads it.
#[derive(Clone, Debug, PartialEq, Eq)]
pub struct Transaction {
    pub input: Vec<TxIn>,
    pub output: Vec<TxOut>,
}

} // verus!
