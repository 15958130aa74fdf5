use vstd::prelude::*;
use crate::types::Rune;

verus! {

/// The first name of the reserved subrange of the name space.
pub const RESERVED: u128 = 6402364363415443603228541259936211926;

/// Confirmations a commitment needs before its rune may be etched.
pub const COMMIT_CONFIRMATIONS: u64 = 6;

impl Rune {
    pub open spec fn is_reserved_spec(self) -> bool {
        self.0 >= RESERVED
    }

    /// Whether the name lies in the reserved subrange.
    pub fn is_reserved(self) -> (r: bool)
        ensures
            r == self.is_reserved_spec(),
    {
        self.0 >= RESERVED
    }

    pub open spec fn reserved_spec(block: u64, tx: u32) -> Rune {
        Rune((RESERVED + block * 0x1_0000_0000 + tx) as u128)
    }

    /// The reserved name given to an etching made at `block`, `tx` that names
    /// no rune itself.
    pub fn reserved(block: u64, tx: u32) -> (r: Rune)
        ensures
            r == Rune::reserved_spec(block, tx),
            r.is_reserved_spec(),
    {
        let offset: u128 = (block as u128) * 0x1_0000_0000u128 + (tx as u128);
        Rune(RESERVED + offset)
    }
}

/// The little-endian bytes of `n`, without trailing zero bytes.
pub open spec fn commitment_bytes(n: nat) -> Seq<u8>
    decreases n,
{
    if n == 0 {
        Seq::empty()
    } else {
        seq![(n % 256) as u8] + commitment_bytes(n / 256)
    }
}

impl Rune {
    /// The bytes that a tapscript must push to commit to this rune.
    pub fn commitment(self) -> (r: Vec<u8>)
        ensures
            r@ == commitment_bytes(self.0 as nat),
    {
        let mut out: Vec<u8> = Vec::new();
        let mut n: u128 = self.0;
        while n > 0
            invariant
                out@ + commitment_bytes(n as nat) == commitment_bytes(self.0 as nat),
            decreases n,
        {
            let byte: u8 = (n % 256) as u8;
            let ghost before = out@;
            out.push(byte);
            proof {
                assert(commitment_bytes(n as nat) == seq![byte] + commitment_bytes((n / 256) as nat));
                assert(before + commitment_bytes(n as nat) == out@ + commitment_bytes((n / 256) as nat));
            }
            n = n / 256;
        }
        proof {
            assert(commitment_bytes(0) == Seq::<u8>::empty());
            assert(out@ + commitment_bytes(0) == out@);
        }
        out
    }
}

} // verus!
