use vstd::prelude::*;
use crate::types::RuneEntry;

verus! {

/// Why a rune cannot be minted at a given height.
#[derive(Clone, Copy, Debug, PartialEq, Eq, Structural)]
pub enum MintError {
    /// The cap of mints has been reached.
    Cap(u128),
    /// The mint window closed at this height.
    End(u64),
    /// The mint window opens at this height.
    Start(u64),
    /// The rune has no mint terms.
    Unmintable,
}

pub open spec fn saturating_add_u64(a: u64, b: u64) -> u64 {
    if a + b > u64::MAX { u64::MAX } else { (a + b) as u64 }
}

/// Combines a window bound relative to the etching block with an absolute
/// one: where both are given, the later of the two if `later`, else the
/// earlier.
pub open spec fn combine_bound(relative: Option<u64>, absolute: Option<u64>, later: bool) -> Option<u64> {
    match (relative, absolute) {
        (Some(r), Some(a)) => Some(if (r >= a) == later { r } else { a }),
        (Some(r), None) => Some(r),
        (None, a) => a,
    }
}

fn combine(relative: Option<u64>, absolute: Option<u64>, later: bool) -> (r: Option<u64>)
    ensures
        r == combine_bound(relative, absolute, later),
{
    match (relative, absolute) {
        (Some(r), Some(a)) => Some(if (r >= a) == later { r } else { a }),
        (Some(r), None) => Some(r),
        (None, a) => a,
    }
}

impl RuneEntry {
    /// The first height at which minting is open: the later of the two
    /// start bounds.
    pub open spec fn start_spec(self) -> Option<u64> {
        match self.terms {
            None => None,
            Some(t) => combine_bound(
                match t.offset.0 {
                    Some(o) => Some(saturating_add_u64(self.block, o)),
                    None => None,
                },
                t.height.0,
                true,
            ),
        }
    }

    /// The first height at which minting is closed: the earlier of the two
    /// end bounds.
    pub open spec fn end_spec(self) -> Option<u64> {
        match self.terms {
            None => None,
            Some(t) => combine_bound(
                match t.offset.1 {
                    Some(o) => Some(saturating_add_u64(self.block, o)),
                    None => None,
                },
                t.height.1,
                false,
            ),
        }
    }

    pub fn start(&self) -> (r: Option<u64>)
        ensures
            r == self.start_spec(),
    {
        match self.terms {
            None => None,
            Some(t) => {
                let relative = match t.offset.0 {
                    Some(o) => Some(self.block.saturating_add(o)),
                    None => None,
                };
                combine(relative, t.height.0, true)
            },
        }
    }

    pub fn end(&self) -> (r: Option<u64>)
        ensures
            r == self.end_spec(),
    {
        match self.terms {
            None => None,
            Some(t) => {
                let relative = match t.offset.1 {
                    Some(o) => Some(self.block.saturating_add(o)),
                    None => None,
                };
                combine(relative, t.height.1, false)
            },
        }
    }

    /// What a mint at `height` yields, or why there is none.
    pub open spec fn mintable_spec(self, height: u64) -> Result<u128, MintError> {
        match self.terms {
            None => Err(MintError::Unmintable),
            Some(t) => {
                if self.start_spec().is_some() && height < self.start_spec().unwrap() {
                    Err(MintError::Start(self.start_spec().unwrap()))
                } else if self.end_spec().is_some() && height >= self.end_spec().unwrap() {
                    Err(MintError::End(self.end_spec().unwrap()))
                } else {
                    let cap = match t.cap { Some(c) => c, None => 0 };
                    if self.mints >= cap {
                        Err(MintError::Cap(cap))
                    } else {
                        Ok(match t.amount { Some(a) => a, None => 0 })
                    }
                }
            },
        }
    }

    /// The amount one mint at `height` grants, or why minting is closed.
    pub fn mintable(&self, height: u64) -> (r: Result<u128, MintError>)
        ensures
            r == self.mintable_spec(height),
            r.is_ok() ==> self.mints < u128::MAX,
    {
        let terms = match self.terms {
            None => return Err(MintError::Unmintable),
            Some(t) => t,
        };
        if let Some(start) = self.start() {
            if height < start {
                return Err(MintError::Start(start));
            }
        }
        if let Some(end) = self.end() {
            if height >= end {
                return Err(MintError::End(end));
            }
        }
        let cap: u128 = match terms.cap {
            Some(c) => c,
            None => 0,
        };
        if self.mints >= cap {
            return Err(MintError::Cap(cap));
        }
        Ok(match terms.amount {
            Some(a) => a,
            None => 0,
        })
    }
}

} // verus!
