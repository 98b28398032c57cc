//! The decision behind MF66's AArch64 `stk(in, out)` assembler macro: how a
//! primitive with stack effect `(in -> out)` moves the data-stack pointer
//! (x19, growing downward), for cells of a given size.
use vstd::prelude::*;

verus! {

/// A data-stack-pointer adjustment, in bytes (always positive).
#[derive(Clone, Copy, PartialEq, Eq, Debug, Structural)]
pub enum DspAdjust {
    /// A net push: `sub x19, x19, #n`.
    Lower(i64),
    /// A net pop: `add x19, x19, #n`.
    Raise(i64),
}

/// Why a `stk` stack effect is refused.
#[derive(Clone, Copy, PartialEq, Eq, Debug, Structural)]
pub enum StkError {
    /// An input or output count below zero.
    NegativeCount,
}

/// The signed byte change of the stack depth for `(ins -> outs)`.
pub open spec fn stk_delta(ins: i64, outs: i64, cell: i64) -> int {
    (outs - ins) * cell
}

/// What `stk(ins, outs)` emits with cells of `cell` bytes: nothing when the
/// depth is unchanged, else the adjustment by the bytes it changes by.
pub open spec fn stk_effect(ins: i64, outs: i64, cell: i64) -> Result<Option<DspAdjust>, StkError> {
    if ins < 0 || outs < 0 {
        Err(StkError::NegativeCount)
    } else if stk_delta(ins, outs, cell) > 0 {
        Ok(Some(DspAdjust::Lower(stk_delta(ins, outs, cell) as i64)))
    } else if stk_delta(ins, outs, cell) < 0 {
        Ok(Some(DspAdjust::Raise((-stk_delta(ins, outs, cell)) as i64)))
    } else {
        Ok(None)
    }
}

/// The adjustment `stk(ins, outs)` makes with cells of `cell` bytes; refused
/// when a count is negative.
pub fn dsp_adjust(ins: i64, outs: i64, cell: i64) -> (r: Result<Option<DspAdjust>, StkError>)
    requires
        ins >= 0 && outs >= 0 ==> i64::MIN < stk_delta(ins, outs, cell) <= i64::MAX,
    ensures
        r == stk_effect(ins, outs, cell),
{
    if ins < 0 || outs < 0 {
        return Err(StkError::NegativeCount);
    }
    let delta = (outs - ins) * cell;
    if delta > 0 {
        Ok(Some(DspAdjust::Lower(delta)))
    } else if delta < 0 {
        Ok(Some(DspAdjust::Raise(-delta)))
    } else {
        Ok(None)
    }
}

} // verus!
