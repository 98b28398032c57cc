//! The MF66 token-IR optimizer (the "optimizing" half of the compiler).
//!
//! A colon body's straight-line runs are accumulated as `Tok`s, `reduce`d
//! (const-fold, immediate-fold, dup-fuse, dead-code elimination), then `lower`ed
//! to tight AArch64 — replacing the eager veneer-call-per-word with register code.
//! Control-flow directives flush the current run, so optimization covers the
//! straight-line segments between branches.
use vstd::prelude::*;
use crate::aenc::{EQ, GE, GT, HI, LE, LO, LT, NE};
pub use crate::lowering::{fused_cmp, lower};

verus! {

#[derive(Clone, Copy, PartialEq, Eq, Debug, Structural)]
pub enum Bin {
    Add,
    Sub,
    Mul,
    And,
    Or,
    Xor,
}

#[derive(Clone, Copy, PartialEq, Eq, Debug, Structural)]
pub enum Stk {
    Dup,
    Drop,
    Swap,
    Over,
    Nip,
    Rot,  // ( a b c -- b c a )
    MinusRot,  // ( a b c -- c a b )
    Tuck,  // ( a b -- b a b )
}

#[derive(Clone, Copy, PartialEq, Eq, Debug, Structural)]
pub enum Cmp {
    Eq,
    Ne,
    Lt,
    Gt,
    Le,
    Ge,
    ULt,
    UGt,
    ZEq,
    ZNe,
    ZLt,
    ZGt,
}

#[derive(Clone, Copy, PartialEq, Eq, Debug, Structural)]
pub enum Mem {
    Fetch,
    Store,
    CFetch,
    CStore,
}

/// Floating-point binary ops modeled in the optimizer's FP virtual stack.
#[derive(Clone, Copy, PartialEq, Eq, Debug, Structural)]
pub enum FBin {
    Add,
    Sub,
    Mul,
    Div,
}

/// Floating-point unary ops (single hardware instruction, no libm).
#[derive(Clone, Copy, PartialEq, Eq, Debug, Structural)]
pub enum FUn {
    Neg,
    Sqrt,
    Abs,
}

/// Branchless select words: `min max umin umax` (cmp + csel, foldable).
#[derive(Clone, Copy, PartialEq, Eq, Debug, Structural)]
pub enum Sel {
    Min,
    Max,
    UMin,
    UMax,
}

#[derive(Clone, Copy, PartialEq, Eq, Debug, Structural)]
pub enum Tok {
    Lit(i64),
    Bin(Bin),
    ImmBin(Bin, i64),  // reduced: TOS op= k
    DupBin(Bin),  // reduced: dup then op (op TOS with itself)
    Stk(Stk),
    Cmp(Cmp),
    Sel(Sel),
    Mem(Mem),
    LocalFetch(u32),  // push local[i] (LP-relative)
    LocalStore(u32),  // local[i] = TOS; drop
    // Locals-frame open/close as balanced body tokens, so a locals word inlines
    // into a caller as a correct nested sub-frame (LP dips and pops).
    OpenLocals { total: u32, inputs: u32 },  // sub LP; pop `inputs` from data stack
    CloseLocals { total: u32 },  // add LP (frame freed)
    IvarFetch(u32),  // push [SELF + off]  (OOP instance variable)
    IvarStore(u32),  // [SELF + off] = TOS; drop
    SelfPush,  // push the current receiver (user_SELF)
    PickN(u32),  // copy the item at depth N to TOS (0=dup, 1=over, …)
    RollN(u32),  // move the item at depth N to TOS (1=swap, 2=rot, …)
    // Floating-point: modeled in a parallel FP virtual stack (FTOS=d8, FSP).
    FLit(i64),  // float literal (raw bits)
    FBin(FBin),  // f+ / f- / f* / f/
    FUn(FUn),  // fnegate / fsqrt / fabs
    FStk(Stk),  // fdup / fdrop / fswap / fover (FP stack motion)
    Call(u64),
}

/// `a` reinterpreted as unsigned.
pub open spec fn unsigned(a: i64) -> u64 {
    a as u64
}

fn to_unsigned(a: i64) -> (r: u64)
    ensures
        r == unsigned(a),
{
    a as u64
}

/// `a op b` where a = NOS (deeper), b = TOS (two's-complement wrapping).
pub open spec fn bin_eval(op: Bin, a: i64, b: i64) -> i64 {
    match op {
        Bin::Add => a.wrapping_add(b),
        Bin::Sub => a.wrapping_sub(b),
        Bin::Mul => a.wrapping_mul(b),
        Bin::And => a & b,
        Bin::Or => a | b,
        Bin::Xor => a ^ b,
    }
}

/// A Forth flag: all ones for true, zero for false.
pub open spec fn flag(t: bool) -> i64 {
    if t {
        -1i64
    } else {
        0i64
    }
}

/// A binary comparison `a <c> b` as a Forth flag (zero-compares give 0 here).
pub open spec fn cmp_eval(c: Cmp, a: i64, b: i64) -> i64 {
    match c {
        Cmp::Eq => flag(a == b),
        Cmp::Ne => flag(a != b),
        Cmp::Lt => flag(a < b),
        Cmp::Gt => flag(a > b),
        Cmp::Le => flag(a <= b),
        Cmp::Ge => flag(a >= b),
        Cmp::ULt => flag(unsigned(a) < unsigned(b)),
        Cmp::UGt => flag(unsigned(a) > unsigned(b)),
        _ => 0,
    }
}

/// A zero-compare `n <0c>` as a Forth flag (binary compares give 0 here).
pub open spec fn cmp_eval_zero(c: Cmp, n: i64) -> i64 {
    match c {
        Cmp::ZEq => flag(n == 0),
        Cmp::ZNe => flag(n != 0),
        Cmp::ZLt => flag(n < 0),
        Cmp::ZGt => flag(n > 0),
        _ => 0,
    }
}

/// `true` for the one-operand compares.
pub open spec fn is_zero_cmp(c: Cmp) -> bool {
    c == Cmp::ZEq || c == Cmp::ZNe || c == Cmp::ZLt || c == Cmp::ZGt
}

/// The csetm condition for a binary compare (`a <cmp> b`).
pub open spec fn cmp_cond(c: Cmp) -> u32 {
    match c {
        Cmp::Eq => EQ,
        Cmp::Ne => NE,
        Cmp::Lt => LT,
        Cmp::Gt => GT,
        Cmp::Le => LE,
        Cmp::Ge => GE,
        Cmp::ULt => LO,
        Cmp::UGt => HI,
        _ => EQ,
    }
}

/// The compare whose flag is the logical negation (signed/equality only).
pub open spec fn cmp_negate(c: Cmp) -> Option<Cmp> {
    match c {
        Cmp::Eq => Some(Cmp::Ne),
        Cmp::Ne => Some(Cmp::Eq),
        Cmp::Lt => Some(Cmp::Ge),
        Cmp::Gt => Some(Cmp::Le),
        Cmp::Le => Some(Cmp::Gt),
        Cmp::Ge => Some(Cmp::Lt),
        _ => None,
    }
}

/// The condition with operands swapped (`b <cmp> a`) — for a constant NOS.
pub open spec fn cmp_swapped_cond(c: Cmp) -> u32 {
    match c {
        Cmp::Lt => GT,
        Cmp::Gt => LT,
        Cmp::Le => GE,
        Cmp::Ge => LE,
        Cmp::ULt => HI,
        Cmp::UGt => LO,
        other => cmp_cond(other),
    }
}

/// `a <sel> b`.
pub open spec fn sel_eval(s: Sel, a: i64, b: i64) -> i64 {
    match s {
        Sel::Min => if a <= b {
            a
        } else {
            b
        },
        Sel::Max => if a >= b {
            a
        } else {
            b
        },
        Sel::UMin => if unsigned(a) <= unsigned(b) {
            a
        } else {
            b
        },
        Sel::UMax => if unsigned(a) >= unsigned(b) {
            a
        } else {
            b
        },
    }
}

/// csel condition selecting the NOS operand (`a`) when true.
pub open spec fn sel_cond(s: Sel) -> u32 {
    match s {
        Sel::Min => LT,
        Sel::Max => GT,
        Sel::UMin => LO,
        Sel::UMax => HI,
    }
}

impl Sel {
    /// Constant-fold `a <sel> b`.
    pub(crate) fn eval(self, a: i64, b: i64) -> (r: i64)
        ensures
            r == sel_eval(self, a, b),
    {
        match self {
            Sel::Min => if a <= b {
                a
            } else {
                b
            },
            Sel::Max => if a >= b {
                a
            } else {
                b
            },
            Sel::UMin => if to_unsigned(a) <= to_unsigned(b) {
                a
            } else {
                b
            },
            Sel::UMax => if to_unsigned(a) >= to_unsigned(b) {
                a
            } else {
                b
            },
        }
    }

    /// csel condition selecting the NOS operand (`a`) when true.
    pub(crate) fn cond(self) -> (r: u32)
        ensures
            r == sel_cond(self),
    {
        match self {
            Sel::Min => LT,
            Sel::Max => GT,
            Sel::UMin => LO,
            Sel::UMax => HI,
        }
    }
}

impl Bin {
    /// `a op b` where a = NOS (deeper), b = TOS.
    pub(crate) fn eval(self, a: i64, b: i64) -> (r: i64)
        ensures
            r == bin_eval(self, a, b),
    {
        match self {
            Bin::Add => a.wrapping_add(b),
            Bin::Sub => a.wrapping_sub(b),
            Bin::Mul => a.wrapping_mul(b),
            Bin::And => a & b,
            Bin::Or => a | b,
            Bin::Xor => a ^ b,
        }
    }
}

impl Cmp {
    /// Constant-fold a binary comparison: `a <cmp> b` → Forth flag (-1 / 0).
    pub(crate) fn eval(self, a: i64, b: i64) -> (r: i64)
        ensures
            r == cmp_eval(self, a, b),
    {
        let t = match self {
            Cmp::Eq => a == b,
            Cmp::Ne => a != b,
            Cmp::Lt => a < b,
            Cmp::Gt => a > b,
            Cmp::Le => a <= b,
            Cmp::Ge => a >= b,
            Cmp::ULt => to_unsigned(a) < to_unsigned(b),
            Cmp::UGt => to_unsigned(a) > to_unsigned(b),
            _ => {
                return 0;
            },
        };
        if t {
            -1
        } else {
            0
        }
    }

    /// Constant-fold a zero-compare: `n <0cmp>` → Forth flag.
    pub(crate) fn eval_zero(self, n: i64) -> (r: i64)
        ensures
            r == cmp_eval_zero(self, n),
    {
        let t = match self {
            Cmp::ZEq => n == 0,
            Cmp::ZNe => n != 0,
            Cmp::ZLt => n < 0,
            Cmp::ZGt => n > 0,
            _ => {
                return 0;
            },
        };
        if t {
            -1
        } else {
            0
        }
    }

    /// The csetm condition for a binary compare (`a <cmp> b`).
    pub(crate) fn cond(self) -> (r: u32)
        ensures
            r == cmp_cond(self),
    {
        match self {
            Cmp::Eq => EQ,
            Cmp::Ne => NE,
            Cmp::Lt => LT,
            Cmp::Gt => GT,
            Cmp::Le => LE,
            Cmp::Ge => GE,
            Cmp::ULt => LO,
            Cmp::UGt => HI,
            _ => EQ,
        }
    }

    /// The comparison whose result is the logical negation of this one (signed
    /// only; unsigned/zero compares have no inverse in the enum). `< 0=` → `>=`.
    pub(crate) fn negate(self) -> (r: Option<Cmp>)
        ensures
            r == cmp_negate(self),
    {
        match self {
            Cmp::Eq => Some(Cmp::Ne),
            Cmp::Ne => Some(Cmp::Eq),
            Cmp::Lt => Some(Cmp::Ge),
            Cmp::Gt => Some(Cmp::Le),
            Cmp::Le => Some(Cmp::Gt),
            Cmp::Ge => Some(Cmp::Lt),
            _ => None,
        }
    }

    /// The condition with operands swapped (`b <cmp> a`) — for a constant NOS.
    pub(crate) fn swapped_cond(self) -> (r: u32)
        ensures
            r == cmp_swapped_cond(self),
    {
        match self {
            Cmp::Lt => GT,
            Cmp::Gt => LT,
            Cmp::Le => GE,
            Cmp::Ge => LE,
            Cmp::ULt => HI,
            Cmp::UGt => LO,
            other => other.cond(),
        }
    }
}

/// Per-word optimizer metrics, accumulated across a definition's straight-line
/// runs (each control-flow boundary flushes a run through reduce + lower).
#[derive(Clone, Copy, Debug)]
pub struct Metrics {
    pub toks_in: u32,  // tokens captured (pre-reduce)
    pub toks_out: u32,  // tokens after reduce
    pub const_folds: u32,  // Lit Lit Bin → Lit (+ Cmp/Sel folds in the lowerer)
    pub imm_folds: u32,  // Lit Bin → ImmBin
    pub imm_chains: u32,  // ImmBin ImmBin → ImmBin (e.g. 1+ 1+ → +2)
    pub dup_fuses: u32,  // Dup Bin → DupBin
    pub dce: u32,  // Lit/Dup Drop removed
    pub stack_cancels: u32,  // swap swap / rot -rot annihilated
    pub cmp_negates: u32,  // <cmp> 0= → inverse compare
    pub instrs: u32,  // final emitted body instructions (set at commit)
    pub stack_ops: u32,  // stack-motion tokens lowered (dup/swap/rot/pick/…)
    pub stack_ops_free: u32,  // …of those, ones that emitted ZERO code (pure reindex)
    pub const_mat: u32,  // constants forced into a register (load_imm64)
    pub reg_copies: u32,  // mov for a dup/over of a register value
    pub gp_allocs: u32,  // pool-register allocations
    pub peak_gp: u32,  // peak live GP pool registers (of 7)
    pub peak_fp: u32,  // peak live FP pool registers (of 7)
    pub spills: u32,  // reserve()→settle forced by register pressure
    pub stack_loads: u32,  // ldr pulling an entry cell into the window (ensure)
    pub stack_stores: u32,  // str spilling the window to canonical memory (settle)
    pub mem_fetches: u32,  // @ / c@ (data-memory loads)
    pub mem_stores: u32,  // ! / c! (data-memory stores)
    pub local_loads: u32,  // local read served from the LP frame (ldr)
    pub local_hits: u32,  // local read served from a register (no ldr)
    pub local_spills: u32,  // deferred local stores flushed to the frame at a barrier
    pub redundant_fetches: u32,  // @/c@ of a const address already fetched in the window
    pub dsp_adjusts: u32,  // add/sub DSP at settle boundaries
    pub calls: u32,  // Call tokens (non-inlined words → settle barriers)
    pub settles: u32,  // settle() invocations
}

/// All counters zero.
pub open spec fn zero_metrics() -> Metrics {
    Metrics {
        toks_in: 0,
        toks_out: 0,
        const_folds: 0,
        imm_folds: 0,
        imm_chains: 0,
        dup_fuses: 0,
        dce: 0,
        stack_cancels: 0,
        cmp_negates: 0,
        instrs: 0,
        stack_ops: 0,
        stack_ops_free: 0,
        const_mat: 0,
        reg_copies: 0,
        gp_allocs: 0,
        peak_gp: 0,
        peak_fp: 0,
        spills: 0,
        stack_loads: 0,
        stack_stores: 0,
        mem_fetches: 0,
        mem_stores: 0,
        local_loads: 0,
        local_hits: 0,
        local_spills: 0,
        redundant_fetches: 0,
        dsp_adjusts: 0,
        calls: 0,
        settles: 0,
    }
}

impl Default for Metrics {
    fn default() -> (m: Self)
        ensures
            m == zero_metrics(),
    {
        Metrics {
            toks_in: 0,
            toks_out: 0,
            const_folds: 0,
            imm_folds: 0,
            imm_chains: 0,
            dup_fuses: 0,
            dce: 0,
            stack_cancels: 0,
            cmp_negates: 0,
            instrs: 0,
            stack_ops: 0,
            stack_ops_free: 0,
            const_mat: 0,
            reg_copies: 0,
            gp_allocs: 0,
            peak_gp: 0,
            peak_fp: 0,
            spills: 0,
            stack_loads: 0,
            stack_stores: 0,
            mem_fetches: 0,
            mem_stores: 0,
            local_loads: 0,
            local_hits: 0,
            local_spills: 0,
            redundant_fetches: 0,
            dsp_adjusts: 0,
            calls: 0,
            settles: 0,
        }
    }
}

/// `a + b` in `u32`, wrapping as the counters do.
pub open spec fn add_u32(a: u32, b: u32) -> u32 {
    a.wrapping_add(b)
}

pub open spec fn max_u32(a: u32, b: u32) -> u32 {
    if a >= b {
        a
    } else {
        b
    }
}

/// `a` with `b` folded in: peaks take the max, the other counters add.
pub open spec fn merged(a: Metrics, b: Metrics) -> Metrics {
    Metrics {
        toks_in: add_u32(a.toks_in, b.toks_in),
        toks_out: add_u32(a.toks_out, b.toks_out),
        const_folds: add_u32(a.const_folds, b.const_folds),
        imm_folds: add_u32(a.imm_folds, b.imm_folds),
        imm_chains: add_u32(a.imm_chains, b.imm_chains),
        dup_fuses: add_u32(a.dup_fuses, b.dup_fuses),
        dce: add_u32(a.dce, b.dce),
        stack_cancels: add_u32(a.stack_cancels, b.stack_cancels),
        cmp_negates: add_u32(a.cmp_negates, b.cmp_negates),
        stack_ops: add_u32(a.stack_ops, b.stack_ops),
        stack_ops_free: add_u32(a.stack_ops_free, b.stack_ops_free),
        const_mat: add_u32(a.const_mat, b.const_mat),
        reg_copies: add_u32(a.reg_copies, b.reg_copies),
        gp_allocs: add_u32(a.gp_allocs, b.gp_allocs),
        spills: add_u32(a.spills, b.spills),
        stack_loads: add_u32(a.stack_loads, b.stack_loads),
        stack_stores: add_u32(a.stack_stores, b.stack_stores),
        mem_fetches: add_u32(a.mem_fetches, b.mem_fetches),
        mem_stores: add_u32(a.mem_stores, b.mem_stores),
        local_loads: add_u32(a.local_loads, b.local_loads),
        local_hits: add_u32(a.local_hits, b.local_hits),
        local_spills: add_u32(a.local_spills, b.local_spills),
        redundant_fetches: add_u32(a.redundant_fetches, b.redundant_fetches),
        dsp_adjusts: add_u32(a.dsp_adjusts, b.dsp_adjusts),
        calls: add_u32(a.calls, b.calls),
        settles: add_u32(a.settles, b.settles),
        peak_gp: max_u32(a.peak_gp, b.peak_gp),
        peak_fp: max_u32(a.peak_fp, b.peak_fp),
        instrs: add_u32(a.instrs, b.instrs),
    }
}

/// Total reduce-pass rewrites.
pub open spec fn rewrites_of(m: Metrics) -> int {
    m.const_folds + m.imm_folds + m.imm_chains + m.dup_fuses + m.dce + m.stack_cancels + m.cmp_negates
}

impl Metrics {
    /// Fold another run's metrics into this one (peaks max, the rest sum).
    pub fn merge(&mut self, o: &Metrics)
        ensures
            *final(self) == merged(*old(self), *o),
    {
        self.toks_in = self.toks_in.wrapping_add(o.toks_in);
        self.toks_out = self.toks_out.wrapping_add(o.toks_out);
        self.const_folds = self.const_folds.wrapping_add(o.const_folds);
        self.imm_folds = self.imm_folds.wrapping_add(o.imm_folds);
        self.imm_chains = self.imm_chains.wrapping_add(o.imm_chains);
        self.dup_fuses = self.dup_fuses.wrapping_add(o.dup_fuses);
        self.dce = self.dce.wrapping_add(o.dce);
        self.stack_cancels = self.stack_cancels.wrapping_add(o.stack_cancels);
        self.cmp_negates = self.cmp_negates.wrapping_add(o.cmp_negates);
        self.instrs = self.instrs.wrapping_add(o.instrs);
        self.stack_ops = self.stack_ops.wrapping_add(o.stack_ops);
        self.stack_ops_free = self.stack_ops_free.wrapping_add(o.stack_ops_free);
        self.const_mat = self.const_mat.wrapping_add(o.const_mat);
        self.reg_copies = self.reg_copies.wrapping_add(o.reg_copies);
        self.gp_allocs = self.gp_allocs.wrapping_add(o.gp_allocs);
        self.spills = self.spills.wrapping_add(o.spills);
        self.stack_loads = self.stack_loads.wrapping_add(o.stack_loads);
        self.stack_stores = self.stack_stores.wrapping_add(o.stack_stores);
        self.mem_fetches = self.mem_fetches.wrapping_add(o.mem_fetches);
        self.mem_stores = self.mem_stores.wrapping_add(o.mem_stores);
        self.local_loads = self.local_loads.wrapping_add(o.local_loads);
        self.local_hits = self.local_hits.wrapping_add(o.local_hits);
        self.local_spills = self.local_spills.wrapping_add(o.local_spills);
        self.redundant_fetches = self.redundant_fetches.wrapping_add(o.redundant_fetches);
        self.dsp_adjusts = self.dsp_adjusts.wrapping_add(o.dsp_adjusts);
        self.calls = self.calls.wrapping_add(o.calls);
        self.settles = self.settles.wrapping_add(o.settles);
        self.peak_gp = if self.peak_gp >= o.peak_gp {
            self.peak_gp
        } else {
            o.peak_gp
        };
        self.peak_fp = if self.peak_fp >= o.peak_fp {
            self.peak_fp
        } else {
            o.peak_fp
        };
    }

    /// Total reduce-pass rewrites (a proxy for token-level effectiveness).
    pub fn rewrites(&self) -> (r: u32)
        requires
            rewrites_of(*self) <= u32::MAX,
        ensures
            r == rewrites_of(*self),
    {
        self.const_folds + self.imm_folds + self.imm_chains + self.dup_fuses + self.dce
            + self.stack_cancels + self.cmp_negates
    }
}


/// What one step of `reduce` did with the incoming token.
pub enum Rewrite {
    Kept,
    ConstFold,
    ImmFold,
    ImmChain,
    DupFuse,
    Dce,
    Cancel,
    Negate,
}

/// The constant that two chained same-op immediates fold into:
/// `(x op k1) op k = x op (k1 ∘ k)`; magnitudes add for `-`.
pub open spec fn chain_const(op: Bin, k1: i64, k: i64) -> i64 {
    match op {
        Bin::Sub => k1.wrapping_add(k),
        _ => bin_eval(op, k1, k),
    }
}

/// A reduce step on an incoming `Bin(op)` given the output so far.
pub open spec fn reduce_bin(out: Seq<Tok>, op: Bin) -> (Seq<Tok>, Rewrite) {
    let n = out.len();
    if n >= 2 && out[n - 2] is Lit && out[n - 1] is Lit {
        (
            out.take(n - 2).push(Tok::Lit(bin_eval(op, out[n - 2]->Lit_0, out[n - 1]->Lit_0))),
            Rewrite::ConstFold,
        )
    } else if n >= 1 && out[n - 1] is Lit {
        let k = out[n - 1]->Lit_0;
        let rest = out.take(n - 1);
        if n >= 2 && out[n - 2] is ImmBin && out[n - 2]->ImmBin_0 == op {
            (
                rest.take(n - 2).push(Tok::ImmBin(op, chain_const(op, out[n - 2]->ImmBin_1, k))),
                Rewrite::ImmChain,
            )
        } else {
            (rest.push(Tok::ImmBin(op, k)), Rewrite::ImmFold)
        }
    } else if n >= 1 && out[n - 1] == Tok::Stk(Stk::Dup) {
        (out.take(n - 1).push(Tok::DupBin(op)), Rewrite::DupFuse)
    } else {
        (out.push(Tok::Bin(op)), Rewrite::Kept)
    }
}

/// `true` when stack word `s` right after `prev` is the identity permutation.
pub open spec fn cancels(prev: Tok, s: Stk) -> bool {
    ||| prev == Tok::Stk(Stk::Swap) && s == Stk::Swap
    ||| prev == Tok::Stk(Stk::Rot) && s == Stk::MinusRot
    ||| prev == Tok::Stk(Stk::MinusRot) && s == Stk::Rot
}

/// One step of `reduce`: the output after token `t` arrives, and which rewrite fired.
pub open spec fn reduce_step(out: Seq<Tok>, t: Tok) -> (Seq<Tok>, Rewrite) {
    let n = out.len();
    match t {
        Tok::Bin(op) => reduce_bin(out, op),
        Tok::Stk(Stk::Drop) => if n >= 1 && (out[n - 1] is Lit || out[n - 1] == Tok::Stk(
            Stk::Dup,
        )) {
            (out.take(n - 1), Rewrite::Dce)
        } else {
            (out.push(t), Rewrite::Kept)
        },
        Tok::Stk(s) => if n >= 1 && cancels(out[n - 1], s) {
            (out.take(n - 1), Rewrite::Cancel)
        } else {
            (out.push(t), Rewrite::Kept)
        },
        Tok::Cmp(Cmp::ZEq) => if n >= 1 && out[n - 1] is Cmp && cmp_negate(out[n - 1]->Cmp_0) is Some {
            (out.take(n - 1).push(Tok::Cmp(cmp_negate(out[n - 1]->Cmp_0)->Some_0)), Rewrite::Negate)
        } else {
            (out.push(t), Rewrite::Kept)
        },
        _ => (out.push(t), Rewrite::Kept),
    }
}

/// The reduced form of a token run: a single forward pass with lookback on the output.
pub open spec fn reduced(toks: Seq<Tok>) -> Seq<Tok>
    decreases toks.len(),
{
    if toks.len() == 0 {
        Seq::empty()
    } else {
        reduce_step(reduced(toks.drop_last()), toks.last()).0
    }
}

/// How many steps of reducing `toks` performed rewrite `k`.
pub open spec fn tally(toks: Seq<Tok>, k: Rewrite) -> nat
    decreases toks.len(),
{
    if toks.len() == 0 {
        0
    } else {
        tally(toks.drop_last(), k) + if reduce_step(reduced(toks.drop_last()), toks.last()).1 == k {
            1nat
        } else {
            0nat
        }
    }
}

/// Counter `a` bumped `b` times, wrapping as the counters do.
pub open spec fn bump_u32(a: u32, b: nat) -> u32
    decreases b,
{
    if b == 0 {
        a
    } else {
        bump_u32(a, (b - 1) as nat).wrapping_add(1)
    }
}

/// `n` truncated to 32 bits, as `as u32` does.
pub open spec fn low32(n: nat) -> u32 {
    n as u32
}

/// `m` with the rewrite counters of reducing `toks` added.
pub open spec fn with_rewrites(m: Metrics, toks: Seq<Tok>) -> Metrics {
    Metrics {
        const_folds: bump_u32(m.const_folds, tally(toks, Rewrite::ConstFold)),
        imm_folds: bump_u32(m.imm_folds, tally(toks, Rewrite::ImmFold)),
        imm_chains: bump_u32(m.imm_chains, tally(toks, Rewrite::ImmChain)),
        dup_fuses: bump_u32(m.dup_fuses, tally(toks, Rewrite::DupFuse)),
        dce: bump_u32(m.dce, tally(toks, Rewrite::Dce)),
        stack_cancels: bump_u32(m.stack_cancels, tally(toks, Rewrite::Cancel)),
        cmp_negates: bump_u32(m.cmp_negates, tally(toks, Rewrite::Negate)),
        ..m
    }
}

/// The metrics after `reduce(toks, m)`: tokens in and out, and every rewrite, counted.
pub open spec fn reduce_metrics(m: Metrics, toks: Seq<Tok>) -> Metrics {
    let r = with_rewrites(m, toks);
    Metrics {
        toks_in: m.toks_in.wrapping_add(low32(toks.len())),
        toks_out: m.toks_out.wrapping_add(low32(reduced(toks).len())),
        ..r
    }
}

fn len_u32(n: usize) -> (r: u32)
    ensures
        r == low32(n as nat),
{
    n as u32
}


/// `m` with the counter of rewrite `k` bumped once (`Kept` counts nothing).
pub open spec fn count_one(m: Metrics, k: Rewrite) -> Metrics {
    match k {
        Rewrite::Kept => m,
        Rewrite::ConstFold => Metrics { const_folds: add_u32(m.const_folds, 1), ..m },
        Rewrite::ImmFold => Metrics { imm_folds: add_u32(m.imm_folds, 1), ..m },
        Rewrite::ImmChain => Metrics { imm_chains: add_u32(m.imm_chains, 1), ..m },
        Rewrite::DupFuse => Metrics { dup_fuses: add_u32(m.dup_fuses, 1), ..m },
        Rewrite::Dce => Metrics { dce: add_u32(m.dce, 1), ..m },
        Rewrite::Cancel => Metrics { stack_cancels: add_u32(m.stack_cancels, 1), ..m },
        Rewrite::Negate => Metrics { cmp_negates: add_u32(m.cmp_negates, 1), ..m },
    }
}

/// `m` after the tokens-in counter took the run's length.
pub open spec fn after_intake(m: Metrics, toks: Seq<Tok>) -> Metrics {
    Metrics { toks_in: m.toks_in.wrapping_add(low32(toks.len())), ..m }
}

proof fn lemma_rewrites_step(m: Metrics, toks: Seq<Tok>, i: int)
    requires
        0 <= i < toks.len(),
    ensures
        with_rewrites(m, toks.take(i + 1)) == count_one(
            with_rewrites(m, toks.take(i)),
            reduce_step(reduced(toks.take(i)), toks[i]).1,
        ),
{
    let pre = toks.take(i);
    let nxt = toks.take(i + 1);
    assert(nxt.drop_last() =~= pre);
    assert(nxt.last() == toks[i]);
}

/// One forward step of `reduce`: token `t` arrives at the output `out`.
fn reduce_one(out: &mut Vec<Tok>, t: Tok, m: &mut Metrics)
    ensures
        final(out)@ == reduce_step(old(out)@, t).0,
        *final(m) == count_one(*old(m), reduce_step(old(out)@, t).1),
{
    match t {
        Tok::Bin(op) => {
            let n = out.len();
            // const-fold: ... Lit a, Lit b, Bin -> Lit (a op b)
            if n >= 2 {
                if let Tok::Lit(a) = out[n - 2] {
                    if let Tok::Lit(b) = out[n - 1] {
                        out.pop();
                        out.pop();
                        out.push(Tok::Lit(op.eval(a, b)));
                        m.const_folds = m.const_folds.wrapping_add(1);
                        return ;
                    }
                }
            }
            // immediate-fold: ... Lit k, Bin -> ImmBin(op, k)
            if n >= 1 {
                if let Tok::Lit(k) = out[n - 1] {
                    out.pop();
                    // immediate-immediate chaining: a preceding same-op immediate
                    // absorbs this one. `(x op k1) op k2 = x op (k1∘k2)`; for + and
                    // - the magnitudes add (x-k1-k2 = x-(k1+k2)), the rest use op.
                    if n >= 2 {
                        if let Tok::ImmBin(prev, k1) = out[n - 2] {
                            if prev == op {
                                let combined = match op {
                                    Bin::Sub => k1.wrapping_add(k),
                                    _ => op.eval(k1, k),
                                };
                                out.pop();
                                out.push(Tok::ImmBin(op, combined));
                                m.imm_chains = m.imm_chains.wrapping_add(1);
                                return ;
                            }
                        }
                    }
                    out.push(Tok::ImmBin(op, k));
                    m.imm_folds = m.imm_folds.wrapping_add(1);
                    return ;
                }
            }
            // dup-fuse: ... Dup, Bin -> DupBin(op)
            if n >= 1 && out[n - 1] == Tok::Stk(Stk::Dup) {
                out.pop();
                out.push(Tok::DupBin(op));
                m.dup_fuses = m.dup_fuses.wrapping_add(1);
                return ;
            }
            out.push(t);
        },
        Tok::Stk(Stk::Drop) => {
            // DCE: a literal or a dup immediately dropped is dead
            let n = out.len();
            if n >= 1 && (matches!(out[n - 1], Tok::Lit(_)) || out[n - 1] == Tok::Stk(Stk::Dup)) {
                out.pop();
                m.dce = m.dce.wrapping_add(1);
            } else {
                out.push(t);
            }
        },
        // stack-motion cancellation: inverse permutations annihilate
        Tok::Stk(s) => {
            let n = out.len();
            if n >= 1 && ((out[n - 1] == Tok::Stk(Stk::Swap) && s == Stk::Swap) || (out[n - 1]
                == Tok::Stk(Stk::Rot) && s == Stk::MinusRot) || (out[n - 1] == Tok::Stk(
                Stk::MinusRot,
            ) && s == Stk::Rot)) {
                out.pop();
                m.stack_cancels = m.stack_cancels.wrapping_add(1);
            } else {
                out.push(t);
            }
        },
        // logical negation of a comparison: `<cmp> 0=` → the inverse compare.
        Tok::Cmp(Cmp::ZEq) => {
            let n = out.len();
            if n >= 1 {
                if let Tok::Cmp(c) = out[n - 1] {
                    if let Some(inv) = c.negate() {
                        out.pop();
                        out.push(Tok::Cmp(inv));
                        m.cmp_negates = m.cmp_negates.wrapping_add(1);
                        return ;
                    }
                }
            }
            out.push(t);
        },
        _ => {
            out.push(t);
        },
    }
}

/// Reduce a token run: const-fold `Lit Lit Bin`, immediate-fold `Lit Bin`,
/// dup-fuse `Dup Bin`, and DCE `Lit Drop` / `Dup Drop`. A single forward pass
/// with lookback on the output is a fixpoint for these linear stack rewrites.
/// Accumulates token-level metrics into `m`.
pub fn reduce(toks: &[Tok], m: &mut Metrics) -> (out: Vec<Tok>)
    ensures
        out@ == reduced(toks@),
        *final(m) == reduce_metrics(*old(m), toks@),
{
    let ghost m0 = *m;
    m.toks_in = m.toks_in.wrapping_add(len_u32(toks.len()));
    let mut out: Vec<Tok> = Vec::with_capacity(toks.len());
    let mut i: usize = 0;
    let ghost mut gi: int = 0;
    while i < toks.len()
        invariant
            i <= toks.len(),
            gi == i,
            m0 == *old(m),
            out@ == reduced(toks@.take(gi)),
            *m == with_rewrites(after_intake(m0, toks@), toks@.take(gi)),
        decreases toks.len() - i,
    {
        let t = toks[i];
        proof {
            lemma_rewrites_step(after_intake(m0, toks@), toks@, gi);
            assert(toks@.take(gi + 1).drop_last() =~= toks@.take(gi));
        }
        reduce_one(&mut out, t, m);
        i = i + 1;
        proof {
            gi = gi + 1;
        }
    }
    proof {
        assert(toks@.take(gi) =~= toks@);
    }
    m.toks_out = m.toks_out.wrapping_add(len_u32(out.len()));
    out
}


/// Every token of `out` is one that a reduce step would keep as it stands.
pub open spec fn settled(out: Seq<Tok>) -> bool {
    forall|j: int|
        0 <= j < out.len() ==> #[trigger] reduce_step(out.take(j), out[j]).0 == out.take(j + 1)
}

proof fn lemma_settled_prefix(out: Seq<Tok>, k: int)
    requires
        settled(out),
        0 <= k <= out.len(),
    ensures
        settled(out.take(k)),
{
    assert forall|j: int| 0 <= j < out.take(k).len() implies #[trigger] reduce_step(
        out.take(k).take(j),
        out.take(k)[j],
    ).0 == out.take(k).take(j + 1) by {
        assert(out.take(k).take(j) =~= out.take(j));
        assert(out.take(k).take(j + 1) =~= out.take(j + 1));
        assert(reduce_step(out.take(j), out[j]).0 == out.take(j + 1));
    }
}

proof fn lemma_settled_push(out: Seq<Tok>, t: Tok)
    requires
        settled(out),
        reduce_step(out, t).0 == out.push(t),
    ensures
        settled(out.push(t)),
{
    let o2 = out.push(t);
    assert forall|j: int| 0 <= j < o2.len() implies #[trigger] reduce_step(o2.take(j), o2[j]).0
        == o2.take(j + 1) by {
        if j < out.len() {
            assert(o2.take(j) =~= out.take(j));
            assert(o2.take(j + 1) =~= out.take(j + 1));
            assert(reduce_step(out.take(j), out[j]).0 == out.take(j + 1));
        } else {
            assert(o2.take(j) =~= out);
            assert(o2.take(j + 1) =~= o2);
        }
    }
}

proof fn lemma_step_settles(out: Seq<Tok>, t: Tok)
    requires
        settled(out),
    ensures
        settled(reduce_step(out, t).0),
{
    let n = out.len();
    let step = reduce_step(out, t);
    match step.1 {
        Rewrite::Kept => {
            lemma_settled_push(out, t);
        },
        Rewrite::Dce | Rewrite::Cancel => {
            lemma_settled_prefix(out, n - 1);
        },
        Rewrite::ConstFold | Rewrite::ImmChain => {
            lemma_settled_prefix(out, n - 2);
            assert(step.0 =~= out.take(n - 2).push(step.0.last()));
            lemma_settled_push(out.take(n - 2), step.0.last());
        },
        Rewrite::ImmFold | Rewrite::DupFuse | Rewrite::Negate => {
            lemma_settled_prefix(out, n - 1);
            assert(step.0 =~= out.take(n - 1).push(step.0.last()));
            lemma_settled_push(out.take(n - 1), step.0.last());
        },
    }
}

proof fn lemma_reduced_settled(toks: Seq<Tok>)
    ensures
        settled(reduced(toks)),
    decreases toks.len(),
{
    if toks.len() > 0 {
        lemma_reduced_settled(toks.drop_last());
        lemma_step_settles(reduced(toks.drop_last()), toks.last());
    }
}

proof fn lemma_settled_fixed(out: Seq<Tok>)
    requires
        settled(out),
    ensures
        reduced(out) == out,
    decreases out.len(),
{
    if out.len() > 0 {
        let n = out.len() as int;
        lemma_settled_prefix(out, n - 1);
        assert(out.drop_last() =~= out.take(n - 1));
        lemma_settled_fixed(out.drop_last());
        assert(reduce_step(out.take(n - 1), out[n - 1]).0 == out.take(n));
        assert(out.take(n) =~= out);
    }
}

/// Reducing is a fixpoint: a reduced run reduces to itself.
pub proof fn lemma_reduce_idempotent(toks: Seq<Tok>)
    ensures
        reduced(reduced(toks)) == reduced(toks),
{
    lemma_reduced_settled(toks);
    lemma_settled_fixed(reduced(toks));
}

/// The tokens reducing removed, each rewrite weighted by how many tokens it saves.
pub open spec fn tokens_saved(toks: Seq<Tok>) -> nat {
    2 * tally(toks, Rewrite::ConstFold) + tally(toks, Rewrite::ImmFold) + 2 * tally(
        toks,
        Rewrite::ImmChain,
    ) + tally(toks, Rewrite::DupFuse) + 2 * tally(toks, Rewrite::Dce) + 2 * tally(
        toks,
        Rewrite::Cancel,
    ) + tally(toks, Rewrite::Negate)
}

/// The rewrite counters account for every token: what went in equals what came
/// out plus what each rewrite saved; so a reduced run is never longer.
pub proof fn lemma_reduce_accounting(toks: Seq<Tok>)
    ensures
        toks.len() == reduced(toks).len() + tokens_saved(toks),
        reduced(toks).len() <= toks.len(),
    decreases toks.len(),
{
    if toks.len() > 0 {
        lemma_reduce_accounting(toks.drop_last());
    }
}

} // verus!
