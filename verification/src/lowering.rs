//! The deferred-assembly lowerer: a straight-line token run to AArch64 words.
//!
//! `vs` is the virtual stack (its last entry = TOS); a value lives as a `Const`
//! or in a pool register, and each register is referenced by at most one `vs`
//! entry (duplications copy). Below `vs` is the entry stack in memory,
//! `consumed` cells of which have been pulled in. Code is emitted only when a
//! value is consumed (arithmetic / memory / call) or forced to canonical memory
//! at a window boundary (`settle`). Stack words are pure `vs` reshuffles.
//!
//! `LowModel` is the lowerer's state as a value and the `m_*` functions are its
//! steps; each step is `None` exactly where the lowerer would panic (a pool
//! exhausted, an offset that overflows).
use vstd::prelude::*;
use crate::aenc::{
    add_imm, add_imm_w, add_reg, add_reg_w, and_reg, and_reg_w, call_seq, cmp_imm, cmp_imm_w,
    cmp_reg, cmp_reg_w, csel, csel_w, csetm, csetm_w, emit_call, eor_reg, eor_reg_w, fabs,
    fabs_w, fadd, fadd_w, fdiv, fdiv_w, fldr_off, fldr_off_w, fmov_dd, fmov_dd_w, fmov_dx,
    fmov_dx_w, fmul, fmul_w, fneg, fneg_w, fsqrt, fsqrt_w, fstr_off, fstr_off_w, fsub, fsub_w,
    ldr0, ldr0_w, ldr_off, ldr_off_w, ldr_post, ldr_post_w, ldrb0, ldrb0_w, load_imm64,
    load_imm64_seq, mov_reg, mov_reg_w, mul_w, orr_reg, orr_reg_w, str_off, str_off_w, strb0,
    strb0_w, sub_imm, sub_imm_w, sub_reg, sub_reg_w, DSP, EQ, GT, LT, NE, TOS,
};
use crate::opt::{
    bin_eval, cmp_cond, cmp_eval, cmp_eval_zero, cmp_swapped_cond, is_zero_cmp, sel_cond,
    sel_eval, Bin, Cmp, FBin, FUn, Mem, Metrics, Sel, Stk, Tok,
};

verus! {

pub const LP: u32 = 21;  // locals-frame pointer
pub const UP: u32 = 20;  // user-area base
pub const USER_SELF: u32 = 0x1830;  // OOP receiver slot in the user area
pub const FTOS: u32 = 8;  // d8 — canonical float top of stack at window boundaries
pub const FSP: u32 = 22;
pub const POOL_LO: u32 = 9;  // register window pool: x9..x15 (and d9..d15)
pub const POOL_HI: u32 = 15;

/// A virtual-stack value location: a known constant (not yet in a register) or
/// a register. Constants are deferred until consumed; permutations only move
/// `Loc`s around `vs` with no emitted code.
#[derive(Clone, Copy, PartialEq, Eq, Debug, Structural)]
pub enum Loc {
    Const(i64),
    Reg(u32),
}

/// A local-register cache entry: local index, the register holding its current
/// value, and whether the frame slot is stale (an unspilled store).
pub type Cached = (u32, u32, bool);

/// The lowerer's state.
pub struct LowModel {
    pub code: Seq<u32>,
    pub vs: Seq<Loc>,
    pub used: Seq<bool>,
    pub consumed: int,
    pub fvs: Seq<u32>,
    pub fused: Seq<bool>,
    pub fconsumed: int,
    pub m: Metrics,
    pub fetched: Seq<i64>,
    pub lcache: Seq<Cached>,
    pub hot: Set<u32>,
}

// ── register pools ──────────────────────────────────────────────────────────
/// Free pool registers among `lo..=15`.
pub open spec fn free_from(used: Seq<bool>, lo: int) -> nat
    decreases 16 - lo,
{
    if lo >= 16 {
        0
    } else {
        free_from(used, lo + 1) + if used[lo] {
            0nat
        } else {
            1nat
        }
    }
}

/// The lowest free pool register at or above `lo` (16 when none is).
pub open spec fn first_free_from(used: Seq<bool>, lo: int) -> int
    decreases 16 - lo,
{
    if lo >= 16 {
        16
    } else if !used[lo] {
        lo
    } else {
        first_free_from(used, lo + 1)
    }
}

pub open spec fn nfree(used: Seq<bool>) -> nat {
    free_from(used, 9)
}

pub open spec fn bump(x: u32) -> u32 {
    x.wrapping_add(1)
}

pub open spec fn max_u32(a: u32, b: u32) -> u32 {
    if a >= b {
        a
    } else {
        b
    }
}

pub open spec fn live_count(used: Seq<bool>) -> u32 {
    (7 - nfree(used)) as u32
}

/// Take the lowest free pool register (counted, and the peak updated).
pub open spec fn m_alloc(s: LowModel) -> Option<(LowModel, u32)> {
    if nfree(s.used) == 0 {
        None
    } else {
        let r = first_free_from(s.used, 9);
        let used = s.used.update(r, true);
        Some(
            (
                LowModel {
                    used,
                    m: Metrics {
                        gp_allocs: bump(s.m.gp_allocs),
                        peak_gp: max_u32(s.m.peak_gp, live_count(used)),
                        ..s.m
                    },
                    ..s
                },
                r as u32,
            ),
        )
    }
}

/// `flags` with register `r`'s flag set to `v` (registers past the table have none).
pub open spec fn mark(flags: Seq<bool>, r: u32, v: bool) -> Seq<bool> {
    if r < flags.len() {
        flags.update(r as int, v)
    } else {
        flags
    }
}

pub open spec fn m_freer(s: LowModel, r: u32) -> LowModel {
    LowModel { used: mark(s.used, r, false), ..s }
}

pub open spec fn m_free_loc(s: LowModel, l: Loc) -> LowModel {
    match l {
        Loc::Reg(r) => m_freer(s, r),
        Loc::Const(_) => s,
    }
}

pub open spec fn m_emit(s: LowModel, w: u32) -> LowModel {
    LowModel { code: s.code.push(w), ..s }
}

pub open spec fn m_emit_seq(s: LowModel, ws: Seq<u32>) -> LowModel {
    LowModel { code: s.code + ws, ..s }
}

pub open spec fn m_push(s: LowModel, l: Loc) -> LowModel {
    LowModel { vs: s.vs.push(l), ..s }
}

/// `vs` without its top entry.
pub open spec fn m_pop(s: LowModel) -> LowModel {
    LowModel { vs: s.vs.drop_last(), ..s }
}

/// Record an `@`/`c@` of address `a`; flag a redundant re-read of a constant address.
pub open spec fn m_note_fetch(s: LowModel, a: Loc) -> LowModel {
    match a {
        Loc::Const(addr) => if s.fetched.contains(addr) {
            LowModel { m: Metrics { redundant_fetches: bump(s.m.redundant_fetches), ..s.m }, ..s }
        } else {
            LowModel { fetched: s.fetched.push(addr), ..s }
        },
        Loc::Reg(_) => s,
    }
}

// ── the entry window ────────────────────────────────────────────────────────
/// Pull entry-memory cells below the window until it holds `n` cells.
pub open spec fn m_ensure(s: LowModel, n: int) -> Option<LowModel>
    decreases n - s.vs.len(),
{
    if s.vs.len() >= n {
        Some(s)
    } else {
        match m_alloc(s) {
            None => None,
            Some((s1, r)) => if s1.consumed * 8 > i64::MAX {
                None
            } else {
                let s2 = LowModel {
                    code: s1.code.push(ldr_off_w(r, DSP, (s1.consumed * 8) as u32)),
                    m: Metrics { stack_loads: bump(s1.m.stack_loads), ..s1.m },
                    consumed: s1.consumed + 1,
                    vs: s1.vs.insert(0, Loc::Reg(r)),
                    ..s1
                };
                m_ensure(s2, n)
            },
        }
    }
}

/// A value in a register (a `Const` is loaded into a fresh register).
pub open spec fn m_to_reg(s: LowModel, l: Loc) -> Option<(LowModel, u32)> {
    match l {
        Loc::Reg(r) => Some((s, r)),
        Loc::Const(n) => match m_alloc(s) {
            None => None,
            Some((s1, r)) => Some(
                (
                    LowModel {
                        code: s1.code + load_imm64_seq(r, n as u64),
                        m: Metrics { const_mat: bump(s1.m.const_mat), ..s1.m },
                        ..s1
                    },
                    r,
                ),
            ),
        },
    }
}

/// A copy of a value (constants are free; registers cost one `mov`).
pub open spec fn m_copy_of(s: LowModel, l: Loc) -> Option<(LowModel, Loc)> {
    match l {
        Loc::Const(n) => Some((s, Loc::Const(n))),
        Loc::Reg(r) => match m_alloc(s) {
            None => None,
            Some((s1, r2)) => Some(
                (
                    LowModel {
                        code: s1.code.push(mov_reg_w(r2, r)),
                        m: Metrics { reg_copies: bump(s1.m.reg_copies), ..s1.m },
                        ..s1
                    },
                    Loc::Reg(r2),
                ),
            ),
        },
    }
}


/// Ensure `n` free pool registers, settling the window to memory if not.
pub open spec fn m_reserve(s: LowModel, n: int) -> Option<LowModel> {
    if nfree(s.used) < n {
        m_settle_data(LowModel { m: Metrics { spills: bump(s.m.spills), ..s.m }, ..s })
    } else {
        Some(s)
    }
}

// ── window boundaries ───────────────────────────────────────────────────────
/// A cache entry leaving the cache: a dirty value is stored to its frame slot.
pub open spec fn m_spill_one(s: LowModel, e: Cached) -> Option<LowModel> {
    if e.2 && e.0 * 8 > u32::MAX {
        None
    } else {
        let s1 = if e.2 {
            LowModel {
                code: s.code.push(str_off_w(e.1, LP, (e.0 * 8) as u32)),
                m: Metrics { local_spills: bump(s.m.local_spills), ..s.m },
                ..s
            }
        } else {
            s
        };
        Some(m_freer(s1, e.1))
    }
}

pub open spec fn m_spill_all(s: LowModel, c: Seq<Cached>) -> Option<LowModel>
    decreases c.len(),
{
    if c.len() == 0 {
        Some(s)
    } else {
        match m_spill_all(s, c.drop_last()) {
            Some(s1) => m_spill_one(s1, c.last()),
            None => None,
        }
    }
}

/// At a barrier, flush every dirty local to its frame slot and free all cache registers.
pub open spec fn m_spill_locals(s: LowModel) -> Option<LowModel> {
    if s.lcache.len() == 0 {
        Some(s)
    } else {
        match m_spill_all(s, s.lcache) {
            Some(s1) => Some(LowModel { lcache: Seq::empty(), ..s1 }),
            None => None,
        }
    }
}

/// Move a stack pointer by `delta` cells (`add`/`sub` by `8 * |delta|`), or `None`
/// where that offset overflows.
pub open spec fn adjust_words(base: u32, delta: int) -> Option<Seq<u32>> {
    if delta > 0 {
        if delta * 8 > i64::MAX {
            None
        } else {
            Some(seq![add_imm_w(base, base, (delta * 8) as u32)])
        }
    } else if delta < 0 {
        if -delta * 8 > i64::MAX {
            None
        } else {
            Some(seq![sub_imm_w(base, base, (-delta * 8) as u32)])
        }
    } else {
        Some(Seq::empty())
    }
}

/// The byte offset of window entry `i` (of `l`) below the new TOS, or `None` on overflow.
pub open spec fn slot_off(l: int, i: int) -> Option<u32> {
    let c = (l - 2 - i) as u32;
    if c * 8 > u32::MAX {
        None
    } else {
        Some((c * 8) as u32)
    }
}

/// Settle pass 1: store the deep register entries `vs[0..k)`, freeing their registers.
pub open spec fn m_pass1(s: LowModel, vs: Seq<Loc>, k: int) -> Option<LowModel>
    decreases k,
{
    if k <= 0 {
        Some(s)
    } else {
        match m_pass1(s, vs, k - 1) {
            None => None,
            Some(s1) => match vs[k - 1] {
                Loc::Reg(r) => match slot_off(vs.len() as int, k - 1) {
                    None => None,
                    Some(off) => Some(
                        m_freer(
                            LowModel {
                                code: s1.code.push(str_off_w(r, DSP, off)),
                                m: Metrics { stack_stores: bump(s1.m.stack_stores), ..s1.m },
                                ..s1
                            },
                            r,
                        ),
                    ),
                },
                Loc::Const(_) => Some(s1),
            },
        }
    }
}

/// Settle pass 2: store the deep constant entries `vs[0..k)` through a scratch register.
pub open spec fn m_pass2(s: LowModel, vs: Seq<Loc>, k: int) -> Option<LowModel>
    decreases k,
{
    if k <= 0 {
        Some(s)
    } else {
        match m_pass2(s, vs, k - 1) {
            None => None,
            Some(s1) => match vs[k - 1] {
                Loc::Const(n) => match slot_off(vs.len() as int, k - 1) {
                    None => None,
                    Some(off) => match m_alloc(s1) {
                        None => None,
                        Some((s2, t)) => Some(
                            m_freer(
                                m_emit(m_emit_seq(s2, load_imm64_seq(t, n as u64)), str_off_w(t, DSP, off)),
                                t,
                            ),
                        ),
                    },
                },
                Loc::Reg(_) => Some(s1),
            },
        }
    }
}

/// The new TOS goes to x0.
pub open spec fn m_tos_to_x0(s: LowModel, top: Loc) -> LowModel {
    match top {
        Loc::Reg(r) => if r == TOS {
            s
        } else {
            m_freer(m_emit(s, mov_reg_w(TOS, r)), r)
        },
        Loc::Const(n) => m_emit_seq(s, load_imm64_seq(TOS, n as u64)),
    }
}

/// The canonical data window: TOS in x0, nothing pulled, nothing else live.
pub open spec fn m_canonical_data(s: LowModel) -> LowModel {
    LowModel {
        vs: seq![Loc::Reg(TOS)],
        used: Seq::new(32, |i: int| i == 0),
        consumed: 0,
        fetched: Seq::empty(),
        ..s
    }
}

/// Write the data virtual stack back to the canonical form (TOS in x0, the rest
/// in memory from DSP) and reset.
pub open spec fn m_settle_data(s: LowModel) -> Option<LowModel> {
    match m_spill_locals(s) {
        None => None,
        Some(s0) => match (if s0.vs.len() == 0 {
            m_ensure(s0, 1)
        } else {
            Some(s0)
        }) {
            None => None,
            Some(s1) => {
                let l = s1.vs.len() as int;
                let delta = s1.consumed - (l - 1);
                match adjust_words(DSP, delta) {
                    None => None,
                    Some(adj) => {
                        let s2 = if delta != 0 {
                            LowModel {
                                code: s1.code + adj,
                                m: Metrics { dsp_adjusts: bump(s1.m.dsp_adjusts), ..s1.m },
                                ..s1
                            }
                        } else {
                            s1
                        };
                        match m_pass1(s2, s1.vs, l - 1) {
                            None => None,
                            Some(s3) => match m_pass2(m_tos_to_x0(s3, s1.vs[l - 1]), s1.vs, l - 1) {
                                None => None,
                                Some(s4) => Some(m_canonical_data(s4)),
                            },
                        }
                    },
                }
            },
        },
    }
}

// ── float window ────────────────────────────────────────────────────────────
pub open spec fn ffree(fused: Seq<bool>) -> nat {
    free_from(fused, 9)
}

/// Take the lowest free FP pool register, with no settle.
pub open spec fn m_falloc_plain(s: LowModel) -> Option<(LowModel, u32)> {
    if ffree(s.fused) == 0 {
        None
    } else {
        let r = first_free_from(s.fused, 9);
        let fused = s.fused.update(r, true);
        Some(
            (
                LowModel {
                    fused,
                    m: Metrics { peak_fp: max_u32(s.m.peak_fp, live_count(fused)), ..s.m },
                    ..s
                },
                r as u32,
            ),
        )
    }
}

/// Pull float-stack cells until the FP window holds `n`.
pub open spec fn m_fensure(s: LowModel, n: int) -> Option<LowModel>
    decreases n - s.fvs.len(),
{
    if s.fvs.len() >= n {
        Some(s)
    } else {
        match m_falloc_plain(s) {
            None => None,
            Some((s1, r)) => if s1.fconsumed * 8 > i64::MAX {
                None
            } else {
                m_fensure(
                    LowModel {
                        code: s1.code.push(fldr_off_w(r, FSP, (s1.fconsumed * 8) as u32)),
                        fconsumed: s1.fconsumed + 1,
                        fvs: s1.fvs.insert(0, r),
                        ..s1
                    },
                    n,
                )
            },
        }
    }
}

/// FP settle: store `fvs[0..k)`, freeing their registers.
pub open spec fn m_fpass(s: LowModel, fvs: Seq<u32>, k: int) -> Option<LowModel>
    decreases k,
{
    if k <= 0 {
        Some(s)
    } else {
        match m_fpass(s, fvs, k - 1) {
            None => None,
            Some(s1) => match slot_off(fvs.len() as int, k - 1) {
                None => None,
                Some(off) => Some(
                    LowModel {
                        code: s1.code.push(fstr_off_w(fvs[k - 1], FSP, off)),
                        fused: mark(s1.fused, fvs[k - 1], false),
                        ..s1
                    },
                ),
            },
        }
    }
}

/// Write the FP virtual stack back to canonical form (FTOS in d8, the rest in
/// memory from FSP) and reset.
pub open spec fn m_fsettle(s: LowModel) -> Option<LowModel> {
    match (if s.fvs.len() == 0 {
        m_fensure(s, 1)
    } else {
        Some(s)
    }) {
        None => None,
        Some(s1) => {
            let l = s1.fvs.len() as int;
            let delta = s1.fconsumed - (l - 1);
            match adjust_words(FSP, delta) {
                None => None,
                Some(adj) => match m_fpass(m_emit_seq(s1, adj), s1.fvs, l - 1) {
                    None => None,
                    Some(s3) => {
                        let top = s1.fvs[l - 1];
                        let s4 = if top != FTOS {
                            LowModel {
                                code: s3.code.push(fmov_dd_w(FTOS, top)),
                                fused: mark(s3.fused, top, false),
                                ..s3
                            }
                        } else {
                            s3
                        };
                        Some(
                            LowModel {
                                fvs: seq![FTOS],
                                fused: Seq::new(32, |i: int| i == 8),
                                fconsumed: 0,
                                ..s4
                            },
                        )
                    },
                },
            }
        },
    }
}

/// Take a free FP pool register, settling the FP window first when none is free.
pub open spec fn m_falloc(s: LowModel) -> Option<(LowModel, u32)> {
    if ffree(s.fused) == 0 {
        match m_fsettle(s) {
            None => None,
            Some(s1) => m_falloc_plain(s1),
        }
    } else {
        m_falloc_plain(s)
    }
}

/// A free GP register for materializing a float constant (settling the data
/// window if the GP pool is full).
pub open spec fn m_gp_temp(s: LowModel) -> Option<(LowModel, u32)> {
    match (if nfree(s.used) == 0 {
        m_settle_data(s)
    } else {
        Some(s)
    }) {
        None => None,
        Some(s1) => if nfree(s1.used) == 0 {
            None
        } else {
            let r = first_free_from(s1.used, 9);
            Some((LowModel { used: s1.used.update(r, true), ..s1 }, r as u32))
        },
    }
}

/// Settle both the data and FP windows to canonical form.
pub open spec fn m_settle(s: LowModel) -> Option<LowModel> {
    match m_settle_data(LowModel { m: Metrics { settles: bump(s.m.settles), ..s.m }, ..s }) {
        None => None,
        Some(s1) => m_fsettle(s1),
    }
}


// ── stack words ─────────────────────────────────────────────────────────────
/// `N pick` — copy the item at depth N to TOS (0 = dup, 1 = over).
pub open spec fn m_pick(s: LowModel, n: int) -> Option<LowModel> {
    if n + 2 > usize::MAX {
        None
    } else {
        match m_reserve(s, n + 2) {
            None => None,
            Some(s1) => match m_ensure(s1, n + 1) {
                None => None,
                Some(s2) => match m_copy_of(s2, s2.vs[s2.vs.len() - 1 - n]) {
                    None => None,
                    Some((s3, c)) => Some(m_push(s3, c)),
                },
            },
        }
    }
}

/// `N roll` — move the item at depth N to TOS (1 = swap, 2 = rot).
pub open spec fn m_roll(s: LowModel, n: int) -> Option<LowModel> {
    if n == 0 {
        Some(s)
    } else if n + 1 > usize::MAX {
        None
    } else {
        match m_reserve(s, n + 1) {
            None => None,
            Some(s1) => match m_ensure(s1, n + 1) {
                None => None,
                Some(s2) => {
                    let idx = s2.vs.len() - 1 - n;
                    Some(LowModel { vs: s2.vs.remove(idx).push(s2.vs[idx]), ..s2 })
                },
            },
        }
    }
}

pub open spec fn m_stk(s: LowModel, w: Stk) -> Option<LowModel> {
    match w {
        Stk::Dup => m_pick(s, 0),
        Stk::Over => m_pick(s, 1),
        Stk::Swap => m_roll(s, 1),
        Stk::Rot => m_roll(s, 2),
        Stk::Drop => match m_ensure(s, 1) {
            None => None,
            Some(s1) => Some(m_free_loc(m_pop(s1), s1.vs.last())),
        },
        Stk::Nip => match m_ensure(s, 2) {
            None => None,
            Some(s1) => {
                let n = s1.vs.len();
                Some(m_free_loc(LowModel { vs: s1.vs.remove(n - 2), ..s1 }, s1.vs[n - 2]))
            },
        },
        Stk::MinusRot => match m_ensure(s, 3) {
            None => None,
            Some(s1) => {
                // ( a b c -- c a b )
                let n = s1.vs.len();
                Some(LowModel { vs: s1.vs.drop_last().insert(n - 3, s1.vs.last()), ..s1 })
            },
        },
        Stk::Tuck => match m_reserve(s, 3) {
            None => None,
            Some(s1) => match m_ensure(s1, 2) {
                None => None,
                Some(s2) => {
                    // ( a b -- b a b )
                    let n = s2.vs.len();
                    match m_copy_of(s2, s2.vs[n - 1]) {
                        None => None,
                        Some((s3, c)) => Some(LowModel { vs: s3.vs.insert(n - 2, c), ..s3 }),
                    }
                },
            }
        },
    }
}

// ── arithmetic ──────────────────────────────────────────────────────────────
/// Whether `op` by constant `k` has a 12-bit immediate form: `Some((is_add, imm))`.
pub open spec fn imm_form(op: Bin, k: i64) -> Option<(bool, u32)> {
    match op {
        Bin::Add => if 0 <= k <= 4095 {
            Some((true, k as u32))
        } else if -4095 <= k < 0 {
            Some((false, (-k) as u32))
        } else {
            None
        },
        Bin::Sub => if 0 <= k <= 4095 {
            Some((false, k as u32))
        } else if -4095 <= k < 0 {
            Some((true, (-k) as u32))
        } else {
            None
        },
        _ => None,
    }
}

/// `add_imm`/`sub_imm` of a single operand by constant `k` (Add/Sub only):
/// `Some((state, None))` when there is no immediate form (nothing done).
pub open spec fn m_imm_bin_to(s: LowModel, operand: Loc, op: Bin, k: i64) -> Option<
    (LowModel, Option<u32>),
> {
    match imm_form(op, k) {
        None => Some((s, None)),
        Some((add, imm)) => match m_to_reg(s, operand) {
            None => None,
            Some((s1, r)) => Some(
                (
                    m_emit(
                        s1,
                        if add {
                            add_imm_w(r, r, imm)
                        } else {
                            sub_imm_w(r, r, imm)
                        },
                    ),
                    Some(r),
                ),
            ),
        },
    }
}

/// A constant folded into an add or a subtract is applied the way the operation
/// says: whenever an immediate form is emitted for `x op k`, the word computes
/// `x + k` (for `+`) or `x - k` (for `-`), wrapping, into the operand's register.
pub proof fn lemma_imm_bin_computes(s: LowModel, operand: Loc, op: Bin, k: i64, regs: Seq<i64>)
    requires
        regs.len() == 32,
        m_imm_bin_to(s, operand, op, k) matches Some((_, Some(_))),
    ensures
        ({
            let (s2, r) = m_imm_bin_to(s, operand, op, k)->Some_0;
            let d = r->Some_0 & 0x1F;
            &&& s2.code.len() > 0
            &&& crate::aenc::alu_effect(s2.code.last(), regs) == Some((d, bin_eval(op, regs[d as int], k)))
        }),
{
    let (add, imm) = imm_form(op, k)->Some_0;
    let (s1, r) = m_to_reg(s, operand)->Some_0;
    crate::aenc::lemma_addsub_fields(r, r, 0, imm);
    assert(imm <= 4095);
    assert(imm & 0xFFF == imm) by (bit_vector)
        requires
            imm <= 4095,
    ;
    let x = regs[(r & 0x1F) as int];
    if add {
        assert(crate::aenc::alu_effect(add_imm_w(r, r, imm), regs) == Some((r & 0x1F, x.wrapping_add(imm as i64))));
    } else {
        assert(crate::aenc::alu_effect(sub_imm_w(r, r, imm), regs) == Some((r & 0x1F, x.wrapping_sub(imm as i64))));
    }
}

/// The register-register instruction for `rd = rn op rm`.
pub open spec fn bin_word(op: Bin, rd: u32, rn: u32, rm: u32) -> u32 {
    match op {
        Bin::Add => add_reg_w(rd, rn, rm),
        Bin::Sub => sub_reg_w(rd, rn, rm),
        Bin::Mul => mul_w(rd, rn, rm),
        Bin::And => and_reg_w(rd, rn, rm),
        Bin::Or => orr_reg_w(rd, rn, rm),
        Bin::Xor => eor_reg_w(rd, rn, rm),
    }
}

/// A register-register add or subtract computes `rn + rm` or `rn - rm`
/// (wrapping) into `rd`, in that operand order.
pub proof fn lemma_bin_word_computes(op: Bin, rd: u32, rn: u32, rm: u32, regs: Seq<i64>)
    requires
        regs.len() == 32,
        op == Bin::Add || op == Bin::Sub,
    ensures
        crate::aenc::alu_effect(bin_word(op, rd, rn, rm), regs) == Some(
            (rd & 0x1F, bin_eval(op, regs[(rn & 0x1F) as int], regs[(rm & 0x1F) as int])),
        ),
{
    crate::aenc::lemma_addsub_fields(rd, rn, rm, 0);
}

/// General case of a binary op: `a op b` into a register (reusing a's).
pub open spec fn m_bin_regs(s: LowModel, op: Bin, a: Loc, b: Loc) -> Option<LowModel> {
    match m_to_reg(s, a) {
        None => None,
        Some((s1, ra)) => match m_to_reg(s1, b) {
            None => None,
            Some((s2, rb)) => Some(m_push(m_freer(m_emit(s2, bin_word(op, ra, ra, rb)), rb), Loc::Reg(ra))),
        },
    }
}

pub open spec fn m_bin(s: LowModel, op: Bin) -> Option<LowModel> {
    match m_reserve(s, 4) {
        None => None,
        Some(s1) => match m_ensure(s1, 2) {
            None => None,
            Some(s2) => {
                let b = s2.vs.last();
                let a = s2.vs.drop_last().last();
                let s3 = m_pop(m_pop(s2));
                if a is Const && b is Const {
                    Some(m_push(s3, Loc::Const(bin_eval(op, a->Const_0, b->Const_0))))
                } else {
                    // immediate-fold: result = a <op> b
                    let first = if b is Const {
                        m_imm_bin_to(s3, a, op, b->Const_0)
                    } else {
                        Some((s3, None))
                    };
                    match first {
                        None => None,
                        Some((s4, Some(rd))) => Some(m_push(s4, Loc::Reg(rd))),
                        Some((s4, None)) => {
                            let second = if a is Const && op == Bin::Add {
                                m_imm_bin_to(s4, b, Bin::Add, a->Const_0)
                            } else {
                                Some((s4, None))
                            };
                            match second {
                                None => None,
                                Some((s5, Some(rd))) => Some(m_push(s5, Loc::Reg(rd))),
                                Some((s5, None)) => m_bin_regs(s5, op, a, b),
                            }
                        },
                    }
                }
            },
        },
    }
}

/// `TOS op= k` (reduced `Lit k, Bin`).
pub open spec fn m_imm_bin(s: LowModel, op: Bin, k: i64) -> Option<LowModel> {
    match m_reserve(s, 2) {
        None => None,
        Some(s1) => match m_ensure(s1, 1) {
            None => None,
            Some(s2) => {
                let a = s2.vs.last();
                let s3 = m_pop(s2);
                if a is Const {
                    Some(m_push(s3, Loc::Const(bin_eval(op, a->Const_0, k))))
                } else {
                    match m_imm_bin_to(s3, a, op, k) {
                        None => None,
                        Some((s4, Some(rd))) => Some(m_push(s4, Loc::Reg(rd))),
                        Some((s4, None)) => match m_to_reg(s4, a) {
                            None => None,
                            Some((s5, r)) => match m_alloc(s5) {
                                None => None,
                                Some((s6, t)) => Some(
                                    m_push(
                                        m_freer(
                                            m_emit(
                                                m_emit_seq(s6, load_imm64_seq(t, k as u64)),
                                                bin_word(op, r, r, t),
                                            ),
                                            t,
                                        ),
                                        Loc::Reg(r),
                                    ),
                                ),
                            },
                        },
                    }
                }
            },
        },
    }
}

/// `dup` then `op` — the value combined with itself (reduced `Dup, Bin`).
pub open spec fn m_dup_bin(s: LowModel, op: Bin) -> Option<LowModel> {
    match m_reserve(s, 2) {
        None => None,
        Some(s1) => match m_ensure(s1, 1) {
            None => None,
            Some(s2) => {
                let a = s2.vs.last();
                let s3 = m_pop(s2);
                if a is Const {
                    Some(m_push(s3, Loc::Const(bin_eval(op, a->Const_0, a->Const_0))))
                } else {
                    match op {
                        Bin::Add | Bin::Mul => match m_to_reg(s3, a) {
                            None => None,
                            Some((s4, r)) => Some(m_push(m_emit(s4, bin_word(op, r, r, r)), Loc::Reg(r))),
                        },
                        Bin::And | Bin::Or => Some(m_push(s3, a)),
                        Bin::Sub | Bin::Xor => Some(m_push(m_free_loc(s3, a), Loc::Const(0))),
                    }
                }
            },
        },
    }
}


// ── compares, selects, memory ───────────────────────────────────────────────
/// The condition a zero-compare sets (`n <0c>` ⇔ `n <c> 0`).
pub open spec fn zero_cond(c: Cmp) -> u32 {
    match c {
        Cmp::ZEq => EQ,
        Cmp::ZNe => NE,
        Cmp::ZLt => LT,
        _ => GT,
    }
}

/// A small constant as an instruction immediate.
pub open spec fn imm12(k: i64) -> u32 {
    k as u32
}

/// A constant that fits a `cmp` immediate.
pub open spec fn imm12_fits(k: i64) -> bool {
    0 <= k <= 4095
}

pub open spec fn m_compare(s: LowModel, c: Cmp) -> Option<LowModel> {
    match m_reserve(s, 4) {
        None => None,
        Some(s1) => if is_zero_cmp(c) {
            match m_ensure(s1, 1) {
                None => None,
                Some(s2) => {
                    let a = s2.vs.last();
                    let s3 = m_pop(s2);
                    if a is Const {
                        Some(m_push(s3, Loc::Const(cmp_eval_zero(c, a->Const_0))))
                    } else {
                        match m_to_reg(s3, a) {
                            None => None,
                            Some((s4, r)) => Some(
                                m_push(
                                    m_emit(m_emit(s4, cmp_imm_w(r, 0)), csetm_w(r, zero_cond(c))),
                                    Loc::Reg(r),
                                ),
                            ),
                        }
                    }
                },
            }
        } else {
            match m_ensure(s1, 2) {
                None => None,
                Some(s2) => {
                    let b = s2.vs.last();
                    let a = s2.vs.drop_last().last();
                    let s3 = m_pop(m_pop(s2));
                    if a is Const && b is Const {
                        Some(m_push(s3, Loc::Const(cmp_eval(c, a->Const_0, b->Const_0))))
                    } else if b is Const && imm12_fits(b->Const_0) {
                        // immediate compare against a constant TOS: `a <cmp> k`
                        match m_to_reg(s3, a) {
                            None => None,
                            Some((s4, ra)) => Some(
                                m_push(
                                    m_emit(
                                        m_emit(s4, cmp_imm_w(ra, imm12(b->Const_0))),
                                        csetm_w(ra, cmp_cond(c)),
                                    ),
                                    Loc::Reg(ra),
                                ),
                            ),
                        }
                    } else if a is Const && imm12_fits(a->Const_0) {
                        // against a constant NOS: `k <cmp> b`, condition swapped
                        match m_to_reg(s3, b) {
                            None => None,
                            Some((s4, rb)) => Some(
                                m_push(
                                    m_emit(
                                        m_emit(s4, cmp_imm_w(rb, imm12(a->Const_0))),
                                        csetm_w(rb, cmp_swapped_cond(c)),
                                    ),
                                    Loc::Reg(rb),
                                ),
                            ),
                        }
                    } else {
                        match m_to_reg(s3, a) {
                            None => None,
                            Some((s4, ra)) => match m_to_reg(s4, b) {
                                None => None,
                                Some((s5, rb)) => Some(
                                    m_push(
                                        m_freer(
                                            m_emit(m_emit(s5, cmp_reg_w(ra, rb)), csetm_w(ra, cmp_cond(c))),
                                            rb,
                                        ),
                                        Loc::Reg(ra),
                                    ),
                                ),
                            },
                        }
                    }
                },
            }
        },
    }
}

/// min / max / umin / umax — branchless via cmp + csel, const-folded.
pub open spec fn m_sel(s: LowModel, w: Sel) -> Option<LowModel> {
    match m_reserve(s, 3) {
        None => None,
        Some(s1) => match m_ensure(s1, 2) {
            None => None,
            Some(s2) => {
                let b = s2.vs.last();
                let a = s2.vs.drop_last().last();
                let s3 = m_pop(m_pop(s2));
                if a is Const && b is Const {
                    Some(m_push(s3, Loc::Const(sel_eval(w, a->Const_0, b->Const_0))))
                } else {
                    match m_to_reg(s3, a) {
                        None => None,
                        Some((s4, ra)) => match m_to_reg(s4, b) {
                            None => None,
                            Some((s5, rb)) => Some(
                                m_push(
                                    m_freer(
                                        m_emit(m_emit(s5, cmp_reg_w(ra, rb)), csel_w(ra, ra, rb, sel_cond(w))),
                                        rb,
                                    ),
                                    Loc::Reg(ra),
                                ),
                            ),
                        },
                    }
                }
            },
        },
    }
}

pub open spec fn m_mem(s: LowModel, w: Mem) -> Option<LowModel> {
    match m_reserve(s, 3) {
        None => None,
        Some(s1) => match w {
            Mem::Fetch | Mem::CFetch => match m_ensure(s1, 1) {
                None => None,
                Some(s2) => {
                    let a = s2.vs.last();
                    match m_to_reg(m_note_fetch(m_pop(s2), a), a) {
                        None => None,
                        Some((s3, r)) => Some(
                            m_push(
                                LowModel {
                                    code: s3.code.push(
                                        if w == Mem::Fetch {
                                            ldr0_w(r, r)
                                        } else {
                                            ldrb0_w(r, r)
                                        },
                                    ),
                                    m: Metrics { mem_fetches: bump(s3.m.mem_fetches), ..s3.m },
                                    ..s3
                                },
                                Loc::Reg(r),
                            ),
                        ),
                    }
                },
            },
            Mem::Store | Mem::CStore => match m_ensure(s1, 2) {
                None => None,
                Some(s2) => {
                    // ( x addr -- )
                    let addr = s2.vs.last();
                    let x = s2.vs.drop_last().last();
                    match m_to_reg(m_pop(m_pop(s2)), addr) {
                        None => None,
                        Some((s3, raddr)) => match m_to_reg(s3, x) {
                            None => None,
                            Some((s4, rx)) => Some(
                                m_freer(
                                    m_freer(
                                        LowModel {
                                            code: s4.code.push(
                                                if w == Mem::Store {
                                                    str_off_w(rx, raddr, 0)
                                                } else {
                                                    strb0_w(rx, raddr)
                                                },
                                            ),
                                            m: Metrics { mem_stores: bump(s4.m.mem_stores), ..s4.m },
                                            ..s4
                                        },
                                        rx,
                                    ),
                                    raddr,
                                ),
                            ),
                        },
                    }
                },
            },
        },
    }
}

// ── locals and instance variables ───────────────────────────────────────────
/// Where local `i` sits in the cache, if it does.
pub open spec fn lc_find(c: Seq<Cached>, i: u32) -> Option<int>
    decreases c.len(),
{
    if c.len() == 0 {
        None
    } else if c.last().0 == i {
        Some(c.len() - 1)
    } else {
        lc_find(c.drop_last(), i)
    }
}

/// The cache with local `i` now held in `r` (replacing its entry, or appended).
pub open spec fn lc_insert(c: Seq<Cached>, i: u32, r: u32, dirty: bool) -> Seq<Cached> {
    match lc_find(c, i) {
        Some(k) => c.update(k, (i, r, dirty)),
        None => c.push((i, r, dirty)),
    }
}

pub open spec fn m_local_fetch(s: LowModel, i: u32) -> Option<LowModel> {
    match lc_find(s.lcache, i) {
        Some(k) => {
            // resident (stored, or already loaded as a hot local) → reuse via copy
            let r = s.lcache[k].1;
            match m_reserve(s, 1) {
                None => None,
                Some(s1) => match m_copy_of(s1, Loc::Reg(r)) {
                    None => None,
                    Some((s2, c)) => Some(
                        LowModel {
                            vs: s2.vs.push(c),
                            m: Metrics { local_hits: bump(s2.m.local_hits), ..s2.m },
                            ..s2
                        },
                    ),
                },
            }
        },
        None => if i * 8 > u32::MAX {
            None
        } else if s.hot.contains(i) {
            // hot read: load once into the cache, then copy
            match m_reserve(s, 2) {
                None => None,
                Some(s1) => match m_alloc(s1) {
                    None => None,
                    Some((s2, rc)) => {
                        let s3 = LowModel {
                            code: s2.code.push(ldr_off_w(rc, LP, (i * 8) as u32)),
                            m: Metrics { local_loads: bump(s2.m.local_loads), ..s2.m },
                            lcache: lc_insert(s2.lcache, i, rc, false),
                            ..s2
                        };
                        match m_copy_of(s3, Loc::Reg(rc)) {
                            None => None,
                            Some((s4, c)) => Some(m_push(s4, c)),
                        }
                    },
                },
            }
        } else {
            // cold read: load straight to the data stack, no caching
            match m_reserve(s, 1) {
                None => None,
                Some(s1) => match m_alloc(s1) {
                    None => None,
                    Some((s2, r)) => Some(
                        m_push(
                            LowModel {
                                code: s2.code.push(ldr_off_w(r, LP, (i * 8) as u32)),
                                m: Metrics { local_loads: bump(s2.m.local_loads), ..s2.m },
                                ..s2
                            },
                            Loc::Reg(r),
                        ),
                    ),
                },
            }
        },
    }
}

/// `local[i] = TOS; drop`: the value's register becomes the cached (dirty) local;
/// the store itself is deferred to the next barrier.
pub open spec fn m_local_store(s: LowModel, i: u32) -> Option<LowModel> {
    match m_reserve(s, 2) {
        None => None,
        Some(s1) => match m_ensure(s1, 1) {
            None => None,
            Some(s2) => match m_to_reg(m_pop(s2), s2.vs.last()) {
                None => None,
                Some((s3, r)) => {
                    let s4 = LowModel { lcache: lc_insert(s3.lcache, i, r, true), ..s3 };
                    match lc_find(s3.lcache, i) {
                        Some(k) => if s3.lcache[k].1 != r {
                            Some(m_freer(s4, s3.lcache[k].1))
                        } else {
                            Some(s4)
                        },
                        None => Some(s4),
                    }
                },
            },
        },
    }
}

/// The input pops of a locals frame: `local[k] = TOS; raise NOS` for k = n-1 down to 0.
pub open spec fn open_pops(n: int) -> Seq<u32>
    decreases n,
{
    if n <= 0 {
        Seq::empty()
    } else {
        seq![str_off_w(TOS, LP, ((n - 1) * 8) as u32), ldr_post_w(TOS, DSP, 8)] + open_pops(n - 1)
    }
}

/// `OpenLocals`: settle, allocate a nested LP sub-frame and pop the inputs into it.
pub open spec fn m_open_locals(s: LowModel, total: u32, inputs: u32) -> Option<LowModel> {
    match m_settle(s) {
        None => None,
        Some(s1) => if total > 0 {
            if total * 8 > u32::MAX || (inputs > 0 && (inputs - 1) * 8 > u32::MAX) {
                None
            } else {
                Some(
                    m_emit_seq(
                        s1,
                        seq![sub_imm_w(LP, LP, (total * 8) as u32)] + open_pops(inputs as int),
                    ),
                )
            }
        } else {
            Some(s1)
        },
    }
}

/// The registers of the cache entries `c`, freed.
pub open spec fn free_cached(used: Seq<bool>, c: Seq<Cached>) -> Seq<bool>
    decreases c.len(),
{
    if c.len() == 0 {
        used
    } else {
        mark(free_cached(used, c.drop_last()), c.last().1, false)
    }
}

/// `CloseLocals`: the locals are dead — drop the cache and pop the sub-frame.
pub open spec fn m_close_locals(s: LowModel, total: u32) -> Option<LowModel> {
    let s1 = LowModel { used: free_cached(s.used, s.lcache), lcache: Seq::empty(), ..s };
    if total > 0 {
        if total * 8 > u32::MAX {
            None
        } else {
            Some(m_emit(s1, add_imm_w(LP, LP, (total * 8) as u32)))
        }
    } else {
        Some(s1)
    }
}

pub open spec fn m_ivar_fetch(s: LowModel, off: u32) -> Option<LowModel> {
    match m_reserve(s, 1) {
        None => None,
        Some(s1) => match m_alloc(s1) {
            None => None,
            Some((s2, r)) => Some(
                m_push(
                    m_emit(m_emit(s2, ldr_off_w(r, UP, USER_SELF)), ldr_off_w(r, r, off)),
                    Loc::Reg(r),
                ),
            ),
        },
    }
}

pub open spec fn m_ivar_store(s: LowModel, off: u32) -> Option<LowModel> {
    match m_reserve(s, 2) {
        None => None,
        Some(s1) => match m_ensure(s1, 1) {
            None => None,
            Some(s2) => match m_to_reg(m_pop(s2), s2.vs.last()) {
                None => None,
                Some((s3, rv)) => match m_alloc(s3) {
                    None => None,
                    Some((s4, rs)) => Some(
                        m_freer(
                            m_freer(
                                m_emit(m_emit(s4, ldr_off_w(rs, UP, USER_SELF)), str_off_w(rv, rs, off)),
                                rv,
                            ),
                            rs,
                        ),
                    ),
                },
            },
        },
    }
}

pub open spec fn m_self_push(s: LowModel) -> Option<LowModel> {
    match m_reserve(s, 1) {
        None => None,
        Some(s1) => match m_alloc(s1) {
            None => None,
            Some((s2, r)) => Some(m_push(m_emit(s2, ldr_off_w(r, UP, USER_SELF)), Loc::Reg(r))),
        },
    }
}

// ── floating point ──────────────────────────────────────────────────────────
pub open spec fn m_fpush(s: LowModel, d: u32) -> LowModel {
    LowModel { fvs: s.fvs.push(d), ..s }
}

pub open spec fn m_flit(s: LowModel, bits: i64) -> Option<LowModel> {
    match m_gp_temp(s) {
        None => None,
        Some((s1, g)) => match m_falloc(m_emit_seq(s1, load_imm64_seq(g, bits as u64))) {
            None => None,
            Some((s2, d)) => Some(m_fpush(m_freer(m_emit(s2, fmov_dx_w(d, g)), g), d)),
        },
    }
}

pub open spec fn fbin_word(op: FBin, rd: u32, rn: u32, rm: u32) -> u32 {
    match op {
        FBin::Add => fadd_w(rd, rn, rm),
        FBin::Sub => fsub_w(rd, rn, rm),
        FBin::Mul => fmul_w(rd, rn, rm),
        FBin::Div => fdiv_w(rd, rn, rm),
    }
}

pub open spec fn fun_word(op: FUn, rd: u32, rn: u32) -> u32 {
    match op {
        FUn::Neg => fneg_w(rd, rn),
        FUn::Sqrt => fsqrt_w(rd, rn),
        FUn::Abs => fabs_w(rd, rn),
    }
}

pub open spec fn m_fbin(s: LowModel, op: FBin) -> Option<LowModel> {
    match m_fensure(s, 2) {
        None => None,
        Some(s1) => {
            let b = s1.fvs.last();
            let a = s1.fvs.drop_last().last();
            Some(
                LowModel {
                    code: s1.code.push(fbin_word(op, a, a, b)),
                    fused: mark(s1.fused, b, false),
                    fvs: s1.fvs.drop_last(),
                    ..s1
                },
            )
        },
    }
}

pub open spec fn m_fun(s: LowModel, op: FUn) -> Option<LowModel> {
    match m_fensure(s, 1) {
        None => None,
        Some(s1) => Some(m_emit(s1, fun_word(op, s1.fvs.last(), s1.fvs.last()))),
    }
}

pub open spec fn m_fstk(s: LowModel, w: Stk) -> Option<LowModel> {
    match w {
        Stk::Dup => match m_fensure(s, 1) {
            None => None,
            Some(s1) => {
                let top = s1.fvs.last();
                match m_falloc(s1) {
                    None => None,
                    Some((s2, d)) => Some(m_fpush(m_emit(s2, fmov_dd_w(d, top)), d)),
                }
            },
        },
        Stk::Drop => match m_fensure(s, 1) {
            None => None,
            Some(s1) => Some(
                LowModel {
                    fused: mark(s1.fused, s1.fvs.last(), false),
                    fvs: s1.fvs.drop_last(),
                    ..s1
                },
            ),
        },
        Stk::Swap => match m_fensure(s, 2) {
            None => None,
            Some(s1) => {
                let n = s1.fvs.len();
                Some(
                    LowModel {
                        fvs: s1.fvs.update(n - 1, s1.fvs[n - 2]).update(n - 2, s1.fvs[n - 1]),
                        ..s1
                    },
                )
            },
        },
        Stk::Over => match m_fensure(s, 2) {
            None => None,
            Some(s1) => {
                let u = s1.fvs[s1.fvs.len() - 2];
                match m_falloc(s1) {
                    None => None,
                    Some((s2, d)) => Some(m_fpush(m_emit(s2, fmov_dd_w(d, u)), d)),
                }
            },
        },
        _ => Some(s),
    }
}

// ── one token, a run ────────────────────────────────────────────────────────
/// A stack-motion token, counted (and counted free when it emitted no code).
pub open spec fn m_counted(before: LowModel, after: Option<LowModel>) -> Option<LowModel> {
    match after {
        None => None,
        Some(s1) => {
            let s2 = LowModel { m: Metrics { stack_ops: bump(s1.m.stack_ops), ..s1.m }, ..s1 };
            Some(
                if s1.code.len() == before.code.len() {
                    LowModel { m: Metrics { stack_ops_free: bump(s2.m.stack_ops_free), ..s2.m }, ..s2 }
                } else {
                    s2
                },
            )
        },
    }
}

pub open spec fn m_tok(s: LowModel, t: Tok) -> Option<LowModel> {
    match t {
        Tok::Lit(n) => Some(m_push(s, Loc::Const(n))),
        Tok::Bin(op) => m_bin(s, op),
        Tok::ImmBin(op, k) => m_imm_bin(s, op, k),
        Tok::DupBin(op) => m_dup_bin(s, op),
        Tok::Stk(w) => m_counted(s, m_stk(s, w)),
        Tok::PickN(n) => m_counted(s, m_pick(s, n as int)),
        Tok::RollN(n) => m_counted(s, m_roll(s, n as int)),
        Tok::Cmp(c) => m_compare(s, c),
        Tok::Sel(w) => m_sel(s, w),
        Tok::Mem(w) => m_mem(s, w),
        Tok::LocalFetch(i) => m_local_fetch(s, i),
        Tok::LocalStore(i) => m_local_store(s, i),
        Tok::OpenLocals { total, inputs } => m_open_locals(s, total, inputs),
        Tok::CloseLocals { total } => m_close_locals(s, total),
        Tok::IvarFetch(off) => m_ivar_fetch(s, off),
        Tok::IvarStore(off) => m_ivar_store(s, off),
        Tok::SelfPush => m_self_push(s),
        Tok::FLit(bits) => m_flit(s, bits),
        Tok::FBin(op) => m_fbin(s, op),
        Tok::FUn(op) => m_fun(s, op),
        Tok::FStk(w) => m_counted(s, m_fstk(s, w)),
        Tok::Call(xt) => match m_settle(LowModel { m: Metrics { calls: bump(s.m.calls), ..s.m }, ..s }) {
            None => None,
            Some(s1) => Some(m_emit_seq(s1, call_seq(xt))),
        },
    }
}

pub open spec fn m_run(s: LowModel, toks: Seq<Tok>) -> Option<LowModel>
    decreases toks.len(),
{
    if toks.len() == 0 {
        Some(s)
    } else {
        match m_run(s, toks.drop_last()) {
            None => None,
            Some(s1) => m_tok(s1, toks.last()),
        }
    }
}

/// How often local `i` is read in `toks`.
pub open spec fn fetch_count(toks: Seq<Tok>, i: u32) -> nat
    decreases toks.len(),
{
    if toks.len() == 0 {
        0
    } else {
        fetch_count(toks.drop_last(), i) + if toks.last() == Tok::LocalFetch(i) {
            1nat
        } else {
            0nat
        }
    }
}

/// The locals read at least twice in a run: worth keeping in a register.
pub open spec fn hot_set(toks: Seq<Tok>) -> Set<u32> {
    Set::new(|i: u32| fetch_count(toks, i) >= 2)
}

/// The lowerer at the start of a run appended to `code`: TOS in x0, FTOS in d8.
pub open spec fn m_start(code: Seq<u32>, toks: Seq<Tok>) -> LowModel {
    LowModel {
        code,
        vs: seq![Loc::Reg(TOS)],
        used: Seq::new(32, |i: int| i == 0),
        consumed: 0,
        fvs: seq![FTOS],
        fused: Seq::new(32, |i: int| i == 8),
        fconsumed: 0,
        m: crate::opt::zero_metrics(),
        fetched: Seq::empty(),
        lcache: Seq::empty(),
        hot: hot_set(toks),
    }
}

/// Lowering `toks` after `code`: every token, then a final settle; `None` where the
/// lowerer would panic.
pub open spec fn lowered(code: Seq<u32>, toks: Seq<Tok>) -> Option<LowModel> {
    match m_run(m_start(code, toks), toks) {
        None => None,
        Some(s) => m_settle(s),
    }
}


// ── the executable lowerer ──────────────────────────────────────────────────
proof fn lemma_free_bound(used: Seq<bool>, lo: int)
    requires
        9 <= lo <= 16,
    ensures
        free_from(used, lo) <= 16 - lo,
    decreases 16 - lo,
{
    if lo < 16 {
        lemma_free_bound(used, lo + 1);
    }
}

pub(crate) proof fn lemma_first_free(used: Seq<bool>, lo: int)
    requires
        9 <= lo <= 16,
        free_from(used, lo) > 0,
    ensures
        lo <= first_free_from(used, lo) < 16,
        !used[first_free_from(used, lo)],
    decreases 16 - lo,
{
    if lo < 16 && used[lo] {
        lemma_first_free(used, lo + 1);
    }
}

/// Free registers in the pool `x9..x15` (or `d9..d15`) of `flags`.
fn count_free(flags: &Vec<bool>) -> (n: u32)
    requires
        flags@.len() == 32,
    ensures
        n == free_from(flags@, 9),
        n <= 7,
{
    let mut n: u32 = 0;
    let mut r: usize = 16;
    while r > 9
        invariant
            9 <= r <= 16,
            flags@.len() == 32,
            n == free_from(flags@, r as int),
            n <= 16 - r,
        decreases r,
    {
        r = r - 1;
        if !flags[r] {
            n = n + 1;
        }
    }
    n
}

/// The lowest free register of the pool in `flags`.
fn first_free(flags: &Vec<bool>) -> (r: u32)
    requires
        flags@.len() == 32,
        free_from(flags@, 9) > 0,
    ensures
        r == first_free_from(flags@, 9),
        9 <= r < 16,
        !flags@[r as int],
{
    let mut r: usize = 9;
    while r < 16 && flags[r]
        invariant
            9 <= r <= 16,
            flags@.len() == 32,
            first_free_from(flags@, 9) == first_free_from(flags@, r as int),
            free_from(flags@, 9) == free_from(flags@, r as int),
        decreases 16 - r,
    {
        r = r + 1;
    }
    proof {
        lemma_first_free(flags@, r as int);
    }
    r as u32
}

/// Set register `r`'s flag (registers past the table have none).
fn set_flag(flags: &mut Vec<bool>, r: u32, v: bool)
    ensures
        final(flags)@ == mark(old(flags)@, r, v),
{
    if (r as usize) < flags.len() {
        flags.set(r as usize, v);
    }
}

struct Low {
    out: Vec<u32>,
    vs: Vec<Loc>,
    used: Vec<bool>,  // which GP registers are live (in vs, in the cache or a transient)
    consumed: i64,  // entry-memory cells pulled below the window
    // Parallel FP virtual stack (FTOS canonical = d8; pool d9–d15; FSP=x22).
    fvs: Vec<u32>,
    fused: Vec<bool>,
    fconsumed: i64,
    m: Metrics,  // accumulated codegen metrics for this run
    fetched: Vec<i64>,  // const addresses @-fetched in the current window (heat probe)
    // Local register cache: (index, pool register holding the current value,
    // dirty = unspilled store). A stored local or a hot read local (≥2 reads in
    // the run) is kept resident so subsequent reads are a `mov`, not a frame `ldr`.
    lcache: Vec<Cached>,
    hot_locals: Vec<u32>,  // the locals read at least twice in this run
    hot: Ghost<Set<u32>>,
}

impl Low {
    spec fn model(&self) -> LowModel {
        LowModel {
            code: self.out@,
            vs: self.vs@,
            used: self.used@,
            consumed: self.consumed as int,
            fvs: self.fvs@,
            fused: self.fused@,
            fconsumed: self.fconsumed as int,
            m: self.m,
            fetched: self.fetched@,
            lcache: self.lcache@,
            hot: self.hot@,
        }
    }

    /// A fallible step's outcome: it completes exactly where the model does,
    /// in the model's state.
    spec fn reached(&self, ok: bool, r: Option<LowModel>) -> bool {
        &&& ok == r is Some
        &&& ok ==> self.model() == r->Some_0
    }

    /// A fallible step with a result: `v` is present exactly where the model
    /// completes, with the model's state and value.
    spec fn reached_at<T>(&self, v: Option<T>, r: Option<(LowModel, T)>) -> bool {
        &&& v is Some == r is Some
        &&& v is Some ==> (self.model(), v->Some_0) == r->Some_0
    }

    spec fn wf(&self) -> bool {
        &&& self.used@.len() == 32
        &&& self.fused@.len() == 32
        &&& self.consumed >= 0
        &&& self.fconsumed >= 0
        &&& forall|i: u32| self.hot_locals@.contains(i) <==> self.hot@.contains(i)
    }

    /// Record an `@`/`c@` of address `a`; flag a redundant re-read (a hot value
    /// pulled from memory again within the window instead of staying in a reg).
    fn note_fetch(&mut self, a: Loc)
        requires
            old(self).wf(),
        ensures
            final(self).wf(),
            final(self).model() == m_note_fetch(old(self).model(), a),
    {
        if let Loc::Const(addr) = a {
            let mut k: usize = 0;
            let mut seen = false;
            while k < self.fetched.len()
                invariant
                    k <= self.fetched@.len(),
                    seen <==> exists|j: int| 0 <= j < k && self.fetched@[j] == addr,
                decreases self.fetched@.len() - k,
            {
                if self.fetched[k] == addr {
                    seen = true;
                }
                k = k + 1;
            }
            assert(seen <==> self.fetched@.contains(addr));
            if seen {
                self.m.redundant_fetches = self.m.redundant_fetches.wrapping_add(1);
            } else {
                self.fetched.push(addr);
            }
        }
    }

    fn alloc_reg(&mut self) -> (r: Option<u32>)
        requires
            old(self).wf(),
        ensures
            final(self).wf(),
            final(self).reached_at(r, m_alloc(old(self).model())),
            r is Some ==> 9 <= r->Some_0 < 16,
    {
        if count_free(&self.used) == 0 {
            return None;
        }
        let r = first_free(&self.used);
        self.used.set(r as usize, true);
        self.m.gp_allocs = self.m.gp_allocs.wrapping_add(1);
        let live = 7 - count_free(&self.used);
        self.m.peak_gp = if self.m.peak_gp >= live {
            self.m.peak_gp
        } else {
            live
        };
        Some(r)
    }

    fn freer(&mut self, r: u32)
        requires
            old(self).wf(),
        ensures
            final(self).wf(),
            final(self).model() == m_freer(old(self).model(), r),
    {
        set_flag(&mut self.used, r, false);
    }

    fn free_loc(&mut self, l: Loc)
        requires
            old(self).wf(),
        ensures
            final(self).wf(),
            final(self).model() == m_free_loc(old(self).model(), l),
    {
        if let Loc::Reg(r) = l {
            self.freer(r);
        }
    }

    /// Ensure the window holds at least `n` cells, pulling from entry memory.
    fn ensure(&mut self, n: usize) -> (ok: bool)
        requires
            old(self).wf(),
        ensures
            final(self).wf(),
            final(self).reached(ok, m_ensure(old(self).model(), n as int)),
            ok ==> final(self).vs@.len() >= n,
    {
        while self.vs.len() < n
            invariant
                self.wf(),
                m_ensure(self.model(), n as int) == m_ensure(old(self).model(), n as int),
            decreases n - self.vs@.len(),
        {
            let r = match self.alloc_reg() {
                Some(r) => r,
                None => return false,
            };
            if self.consumed > 1152921504606846975 {
                return false;
            }
            let off = (self.consumed * 8) as u32;
            self.out.push(ldr_off(r, DSP, off));
            self.m.stack_loads = self.m.stack_loads.wrapping_add(1);
            self.consumed = self.consumed + 1;
            self.vs.insert(0, Loc::Reg(r));
        }
        true
    }

    /// A value in a register (a `Const` is loaded into a fresh register).
    fn to_reg(&mut self, l: Loc) -> (r: Option<u32>)
        requires
            old(self).wf(),
        ensures
            final(self).wf(),
            final(self).reached_at(r, m_to_reg(old(self).model(), l)),
    {
        match l {
            Loc::Reg(r) => Some(r),
            Loc::Const(n) => {
                let r = match self.alloc_reg() {
                    Some(r) => r,
                    None => return None,
                };
                load_imm64(r, n as u64, &mut self.out);
                self.m.const_mat = self.m.const_mat.wrapping_add(1);
                Some(r)
            },
        }
    }

    /// A copy of a value (constants are free; registers cost one `mov`).
    fn copy_of(&mut self, l: Loc) -> (c: Option<Loc>)
        requires
            old(self).wf(),
        ensures
            final(self).wf(),
            final(self).reached_at(c, m_copy_of(old(self).model(), l)),
    {
        match l {
            Loc::Const(n) => Some(Loc::Const(n)),
            Loc::Reg(r) => {
                let r2 = match self.alloc_reg() {
                    Some(r) => r,
                    None => return None,
                };
                self.out.push(mov_reg(r2, r));
                self.m.reg_copies = self.m.reg_copies.wrapping_add(1);
                Some(Loc::Reg(r2))
            },
        }
    }
}


proof fn lemma_spill_prefix(s: LowModel, c: Seq<Cached>, k: int)
    requires
        0 <= k <= c.len(),
        m_spill_all(s, c) is Some,
    ensures
        m_spill_all(s, c.take(k)) is Some,
    decreases c.len(),
{
    if k < c.len() {
        lemma_spill_prefix(s, c.drop_last(), k);
        assert(c.drop_last().take(k) =~= c.take(k));
    } else {
        assert(c.take(k) =~= c);
    }
}

proof fn lemma_pass1_prefix(s: LowModel, vs: Seq<Loc>, j: int, k: int)
    requires
        0 <= j <= k,
        m_pass1(s, vs, k) is Some,
    ensures
        m_pass1(s, vs, j) is Some,
    decreases k - j,
{
    if j < k {
        lemma_pass1_prefix(s, vs, j, k - 1);
    }
}

proof fn lemma_pass2_prefix(s: LowModel, vs: Seq<Loc>, j: int, k: int)
    requires
        0 <= j <= k,
        m_pass2(s, vs, k) is Some,
    ensures
        m_pass2(s, vs, j) is Some,
    decreases k - j,
{
    if j < k {
        lemma_pass2_prefix(s, vs, j, k - 1);
    }
}

proof fn lemma_fpass_prefix(s: LowModel, fvs: Seq<u32>, j: int, k: int)
    requires
        0 <= j <= k,
        m_fpass(s, fvs, k) is Some,
    ensures
        m_fpass(s, fvs, j) is Some,
    decreases k - j,
{
    if j < k {
        lemma_fpass_prefix(s, fvs, j, k - 1);
    }
}

/// All 32 flags clear but register `keep`'s.
fn only_flag(flags: &mut Vec<bool>, keep: usize)
    requires
        old(flags)@.len() == 32,
        keep < 32,
    ensures
        final(flags)@ == Seq::new(32, |i: int| i == keep),
{
    let mut k: usize = 0;
    while k < 32
        invariant
            k <= 32,
            flags@.len() == 32,
            keep < 32,
            forall|j: int| 0 <= j < k ==> flags@[j] == (j == keep),
        decreases 32 - k,
    {
        flags.set(k, k == keep);
        k = k + 1;
    }
    assert(flags@ =~= Seq::new(32, |i: int| i == keep));
}

/// Whether a stack-pointer move of `delta` cells has an encoding.
fn adjust_fits(base: u32, delta: i128) -> (b: bool)
    ensures
        b == adjust_words(base, delta as int) is Some,
{
    -1152921504606846975 <= delta && delta <= 1152921504606846975
}

/// The stack-pointer move for a window of `delta` cells, if any.
fn adjust(base: u32, delta: i128, out: &mut Vec<u32>)
    requires
        adjust_words(base, delta as int) is Some,
    ensures
        final(out)@ == old(out)@ + adjust_words(base, delta as int)->Some_0,
{
    if delta > 0 {
        out.push(add_imm(base, base, (delta * 8) as u32));
    } else if delta < 0 {
        out.push(sub_imm(base, base, ((-delta) * 8) as u32));
    }
    assert(out@ =~= old(out)@ + adjust_words(base, delta as int)->Some_0);
}

impl Low {
    /// At a barrier, flush every dirty (unspilled-store) local to its LP frame
    /// slot and free all cache registers (the frame becomes authoritative again;
    /// caller-saved pool registers don't survive the upcoming call anyway).
    fn spill_locals(&mut self) -> (ok: bool)
        requires
            old(self).wf(),
        ensures
            final(self).wf(),
            final(self).reached(ok, m_spill_locals(old(self).model())),
            ok ==> final(self).vs@ == old(self).vs@,
    {
        if self.lcache.len() == 0 {
            return true;
        }
        let ghost s0 = self.model();
        let ghost c = self.lcache@;
        let mut k: usize = 0;
        while k < self.lcache.len()
            invariant
                self.wf(),
                self.lcache@ == c,
                c == s0.lcache,
                self.vs@ == s0.vs,
                k <= c.len(),
                s0 == old(self).model(),
                m_spill_all(s0, c.take(k as int)) == Some(self.model()),
            decreases c.len() - k,
        {
            let e = self.lcache[k];
            proof {
                assert(c.take(k as int + 1).drop_last() =~= c.take(k as int));
            }
            if e.2 && e.0 > 536870911 {
                proof {
                    assert(c.take(k as int + 1).last() == e);
                    assert(m_spill_one(self.model(), e) is None);
                    assert(m_spill_all(s0, c.take(k as int + 1)) is None);
                    if m_spill_all(s0, c) is Some {
                        lemma_spill_prefix(s0, c, k as int + 1);
                    }
                }
                return false;
            }
            if e.2 {
                self.out.push(str_off(e.1, LP, e.0 * 8));
                self.m.local_spills = self.m.local_spills.wrapping_add(1);
            }
            set_flag(&mut self.used, e.1, false);
            k = k + 1;
        }
        proof {
            assert(c.take(k as int) =~= c);
        }
        self.lcache.clear();
        true
    }

    /// Ensure `n` free pool registers, settling the window to memory if not. Call
    /// at the START of an op (while `vs` is consistent) so later allocs never settle.
    fn reserve(&mut self, n: usize) -> (ok: bool)
        requires
            old(self).wf(),
        ensures
            final(self).wf(),
            final(self).reached(ok, m_reserve(old(self).model(), n as int)),
    {
        if (count_free(&self.used) as usize) < n {
            self.m.spills = self.m.spills.wrapping_add(1);
            self.settle_data()
        } else {
            true
        }
    }

    /// Write the data virtual stack back to the canonical form (TOS in x0, the rest
    /// in memory from DSP) and reset.
    fn settle_data(&mut self) -> (ok: bool)
        requires
            old(self).wf(),
        ensures
            final(self).wf(),
            final(self).reached(ok, m_settle_data(old(self).model())),
    {
        if !self.spill_locals() {  // a barrier flushes deferred local stores to the frame
            return false;
        }
        if self.vs.len() == 0 {
            if !self.ensure(1) {  // materialize a TOS from entry memory
                return false;
            }
        }
        let ghost s1 = self.model();
        let l = self.vs.len();
        let delta: i128 = self.consumed as i128 - (l as i128 - 1);  // DSP change in cells
        if !adjust_fits(DSP, delta) {
            return false;
        }
        adjust(DSP, delta, &mut self.out);
        if delta != 0 {
            self.m.dsp_adjusts = self.m.dsp_adjusts.wrapping_add(1);
        }
        let ghost s2 = self.model();
        assert(m_pass1(s2, s1.vs, l - 1) is None ==> m_settle_data(old(self).model()) is None);
        // Pass 1: store deep register entries (freeing their regs), reading x0
        // before it is overwritten by the new TOS.
        let mut i: usize = 0;
        while i < l - 1
            invariant
                self.wf(),
                m_pass1(s2, s1.vs, l - 1) is None ==> m_settle_data(old(self).model()) is None,
                l == s1.vs.len(),
                l >= 1,
                self.vs@ == s1.vs,
                i <= l - 1,
                m_pass1(s2, s1.vs, i as int) == Some(self.model()),
            decreases l - 1 - i,
        {
            if let Loc::Reg(r) = self.vs[i] {
                let c = (l - 2 - i) as u32;
                if c > 536870911 {
                    proof {
                        assert(slot_off(s1.vs.len() as int, i as int) is None);
                        assert(m_pass1(s2, s1.vs, i as int + 1) is None);
                        if m_pass1(s2, s1.vs, l - 1) is Some {
                            lemma_pass1_prefix(s2, s1.vs, i as int + 1, l - 1);
                        }
                    }
                    return false;
                }
                let off = c * 8;
                self.out.push(str_off(r, DSP, off));
                self.m.stack_stores = self.m.stack_stores.wrapping_add(1);
                self.freer(r);
            }
            i = i + 1;
        }
        // The new TOS goes to x0.
        match self.vs[l - 1] {
            Loc::Reg(r) => {
                if r != TOS {
                    self.out.push(mov_reg(TOS, r));
                    self.freer(r);
                }
            },
            Loc::Const(n) => load_imm64(TOS, n as u64, &mut self.out),
        }
        let ghost s3 = self.model();
        assert(m_pass2(s3, s1.vs, l - 1) is None ==> m_settle_data(old(self).model()) is None);
        // Pass 2: store deep constant entries via a now-free scratch register.
        let mut i: usize = 0;
        while i < l - 1
            invariant
                self.wf(),
                m_pass2(s3, s1.vs, l - 1) is None ==> m_settle_data(old(self).model()) is None,
                l == s1.vs.len(),
                l >= 1,
                self.vs@ == s1.vs,
                i <= l - 1,
                m_pass2(s3, s1.vs, i as int) == Some(self.model()),
            decreases l - 1 - i,
        {
            if let Loc::Const(n) = self.vs[i] {
                let c = (l - 2 - i) as u32;
                let ghost pre = self.model();
                let t = if c > 536870911 {
                    None
                } else {
                    self.alloc_reg()
                };
                let t = match t {
                    Some(t) => t,
                    None => {
                        proof {
                            assert(s1.vs[i as int] == Loc::Const(n));
                            if c <= 536870911 {
                                assert(slot_off(s1.vs.len() as int, i as int) is Some);
                                assert(m_alloc(pre) is None);
                            }
                            assert(m_pass2(s3, s1.vs, i as int + 1) is None);
                            if m_pass2(s3, s1.vs, l - 1) is Some {
                                lemma_pass2_prefix(s3, s1.vs, i as int + 1, l - 1);
                            }
                        }
                        return false;
                    },
                };
                let off = c * 8;
                load_imm64(t, n as u64, &mut self.out);
                self.out.push(str_off(t, DSP, off));
                self.freer(t);
            }
            i = i + 1;
        }
        self.vs.clear();
        self.vs.push(Loc::Reg(TOS));
        only_flag(&mut self.used, 0);
        self.consumed = 0;
        self.fetched.clear();  // a settle ends the window; re-reads after it are fresh
        assert(self.vs@ =~= seq![Loc::Reg(TOS)]);
        true
    }
}


impl Low {
    // ── Floating-point virtual stack (parallel to the data stack) ────────────
    /// A free FP pool register (no settle: the callers only ask with room).
    fn falloc_plain(&mut self) -> (r: Option<u32>)
        requires
            old(self).wf(),
        ensures
            final(self).wf(),
            final(self).reached_at(r, m_falloc_plain(old(self).model())),
    {
        if count_free(&self.fused) == 0 {
            return None;
        }
        let r = first_free(&self.fused);
        self.fused.set(r as usize, true);
        let live = 7 - count_free(&self.fused);
        self.m.peak_fp = if self.m.peak_fp >= live {
            self.m.peak_fp
        } else {
            live
        };
        Some(r)
    }

    fn falloc(&mut self) -> (r: Option<u32>)
        requires
            old(self).wf(),
        ensures
            final(self).wf(),
            final(self).reached_at(r, m_falloc(old(self).model())),
    {
        if count_free(&self.fused) == 0 {
            if !self.fsettle() {
                return None;
            }
        }
        self.falloc_plain()
    }

    /// A free GP register for materializing a float constant (settling the data
    /// window if the GP pool is full — FP code rarely holds a deep data window).
    fn gp_temp(&mut self) -> (r: Option<u32>)
        requires
            old(self).wf(),
        ensures
            final(self).wf(),
            final(self).reached_at(r, m_gp_temp(old(self).model())),
    {
        if count_free(&self.used) == 0 {
            if !self.settle_data() {
                return None;
            }
        }
        if count_free(&self.used) == 0 {
            return None;
        }
        let r = first_free(&self.used);
        self.used.set(r as usize, true);
        Some(r)
    }

    fn fensure(&mut self, n: usize) -> (ok: bool)
        requires
            old(self).wf(),
        ensures
            final(self).wf(),
            final(self).reached(ok, m_fensure(old(self).model(), n as int)),
            ok ==> final(self).fvs@.len() >= n,
    {
        while self.fvs.len() < n
            invariant
                self.wf(),
                m_fensure(self.model(), n as int) == m_fensure(old(self).model(), n as int),
            decreases n - self.fvs@.len(),
        {
            let r = match self.falloc_plain() {
                Some(r) => r,
                None => return false,
            };
            if self.fconsumed > 1152921504606846975 {
                return false;
            }
            let off = (self.fconsumed * 8) as u32;
            self.out.push(fldr_off(r, FSP, off));
            self.fconsumed = self.fconsumed + 1;
            self.fvs.insert(0, r);
        }
        true
    }

    /// Write the FP virtual stack back to canonical form (FTOS in d8, the rest in
    /// memory from FSP) and reset.
    fn fsettle(&mut self) -> (ok: bool)
        requires
            old(self).wf(),
        ensures
            final(self).wf(),
            final(self).reached(ok, m_fsettle(old(self).model())),
    {
        if self.fvs.len() == 0 {
            if !self.fensure(1) {
                return false;
            }
        }
        let ghost s1 = self.model();
        let l = self.fvs.len();
        let delta: i128 = self.fconsumed as i128 - (l as i128 - 1);
        if !adjust_fits(FSP, delta) {
            return false;
        }
        adjust(FSP, delta, &mut self.out);
        let ghost s2 = self.model();
        assert(m_fpass(s2, s1.fvs, l - 1) is None ==> m_fsettle(old(self).model()) is None);
        let mut i: usize = 0;
        while i < l - 1
            invariant
                self.wf(),
                m_fpass(s2, s1.fvs, l - 1) is None ==> m_fsettle(old(self).model()) is None,
                l == s1.fvs.len(),
                l >= 1,
                self.fvs@ == s1.fvs,
                i <= l - 1,
                m_fpass(s2, s1.fvs, i as int) == Some(self.model()),
            decreases l - 1 - i,
        {
            let c = (l - 2 - i) as u32;
            if c > 536870911 {
                proof {
                    assert(slot_off(s1.fvs.len() as int, i as int) is None);
                    assert(m_fpass(s2, s1.fvs, i as int + 1) is None);
                    if m_fpass(s2, s1.fvs, l - 1) is Some {
                        lemma_fpass_prefix(s2, s1.fvs, i as int + 1, l - 1);
                    }
                }
                return false;
            }
            let off = c * 8;
            let d = self.fvs[i];
            self.out.push(fstr_off(d, FSP, off));
            set_flag(&mut self.fused, d, false);
            i = i + 1;
        }
        let top = self.fvs[l - 1];
        if top != FTOS {
            self.out.push(fmov_dd(FTOS, top));
            set_flag(&mut self.fused, top, false);
        }
        self.fvs.clear();
        self.fvs.push(FTOS);
        only_flag(&mut self.fused, 8);
        self.fconsumed = 0;
        assert(self.fvs@ =~= seq![FTOS]);
        true
    }

    /// Settle both the data and FP windows to canonical form (before a Call and at
    /// the run's end).
    fn settle(&mut self) -> (ok: bool)
        requires
            old(self).wf(),
        ensures
            final(self).wf(),
            final(self).reached(ok, m_settle(old(self).model())),
    {
        self.m.settles = self.m.settles.wrapping_add(1);
        if !self.settle_data() {
            return false;
        }
        self.fsettle()
    }
}


fn imm_form_of(op: Bin, k: i64) -> (r: Option<(bool, u32)>)
    ensures
        r == imm_form(op, k),
{
    match op {
        Bin::Add => if 0 <= k && k <= 4095 {
            Some((true, k as u32))
        } else if -4095 <= k && k < 0 {
            Some((false, (-k) as u32))
        } else {
            None
        },
        Bin::Sub => if 0 <= k && k <= 4095 {
            Some((false, k as u32))
        } else if -4095 <= k && k < 0 {
            Some((true, (-k) as u32))
        } else {
            None
        },
        _ => None,
    }
}

fn bin_instr(op: Bin, rd: u32, rn: u32, rm: u32) -> (w: u32)
    ensures
        w == bin_word(op, rd, rn, rm),
{
    match op {
        Bin::Add => add_reg(rd, rn, rm),
        Bin::Sub => sub_reg(rd, rn, rm),  // a - b
        Bin::Mul => crate::aenc::mul(rd, rn, rm),
        Bin::And => and_reg(rd, rn, rm),
        Bin::Or => orr_reg(rd, rn, rm),
        Bin::Xor => eor_reg(rd, rn, rm),
    }
}

fn fbin_instr(op: FBin, rd: u32, rn: u32, rm: u32) -> (w: u32)
    ensures
        w == fbin_word(op, rd, rn, rm),
{
    match op {
        FBin::Add => fadd(rd, rn, rm),
        FBin::Sub => fsub(rd, rn, rm),  // a - b
        FBin::Mul => fmul(rd, rn, rm),
        FBin::Div => fdiv(rd, rn, rm),  // a / b
    }
}

fn fun_instr(op: FUn, rd: u32, rn: u32) -> (w: u32)
    ensures
        w == fun_word(op, rd, rn),
{
    match op {
        FUn::Neg => fneg(rd, rn),
        FUn::Sqrt => fsqrt(rd, rn),
        FUn::Abs => fabs(rd, rn),
    }
}

fn zero_cond_of(c: Cmp) -> (r: u32)
    ensures
        r == zero_cond(c),
{
    match c {
        Cmp::ZEq => EQ,
        Cmp::ZNe => NE,
        Cmp::ZLt => LT,
        _ => GT,
    }
}

fn imm12_of(k: i64) -> (r: u32)
    ensures
        r == imm12(k),
{
    k as u32
}

fn is_zero_compare(c: Cmp) -> (b: bool)
    ensures
        b == is_zero_cmp(c),
{
    match c {
        Cmp::ZEq | Cmp::ZNe | Cmp::ZLt | Cmp::ZGt => true,
        _ => false,
    }
}

impl Low {
    fn lit(&mut self, n: i64)
        requires
            old(self).wf(),
        ensures
            final(self).wf(),
            final(self).model() == m_push(old(self).model(), Loc::Const(n)),
    {
        self.vs.push(Loc::Const(n));  // deferred — no code
    }

    /// `N pick` — copy the item at depth N to TOS (0 = dup, 1 = over).
    fn pick_n(&mut self, n: u32) -> (ok: bool)
        requires
            old(self).wf(),
        ensures
            final(self).wf(),
            final(self).reached(ok, m_pick(old(self).model(), n as int)),
    {
        let n = n as usize;
        if n > usize::MAX - 2 {
            return false;
        }
        if !self.reserve(n + 2) {
            return false;
        }
        if !self.ensure(n + 1) {
            return false;
        }
        let src = self.vs[self.vs.len() - 1 - n];
        match self.copy_of(src) {
            Some(c) => {
                self.vs.push(c);
                true
            },
            None => false,
        }
    }

    /// `N roll` — move the item at depth N to TOS (1 = swap, 2 = rot).
    fn roll_n(&mut self, n: u32) -> (ok: bool)
        requires
            old(self).wf(),
        ensures
            final(self).wf(),
            final(self).reached(ok, m_roll(old(self).model(), n as int)),
    {
        if n == 0 {
            return true;  // identity
        }
        let n = n as usize;
        if n > usize::MAX - 1 {
            return false;
        }
        if !self.reserve(n + 1) {
            return false;
        }
        if !self.ensure(n + 1) {
            return false;
        }
        let idx = self.vs.len() - 1 - n;
        let item = self.vs.remove(idx);
        self.vs.push(item);  // pure move — no code
        true
    }

    fn stk(&mut self, w: Stk) -> (ok: bool)
        requires
            old(self).wf(),
        ensures
            final(self).wf(),
            final(self).reached(ok, m_stk(old(self).model(), w)),
    {
        match w {
            Stk::Dup => self.pick_n(0),
            Stk::Over => self.pick_n(1),
            Stk::Swap => self.roll_n(1),
            Stk::Rot => self.roll_n(2),
            Stk::Drop => {
                if !self.ensure(1) {
                    return false;
                }
                let t = self.vs.pop().unwrap();
                self.free_loc(t);
                true
            },
            Stk::Nip => {
                if !self.ensure(2) {
                    return false;
                }
                let n = self.vs.len();
                let u = self.vs.remove(n - 2);
                self.free_loc(u);
                true
            },
            Stk::MinusRot => {
                // ( a b c -- c a b )
                if !self.ensure(3) {
                    return false;
                }
                let n = self.vs.len();
                let c = self.vs.pop().unwrap();
                self.vs.insert(n - 3, c);
                true
            },
            Stk::Tuck => {
                // ( a b -- b a b )
                if !self.reserve(3) {
                    return false;
                }
                if !self.ensure(2) {
                    return false;
                }
                let n = self.vs.len();
                let top = self.vs[n - 1];
                match self.copy_of(top) {
                    Some(c) => {
                        self.vs.insert(n - 2, c);
                        true
                    },
                    None => false,
                }
            },
        }
    }

    /// `add_imm`/`sub_imm` of a single operand by constant `k` (Add/Sub only):
    /// `Some(None)` when there is no immediate form (nothing done).
    fn imm_bin_to(&mut self, operand: Loc, op: Bin, k: i64) -> (rd: Option<Option<u32>>)
        requires
            old(self).wf(),
        ensures
            final(self).wf(),
            final(self).reached_at(rd, m_imm_bin_to(old(self).model(), operand, op, k)),
    {
        match imm_form_of(op, k) {
            None => Some(None),
            Some((add, imm)) => {
                let r = match self.to_reg(operand) {
                    Some(r) => r,
                    None => return None,
                };
                self.out.push(
                    if add {
                        add_imm(r, r, imm)
                    } else {
                        sub_imm(r, r, imm)
                    },
                );
                Some(Some(r))
            },
        }
    }

    /// The general binary case: `a op b` into a's register, b's freed.
    fn bin_regs(&mut self, op: Bin, a: Loc, b: Loc) -> (ok: bool)
        requires
            old(self).wf(),
        ensures
            final(self).wf(),
            final(self).reached(ok, m_bin_regs(old(self).model(), op, a, b)),
    {
        let ra = match self.to_reg(a) {
            Some(r) => r,
            None => return false,
        };
        let rb = match self.to_reg(b) {
            Some(r) => r,
            None => return false,
        };
        self.out.push(bin_instr(op, ra, ra, rb));
        self.freer(rb);  // b consumed
        self.vs.push(Loc::Reg(ra));
        true
    }

    fn bin(&mut self, op: Bin) -> (ok: bool)
        requires
            old(self).wf(),
        ensures
            final(self).wf(),
            final(self).reached(ok, m_bin(old(self).model(), op)),
    {
        if !self.reserve(4) {
            return false;
        }
        if !self.ensure(2) {
            return false;
        }
        let b = self.vs.pop().unwrap();  // TOS
        let a = self.vs.pop().unwrap();  // NOS
        // const-fold
        if let Loc::Const(x) = a {
            if let Loc::Const(y) = b {
                self.vs.push(Loc::Const(op.eval(x, y)));
                return true;
            }
        }
        // immediate-fold: result = a <op> b
        if let Loc::Const(k) = b {
            match self.imm_bin_to(a, op, k) {
                None => return false,
                Some(Some(rd)) => {
                    self.vs.push(Loc::Reg(rd));
                    return true;
                },
                Some(None) => {},
            }
        }
        if let Loc::Const(k) = a {
            if op == Bin::Add {
                match self.imm_bin_to(b, Bin::Add, k) {
                    None => return false,
                    Some(Some(rd)) => {
                        self.vs.push(Loc::Reg(rd));
                        return true;
                    },
                    Some(None) => {},
                }
            }
        }
        // general: a <op> b into a register (reuse a's)
        self.bin_regs(op, a, b)
    }

    /// `TOS op= k` (reduced `Lit k, Bin`).
    fn imm_bin(&mut self, op: Bin, k: i64) -> (ok: bool)
        requires
            old(self).wf(),
        ensures
            final(self).wf(),
            final(self).reached(ok, m_imm_bin(old(self).model(), op, k)),
    {
        if !self.reserve(2) {
            return false;
        }
        if !self.ensure(1) {
            return false;
        }
        let a = self.vs.pop().unwrap();
        if let Loc::Const(x) = a {
            self.vs.push(Loc::Const(op.eval(x, k)));
            return true;
        }
        match self.imm_bin_to(a, op, k) {
            None => return false,
            Some(Some(rd)) => {
                self.vs.push(Loc::Reg(rd));
                return true;
            },
            Some(None) => {},
        }
        let r = match self.to_reg(a) {
            Some(r) => r,
            None => return false,
        };
        let t = match self.alloc_reg() {
            Some(t) => t,
            None => return false,
        };
        load_imm64(t, k as u64, &mut self.out);
        self.out.push(bin_instr(op, r, r, t));
        self.freer(t);
        self.vs.push(Loc::Reg(r));
        true
    }

    /// `dup` then `op` — the value combined with itself (reduced `Dup, Bin`).
    fn dup_bin(&mut self, op: Bin) -> (ok: bool)
        requires
            old(self).wf(),
        ensures
            final(self).wf(),
            final(self).reached(ok, m_dup_bin(old(self).model(), op)),
    {
        if !self.reserve(2) {
            return false;
        }
        if !self.ensure(1) {
            return false;
        }
        let a = self.vs.pop().unwrap();
        if let Loc::Const(x) = a {
            self.vs.push(Loc::Const(op.eval(x, x)));
            return true;
        }
        match op {
            Bin::Add | Bin::Mul => {
                let r = match self.to_reg(a) {
                    Some(r) => r,
                    None => return false,
                };
                self.out.push(bin_instr(op, r, r, r));  // 2a or a*a
                self.vs.push(Loc::Reg(r));
            },
            Bin::And | Bin::Or => self.vs.push(a),  // a&a = a|a = a
            Bin::Sub | Bin::Xor => {
                self.free_loc(a);
                self.vs.push(Loc::Const(0));  // a-a = a^a = 0
            },
        }
        true
    }
}


proof fn lemma_lc_find(c: Seq<Cached>, i: u32)
    ensures
        lc_find(c, i) matches Some(k) ==> 0 <= k < c.len() && c[k].0 == i,
    decreases c.len(),
{
    if c.len() > 0 && c.last().0 != i {
        lemma_lc_find(c.drop_last(), i);
    }
}

/// Where local `i` sits in the cache, if it does.
fn cache_find(c: &Vec<Cached>, i: u32) -> (k: Option<usize>)
    ensures
        match k {
            Some(k) => lc_find(c@, i) == Some(k as int) && k < c@.len() && c@[k as int].0 == i,
            None => lc_find(c@, i) is None,
        },
{
    let mut k: usize = c.len();
    proof {
        assert(c@.take(k as int) =~= c@);
    }
    while k > 0
        invariant
            k <= c@.len(),
            lc_find(c@, i) == lc_find(c@.take(k as int), i),
        decreases k,
    {
        proof {
            assert(c@.take(k as int).drop_last() =~= c@.take(k as int - 1));
        }
        if c[k - 1].0 == i {
            proof {
                lemma_lc_find(c@, i);
            }
            return Some(k - 1);
        }
        k = k - 1;
    }
    None
}

/// `true` when `x` occurs in `v`.
fn holds_u32(v: &Vec<u32>, x: u32) -> (b: bool)
    ensures
        b == v@.contains(x),
{
    let mut k: usize = 0;
    while k < v.len()
        invariant
            k <= v@.len(),
            forall|j: int| 0 <= j < k ==> v@[j] != x,
        decreases v@.len() - k,
    {
        if v[k] == x {
            return true;
        }
        k = k + 1;
    }
    false
}

impl Low {
    fn cmp(&mut self, c: Cmp) -> (ok: bool)
        requires
            old(self).wf(),
        ensures
            final(self).wf(),
            final(self).reached(ok, m_compare(old(self).model(), c)),
    {
        if !self.reserve(4) {
            return false;
        }
        if is_zero_compare(c) {
            if !self.ensure(1) {
                return false;
            }
            let a = self.vs.pop().unwrap();
            if let Loc::Const(n) = a {
                self.vs.push(Loc::Const(c.eval_zero(n)));  // fold `n 0=` etc.
                return true;
            }
            let r = match self.to_reg(a) {
                Some(r) => r,
                None => return false,
            };
            let cond = zero_cond_of(c);
            self.out.push(cmp_imm(r, 0));
            self.out.push(csetm(r, cond));
            self.vs.push(Loc::Reg(r));
            true
        } else {
            if !self.ensure(2) {
                return false;
            }
            let b = self.vs.pop().unwrap();
            let a = self.vs.pop().unwrap();
            // const-fold a fully-constant comparison
            if let Loc::Const(x) = a {
                if let Loc::Const(y) = b {
                    self.vs.push(Loc::Const(c.eval(x, y)));
                    return true;
                }
            }
            // immediate compare against a constant TOS: `a <cmp> k` → cmp ra,#k
            if let Loc::Const(k) = b {
                if 0 <= k && k <= 4095 {
                    let ra = match self.to_reg(a) {
                        Some(r) => r,
                        None => return false,
                    };
                    self.out.push(cmp_imm(ra, imm12_of(k)));
                    self.out.push(csetm(ra, c.cond()));
                    self.vs.push(Loc::Reg(ra));
                    return true;
                }
            }
            // immediate compare against a constant NOS: `k <cmp> b` → cmp rb,#k
            // with the condition swapped (b on the left).
            if let Loc::Const(k) = a {
                if 0 <= k && k <= 4095 {
                    let rb = match self.to_reg(b) {
                        Some(r) => r,
                        None => return false,
                    };
                    self.out.push(cmp_imm(rb, imm12_of(k)));
                    self.out.push(csetm(rb, c.swapped_cond()));
                    self.vs.push(Loc::Reg(rb));
                    return true;
                }
            }
            let ra = match self.to_reg(a) {
                Some(r) => r,
                None => return false,
            };
            let rb = match self.to_reg(b) {
                Some(r) => r,
                None => return false,
            };
            self.out.push(cmp_reg(ra, rb));
            self.out.push(csetm(ra, c.cond()));
            self.freer(rb);
            self.vs.push(Loc::Reg(ra));
            true
        }
    }

    /// min / max / umin / umax — branchless via cmp + csel, const-folded.
    fn sel(&mut self, w: Sel) -> (ok: bool)
        requires
            old(self).wf(),
        ensures
            final(self).wf(),
            final(self).reached(ok, m_sel(old(self).model(), w)),
    {
        if !self.reserve(3) {
            return false;
        }
        if !self.ensure(2) {
            return false;
        }
        let b = self.vs.pop().unwrap();
        let a = self.vs.pop().unwrap();
        if let Loc::Const(x) = a {
            if let Loc::Const(y) = b {
                self.vs.push(Loc::Const(w.eval(x, y)));
                return true;
            }
        }
        let ra = match self.to_reg(a) {
            Some(r) => r,
            None => return false,
        };
        let rb = match self.to_reg(b) {
            Some(r) => r,
            None => return false,
        };
        self.out.push(cmp_reg(ra, rb));  // a ? b
        self.out.push(csel(ra, ra, rb, w.cond()));  // keep a when cond, else b
        self.freer(rb);
        self.vs.push(Loc::Reg(ra));
        true
    }

    fn mem(&mut self, w: Mem) -> (ok: bool)
        requires
            old(self).wf(),
        ensures
            final(self).wf(),
            final(self).reached(ok, m_mem(old(self).model(), w)),
    {
        if !self.reserve(3) {
            return false;
        }
        match w {
            Mem::Fetch | Mem::CFetch => {
                if !self.ensure(1) {
                    return false;
                }
                let a = self.vs.pop().unwrap();
                self.note_fetch(a);
                let r = match self.to_reg(a) {
                    Some(r) => r,
                    None => return false,
                };
                self.out.push(
                    if w == Mem::Fetch {
                        ldr0(r, r)
                    } else {
                        ldrb0(r, r)
                    },
                );
                self.m.mem_fetches = self.m.mem_fetches.wrapping_add(1);
                self.vs.push(Loc::Reg(r));
                true
            },
            Mem::Store | Mem::CStore => {
                // ( x addr -- )
                if !self.ensure(2) {
                    return false;
                }
                let addr = self.vs.pop().unwrap();
                let x = self.vs.pop().unwrap();
                let raddr = match self.to_reg(addr) {
                    Some(r) => r,
                    None => return false,
                };
                let rx = match self.to_reg(x) {
                    Some(r) => r,
                    None => return false,
                };
                self.out.push(
                    if w == Mem::Store {
                        str_off(rx, raddr, 0)
                    } else {
                        strb0(rx, raddr)
                    },
                );
                self.m.mem_stores = self.m.mem_stores.wrapping_add(1);
                self.freer(rx);
                self.freer(raddr);
                true
            },
        }
    }

    fn local_fetch(&mut self, i: u32) -> (ok: bool)
        requires
            old(self).wf(),
        ensures
            final(self).wf(),
            final(self).reached(ok, m_local_fetch(old(self).model(), i)),
    {
        if let Some(k) = cache_find(&self.lcache, i) {
            // resident (stored, or already loaded as a hot local) → reuse via copy
            let r = self.lcache[k].1;
            if !self.reserve(1) {
                return false;
            }
            match self.copy_of(Loc::Reg(r)) {  // mov; keeps the cache reg intact
                Some(c) => {
                    self.vs.push(c);
                    self.m.local_hits = self.m.local_hits.wrapping_add(1);
                    true
                },
                None => false,
            }
        } else if i > 536870911 {
            false
        } else if holds_u32(&self.hot_locals, i) {
            // hot read (≥2 in this run): load once into the cache, then copy
            if !self.reserve(2) {
                return false;
            }
            let rc = match self.alloc_reg() {
                Some(r) => r,
                None => return false,
            };
            self.out.push(ldr_off(rc, LP, i * 8));
            self.m.local_loads = self.m.local_loads.wrapping_add(1);
            self.cache_put(i, rc, false);  // clean — frame still matches
            match self.copy_of(Loc::Reg(rc)) {
                Some(c) => {
                    self.vs.push(c);
                    true
                },
                None => false,
            }
        } else {
            // cold read (once): load straight to the data stack, no caching
            if !self.reserve(1) {
                return false;
            }
            let r = match self.alloc_reg() {
                Some(r) => r,
                None => return false,
            };
            self.out.push(ldr_off(r, LP, i * 8));
            self.m.local_loads = self.m.local_loads.wrapping_add(1);
            self.vs.push(Loc::Reg(r));
            true
        }
    }

    /// Cache local `i` in register `r`; the entry it replaces, if any.
    fn cache_put(&mut self, i: u32, r: u32, dirty: bool) -> (prev: Option<Cached>)
        requires
            old(self).wf(),
        ensures
            final(self).wf(),
            final(self).model() == (LowModel {
                lcache: lc_insert(old(self).lcache@, i, r, dirty),
                ..old(self).model()
            }),
            prev == (match lc_find(old(self).lcache@, i) {
                Some(k) => Some(old(self).lcache@[k]),
                None => None,
            }),
    {
        match cache_find(&self.lcache, i) {
            Some(k) => {
                let prev = self.lcache[k];
                self.lcache.set(k, (i, r, dirty));
                Some(prev)
            },
            None => {
                self.lcache.push((i, r, dirty));
                None
            },
        }
    }

    fn local_store(&mut self, i: u32) -> (ok: bool)
        requires
            old(self).wf(),
        ensures
            final(self).wf(),
            final(self).reached(ok, m_local_store(old(self).model(), i)),
    {
        if !self.reserve(2) {
            return false;
        }
        if !self.ensure(1) {
            return false;
        }
        let a = self.vs.pop().unwrap();
        let r = match self.to_reg(a) {  // value now in r; the cache takes ownership (dirty)
            Some(r) => r,
            None => return false,
        };
        if let Some(prev) = self.cache_put(i, r, true) {
            if prev.1 != r {
                self.freer(prev.1);  // a superseded cached value
            }
        }
        // store deferred — flushed to the frame at the next barrier (spill_locals)
        true
    }

    /// `OpenLocals` (inline IR): allocate a nested LP sub-frame and pop the input
    /// locals off the data stack into it.
    fn open_locals(&mut self, total: u32, inputs: u32) -> (ok: bool)
        requires
            old(self).wf(),
        ensures
            final(self).wf(),
            final(self).reached(ok, m_open_locals(old(self).model(), total, inputs)),
    {
        if !self.settle() {  // canonical data stack for the input pops; spills locals
            return false;
        }
        if total > 0 {
            if total > 536870911 || (inputs > 0 && inputs - 1 > 536870911) {
                return false;
            }
            let ghost base = self.out@;
            let ghost s1 = self.model();
            self.out.push(sub_imm(LP, LP, total * 8));
            let mut k: u32 = inputs;
            while k > 0
                invariant
                    self.wf(),
                    self.model() == (LowModel { code: self.out@, ..s1 }),
                    k <= inputs,
                    inputs == 0 || (inputs - 1) * 8 <= u32::MAX,
                    self.out@ + open_pops(k as int) == base + (seq![sub_imm_w(LP, LP, (total * 8) as u32)]
                        + open_pops(inputs as int)),
                decreases k,
            {
                let i = k - 1;
                let ghost before = self.out@;
                self.out.push(str_off(TOS, LP, i * 8));  // local[i] = TOS
                self.out.push(ldr_post(TOS, DSP, 8));  // raise NOS into TOS
                proof {
                    assert(open_pops(k as int) == seq![str_off_w(TOS, LP, ((k - 1) * 8) as u32), ldr_post_w(TOS, DSP, 8)]
                        + open_pops(k - 1));
                    assert(self.out@ + open_pops(i as int) =~= before + open_pops(k as int));
                }
                k = i;
            }
            assert(self.out@ =~= base + (seq![sub_imm_w(LP, LP, (total * 8) as u32)] + open_pops(inputs as int)));
        }
        true
    }

    /// `CloseLocals` (inline IR): the locals are dead — drop the cache and pop the
    /// sub-frame off LP.
    fn close_locals(&mut self, total: u32) -> (ok: bool)
        requires
            old(self).wf(),
        ensures
            final(self).wf(),
            final(self).reached(ok, m_close_locals(old(self).model(), total)),
    {
        if total > 536870911 {
            return false;
        }
        let ghost used0 = self.used@;
        let ghost c = self.lcache@;
        let mut k: usize = 0;
        while k < self.lcache.len()
            invariant
                self.wf(),
                self.lcache@ == c,
                k <= c.len(),
                self.used@ == free_cached(used0, c.take(k as int)),
                self.out@ == old(self).out@,
                self.vs@ == old(self).vs@,
                self.m == old(self).m,
                self.fvs@ == old(self).fvs@,
                self.fused@ == old(self).fused@,
                self.consumed == old(self).consumed,
                self.fconsumed == old(self).fconsumed,
                self.fetched@ == old(self).fetched@,
                self.hot@ == old(self).hot@,
                used0 == old(self).used@,
                c == old(self).lcache@,
            decreases c.len() - k,
        {
            proof {
                assert(c.take(k as int + 1).drop_last() =~= c.take(k as int));
            }
            let r = self.lcache[k].1;
            set_flag(&mut self.used, r, false);  // dead at frame close; no spill
            k = k + 1;
        }
        proof {
            assert(c.take(k as int) =~= c);
        }
        self.lcache.clear();
        if total > 0 {
            self.out.push(add_imm(LP, LP, total * 8));
        }
        true
    }

    fn ivar_fetch(&mut self, off: u32) -> (ok: bool)
        requires
            old(self).wf(),
        ensures
            final(self).wf(),
            final(self).reached(ok, m_ivar_fetch(old(self).model(), off)),
    {
        if !self.reserve(1) {
            return false;
        }
        let r = match self.alloc_reg() {
            Some(r) => r,
            None => return false,
        };
        self.out.push(ldr_off(r, UP, USER_SELF));  // r = SELF
        self.out.push(ldr_off(r, r, off));  // r = [SELF + off]
        self.vs.push(Loc::Reg(r));
        true
    }

    fn ivar_store(&mut self, off: u32) -> (ok: bool)
        requires
            old(self).wf(),
        ensures
            final(self).wf(),
            final(self).reached(ok, m_ivar_store(old(self).model(), off)),
    {
        if !self.reserve(2) {
            return false;
        }
        if !self.ensure(1) {
            return false;
        }
        let a = self.vs.pop().unwrap();
        let rv = match self.to_reg(a) {
            Some(r) => r,
            None => return false,
        };
        let rs = match self.alloc_reg() {
            Some(r) => r,
            None => return false,
        };
        self.out.push(ldr_off(rs, UP, USER_SELF));
        self.out.push(str_off(rv, rs, off));
        self.freer(rv);
        self.freer(rs);
        true
    }

    fn self_push(&mut self) -> (ok: bool)
        requires
            old(self).wf(),
        ensures
            final(self).wf(),
            final(self).reached(ok, m_self_push(old(self).model())),
    {
        if !self.reserve(1) {
            return false;
        }
        let r = match self.alloc_reg() {
            Some(r) => r,
            None => return false,
        };
        self.out.push(ldr_off(r, UP, USER_SELF));
        self.vs.push(Loc::Reg(r));
        true
    }

    fn flit(&mut self, bits: i64) -> (ok: bool)
        requires
            old(self).wf(),
        ensures
            final(self).wf(),
            final(self).reached(ok, m_flit(old(self).model(), bits)),
    {
        let g = match self.gp_temp() {
            Some(g) => g,
            None => return false,
        };
        load_imm64(g, bits as u64, &mut self.out);
        let d = match self.falloc() {
            Some(d) => d,
            None => return false,
        };
        self.out.push(fmov_dx(d, g));  // d = bits reinterpreted as double
        set_flag(&mut self.used, g, false);
        self.fvs.push(d);
        true
    }

    fn fbin(&mut self, op: FBin) -> (ok: bool)
        requires
            old(self).wf(),
        ensures
            final(self).wf(),
            final(self).reached(ok, m_fbin(old(self).model(), op)),
    {
        if !self.fensure(2) {
            return false;
        }
        let ghost f1 = self.fvs@;
        let b = self.fvs.pop().unwrap();
        let a = self.fvs.pop().unwrap();
        self.out.push(fbin_instr(op, a, a, b));
        set_flag(&mut self.fused, b, false);
        self.fvs.push(a);
        assert(self.fvs@ =~= f1.drop_last());
        true
    }

    fn fun(&mut self, op: FUn) -> (ok: bool)
        requires
            old(self).wf(),
        ensures
            final(self).wf(),
            final(self).reached(ok, m_fun(old(self).model(), op)),
    {
        if !self.fensure(1) {
            return false;
        }
        let a = self.fvs[self.fvs.len() - 1];
        self.out.push(fun_instr(op, a, a));
        true
    }

    fn fstk(&mut self, w: Stk) -> (ok: bool)
        requires
            old(self).wf(),
        ensures
            final(self).wf(),
            final(self).reached(ok, m_fstk(old(self).model(), w)),
    {
        match w {
            Stk::Dup => {
                if !self.fensure(1) {
                    return false;
                }
                let top = self.fvs[self.fvs.len() - 1];
                let d = match self.falloc() {
                    Some(d) => d,
                    None => return false,
                };
                self.out.push(fmov_dd(d, top));
                self.fvs.push(d);
                true
            },
            Stk::Drop => {
                if !self.fensure(1) {
                    return false;
                }
                let r = self.fvs.pop().unwrap();
                set_flag(&mut self.fused, r, false);
                true
            },
            Stk::Swap => {
                if !self.fensure(2) {
                    return false;
                }
                let n = self.fvs.len();
                let x = self.fvs[n - 1];
                let y = self.fvs[n - 2];
                self.fvs.set(n - 1, y);
                self.fvs.set(n - 2, x);
                true
            },
            Stk::Over => {
                if !self.fensure(2) {
                    return false;
                }
                let n = self.fvs.len();
                let u = self.fvs[n - 2];
                let d = match self.falloc() {
                    Some(d) => d,
                    None => return false,
                };
                self.out.push(fmov_dd(d, u));
                self.fvs.push(d);
                true
            },
            _ => true,  // other motions unused for FP
        }
    }
}


/// One more token of a run: the run's prefix steps by it, and where that step
/// fails the whole run fails.
proof fn lemma_run_next(s0: LowModel, toks: Seq<Tok>, k: int, s1: LowModel)
    requires
        0 <= k < toks.len(),
        m_run(s0, toks.take(k)) == Some(s1),
    ensures
        m_run(s0, toks.take(k + 1)) == m_tok(s1, toks[k]),
        m_tok(s1, toks[k]) is None ==> m_run(s0, toks) is None,
{
    assert(toks.take(k + 1).drop_last() =~= toks.take(k));
    if m_run(s0, toks) is Some {
        lemma_run_prefix(s0, toks, k + 1);
    }
}

proof fn lemma_run_prefix(s: LowModel, toks: Seq<Tok>, k: int)
    requires
        0 <= k <= toks.len(),
        m_run(s, toks) is Some,
    ensures
        m_run(s, toks.take(k)) is Some,
    decreases toks.len(),
{
    if k < toks.len() {
        lemma_run_prefix(s, toks.drop_last(), k);
        assert(toks.drop_last().take(k) =~= toks.take(k));
    } else {
        assert(toks.take(k) =~= toks);
    }
}

proof fn lemma_fetch_seen(toks: Seq<Tok>, i: u32)
    requires
        fetch_count(toks, i) > 0,
    ensures
        exists|p: int| 0 <= p < toks.len() && toks[p] == Tok::LocalFetch(i),
    decreases toks.len(),
{
    if toks.last() != Tok::LocalFetch(i) {
        lemma_fetch_seen(toks.drop_last(), i);
        let p = choose|p: int| 0 <= p < toks.drop_last().len() && toks.drop_last()[p] == Tok::LocalFetch(i);
        assert(toks[p] == Tok::LocalFetch(i));
    } else {
        assert(toks[toks.len() - 1] == Tok::LocalFetch(i));
    }
}

/// How often local `i` is read in `toks`.
fn count_fetches(toks: &[Tok], i: u32) -> (c: usize)
    ensures
        c == fetch_count(toks@, i),
{
    let mut c: usize = 0;
    let mut k: usize = 0;
    while k < toks.len()
        invariant
            k <= toks@.len(),
            c <= k,
            c == fetch_count(toks@.take(k as int), i),
        decreases toks@.len() - k,
    {
        proof {
            assert(toks@.take(k as int + 1).drop_last() =~= toks@.take(k as int));
        }
        if toks[k] == Tok::LocalFetch(i) {
            c = c + 1;
        }
        k = k + 1;
    }
    proof {
        assert(toks@.take(k as int) =~= toks@);
    }
    c
}

/// Hotness pre-scan: the locals read at least twice in this run are worth keeping
/// in a register (cold single-reads load on demand — no caching, no pessimization).
fn hot_of(toks: &[Tok]) -> (hot: Vec<u32>)
    ensures
        forall|i: u32| hot@.contains(i) <==> hot_set(toks@).contains(i),
{
    let mut hot: Vec<u32> = Vec::new();
    let mut k: usize = 0;
    while k < toks.len()
        invariant
            k <= toks@.len(),
            forall|x: int|
                0 <= x < hot@.len() ==> fetch_count(toks@, #[trigger] hot@[x]) >= 2,
            forall|p: int|
                0 <= p < k ==> match #[trigger] toks@[p] {
                    Tok::LocalFetch(j) => fetch_count(toks@, j) >= 2 ==> hot@.contains(j),
                    _ => true,
                },
        decreases toks@.len() - k,
    {
        let ghost h0 = hot@;
        if let Tok::LocalFetch(i) = toks[k] {
            if !holds_u32(&hot, i) && count_fetches(toks, i) >= 2 {
                hot.push(i);
                proof {
                    assert(hot@[hot@.len() - 1] == i);
                    assert forall|j: u32| h0.contains(j) implies hot@.contains(j) by {
                        let x = choose|x: int| 0 <= x < h0.len() && h0[x] == j;
                        assert(hot@[x] == j);
                    }
                }
            }
        }
        k = k + 1;
    }
    proof {
        assert forall|i: u32| hot@.contains(i) <==> hot_set(toks@).contains(i) by {
            if hot@.contains(i) {
                let x = choose|x: int| 0 <= x < hot@.len() && hot@[x] == i;
                assert(fetch_count(toks@, hot@[x]) >= 2);
            }
            if fetch_count(toks@, i) >= 2 {
                lemma_fetch_seen(toks@, i);
                let p = choose|p: int| 0 <= p < toks@.len() && toks@[p] == Tok::LocalFetch(i);
                assert(match toks@[p] {
                    Tok::LocalFetch(j) => fetch_count(toks@, j) >= 2 ==> hot@.contains(j),
                    _ => true,
                });
            }
        }
    }
    hot
}

/// A flag table with only register `keep` set.
fn flags_with(keep: usize) -> (flags: Vec<bool>)
    requires
        keep < 32,
    ensures
        flags@ == Seq::new(32, |i: int| i == keep),
{
    let mut flags: Vec<bool> = Vec::new();
    let mut k: usize = 0;
    while k < 32
        invariant
            k <= 32,
            flags@.len() == k,
            forall|j: int| 0 <= j < k ==> flags@[j] == (j == keep),
        decreases 32 - k,
    {
        flags.push(k == keep);
        k = k + 1;
    }
    assert(flags@ =~= Seq::new(32, |i: int| i == keep));
    flags
}

impl Low {
    /// The incoming canonical form has TOS in x0 and FTOS in d8.
    fn new(out: Vec<u32>, hot_locals: Vec<u32>, toks: Ghost<Seq<Tok>>) -> (low: Low)
        requires
            forall|i: u32| hot_locals@.contains(i) <==> hot_set(toks@).contains(i),
        ensures
            low.wf(),
            low.model() == m_start(out@, toks@),
    {
        let low = Low {
            out,
            vs: vec![Loc::Reg(TOS)],
            used: flags_with(0),
            consumed: 0,
            fvs: vec![FTOS],
            fused: flags_with(8),
            fconsumed: 0,
            m: Metrics::default(),
            fetched: Vec::new(),
            lcache: Vec::new(),
            hot_locals,
            hot: Ghost(hot_set(toks@)),
        };
        assert(low.vs@ =~= seq![Loc::Reg(TOS)]);
        assert(low.fvs@ =~= seq![FTOS]);
        assert(low.fetched@ =~= Seq::<i64>::empty());
        assert(low.lcache@ =~= Seq::<Cached>::empty());
        low
    }

    /// Lower one token.
    #[verifier::rlimit(50)]
    #[verifier::spinoff_prover]
    fn step(&mut self, t: Tok) -> (ok: bool)
        requires
            old(self).wf(),
        ensures
            final(self).wf(),
            final(self).reached(ok, m_tok(old(self).model(), t)),
    {
        match t {
            Tok::Lit(n) => {
                self.lit(n);
                true
            },
            Tok::Bin(op) => self.bin(op),
            Tok::ImmBin(op, k) => self.imm_bin(op, k),
            Tok::DupBin(op) => self.dup_bin(op),
            // Stack-motion tokens: count, and flag the ones that emit no code
            // (the "everything is pick" payoff — pure virtual-stack reindexing).
            Tok::Stk(w) => {
                let before = self.out.len();
                if !self.stk(w) {
                    return false;
                }
                self.m.stack_ops = self.m.stack_ops.wrapping_add(1);
                if self.out.len() == before {
                    self.m.stack_ops_free = self.m.stack_ops_free.wrapping_add(1);
                }
                true
            },
            Tok::PickN(n) => {
                let before = self.out.len();
                if !self.pick_n(n) {
                    return false;
                }
                self.m.stack_ops = self.m.stack_ops.wrapping_add(1);
                if self.out.len() == before {
                    self.m.stack_ops_free = self.m.stack_ops_free.wrapping_add(1);
                }
                true
            },
            Tok::RollN(n) => {
                let before = self.out.len();
                if !self.roll_n(n) {
                    return false;
                }
                self.m.stack_ops = self.m.stack_ops.wrapping_add(1);
                if self.out.len() == before {
                    self.m.stack_ops_free = self.m.stack_ops_free.wrapping_add(1);
                }
                true
            },
            Tok::Cmp(c) => self.cmp(c),
            Tok::Sel(w) => self.sel(w),
            Tok::Mem(w) => self.mem(w),
            Tok::LocalFetch(i) => self.local_fetch(i),
            Tok::LocalStore(i) => self.local_store(i),
            Tok::OpenLocals { total, inputs } => self.open_locals(total, inputs),
            Tok::CloseLocals { total } => self.close_locals(total),
            Tok::IvarFetch(off) => self.ivar_fetch(off),
            Tok::IvarStore(off) => self.ivar_store(off),
            Tok::SelfPush => self.self_push(),
            Tok::FLit(bits) => self.flit(bits),
            Tok::FBin(op) => self.fbin(op),
            Tok::FUn(op) => self.fun(op),
            Tok::FStk(w) => {
                let before = self.out.len();
                if !self.fstk(w) {
                    return false;
                }
                self.m.stack_ops = self.m.stack_ops.wrapping_add(1);
                if self.out.len() == before {
                    self.m.stack_ops_free = self.m.stack_ops_free.wrapping_add(1);
                }
                true
            },
            Tok::Call(xt) => {
                self.m.calls = self.m.calls.wrapping_add(1);
                if !self.settle() {
                    return false;
                }
                emit_call(xt, &mut self.out);
                true
            },
        }
    }
}

/// Lower one straight-line token run to AArch64 with the deferred virtual-stack
/// model (appended to `out`). Constants and stack motion stay virtual; code is
/// emitted only at consume/settle. Settles before each call and at the end so the
/// canonical TOS=x0 / rest-in-memory form holds at every window boundary.
/// Where the run cannot be lowered (a register pool runs dry, an offset does not
/// encode), nothing is changed and `false` comes back.
pub fn lower(toks: &[Tok], out: &mut Vec<u32>, m: &mut Metrics) -> (ok: bool)
    ensures
        ok == lowered(old(out)@, toks@) is Some,
        ok ==> final(out)@ == lowered(old(out)@, toks@)->Some_0.code,
        ok ==> *final(m) == crate::opt::merged(*old(m), lowered(old(out)@, toks@)->Some_0.m),
        !ok ==> final(out)@ == old(out)@ && *final(m) == *old(m),
{
    let hot = hot_of(toks);
    let saved = out.clone();
    let mut code: Vec<u32> = Vec::new();
    std::mem::swap(out, &mut code);
    let mut low = Low::new(code, hot, Ghost(toks@));
    let ghost s0 = low.model();
    assert(s0 == m_start(old(out)@, toks@));
    let mut k: usize = 0;
    while k < toks.len()
        invariant
            low.wf(),
            k <= toks@.len(),
            s0 == m_start(old(out)@, toks@),
            saved@ == old(out)@,
            m_run(s0, toks@.take(k as int)) == Some(low.model()),
            *m == *old(m),
        decreases toks@.len() - k,
    {
        proof {
            lemma_run_next(s0, toks@, k as int, low.model());
        }
        if !low.step(toks[k]) {
            *out = saved;
            return false;
        }
        k = k + 1;
    }
    proof {
        assert(toks@.take(k as int) =~= toks@);
    }
    if !low.settle() {
        *out = saved;
        return false;
    }
    std::mem::swap(out, &mut low.out);
    m.merge(&low.m);
    true
}


/// The scratch register a fused compare loads NOS into.
pub const FUSED_T: u32 = 9;

/// The words of a fused compare: consume the operand(s) from the canonical stack
/// (TOS = x0, NOS = [DSP]) and set the flags.
pub open spec fn fused_words(c: Cmp) -> Seq<u32> {
    if is_zero_cmp(c) {
        seq![cmp_imm_w(TOS, 0), ldr_post_w(TOS, DSP, 8)]
    } else {
        seq![
            ldr_post_w(FUSED_T, DSP, 8),
            if c == Cmp::Eq || c == Cmp::Ne {
                cmp_reg_w(TOS, FUSED_T)
            } else {
                cmp_reg_w(FUSED_T, TOS)
            },
            ldr_post_w(TOS, DSP, 8),
        ]
    }
}

/// The condition that holds after `fused_words(c)` iff the Forth comparison is true.
pub open spec fn fused_cond(c: Cmp) -> u32 {
    if is_zero_cmp(c) {
        zero_cond(c)
    } else {
        cmp_cond(c)
    }
}

/// Whether A64 condition `cond` holds after `cmp x, y` (the flags of `x - y`):
/// EQ/NE compare for equality, HS/LO/HI/LS order unsigned, GE/LT/GT/LE signed.
pub open spec fn cond_holds(cond: u32, x: i64, y: i64) -> bool {
    let (ux, uy) = (crate::opt::unsigned(x), crate::opt::unsigned(y));
    if cond == EQ {
        x == y
    } else if cond == NE {
        x != y
    } else if cond == crate::aenc::HS {
        ux >= uy
    } else if cond == crate::aenc::LO {
        ux < uy
    } else if cond == crate::aenc::HI {
        ux > uy
    } else if cond == crate::aenc::LS {
        ux <= uy
    } else if cond == crate::aenc::GE {
        x >= y
    } else if cond == LT {
        x < y
    } else if cond == GT {
        x > y
    } else if cond == crate::aenc::LE {
        x <= y
    } else {
        false
    }
}

/// The two values the `cmp` in `fused_words(c)` sets the flags from, when the
/// comparison's operands are `a` (next on the stack) and `b` (the top; the only
/// operand of a zero-compare).
pub open spec fn fused_compared(c: Cmp, a: i64, b: i64) -> (i64, i64) {
    if is_zero_cmp(c) {
        (b, 0)
    } else if c == Cmp::Eq || c == Cmp::Ne {
        (b, a)
    } else {
        (a, b)
    }
}

/// The Forth comparison `c` on `a` (next) and `b` (top) is true.
pub open spec fn forth_holds(c: Cmp, a: i64, b: i64) -> bool {
    if is_zero_cmp(c) {
        cmp_eval_zero(c, b) != 0
    } else {
        cmp_eval(c, a, b) != 0
    }
}

/// The condition a fused compare returns holds exactly when the Forth
/// comparison is true.
pub proof fn lemma_fused_cond_holds(c: Cmp, a: i64, b: i64)
    ensures
        cond_holds(fused_cond(c), fused_compared(c, a, b).0, fused_compared(c, a, b).1)
            == forth_holds(c, a, b),
{
}

/// Fused comparison for a `Cmp` immediately followed by `if`/`until`/`while`:
/// consumes the operand(s) (canonical stack: TOS=x0, NOS=[DSP]), sets the CPU
/// flags, and returns the condition code that holds iff the Forth comparison is
/// TRUE — no `-1/0` flag is materialized. The caller branches on the inverse
/// (false → branch). Assumes the rest of the run was already settled.
pub fn fused_cmp(c: Cmp, out: &mut Vec<u32>) -> (cond: u32)
    ensures
        final(out)@ == old(out)@ + fused_words(c),
        cond == fused_cond(c),
        forall|a: i64, b: i64|
            cond_holds(cond, #[trigger] fused_compared(c, a, b).0, fused_compared(c, a, b).1)
                == forth_holds(c, a, b),
{
    assert forall|a: i64, b: i64|
        cond_holds(fused_cond(c), #[trigger] fused_compared(c, a, b).0, fused_compared(c, a, b).1)
            == forth_holds(c, a, b) by {
        lemma_fused_cond_holds(c, a, b);
    }
    if is_zero_compare(c) {
        out.push(cmp_imm(TOS, 0));
        out.push(ldr_post(TOS, DSP, 8));  // drop n, raise NOS into TOS
        assert(out@ =~= old(out)@ + fused_words(c));
        zero_cond_of(c)
    } else {
        out.push(ldr_post(FUSED_T, DSP, 8));  // x9 = NOS (a)
        let (rn, rm) = match c {
            Cmp::Eq | Cmp::Ne => (TOS, FUSED_T),  // symmetric
            _ => (FUSED_T, TOS),  // a <cmp> b
        };
        out.push(cmp_reg(rn, rm));
        out.push(ldr_post(TOS, DSP, 8));  // drop b, raise next into TOS
        assert(out@ =~= old(out)@ + fused_words(c));
        c.cond()
    }
}


// ── laws of the window boundary ─────────────────────────────────────────────
/// The FP window, the cache and the data window's bookkeeping as they stand.
pub open spec fn same_fp_cache(a: LowModel, b: LowModel) -> bool {
    a.lcache == b.lcache && a.fvs == b.fvs && a.fused == b.fused && a.fconsumed == b.fconsumed
}

pub open spec fn same_data(a: LowModel, b: LowModel) -> bool {
    a.lcache == b.lcache && a.vs == b.vs && a.used == b.used && a.consumed == b.consumed
}

pub(crate) proof fn lemma_ensure_frame(s: LowModel, n: int)
    requires
        m_ensure(s, n) is Some,
    ensures
        same_fp_cache(s, m_ensure(s, n)->Some_0),
    decreases n - s.vs.len(),
{
    if s.vs.len() < n {
        let (s1, r) = m_alloc(s)->Some_0;
        let s2 = LowModel {
            code: s1.code.push(ldr_off_w(r, DSP, (s1.consumed * 8) as u32)),
            m: Metrics { stack_loads: bump(s1.m.stack_loads), ..s1.m },
            consumed: s1.consumed + 1,
            vs: s1.vs.insert(0, Loc::Reg(r)),
            ..s1
        };
        lemma_ensure_frame(s2, n);
    }
}

pub(crate) proof fn lemma_pass1_frame(s: LowModel, vs: Seq<Loc>, k: int)
    requires
        m_pass1(s, vs, k) is Some,
    ensures
        same_fp_cache(s, m_pass1(s, vs, k)->Some_0),
        m_pass1(s, vs, k)->Some_0.vs == s.vs,
    decreases k,
{
    if k > 0 {
        lemma_pass1_frame(s, vs, k - 1);
    }
}

pub(crate) proof fn lemma_pass2_frame(s: LowModel, vs: Seq<Loc>, k: int)
    requires
        m_pass2(s, vs, k) is Some,
    ensures
        same_fp_cache(s, m_pass2(s, vs, k)->Some_0),
    decreases k,
{
    if k > 0 {
        lemma_pass2_frame(s, vs, k - 1);
    }
}

pub(crate) proof fn lemma_fensure_frame(s: LowModel, n: int)
    requires
        m_fensure(s, n) is Some,
    ensures
        same_data(s, m_fensure(s, n)->Some_0),
    decreases n - s.fvs.len(),
{
    if s.fvs.len() < n {
        let (s1, r) = m_falloc_plain(s)->Some_0;
        lemma_fensure_frame(
            LowModel {
                code: s1.code.push(fldr_off_w(r, FSP, (s1.fconsumed * 8) as u32)),
                fconsumed: s1.fconsumed + 1,
                fvs: s1.fvs.insert(0, r),
                ..s1
            },
            n,
        );
    }
}

pub(crate) proof fn lemma_fpass_frame(s: LowModel, fvs: Seq<u32>, k: int)
    requires
        m_fpass(s, fvs, k) is Some,
    ensures
        same_data(s, m_fpass(s, fvs, k)->Some_0),
    decreases k,
{
    if k > 0 {
        lemma_fpass_frame(s, fvs, k - 1);
    }
}

/// The canonical form of both windows: TOS in x0, FTOS in d8, nothing pulled,
/// no register live but those two, no local cached.
pub open spec fn canonical(s: LowModel) -> bool {
    &&& s.vs == seq![Loc::Reg(TOS)]
    &&& s.consumed == 0
    &&& s.used == Seq::new(32, |i: int| i == 0)
    &&& s.fvs == seq![FTOS]
    &&& s.fconsumed == 0
    &&& s.fused == Seq::new(32, |i: int| i == 8)
    &&& s.lcache.len() == 0
}

/// Settling leaves both windows in canonical form, from any state it completes in.
pub proof fn lemma_settle_canonical(s: LowModel)
    requires
        m_settle(s) is Some,
    ensures
        canonical(m_settle(s)->Some_0),
{
    let sa = LowModel { m: Metrics { settles: bump(s.m.settles), ..s.m }, ..s };
    let s0 = m_spill_locals(sa)->Some_0;
    let s1 = if s0.vs.len() == 0 {
        m_ensure(s0, 1)->Some_0
    } else {
        s0
    };
    if s0.vs.len() == 0 {
        lemma_ensure_frame(s0, 1);
    }
    let l = s1.vs.len() as int;
    let delta = s1.consumed - (l - 1);
    let adj = adjust_words(DSP, delta)->Some_0;
    let s2 = if delta != 0 {
        LowModel { code: s1.code + adj, m: Metrics { dsp_adjusts: bump(s1.m.dsp_adjusts), ..s1.m }, ..s1 }
    } else {
        s1
    };
    lemma_pass1_frame(s2, s1.vs, l - 1);
    let s3 = m_pass1(s2, s1.vs, l - 1)->Some_0;
    lemma_pass2_frame(m_tos_to_x0(s3, s1.vs[l - 1]), s1.vs, l - 1);
    let d = m_settle_data(sa)->Some_0;
    assert(d.lcache.len() == 0);
    // the float side
    let f1 = if d.fvs.len() == 0 {
        m_fensure(d, 1)->Some_0
    } else {
        d
    };
    if d.fvs.len() == 0 {
        lemma_fensure_frame(d, 1);
    }
    let fl = f1.fvs.len() as int;
    let fadj = adjust_words(FSP, f1.fconsumed - (fl - 1))->Some_0;
    lemma_fpass_frame(m_emit_seq(f1, fadj), f1.fvs, fl - 1);
}

/// Every run ends with both windows canonical, as the next run (or the code after
/// the run) expects.
pub proof fn lemma_lowered_canonical(code: Seq<u32>, toks: Seq<Tok>)
    requires
        lowered(code, toks) is Some,
    ensures
        canonical(lowered(code, toks)->Some_0),
{
    lemma_settle_canonical(m_run(m_start(code, toks), toks)->Some_0);
}

/// A call is made from the canonical form: the words of a `Call` token follow a
/// settle.
pub proof fn lemma_call_canonical(s: LowModel, xt: u64)
    requires
        m_tok(s, Tok::Call(xt)) is Some,
    ensures
        canonical(m_tok(s, Tok::Call(xt))->Some_0),
{
    lemma_settle_canonical(LowModel { m: Metrics { calls: bump(s.m.calls), ..s.m }, ..s });
}


// ── the lowerer only appends code ───────────────────────────────────────────
/// `b`'s code is `a`'s code with words appended.
pub open spec fn grows(a: LowModel, b: LowModel) -> bool {
    &&& a.code.len() <= b.code.len()
    &&& forall|i: int| 0 <= i < a.code.len() ==> #[trigger] b.code[i] == a.code[i]
}

pub broadcast proof fn lemma_ensure_grows(s: LowModel, n: int)
    requires
        #[trigger] m_ensure(s, n) is Some,
    ensures
        grows(s, m_ensure(s, n)->Some_0),
    decreases n - s.vs.len(),
{
    if s.vs.len() < n {
        let (s1, r) = m_alloc(s)->Some_0;
        let s2 = LowModel {
            code: s1.code.push(ldr_off_w(r, DSP, (s1.consumed * 8) as u32)),
            m: Metrics { stack_loads: bump(s1.m.stack_loads), ..s1.m },
            consumed: s1.consumed + 1,
            vs: s1.vs.insert(0, Loc::Reg(r)),
            ..s1
        };
        lemma_ensure_grows(s2, n);
    }
}

pub broadcast proof fn lemma_fensure_grows(s: LowModel, n: int)
    requires
        #[trigger] m_fensure(s, n) is Some,
    ensures
        grows(s, m_fensure(s, n)->Some_0),
    decreases n - s.fvs.len(),
{
    if s.fvs.len() < n {
        let (s1, r) = m_falloc_plain(s)->Some_0;
        lemma_fensure_grows(
            LowModel {
                code: s1.code.push(fldr_off_w(r, FSP, (s1.fconsumed * 8) as u32)),
                fconsumed: s1.fconsumed + 1,
                fvs: s1.fvs.insert(0, r),
                ..s1
            },
            n,
        );
    }
}

pub broadcast proof fn lemma_spill_all_grows(s: LowModel, c: Seq<Cached>)
    requires
        #[trigger] m_spill_all(s, c) is Some,
    ensures
        grows(s, m_spill_all(s, c)->Some_0),
    decreases c.len(),
{
    if c.len() > 0 {
        lemma_spill_all_grows(s, c.drop_last());
    }
}

pub broadcast proof fn lemma_pass1_grows(s: LowModel, vs: Seq<Loc>, k: int)
    requires
        #[trigger] m_pass1(s, vs, k) is Some,
    ensures
        grows(s, m_pass1(s, vs, k)->Some_0),
    decreases k,
{
    if k > 0 {
        lemma_pass1_grows(s, vs, k - 1);
    }
}

pub broadcast proof fn lemma_pass2_grows(s: LowModel, vs: Seq<Loc>, k: int)
    requires
        #[trigger] m_pass2(s, vs, k) is Some,
    ensures
        grows(s, m_pass2(s, vs, k)->Some_0),
    decreases k,
{
    if k > 0 {
        lemma_pass2_grows(s, vs, k - 1);
    }
}

pub broadcast proof fn lemma_fpass_grows(s: LowModel, fvs: Seq<u32>, k: int)
    requires
        #[trigger] m_fpass(s, fvs, k) is Some,
    ensures
        grows(s, m_fpass(s, fvs, k)->Some_0),
    decreases k,
{
    if k > 0 {
        lemma_fpass_grows(s, fvs, k - 1);
    }
}

pub broadcast group group_grows {
    lemma_ensure_grows,
    lemma_fensure_grows,
    lemma_spill_all_grows,
    lemma_pass1_grows,
    lemma_pass2_grows,
    lemma_fpass_grows,
}

pub broadcast proof fn lemma_settle_data_grows(s: LowModel)
    requires
        #[trigger] m_settle_data(s) is Some,
    ensures
        grows(s, m_settle_data(s)->Some_0),
{
    broadcast use group_grows;
}

pub broadcast proof fn lemma_fsettle_grows(s: LowModel)
    requires
        #[trigger] m_fsettle(s) is Some,
    ensures
        grows(s, m_fsettle(s)->Some_0),
{
    broadcast use group_grows;
}


pub broadcast proof fn lemma_reserve_grows(s: LowModel, n: int)
    requires
        #[trigger] m_reserve(s, n) is Some,
    ensures
        grows(s, m_reserve(s, n)->Some_0),
{
    broadcast use group_grows, lemma_settle_data_grows, lemma_fsettle_grows;
}

pub broadcast proof fn lemma_alloc_grows(s: LowModel)
    requires
        #[trigger] m_alloc(s) is Some,
    ensures
        grows(s, m_alloc(s)->Some_0.0),
{
    broadcast use group_grows, lemma_settle_data_grows, lemma_fsettle_grows;
}

pub broadcast proof fn lemma_to_reg_grows(s: LowModel, l: Loc)
    requires
        #[trigger] m_to_reg(s, l) is Some,
    ensures
        grows(s, m_to_reg(s, l)->Some_0.0),
{
    broadcast use group_grows, lemma_settle_data_grows, lemma_fsettle_grows;
}

pub broadcast proof fn lemma_copy_of_grows(s: LowModel, l: Loc)
    requires
        #[trigger] m_copy_of(s, l) is Some,
    ensures
        grows(s, m_copy_of(s, l)->Some_0.0),
{
    broadcast use group_grows, lemma_settle_data_grows, lemma_fsettle_grows;
}

pub broadcast proof fn lemma_settle_grows(s: LowModel)
    requires
        #[trigger] m_settle(s) is Some,
    ensures
        grows(s, m_settle(s)->Some_0),
{
    broadcast use group_grows, lemma_settle_data_grows, lemma_fsettle_grows;
}

pub broadcast proof fn lemma_falloc_grows(s: LowModel)
    requires
        #[trigger] m_falloc(s) is Some,
    ensures
        grows(s, m_falloc(s)->Some_0.0),
{
    broadcast use group_grows, lemma_settle_data_grows, lemma_fsettle_grows;
}

pub broadcast proof fn lemma_gp_temp_grows(s: LowModel)
    requires
        #[trigger] m_gp_temp(s) is Some,
    ensures
        grows(s, m_gp_temp(s)->Some_0.0),
{
    broadcast use group_grows, lemma_settle_data_grows, lemma_fsettle_grows;
}

pub broadcast proof fn lemma_imm_bin_to_grows(s: LowModel, operand: Loc, op: Bin, k: i64)
    requires
        #[trigger] m_imm_bin_to(s, operand, op, k) is Some,
    ensures
        grows(s, m_imm_bin_to(s, operand, op, k)->Some_0.0),
{
    broadcast use group_grows, lemma_settle_data_grows, lemma_fsettle_grows;
}

pub broadcast proof fn lemma_bin_regs_grows(s: LowModel, op: Bin, a: Loc, b: Loc)
    requires
        #[trigger] m_bin_regs(s, op, a, b) is Some,
    ensures
        grows(s, m_bin_regs(s, op, a, b)->Some_0),
{
    broadcast use group_grows, lemma_settle_data_grows, lemma_fsettle_grows;
}

pub broadcast group group_grows_steps {
    group_grows,
    lemma_settle_data_grows,
    lemma_fsettle_grows,
    lemma_reserve_grows,
    lemma_alloc_grows,
    lemma_to_reg_grows,
    lemma_copy_of_grows,
    lemma_settle_grows,
    lemma_falloc_grows,
    lemma_gp_temp_grows,
    lemma_imm_bin_to_grows,
    lemma_bin_regs_grows,
}

proof fn lemma_pick_grows(s: LowModel, n: int)
    requires
        m_pick(s, n) is Some,
    ensures
        grows(s, m_pick(s, n)->Some_0),
{
    broadcast use group_grows_steps;
}

proof fn lemma_roll_grows(s: LowModel, n: int)
    requires
        m_roll(s, n) is Some,
    ensures
        grows(s, m_roll(s, n)->Some_0),
{
    broadcast use group_grows_steps;
}

proof fn lemma_stk_grows(s: LowModel, w: Stk)
    requires
        m_stk(s, w) is Some,
    ensures
        grows(s, m_stk(s, w)->Some_0),
{
    broadcast use group_grows_steps;
}

proof fn lemma_bin_grows(s: LowModel, op: Bin)
    requires
        m_bin(s, op) is Some,
    ensures
        grows(s, m_bin(s, op)->Some_0),
{
    broadcast use group_grows_steps;
}

proof fn lemma_imm_bin_grows(s: LowModel, op: Bin, k: i64)
    requires
        m_imm_bin(s, op, k) is Some,
    ensures
        grows(s, m_imm_bin(s, op, k)->Some_0),
{
    broadcast use group_grows_steps;
}

proof fn lemma_dup_bin_grows(s: LowModel, op: Bin)
    requires
        m_dup_bin(s, op) is Some,
    ensures
        grows(s, m_dup_bin(s, op)->Some_0),
{
    broadcast use group_grows_steps;
}

proof fn lemma_compare_grows(s: LowModel, c: Cmp)
    requires
        m_compare(s, c) is Some,
    ensures
        grows(s, m_compare(s, c)->Some_0),
{
    broadcast use group_grows_steps;
}

proof fn lemma_sel_grows(s: LowModel, w: Sel)
    requires
        m_sel(s, w) is Some,
    ensures
        grows(s, m_sel(s, w)->Some_0),
{
    broadcast use group_grows_steps;
}

proof fn lemma_mem_grows(s: LowModel, w: Mem)
    requires
        m_mem(s, w) is Some,
    ensures
        grows(s, m_mem(s, w)->Some_0),
{
    broadcast use group_grows_steps;
}

proof fn lemma_local_fetch_grows(s: LowModel, i: u32)
    requires
        m_local_fetch(s, i) is Some,
    ensures
        grows(s, m_local_fetch(s, i)->Some_0),
{
    broadcast use group_grows_steps;
}

proof fn lemma_local_store_grows(s: LowModel, i: u32)
    requires
        m_local_store(s, i) is Some,
    ensures
        grows(s, m_local_store(s, i)->Some_0),
{
    broadcast use group_grows_steps;
}

proof fn lemma_open_locals_grows(s: LowModel, total: u32, inputs: u32)
    requires
        m_open_locals(s, total, inputs) is Some,
    ensures
        grows(s, m_open_locals(s, total, inputs)->Some_0),
{
    broadcast use group_grows_steps;
}

proof fn lemma_close_locals_grows(s: LowModel, total: u32)
    requires
        m_close_locals(s, total) is Some,
    ensures
        grows(s, m_close_locals(s, total)->Some_0),
{
    broadcast use group_grows_steps;
}

proof fn lemma_ivar_fetch_grows(s: LowModel, off: u32)
    requires
        m_ivar_fetch(s, off) is Some,
    ensures
        grows(s, m_ivar_fetch(s, off)->Some_0),
{
    broadcast use group_grows_steps;
}

proof fn lemma_ivar_store_grows(s: LowModel, off: u32)
    requires
        m_ivar_store(s, off) is Some,
    ensures
        grows(s, m_ivar_store(s, off)->Some_0),
{
    broadcast use group_grows_steps;
}

proof fn lemma_self_push_grows(s: LowModel)
    requires
        m_self_push(s) is Some,
    ensures
        grows(s, m_self_push(s)->Some_0),
{
    broadcast use group_grows_steps;
}

proof fn lemma_flit_grows(s: LowModel, bits: i64)
    requires
        m_flit(s, bits) is Some,
    ensures
        grows(s, m_flit(s, bits)->Some_0),
{
    broadcast use group_grows_steps;
}

proof fn lemma_fbin_grows(s: LowModel, op: FBin)
    requires
        m_fbin(s, op) is Some,
    ensures
        grows(s, m_fbin(s, op)->Some_0),
{
    broadcast use group_grows_steps;
}

proof fn lemma_fun_grows(s: LowModel, op: FUn)
    requires
        m_fun(s, op) is Some,
    ensures
        grows(s, m_fun(s, op)->Some_0),
{
    broadcast use group_grows_steps;
}

proof fn lemma_fstk_grows(s: LowModel, w: Stk)
    requires
        m_fstk(s, w) is Some,
    ensures
        grows(s, m_fstk(s, w)->Some_0),
{
    broadcast use group_grows_steps;
}


proof fn lemma_tok_grows(s: LowModel, t: Tok)
    requires
        m_tok(s, t) is Some,
    ensures
        grows(s, m_tok(s, t)->Some_0),
{
    match t {
        Tok::Lit(_) => {},
        Tok::Bin(op) => lemma_bin_grows(s, op),
        Tok::ImmBin(op, k) => lemma_imm_bin_grows(s, op, k),
        Tok::DupBin(op) => lemma_dup_bin_grows(s, op),
        Tok::Stk(w) => lemma_stk_grows(s, w),
        Tok::PickN(n) => lemma_pick_grows(s, n as int),
        Tok::RollN(n) => lemma_roll_grows(s, n as int),
        Tok::Cmp(c) => lemma_compare_grows(s, c),
        Tok::Sel(w) => lemma_sel_grows(s, w),
        Tok::Mem(w) => lemma_mem_grows(s, w),
        Tok::LocalFetch(i) => lemma_local_fetch_grows(s, i),
        Tok::LocalStore(i) => lemma_local_store_grows(s, i),
        Tok::OpenLocals { total, inputs } => lemma_open_locals_grows(s, total, inputs),
        Tok::CloseLocals { total } => lemma_close_locals_grows(s, total),
        Tok::IvarFetch(off) => lemma_ivar_fetch_grows(s, off),
        Tok::IvarStore(off) => lemma_ivar_store_grows(s, off),
        Tok::SelfPush => lemma_self_push_grows(s),
        Tok::FLit(bits) => lemma_flit_grows(s, bits),
        Tok::FBin(op) => lemma_fbin_grows(s, op),
        Tok::FUn(op) => lemma_fun_grows(s, op),
        Tok::FStk(w) => lemma_fstk_grows(s, w),
        Tok::Call(_) => {
            lemma_settle_grows(LowModel { m: Metrics { calls: bump(s.m.calls), ..s.m }, ..s });
        },
    }
}

proof fn lemma_run_grows(s: LowModel, toks: Seq<Tok>)
    requires
        m_run(s, toks) is Some,
    ensures
        grows(s, m_run(s, toks)->Some_0),
    decreases toks.len(),
{
    if toks.len() > 0 {
        lemma_run_grows(s, toks.drop_last());
        lemma_tok_grows(m_run(s, toks.drop_last())->Some_0, toks.last());
    }
}

/// Lowering only appends: the words already in `out` stay as they are, and the
/// run's code follows them.
pub proof fn lemma_lowered_appends(code: Seq<u32>, toks: Seq<Tok>)
    requires
        lowered(code, toks) is Some,
    ensures
        lowered(code, toks)->Some_0.code.len() >= code.len(),
        lowered(code, toks)->Some_0.code.take(code.len() as int) == code,
{
    let s0 = m_start(code, toks);
    lemma_run_grows(s0, toks);
    lemma_settle_grows(m_run(s0, toks)->Some_0);
    assert(lowered(code, toks)->Some_0.code.take(code.len() as int) =~= code);
}


/// The lowerer only ever allocates from its window pool x9–x15 (the ABI's
/// fusion pool): never x16–x18 (the forbidden call-veneer and platform
/// registers), never a home register (DSP x19, UP x20, LP x21, FSP x22, RP x28),
/// and never the canonical TOS x0.
pub proof fn lemma_alloc_in_pool(s: LowModel)
    requires
        m_alloc(s) is Some,
    ensures
        POOL_LO <= m_alloc(s)->Some_0.1 <= POOL_HI,
        !s.used[m_alloc(s)->Some_0.1 as int],
{
    lemma_first_free(s.used, 9);
}

} // verus!
