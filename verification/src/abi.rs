//! The MF66 AArch64 ABI — the single source of truth for register homes.
//!
//! Everything that must survive a settle-barrier `rt_*` call is callee-saved
//! (`x19–x28`, low-64 of `v8–v15`), so the optimizer's coalesce/promote passes
//! are sound with no spill code at call sites.
//!
//! The kernel macro library and the back-end register file both reference these
//! names so the JIT'd code and the kernel share one register convention.
use vstd::prelude::*;

verus! {

/// Top of the data stack. Caller-saved (`x0` = AAPCS64 arg0/ret0), so it is the
/// natural value flowing through `rt_*` calls; spilled to a cell across any call
/// that clobbers it.
pub const TOS: &'static str = "x0";

/// Data-stack pointer — points at NOS, grows down by 8-byte cells. Callee-saved
/// so it is stable across barriers.
pub const DSP: &'static str = "x19";

/// User-area base pointer.
pub const UP: &'static str = "x20";

/// Locals-frame pointer (callee-saved).
pub const LP: &'static str = "x21";

/// Float top-of-stack. Callee-saved (only the low 64 bits of `d8–d15` are
/// preserved — never use the full 128-bit `q8`).
pub const FTOS: &'static str = "d8";

/// Float-stack pointer (callee-saved).
pub const FSP: &'static str = "x22";

/// Return-stack pointer — a plain 8-byte full descending stack, callee-saved and
/// decoupled from `sp`, so `sp` stays permanently 16-aligned for `bl`/`blr`.
pub const RP: &'static str = "x28";

/// Caller-saved scratch / parallel-move temporaries — window-local only (a fused
/// window contains no calls), so volatility is fine.
pub const FUSION_POOL: [&'static str; 7] = ["x9", "x10", "x11", "x12", "x13", "x14", "x15"];

/// Hot-cell promotion pool — callee-saved so promoted values survive barriers
/// unconditionally.
pub const PROMO_POOL: [&'static str; 2] = ["x23", "x24"];

/// Float promotion pool — callee-saved low-64; for FP values that must survive a
/// libm call inside a window.
pub const FP_PROMO_POOL: [&'static str; 7] = ["d9", "d10", "d11", "d12", "d13", "d14", "d15"];

/// Indirect-call target scratch. AAPCS64 IP0 — clobbered by any `bl`/`blr`
/// (including far-call veneers), so only ever used immediately before the call.
/// Never place x16/x17 in any allocatable pool.
pub const CALL_TMP: &'static str = "x16";

/// Registers that must not appear in any pool or kernel `.masm` file:
/// - `x16`/`x17`: AAPCS64 IP0/IP1 — far-call veneers (`movz/movk x16; br x16`)
///   clobber x16 at relocation time, so treat both as dead across every call.
/// - `x18`: the Darwin platform register.
pub const FORBIDDEN: [&'static str; 6] = ["x16", "x17", "x18", "w16", "w17", "w18"];

} // verus!
