//! Minimal AArch64 instruction encoders for the colon compiler and the
//! optimizer's lowering. Each returns a 32-bit instruction word built from the
//! architectural field layout.
use vstd::prelude::*;

verus! {

// ── Field layout ─────────────────────────────────────────────────────────
/// Register field at bits [4:0] (Rd / Rt).
pub open spec fn f_rd(r: u32) -> u32 {
    r & 0x1F
}

/// Register field at bits [9:5] (Rn).
pub open spec fn f_rn(r: u32) -> u32 {
    (r & 0x1F) << 5
}

/// Register field at bits [20:16] (Rm).
pub open spec fn f_rm(r: u32) -> u32 {
    (r & 0x1F) << 16
}

/// 16-bit move-wide immediate at bits [20:5].
pub open spec fn f_imm16(imm16: u16) -> u32 {
    (imm16 as u32) << 5
}

/// Move-wide `hw` field at bits [22:21] (shift / 16).
pub open spec fn f_hw(shift: u32) -> u32 {
    (shift / 16) << 21
}

/// 9-bit signed immediate at bits [20:12] (pre/post-index).
pub open spec fn f_imm9(imm9: i32) -> u32 {
    ((imm9 as u32) & 0x1FF) << 12
}

/// 12-bit unsigned immediate at bits [21:10].
pub open spec fn f_imm12(imm12: u32) -> u32 {
    (imm12 & 0xFFF) << 10
}

/// 19-bit signed branch offset at bits [23:5].
pub open spec fn f_off19(off: i32) -> u32 {
    ((off as u32) & 0x7FFFF) << 5
}

/// 14-bit signed branch offset at bits [18:5] (`tbz`).
pub open spec fn f_off14(off: i32) -> u32 {
    ((off as u32) & 0x3FFF) << 5
}

/// 26-bit signed branch offset at bits [25:0] (`b`).
pub open spec fn f_off26(off: i32) -> u32 {
    (off as u32) & 0x03FF_FFFF
}

// ── Decoders (used to state what an encoding means) ─────────────────────
/// The Rd/Rt register number of an instruction word.
pub open spec fn rd_of(w: u32) -> u32 {
    w & 0x1F
}

/// The Rn register number of an instruction word.
pub open spec fn rn_of(w: u32) -> u32 {
    (w >> 5) & 0x1F
}

/// The Rm register number of an instruction word.
pub open spec fn rm_of(w: u32) -> u32 {
    (w >> 16) & 0x1F
}

/// The move-wide 16-bit immediate of a `movz`/`movk` word.
pub open spec fn imm16_of(w: u32) -> u32 {
    (w >> 5) & 0xFFFF
}

/// The move-wide shift (in bits) of a `movz`/`movk` word.
pub open spec fn shift_of(w: u32) -> int {
    ((w >> 21) & 3) * 16
}

/// The signed 19-bit word offset of a `cbz` / `b.<cond>` word (bits [23:5],
/// sign-extended).
pub open spec fn off19_of(w: u32) -> i32 {
    ((((w >> 5) & 0x7FFFF) << 13) as i32) >> 13
}

/// The signed 26-bit word offset of a `b` word (bits [25:0], sign-extended).
pub open spec fn off26_of(w: u32) -> i32 {
    (((w & 0x03FF_FFFF) << 6) as i32) >> 6
}

/// The signed 14-bit word offset of a `tbz` word (bits [18:5], sign-extended).
pub open spec fn off14_of(w: u32) -> i32 {
    ((((w >> 5) & 0x3FFF) << 18) as i32) >> 18
}

/// The bit number tested by a `tbz` word (b5:b40).
pub open spec fn tbz_bit_of(w: u32) -> u32 {
    ((w >> 31) << 5) | ((w >> 19) & 0x1F)
}

/// The condition code of a `b.<cond>` word.
pub open spec fn cond_of(w: u32) -> u32 {
    w & 0xF
}

/// The opcode bits (everything outside Rt and the 19-bit offset) of a
/// `cbz` / `b.<cond>` word.
pub open spec fn op19_of(w: u32) -> u32 {
    w & 0xFF00_0000
}

/// `true` when `off` fits the signed 19-bit branch field.
pub open spec fn fits19(off: int) -> bool {
    -0x40000 <= off < 0x40000
}

/// `true` when `off` fits the signed 26-bit branch field.
pub open spec fn fits26(off: int) -> bool {
    -0x0200_0000 <= off < 0x0200_0000
}

/// `true` when `off` fits the signed 14-bit branch field.
pub open spec fn fits14(off: int) -> bool {
    -0x2000 <= off < 0x2000
}

// ── Instruction words ────────────────────────────────────────────────────
pub open spec fn movz_w(rd: u32, imm16: u16, shift: u32) -> u32 {
    0xD280_0000u32 | f_hw(shift) | f_imm16(imm16) | f_rd(rd)
}

pub open spec fn movk_w(rd: u32, imm16: u16, shift: u32) -> u32 {
    0xF280_0000u32 | f_hw(shift) | f_imm16(imm16) | f_rd(rd)
}

pub open spec fn blr_w(rn: u32) -> u32 {
    0xD63F_0000u32 | f_rn(rn)
}

pub open spec fn ret_w() -> u32 {
    0xD65F_03C0u32
}

pub open spec fn str_pre_w(rt: u32, rn: u32, imm9: i32) -> u32 {
    0xF800_0C00u32 | f_imm9(imm9) | f_rn(rn) | f_rd(rt)
}

pub open spec fn ldr_post_w(rt: u32, rn: u32, imm9: i32) -> u32 {
    0xF840_0400u32 | f_imm9(imm9) | f_rn(rn) | f_rd(rt)
}

pub open spec fn mov_reg_w(rd: u32, rm: u32) -> u32 {
    0xAA00_03E0u32 | f_rm(rm) | f_rd(rd)
}

pub open spec fn ldr0_w(rt: u32, rn: u32) -> u32 {
    0xF940_0000u32 | f_rn(rn) | f_rd(rt)
}

pub open spec fn add_imm_w(rd: u32, rn: u32, imm12: u32) -> u32 {
    0x9100_0000u32 | f_imm12(imm12) | f_rn(rn) | f_rd(rd)
}

pub open spec fn cbz_w(rt: u32, off: i32) -> u32 {
    0xB400_0000u32 | f_off19(off) | f_rd(rt)
}

pub open spec fn b_w(off: i32) -> u32 {
    0x1400_0000u32 | f_off26(off)
}

pub open spec fn bcond_w(cond: u32, off: i32) -> u32 {
    0x5400_0000u32 | f_off19(off) | (cond & 0xF)
}

pub open spec fn ldr_off_w(rt: u32, rn: u32, imm: u32) -> u32 {
    0xF940_0000u32 | f_imm12(imm / 8) | f_rn(rn) | f_rd(rt)
}

pub open spec fn str_off_w(rt: u32, rn: u32, imm: u32) -> u32 {
    0xF900_0000u32 | f_imm12(imm / 8) | f_rn(rn) | f_rd(rt)
}

pub open spec fn add_reg_w(rd: u32, rn: u32, rm: u32) -> u32 {
    0x8B00_0000u32 | f_rm(rm) | f_rn(rn) | f_rd(rd)
}

pub open spec fn sub_reg_w(rd: u32, rn: u32, rm: u32) -> u32 {
    0xCB00_0000u32 | f_rm(rm) | f_rn(rn) | f_rd(rd)
}

pub open spec fn eor_reg_w(rd: u32, rn: u32, rm: u32) -> u32 {
    0xCA00_0000u32 | f_rm(rm) | f_rn(rn) | f_rd(rd)
}

pub open spec fn tbz_w(rt: u32, bit: u32, off: i32) -> u32 {
    (((bit >> 5) & 1) << 31) | 0x3600_0000u32 | ((bit & 0x1F) << 19) | f_off14(off) | f_rd(rt)
}

pub open spec fn mul_w(rd: u32, rn: u32, rm: u32) -> u32 {
    0x9B00_7C00u32 | f_rm(rm) | f_rn(rn) | f_rd(rd)
}

pub open spec fn and_reg_w(rd: u32, rn: u32, rm: u32) -> u32 {
    0x8A00_0000u32 | f_rm(rm) | f_rn(rn) | f_rd(rd)
}

pub open spec fn orr_reg_w(rd: u32, rn: u32, rm: u32) -> u32 {
    0xAA00_0000u32 | f_rm(rm) | f_rn(rn) | f_rd(rd)
}

pub open spec fn sub_imm_w(rd: u32, rn: u32, imm12: u32) -> u32 {
    0xD100_0000u32 | f_imm12(imm12) | f_rn(rn) | f_rd(rd)
}

pub open spec fn cmp_reg_w(rn: u32, rm: u32) -> u32 {
    0xEB00_0000u32 | f_rm(rm) | f_rn(rn) | 31
}

pub open spec fn cmp_imm_w(rn: u32, imm12: u32) -> u32 {
    0xF100_0000u32 | f_imm12(imm12) | f_rn(rn) | 31
}

pub open spec fn csetm_w(rd: u32, cond: u32) -> u32 {
    0xDA80_0000u32 | (31u32 << 16) | (((cond ^ 1) & 0xF) << 12) | (31u32 << 5) | f_rd(rd)
}

pub open spec fn ldrb0_w(rt: u32, rn: u32) -> u32 {
    0x3940_0000u32 | f_rn(rn) | f_rd(rt)
}

pub open spec fn strb0_w(rt: u32, rn: u32) -> u32 {
    0x3900_0000u32 | f_rn(rn) | f_rd(rt)
}

pub open spec fn neg_w(rd: u32, rm: u32) -> u32 {
    0xCB00_03E0u32 | f_rm(rm) | f_rd(rd)
}

pub open spec fn mvn_w(rd: u32, rm: u32) -> u32 {
    0xAA20_03E0u32 | f_rm(rm) | f_rd(rd)
}

pub open spec fn csel_w(rd: u32, rn: u32, rm: u32, cond: u32) -> u32 {
    0x9A80_0000u32 | f_rm(rm) | ((cond & 0xF) << 12) | f_rn(rn) | f_rd(rd)
}

pub open spec fn fldr_off_w(rt: u32, rn: u32, imm: u32) -> u32 {
    0xFD40_0000u32 | f_imm12(imm / 8) | f_rn(rn) | f_rd(rt)
}

pub open spec fn fstr_off_w(rt: u32, rn: u32, imm: u32) -> u32 {
    0xFD00_0000u32 | f_imm12(imm / 8) | f_rn(rn) | f_rd(rt)
}

pub open spec fn fmov_dx_w(rd: u32, rn: u32) -> u32 {
    0x9E67_0000u32 | f_rn(rn) | f_rd(rd)
}

pub open spec fn fmov_dd_w(rd: u32, rn: u32) -> u32 {
    0x1E60_4000u32 | f_rn(rn) | f_rd(rd)
}

pub open spec fn fadd_w(rd: u32, rn: u32, rm: u32) -> u32 {
    0x1E60_2800u32 | f_rm(rm) | f_rn(rn) | f_rd(rd)
}

pub open spec fn fsub_w(rd: u32, rn: u32, rm: u32) -> u32 {
    0x1E60_3800u32 | f_rm(rm) | f_rn(rn) | f_rd(rd)
}

pub open spec fn fmul_w(rd: u32, rn: u32, rm: u32) -> u32 {
    0x1E60_0800u32 | f_rm(rm) | f_rn(rn) | f_rd(rd)
}

pub open spec fn fdiv_w(rd: u32, rn: u32, rm: u32) -> u32 {
    0x1E60_1800u32 | f_rm(rm) | f_rn(rn) | f_rd(rd)
}

pub open spec fn fneg_w(rd: u32, rn: u32) -> u32 {
    0x1E61_4000u32 | f_rn(rn) | f_rd(rd)
}

pub open spec fn fsqrt_w(rd: u32, rn: u32) -> u32 {
    0x1E61_C000u32 | f_rn(rn) | f_rd(rd)
}

pub open spec fn fabs_w(rd: u32, rn: u32) -> u32 {
    0x1E60_C000u32 | f_rn(rn) | f_rd(rd)
}

/// The four-word `movz`/`movk` sequence that materializes `val` in `rd`.
pub open spec fn load_imm64_seq(rd: u32, val: u64) -> Seq<u32> {
    seq![
        movz_w(rd, (val & 0xFFFF) as u16, 0),
        movk_w(rd, ((val >> 16) & 0xFFFF) as u16, 16),
        movk_w(rd, ((val >> 32) & 0xFFFF) as u16, 32),
        movk_w(rd, ((val >> 48) & 0xFFFF) as u16, 48),
    ]
}


// ── Encoders ─────────────────────────────────────────────────────────────
/// `movz Xd, #imm16, LSL #shift`  (shift ∈ {0,16,32,48}).
pub fn movz(rd: u32, imm16: u16, shift: u32) -> (w: u32)
    ensures
        w == movz_w(rd, imm16, shift),
{
    0xD280_0000 | ((shift / 16) << 21) | ((imm16 as u32) << 5) | (rd & 0x1F)
}

/// `movk Xd, #imm16, LSL #shift`.
pub fn movk(rd: u32, imm16: u16, shift: u32) -> (w: u32)
    ensures
        w == movk_w(rd, imm16, shift),
{
    0xF280_0000 | ((shift / 16) << 21) | ((imm16 as u32) << 5) | (rd & 0x1F)
}

/// `blr Xn`.
pub fn blr(rn: u32) -> (w: u32)
    ensures
        w == blr_w(rn),
{
    0xD63F_0000 | ((rn & 0x1F) << 5)
}

/// `ret` (returns to x30).
pub fn ret() -> (w: u32)
    ensures
        w == ret_w(),
{
    0xD65F_03C0
}

/// `str Xt, [Xn, #imm9]!`  (pre-index, 64-bit).
pub fn str_pre(rt: u32, rn: u32, imm9: i32) -> (w: u32)
    ensures
        w == str_pre_w(rt, rn, imm9),
{
    0xF800_0C00 | (((imm9 as u32) & 0x1FF) << 12) | ((rn & 0x1F) << 5) | (rt & 0x1F)
}

/// `ldr Xt, [Xn], #imm9`  (post-index, 64-bit).
pub fn ldr_post(rt: u32, rn: u32, imm9: i32) -> (w: u32)
    ensures
        w == ldr_post_w(rt, rn, imm9),
{
    0xF840_0400 | (((imm9 as u32) & 0x1FF) << 12) | ((rn & 0x1F) << 5) | (rt & 0x1F)
}

/// Materialize a 64-bit `val` into `rd` via movz + 3 movk (always 4 words, a
/// fixed-size, patchable sequence).
pub fn load_imm64(rd: u32, val: u64, out: &mut Vec<u32>)
    ensures
        final(out)@ == old(out)@ + load_imm64_seq(rd, val),
{
    out.push(movz(rd, (val & 0xFFFF) as u16, 0));
    out.push(movk(rd, ((val >> 16) & 0xFFFF) as u16, 16));
    out.push(movk(rd, ((val >> 32) & 0xFFFF) as u16, 32));
    out.push(movk(rd, ((val >> 48) & 0xFFFF) as u16, 48));
    assert(out@ =~= old(out)@ + load_imm64_seq(rd, val));
}

// ── MF66 ABI register numbers ────────────────────────────────────────────
pub const TOS: u32 = 0;  // x0
pub const DSP: u32 = 19;  // x19
pub const RP: u32 = 28;  // x28
pub const CALL_TMP: u32 = 16;  // x16 (veneer scratch)
pub const LR: u32 = 30;  // x30
pub const CELL: i32 = 8;

/// The colon-word prologue: `str x30, [x28, #-8]!`.
pub open spec fn nest_seq() -> Seq<u32> {
    seq![str_pre_w(LR, RP, -8i32)]
}

/// The colon-word epilogue: `ldr x30, [x28], #8; ret`.
pub open spec fn unnest_ret_seq() -> Seq<u32> {
    seq![ldr_post_w(LR, RP, 8i32), ret_w()]
}

/// A veneered call: `movz/movk x16, xt; blr x16`.
pub open spec fn call_seq(xt: u64) -> Seq<u32> {
    load_imm64_seq(CALL_TMP, xt).push(blr_w(CALL_TMP))
}

/// A literal push: spill TOS to the data stack, then load `n` into TOS.
pub open spec fn lit_seq(n: i64) -> Seq<u32> {
    seq![str_pre_w(TOS, DSP, -8i32)] + load_imm64_seq(TOS, n as u64)
}

/// Colon-word prologue (nest): save the link register onto the return stack.
pub fn emit_nest(out: &mut Vec<u32>)
    ensures
        final(out)@ == old(out)@ + nest_seq(),
{
    out.push(str_pre(LR, RP, -CELL));
    assert(out@ =~= old(out)@ + nest_seq());
}

/// Colon-word epilogue (unnest + return).
pub fn emit_unnest_ret(out: &mut Vec<u32>)
    ensures
        final(out)@ == old(out)@ + unnest_ret_seq(),
{
    out.push(ldr_post(LR, RP, CELL));
    out.push(ret());
    assert(out@ =~= old(out)@ + unnest_ret_seq());
}

/// Compile a call to `xt` (veneer: works regardless of distance — `bl` range is
/// only ±128 MB). `movz/movk x16, xt; blr x16`.
pub fn emit_call(xt: u64, out: &mut Vec<u32>)
    ensures
        final(out)@ == old(out)@ + call_seq(xt),
{
    load_imm64(CALL_TMP, xt, out);
    out.push(blr(CALL_TMP));
    assert(out@ =~= old(out)@ + call_seq(xt));
}

/// Compile a literal push: spill the cached TOS, load `n` as the new TOS.
pub fn emit_lit(n: i64, out: &mut Vec<u32>)
    ensures
        final(out)@ == old(out)@ + lit_seq(n),
{
    out.push(str_pre(TOS, DSP, -CELL));
    load_imm64(TOS, n as u64, out);
    assert(out@ =~= old(out)@ + lit_seq(n));
}

/// The body of a constant word: push `v` and return.
pub fn constant_body(v: i64) -> (b: Vec<u32>)
    ensures
        b@ == lit_seq(v).push(ret_w()),
{
    let mut b: Vec<u32> = Vec::new();
    emit_lit(v, &mut b);
    b.push(ret());
    assert(b@ =~= lit_seq(v).push(ret_w()));
    b
}

/// The body of a double constant: push `lo`, then `hi`, and return.
pub fn dconstant_body(lo: i64, hi: i64) -> (b: Vec<u32>)
    ensures
        b@ == (lit_seq(lo) + lit_seq(hi)).push(ret_w()),
{
    let mut b: Vec<u32> = Vec::new();
    emit_lit(lo, &mut b);
    emit_lit(hi, &mut b);
    b.push(ret());
    assert(b@ =~= (lit_seq(lo) + lit_seq(hi)).push(ret_w()));
    b
}

/// The body of a value word: push the cell at `cell` (spill the cached TOS,
/// load the address, fetch through it) and return.
pub fn value_body(cell: u64) -> (b: Vec<u32>)
    ensures
        b@ == (seq![str_pre_w(TOS, DSP, -8i32)] + load_imm64_seq(TOS, cell)).push(ldr0_w(TOS, TOS)).push(
            ret_w(),
        ),
{
    let mut b: Vec<u32> = Vec::new();
    b.push(str_pre(TOS, DSP, -CELL));
    load_imm64(TOS, cell, &mut b);
    b.push(ldr0(TOS, TOS));
    b.push(ret());
    assert(b@ =~= (seq![str_pre_w(TOS, DSP, -8i32)] + load_imm64_seq(TOS, cell)).push(ldr0_w(TOS, TOS)).push(
        ret_w(),
    ));
    b
}

// ── Control-flow encoders (branch offsets are in WORDS, relative to self) ──
/// `mov Xd, Xm`  (= orr Xd, XZR, Xm).
pub fn mov_reg(rd: u32, rm: u32) -> (w: u32)
    ensures
        w == mov_reg_w(rd, rm),
{
    0xAA00_03E0 | ((rm & 0x1F) << 16) | (rd & 0x1F)
}

/// `ldr Xt, [Xn]`  (unsigned offset 0).
pub fn ldr0(rt: u32, rn: u32) -> (w: u32)
    ensures
        w == ldr0_w(rt, rn),
{
    0xF940_0000 | ((rn & 0x1F) << 5) | (rt & 0x1F)
}

/// `add Xd, Xn, #imm12`.
pub fn add_imm(rd: u32, rn: u32, imm12: u32) -> (w: u32)
    ensures
        w == add_imm_w(rd, rn, imm12),
{
    0x9100_0000 | ((imm12 & 0xFFF) << 10) | ((rn & 0x1F) << 5) | (rd & 0x1F)
}

/// `cbz Xt, off`  — branch if Xt == 0; `off` is a signed instruction count.
pub fn cbz(rt: u32, off: i32) -> (w: u32)
    ensures
        w == cbz_w(rt, off),
{
    0xB400_0000 | (((off as u32) & 0x7FFFF) << 5) | (rt & 0x1F)
}

/// `b off`  — unconditional branch; `off` is a signed instruction count.
pub fn b(off: i32) -> (w: u32)
    ensures
        w == b_w(off),
{
    0x1400_0000 | ((off as u32) & 0x03FF_FFFF)
}

/// `b.<cond> off`  — conditional branch; `off` is a signed instruction count.
pub fn bcond(cond: u32, off: i32) -> (w: u32)
    ensures
        w == bcond_w(cond, off),
{
    0x5400_0000 | (((off as u32) & 0x7FFFF) << 5) | (cond & 0xF)
}

/// `true` when `target - at` is computable in `i32` (the patch helpers work on
/// word indices truncated to `i32`).
pub open spec fn rel_ok(at: usize, target: usize) -> bool {
    i32::MIN <= (target as i32) - (at as i32) <= i32::MAX
}

/// Patch a previously-emitted `b.<cond>` (keeping its condition) to `target`.
pub fn patch_bcond(out: &mut [u32], at: usize, target: usize)
    requires
        at < old(out)@.len(),
        rel_ok(at, target),
    ensures
        final(out)@ == old(out)@.update(
            at as int,
            bcond_w(old(out)@[at as int] & 0xF, ((target as i32) - (at as i32)) as i32),
        ),
{
    let cond = out[at] & 0xF;
    out[at] = bcond(cond, target as i32 - at as i32);
}

/// `ldr Xt, [Xn, #imm]`  (unsigned scaled offset; imm is bytes, must be /8).
pub fn ldr_off(rt: u32, rn: u32, imm: u32) -> (w: u32)
    ensures
        w == ldr_off_w(rt, rn, imm),
{
    0xF940_0000 | (((imm / 8) & 0xFFF) << 10) | ((rn & 0x1F) << 5) | (rt & 0x1F)
}

/// `str Xt, [Xn, #imm]`  (unsigned scaled offset).
pub fn str_off(rt: u32, rn: u32, imm: u32) -> (w: u32)
    ensures
        w == str_off_w(rt, rn, imm),
{
    0xF900_0000 | (((imm / 8) & 0xFFF) << 10) | ((rn & 0x1F) << 5) | (rt & 0x1F)
}

/// `add Xd, Xn, Xm`.
pub fn add_reg(rd: u32, rn: u32, rm: u32) -> (w: u32)
    ensures
        w == add_reg_w(rd, rn, rm),
{
    0x8B00_0000 | ((rm & 0x1F) << 16) | ((rn & 0x1F) << 5) | (rd & 0x1F)
}

/// `sub Xd, Xn, Xm`.
pub fn sub_reg(rd: u32, rn: u32, rm: u32) -> (w: u32)
    ensures
        w == sub_reg_w(rd, rn, rm),
{
    0xCB00_0000 | ((rm & 0x1F) << 16) | ((rn & 0x1F) << 5) | (rd & 0x1F)
}

/// `eor Xd, Xn, Xm`.
pub fn eor_reg(rd: u32, rn: u32, rm: u32) -> (w: u32)
    ensures
        w == eor_reg_w(rd, rn, rm),
{
    0xCA00_0000 | ((rm & 0x1F) << 16) | ((rn & 0x1F) << 5) | (rd & 0x1F)
}

/// `tbz Xt, #bit, off`  — branch if bit `bit` of Xt is 0; `off` = instruction count.
pub fn tbz(rt: u32, bit: u32, off: i32) -> (w: u32)
    ensures
        w == tbz_w(rt, bit, off),
{
    let b5 = (bit >> 5) & 1;
    let b40 = bit & 0x1F;
    (b5 << 31) | 0x3600_0000 | (b40 << 19) | (((off as u32) & 0x3FFF) << 5) | (rt & 0x1F)
}

// ── DO/LOOP (counted loops) — frame on RP is [index@RP, limit@RP+8] ─────────
/// The `do` prologue: ( limit start -- ) push [index=start, limit] onto RP.
pub open spec fn do_seq() -> Seq<u32> {
    seq![
        ldr0_w(9, DSP),
        str_pre_w(9, RP, -8i32),
        str_pre_w(TOS, RP, -8i32),
        ldr_off_w(TOS, DSP, 8),
        add_imm_w(DSP, DSP, 16),
    ]
}

/// The `loop` step: index++, branch back by `back` words unless the signed
/// distance to the limit changed sign, then drop the loop frame.
pub open spec fn loop_seq(back: i32) -> Seq<u32> {
    seq![
        ldr0_w(9, RP),
        ldr_off_w(10, RP, 8),
        sub_reg_w(11, 9, 10),
        add_imm_w(9, 9, 1),
        str_off_w(9, RP, 0),
        sub_reg_w(12, 9, 10),
        eor_reg_w(11, 11, 12),
        tbz_w(11, 63, back),
        add_imm_w(RP, RP, 16),
    ]
}

/// The `+loop` step: index += n (consuming n), same termination test.
pub open spec fn plus_loop_seq(back: i32) -> Seq<u32> {
    seq![
        ldr0_w(9, RP),
        ldr_off_w(10, RP, 8),
        sub_reg_w(11, 9, 10),
        add_reg_w(9, 9, TOS),
        str_off_w(9, RP, 0),
        sub_reg_w(12, 9, 10),
        eor_reg_w(11, 11, 12),
        ldr0_w(TOS, DSP),
        add_imm_w(DSP, DSP, 8),
        tbz_w(11, 63, back),
        add_imm_w(RP, RP, 16),
    ]
}

/// `do` ( limit start -- ): push [index=start, limit] onto RP, drop both.
pub fn emit_do(out: &mut Vec<u32>)
    ensures
        final(out)@ == old(out)@ + do_seq(),
{
    out.push(ldr0(9, DSP));
    out.push(str_pre(9, RP, -CELL));
    out.push(str_pre(TOS, RP, -CELL));
    out.push(ldr_off(TOS, DSP, CELL as u32));
    out.push(add_imm(DSP, DSP, CELL as u32 * 2));
    assert(out@ =~= old(out)@ + do_seq());
}

/// `loop`: index++; loop back to `top` unless (index-limit) changed sign.
pub fn emit_loop(out: &mut Vec<u32>, top: usize)
    requires
        rel_ok((old(out)@.len() + 7) as usize, top),
        old(out)@.len() + 9 <= usize::MAX,
    ensures
        final(out)@ == old(out)@ + loop_seq(
            ((top as i32) - ((old(out)@.len() + 7) as usize as i32)) as i32,
        ),
{
    out.push(ldr0(9, RP));
    out.push(ldr_off(10, RP, CELL as u32));
    out.push(sub_reg(11, 9, 10));
    out.push(add_imm(9, 9, 1));
    out.push(str_off(9, RP, 0));
    out.push(sub_reg(12, 9, 10));
    out.push(eor_reg(11, 11, 12));
    let at = out.len();
    out.push(tbz(11, 63, top as i32 - at as i32));
    out.push(add_imm(RP, RP, 16));
    assert(out@ =~= old(out)@ + loop_seq(((top as i32) - (at as i32)) as i32));
}

/// `+loop` ( n -- ): index += n; same signed-crossing termination test.
pub fn emit_plus_loop(out: &mut Vec<u32>, top: usize)
    requires
        rel_ok((old(out)@.len() + 9) as usize, top),
        old(out)@.len() + 11 <= usize::MAX,
    ensures
        final(out)@ == old(out)@ + plus_loop_seq(
            ((top as i32) - ((old(out)@.len() + 9) as usize as i32)) as i32,
        ),
{
    out.push(ldr0(9, RP));
    out.push(ldr_off(10, RP, CELL as u32));
    out.push(sub_reg(11, 9, 10));
    out.push(add_reg(9, 9, TOS));
    out.push(str_off(9, RP, 0));
    out.push(sub_reg(12, 9, 10));
    out.push(eor_reg(11, 11, 12));
    out.push(ldr0(TOS, DSP));
    out.push(add_imm(DSP, DSP, CELL as u32));
    let at = out.len();
    out.push(tbz(11, 63, top as i32 - at as i32));
    out.push(add_imm(RP, RP, 16));
    assert(out@ =~= old(out)@ + plus_loop_seq(((top as i32) - (at as i32)) as i32));
}

// ── Optimizer lowering encoders ───────────────────────────────────────────
/// `mul Xd, Xn, Xm`.
pub fn mul(rd: u32, rn: u32, rm: u32) -> (w: u32)
    ensures
        w == mul_w(rd, rn, rm),
{
    0x9B00_7C00 | ((rm & 0x1F) << 16) | ((rn & 0x1F) << 5) | (rd & 0x1F)
}

/// `and Xd, Xn, Xm`.
pub fn and_reg(rd: u32, rn: u32, rm: u32) -> (w: u32)
    ensures
        w == and_reg_w(rd, rn, rm),
{
    0x8A00_0000 | ((rm & 0x1F) << 16) | ((rn & 0x1F) << 5) | (rd & 0x1F)
}

/// `orr Xd, Xn, Xm`.
pub fn orr_reg(rd: u32, rn: u32, rm: u32) -> (w: u32)
    ensures
        w == orr_reg_w(rd, rn, rm),
{
    0xAA00_0000 | ((rm & 0x1F) << 16) | ((rn & 0x1F) << 5) | (rd & 0x1F)
}

/// `sub Xd, Xn, #imm12`.
pub fn sub_imm(rd: u32, rn: u32, imm12: u32) -> (w: u32)
    ensures
        w == sub_imm_w(rd, rn, imm12),
{
    0xD100_0000 | ((imm12 & 0xFFF) << 10) | ((rn & 0x1F) << 5) | (rd & 0x1F)
}

/// `cmp Xn, Xm`  (= subs xzr, Xn, Xm).
pub fn cmp_reg(rn: u32, rm: u32) -> (w: u32)
    ensures
        w == cmp_reg_w(rn, rm),
{
    0xEB00_0000 | ((rm & 0x1F) << 16) | ((rn & 0x1F) << 5) | 31
}

/// `cmp Xn, #imm12`.
pub fn cmp_imm(rn: u32, imm12: u32) -> (w: u32)
    ensures
        w == cmp_imm_w(rn, imm12),
{
    0xF100_0000 | ((imm12 & 0xFFF) << 10) | ((rn & 0x1F) << 5) | 31
}

/// `csetm Xd, <cond>`  (Forth flag: all-ones if cond else 0 = csinv Xd,xzr,xzr,!cond).
pub fn csetm(rd: u32, cond: u32) -> (w: u32)
    ensures
        w == csetm_w(rd, cond),
{
    let inv = cond ^ 1;
    0xDA80_0000 | (31 << 16) | ((inv & 0xF) << 12) | (31 << 5) | (rd & 0x1F)
}

/// `ldrb Wt, [Xn]`.
pub fn ldrb0(rt: u32, rn: u32) -> (w: u32)
    ensures
        w == ldrb0_w(rt, rn),
{
    0x3940_0000 | ((rn & 0x1F) << 5) | (rt & 0x1F)
}

/// `strb Wt, [Xn]`.
pub fn strb0(rt: u32, rn: u32) -> (w: u32)
    ensures
        w == strb0_w(rt, rn),
{
    0x3900_0000 | ((rn & 0x1F) << 5) | (rt & 0x1F)
}

/// `neg Xd, Xm`  (= sub Xd, xzr, Xm).
pub fn neg(rd: u32, rm: u32) -> (w: u32)
    ensures
        w == neg_w(rd, rm),
{
    0xCB00_03E0 | ((rm & 0x1F) << 16) | (rd & 0x1F)
}

/// `mvn Xd, Xm`  (= orn Xd, xzr, Xm).
pub fn mvn(rd: u32, rm: u32) -> (w: u32)
    ensures
        w == mvn_w(rd, rm),
{
    0xAA20_03E0 | ((rm & 0x1F) << 16) | (rd & 0x1F)
}

/// `csel Xd, Xn, Xm, <cond>`  (Xd = cond ? Xn : Xm).
pub fn csel(rd: u32, rn: u32, rm: u32, cond: u32) -> (w: u32)
    ensures
        w == csel_w(rd, rn, rm, cond),
{
    0x9A80_0000 | ((rm & 0x1F) << 16) | ((cond & 0xF) << 12) | ((rn & 0x1F) << 5) | (rd & 0x1F)
}

/// `ldr Dt, [Xn, #imm]`  (64-bit FP, unsigned scaled offset).
pub fn fldr_off(rt: u32, rn: u32, imm: u32) -> (w: u32)
    ensures
        w == fldr_off_w(rt, rn, imm),
{
    0xFD40_0000 | (((imm / 8) & 0xFFF) << 10) | ((rn & 0x1F) << 5) | (rt & 0x1F)
}

/// `str Dt, [Xn, #imm]`  (64-bit FP, unsigned scaled offset).
pub fn fstr_off(rt: u32, rn: u32, imm: u32) -> (w: u32)
    ensures
        w == fstr_off_w(rt, rn, imm),
{
    0xFD00_0000 | (((imm / 8) & 0xFFF) << 10) | ((rn & 0x1F) << 5) | (rt & 0x1F)
}

/// `fmov Dd, Xn`  (reinterpret the 64 bits of Xn as a double).
pub fn fmov_dx(rd: u32, rn: u32) -> (w: u32)
    ensures
        w == fmov_dx_w(rd, rn),
{
    0x9E67_0000 | ((rn & 0x1F) << 5) | (rd & 0x1F)
}

/// `fmov Dd, Dn`.
pub fn fmov_dd(rd: u32, rn: u32) -> (w: u32)
    ensures
        w == fmov_dd_w(rd, rn),
{
    0x1E60_4000 | ((rn & 0x1F) << 5) | (rd & 0x1F)
}

/// `fadd Dd, Dn, Dm`.
pub fn fadd(rd: u32, rn: u32, rm: u32) -> (w: u32)
    ensures
        w == fadd_w(rd, rn, rm),
{
    0x1E60_2800 | ((rm & 0x1F) << 16) | ((rn & 0x1F) << 5) | (rd & 0x1F)
}

/// `fsub Dd, Dn, Dm`.
pub fn fsub(rd: u32, rn: u32, rm: u32) -> (w: u32)
    ensures
        w == fsub_w(rd, rn, rm),
{
    0x1E60_3800 | ((rm & 0x1F) << 16) | ((rn & 0x1F) << 5) | (rd & 0x1F)
}

/// `fmul Dd, Dn, Dm`.
pub fn fmul(rd: u32, rn: u32, rm: u32) -> (w: u32)
    ensures
        w == fmul_w(rd, rn, rm),
{
    0x1E60_0800 | ((rm & 0x1F) << 16) | ((rn & 0x1F) << 5) | (rd & 0x1F)
}

/// `fdiv Dd, Dn, Dm`.
pub fn fdiv(rd: u32, rn: u32, rm: u32) -> (w: u32)
    ensures
        w == fdiv_w(rd, rn, rm),
{
    0x1E60_1800 | ((rm & 0x1F) << 16) | ((rn & 0x1F) << 5) | (rd & 0x1F)
}

/// `fneg Dd, Dn`.
pub fn fneg(rd: u32, rn: u32) -> (w: u32)
    ensures
        w == fneg_w(rd, rn),
{
    0x1E61_4000 | ((rn & 0x1F) << 5) | (rd & 0x1F)
}

/// `fsqrt Dd, Dn`.
pub fn fsqrt(rd: u32, rn: u32) -> (w: u32)
    ensures
        w == fsqrt_w(rd, rn),
{
    0x1E61_C000 | ((rn & 0x1F) << 5) | (rd & 0x1F)
}

/// `fabs Dd, Dn`.
pub fn fabs(rd: u32, rn: u32) -> (w: u32)
    ensures
        w == fabs_w(rd, rn),
{
    0x1E60_C000 | ((rn & 0x1F) << 5) | (rd & 0x1F)
}

// AArch64 condition codes.
pub const EQ: u32 = 0;
pub const NE: u32 = 1;
pub const HS: u32 = 2;  // unsigned >=
pub const LO: u32 = 3;  // unsigned <
pub const HI: u32 = 8;  // unsigned >
pub const LS: u32 = 9;  // unsigned <=
pub const GE: u32 = 10;
pub const LT: u32 = 11;
pub const GT: u32 = 12;
pub const LE: u32 = 13;
pub const MI: u32 = 4;  // negative

pub const SCRATCH: u32 = 9;  // x9

/// The flag test that precedes a `cbz` placeholder: x9 = TOS, raise NOS.
pub open spec fn flag_test_seq() -> Seq<u32> {
    seq![mov_reg_w(SCRATCH, TOS), ldr0_w(TOS, DSP), add_imm_w(DSP, DSP, 8), cbz_w(SCRATCH, 0)]
}

/// Compile a Forth `IF`/`UNTIL`/`WHILE` flag test: consume TOS (raise NOS),
/// remembering the flag, then a `cbz` placeholder (offset 0) on the flag.
/// Returns the index (in `out`) of the `cbz` word, to be patched later.
pub fn emit_flag_test_cbz(out: &mut Vec<u32>) -> (idx: usize)
    requires
        old(out)@.len() + 4 <= usize::MAX,
    ensures
        final(out)@ == old(out)@ + flag_test_seq(),
        idx == old(out)@.len() + 3,
{
    out.push(mov_reg(SCRATCH, TOS));
    out.push(ldr0(TOS, DSP));
    out.push(add_imm(DSP, DSP, CELL as u32));
    let idx = out.len();
    out.push(cbz(SCRATCH, 0));
    assert(out@ =~= old(out)@ + flag_test_seq());
    idx
}

/// Patch a previously-emitted `cbz` (at `at`) to branch to `target` (word index).
pub fn patch_cbz(out: &mut [u32], at: usize, target: usize)
    requires
        at < old(out)@.len(),
        rel_ok(at, target),
    ensures
        final(out)@ == old(out)@.update(
            at as int,
            cbz_w(SCRATCH, ((target as i32) - (at as i32)) as i32),
        ),
{
    out[at] = cbz(SCRATCH, target as i32 - at as i32);
}

/// Patch a previously-emitted `b` (at `at`) to branch to `target` (word index).
pub fn patch_b(out: &mut [u32], at: usize, target: usize)
    requires
        at < old(out)@.len(),
        rel_ok(at, target),
    ensures
        final(out)@ == old(out)@.update(at as int, b_w(((target as i32) - (at as i32)) as i32)),
{
    out[at] = b(target as i32 - at as i32);
}

// ── Laws ──────────────────────────────────────────────────────────────────
/// `load_imm64` materializes exactly `val`: the four immediates, placed at
/// their shifts 0/16/32/48, reassemble `val`, and every word targets `rd`.
pub proof fn lemma_load_imm64_materializes(rd: u32, val: u64)
    ensures
        ({
            let s = load_imm64_seq(rd, val);
            &&& (imm16_of(s[0]) as u64) | ((imm16_of(s[1]) as u64) << 16) | ((imm16_of(s[2]) as u64)
                << 32) | ((imm16_of(s[3]) as u64) << 48) == val
            &&& shift_of(s[0]) == 0 && shift_of(s[1]) == 16 && shift_of(s[2]) == 32 && shift_of(s[3])
                == 48
            &&& rd_of(s[0]) == rd & 0x1F && rd_of(s[1]) == rd & 0x1F && rd_of(s[2]) == rd & 0x1F
                && rd_of(s[3]) == rd & 0x1F
        }),
{
    let i0 = (val & 0xFFFF) as u16;
    let i1 = ((val >> 16) & 0xFFFF) as u16;
    let i2 = ((val >> 32) & 0xFFFF) as u16;
    let i3 = ((val >> 48) & 0xFFFF) as u16;
    lemma_move_wide_fields(0xD280_0000, rd, i0, 0);
    lemma_move_wide_fields(0xF280_0000, rd, i1, 16);
    lemma_move_wide_fields(0xF280_0000, rd, i2, 32);
    lemma_move_wide_fields(0xF280_0000, rd, i3, 48);
    assert((i0 as u64) | ((i1 as u64) << 16) | ((i2 as u64) << 32) | ((i3 as u64) << 48) == val)
        by (bit_vector)
        requires
            i0 == (val & 0xFFFF) as u16,
            i1 == ((val >> 16) & 0xFFFF) as u16,
            i2 == ((val >> 32) & 0xFFFF) as u16,
            i3 == ((val >> 48) & 0xFFFF) as u16,
    ;
}

/// A move-wide word built from `op`, `rd`, `imm16`, `shift` decodes back to its
/// fields (for the four architectural shifts).
pub proof fn lemma_move_wide_fields(op: u32, rd: u32, imm16: u16, shift: u32)
    requires
        op == 0xD280_0000 || op == 0xF280_0000,
        shift == 0 || shift == 16 || shift == 32 || shift == 48,
    ensures
        ({
            let w = op | f_hw(shift) | f_imm16(imm16) | f_rd(rd);
            &&& imm16_of(w) == imm16 as u32
            &&& shift_of(w) == shift
            &&& rd_of(w) == rd & 0x1F
            &&& w & 0xFF80_0000 == op
        }),
{
    let w = op | ((shift / 16) << 21) | ((imm16 as u32) << 5) | (rd & 0x1F);
    assert(((w >> 5) & 0xFFFF) == imm16 as u32 && w & 0x1F == rd & 0x1F && ((w >> 21) & 3) == shift
        / 16 && w & 0xFF80_0000 == op) by (bit_vector)
        requires
            w == op | ((shift / 16) << 21) | ((imm16 as u32) << 5) | (rd & 0x1F),
            op == 0xD280_0000 || op == 0xF280_0000,
            shift == 0 || shift == 16 || shift == 32 || shift == 48,
    ;
}

/// A 19-bit branch word (`cbz` or `b.<cond>`) decodes back to its offset, its
/// low-five-bit operand (register or condition) and its opcode.
pub proof fn lemma_branch19_fields(op: u32, low: u32, off: i32)
    requires
        op == 0xB400_0000 || op == 0x5400_0000,
        low < 32,
        -0x40000 <= off < 0x40000,
    ensures
        ({
            let w = op | f_off19(off) | low;
            &&& off19_of(w) == off
            &&& w & 0x1F == low
            &&& op19_of(w) == op
        }),
{
    let w = op | (((off as u32) & 0x7FFFF) << 5) | low;
    assert(((((((w >> 5) & 0x7FFFF) << 13) as i32) >> 13) == off) && w & 0x1F == low && w
        & 0xFF00_0000 == op) by (bit_vector)
        requires
            w == op | (((off as u32) & 0x7FFFF) << 5) | low,
            op == 0xB400_0000 || op == 0x5400_0000,
            low < 32,
            -0x40000 <= off < 0x40000,
    ;
}

/// `cbz` encodes its register and its signed word offset.
pub proof fn lemma_cbz_fields(rt: u32, off: i32)
    requires
        -0x40000 <= off < 0x40000,
    ensures
        off19_of(cbz_w(rt, off)) == off,
        rd_of(cbz_w(rt, off)) == rt & 0x1F,
{
    assert(rt & 0x1F < 32) by (bit_vector);
    lemma_branch19_fields(0xB400_0000, rt & 0x1F, off);
}

/// `b.<cond>` encodes its condition and its signed word offset.
pub proof fn lemma_bcond_fields(cond: u32, off: i32)
    requires
        -0x40000 <= off < 0x40000,
    ensures
        off19_of(bcond_w(cond, off)) == off,
        cond_of(bcond_w(cond, off)) == cond & 0xF,
{
    assert(cond & 0xF < 16 && (cond & 0xF) & 0xF == cond & 0xF) by (bit_vector);
    lemma_branch19_fields(0x5400_0000, cond & 0xF, off);
    let w = bcond_w(cond, off);
    let low = cond & 0xF;
    assert(w & 0xF == low) by (bit_vector)
        requires
            w & 0x1F == low,
            low < 16,
    ;
}

/// `b` encodes its signed word offset.
pub proof fn lemma_b_fields(off: i32)
    requires
        -0x0200_0000 <= off < 0x0200_0000,
    ensures
        off26_of(b_w(off)) == off,
{
    let w = 0x1400_0000u32 | ((off as u32) & 0x03FF_FFFF);
    assert((((w & 0x03FF_FFFF) << 6) as i32) >> 6 == off) by (bit_vector)
        requires
            w == 0x1400_0000u32 | ((off as u32) & 0x03FF_FFFF),
            -0x0200_0000 <= off < 0x0200_0000,
    ;
}

/// `tbz` encodes its register, the tested bit and its signed word offset.
pub proof fn lemma_tbz_fields(rt: u32, bit: u32, off: i32)
    requires
        bit < 64,
        -0x2000 <= off < 0x2000,
    ensures
        off14_of(tbz_w(rt, bit, off)) == off,
        tbz_bit_of(tbz_w(rt, bit, off)) == bit,
        rd_of(tbz_w(rt, bit, off)) == rt & 0x1F,
{
    let w = (((bit >> 5) & 1) << 31) | 0x3600_0000u32 | ((bit & 0x1F) << 19) | (((off as u32)
        & 0x3FFF) << 5) | (rt & 0x1F);
    assert(((((((w >> 5) & 0x3FFF) << 18) as i32) >> 18) == off) && ((w >> 31) << 5) | ((w >> 19)
        & 0x1F) == bit && w & 0x1F == rt & 0x1F) by (bit_vector)
        requires
            w == (((bit >> 5) & 1) << 31) | 0x3600_0000u32 | ((bit & 0x1F) << 19) | (((off as u32)
                & 0x3FFF) << 5) | (rt & 0x1F),
            bit < 64,
            -0x2000 <= off < 0x2000,
    ;
}

/// Word indices small enough that `as i32` is exact and the distance fits the
/// 19-bit branch field.
pub open spec fn reach19(at: usize, target: usize) -> bool {
    at < 0x4000_0000 && target < 0x4000_0000 && -0x40000 <= target - at < 0x40000
}

/// Patching a `cbz` makes the word at `at` a `cbz x9` that lands on `target`.
pub proof fn lemma_patch_cbz_lands(at: usize, target: usize)
    requires
        reach19(at, target),
    ensures
        rel_ok(at, target),
        at + off19_of(cbz_w(SCRATCH, ((target as i32) - (at as i32)) as i32)) == target,
        rd_of(cbz_w(SCRATCH, ((target as i32) - (at as i32)) as i32)) == SCRATCH,
{
    let off = ((target as i32) - (at as i32)) as i32;
    assert(off == target - at);
    lemma_cbz_fields(SCRATCH, off);
    assert(9u32 & 0x1F == 9) by (bit_vector);
}

/// Patching a `b.<cond>` keeps its condition and makes it land on `target`.
pub proof fn lemma_patch_bcond_lands(old_word: u32, at: usize, target: usize)
    requires
        reach19(at, target),
    ensures
        rel_ok(at, target),
        at + off19_of(bcond_w(old_word & 0xF, ((target as i32) - (at as i32)) as i32)) == target,
        cond_of(bcond_w(old_word & 0xF, ((target as i32) - (at as i32)) as i32)) == cond_of(
            old_word,
        ),
{
    let off = ((target as i32) - (at as i32)) as i32;
    assert(off == target - at);
    lemma_bcond_fields(old_word & 0xF, off);
    assert((old_word & 0xF) & 0xF == old_word & 0xF) by (bit_vector);
}

/// Patching a `b` makes the word at `at` land on `target`.
pub proof fn lemma_patch_b_lands(at: usize, target: usize)
    requires
        at < 0x4000_0000,
        target < 0x4000_0000,
        -0x0200_0000 <= target - at < 0x0200_0000,
    ensures
        rel_ok(at, target),
        at + off26_of(b_w(((target as i32) - (at as i32)) as i32)) == target,
{
    let off = ((target as i32) - (at as i32)) as i32;
    assert(off == target - at);
    lemma_b_fields(off);
}


// ── What the ALU words compute ──────────────────────────────────────────────
/// What an A64 64-bit `ADD`/`SUB` word computes from the register values
/// `regs` (x0..x31): the destination register and its new value, wrapping.
/// The forms read are the unshifted 12-bit immediate and the shifted register
/// with a zero shift; register 31 is read as `regs[31]`. Any other word: None.
pub open spec fn alu_effect(w: u32, regs: Seq<i64>) -> Option<(u32, i64)> {
    let n = regs[rn_of(w) as int];
    let m = regs[rm_of(w) as int];
    let imm = ((w >> 10) & 0xFFF) as i64;
    if w & 0xFFC0_0000 == 0x9100_0000 {
        Some((rd_of(w), n.wrapping_add(imm)))
    } else if w & 0xFFC0_0000 == 0xD100_0000 {
        Some((rd_of(w), n.wrapping_sub(imm)))
    } else if w & 0xFFE0_FC00 == 0x8B00_0000 {
        Some((rd_of(w), n.wrapping_add(m)))
    } else if w & 0xFFE0_FC00 == 0xCB00_0000 {
        Some((rd_of(w), n.wrapping_sub(m)))
    } else {
        None
    }
}

/// The fields the add/sub encoders write, as `alu_effect` reads them.
pub proof fn lemma_addsub_fields(rd: u32, rn: u32, rm: u32, imm: u32)
    ensures
        add_imm_w(rd, rn, imm) & 0xFFC0_0000 == 0x9100_0000,
        (add_imm_w(rd, rn, imm) >> 10) & 0xFFF == imm & 0xFFF,
        rd_of(add_imm_w(rd, rn, imm)) == rd & 0x1F,
        rn_of(add_imm_w(rd, rn, imm)) == rn & 0x1F,
        sub_imm_w(rd, rn, imm) & 0xFFC0_0000 == 0xD100_0000,
        (sub_imm_w(rd, rn, imm) >> 10) & 0xFFF == imm & 0xFFF,
        rd_of(sub_imm_w(rd, rn, imm)) == rd & 0x1F,
        rn_of(sub_imm_w(rd, rn, imm)) == rn & 0x1F,
        add_reg_w(rd, rn, rm) & 0xFFC0_0000 != 0x9100_0000,
        add_reg_w(rd, rn, rm) & 0xFFC0_0000 != 0xD100_0000,
        add_reg_w(rd, rn, rm) & 0xFFE0_FC00 == 0x8B00_0000,
        rd_of(add_reg_w(rd, rn, rm)) == rd & 0x1F,
        rn_of(add_reg_w(rd, rn, rm)) == rn & 0x1F,
        rm_of(add_reg_w(rd, rn, rm)) == rm & 0x1F,
        sub_reg_w(rd, rn, rm) & 0xFFC0_0000 != 0x9100_0000,
        sub_reg_w(rd, rn, rm) & 0xFFC0_0000 != 0xD100_0000,
        sub_reg_w(rd, rn, rm) & 0xFFE0_FC00 != 0x8B00_0000,
        sub_reg_w(rd, rn, rm) & 0xFFE0_FC00 == 0xCB00_0000,
        rd_of(sub_reg_w(rd, rn, rm)) == rd & 0x1F,
        rn_of(sub_reg_w(rd, rn, rm)) == rn & 0x1F,
        rm_of(sub_reg_w(rd, rn, rm)) == rm & 0x1F,
{
    let a = add_imm_w(rd, rn, imm);
    let b = sub_imm_w(rd, rn, imm);
    let c = add_reg_w(rd, rn, rm);
    let d = sub_reg_w(rd, rn, rm);
    assert(a & 0xFFC0_0000 == 0x9100_0000 && (a >> 10) & 0xFFF == imm & 0xFFF && a & 0x1F == rd & 0x1F
        && (a >> 5) & 0x1F == rn & 0x1F) by (bit_vector)
        requires
            a == 0x9100_0000u32 | ((imm & 0xFFF) << 10) | ((rn & 0x1F) << 5) | (rd & 0x1F),
    ;
    assert(b & 0xFFC0_0000 == 0xD100_0000 && (b >> 10) & 0xFFF == imm & 0xFFF && b & 0x1F == rd & 0x1F
        && (b >> 5) & 0x1F == rn & 0x1F) by (bit_vector)
        requires
            b == 0xD100_0000u32 | ((imm & 0xFFF) << 10) | ((rn & 0x1F) << 5) | (rd & 0x1F),
    ;
    assert(c & 0xFFC0_0000 != 0x9100_0000 && c & 0xFFC0_0000 != 0xD100_0000 && c & 0xFFE0_FC00
        == 0x8B00_0000 && c & 0x1F == rd & 0x1F && (c >> 5) & 0x1F == rn & 0x1F && (c >> 16) & 0x1F
        == rm & 0x1F) by (bit_vector)
        requires
            c == 0x8B00_0000u32 | ((rm & 0x1F) << 16) | ((rn & 0x1F) << 5) | (rd & 0x1F),
    ;
    assert(d & 0xFFC0_0000 != 0x9100_0000 && d & 0xFFC0_0000 != 0xD100_0000 && d & 0xFFE0_FC00
        != 0x8B00_0000 && d & 0xFFE0_FC00 == 0xCB00_0000 && d & 0x1F == rd & 0x1F && (d >> 5) & 0x1F
        == rn & 0x1F && (d >> 16) & 0x1F == rm & 0x1F) by (bit_vector)
        requires
            d == 0xCB00_0000u32 | ((rm & 0x1F) << 16) | ((rn & 0x1F) << 5) | (rd & 0x1F),
    ;
}

/// The `loop` step counts the index up by one: the word that updates the
/// index writes x9 + 1 back to x9, whatever the branch offset.
pub proof fn lemma_loop_step_increments(back: i32, regs: Seq<i64>)
    requires
        regs.len() == 32,
    ensures
        alu_effect(loop_seq(back)[3], regs) == Some((9u32, regs[9].wrapping_add(1))),
{
    lemma_addsub_fields(9, 9, 0, 1);
    assert(1u32 & 0xFFF == 1 && 9u32 & 0x1F == 9) by (bit_vector);
    let w = loop_seq(back)[3];
    assert(w == add_imm_w(9, 9, 1));
    assert(rd_of(w) == 9 && rn_of(w) == 9 && (w >> 10) & 0xFFF == 1);
}

/// The `+loop` step adds the increment to the index: the word that updates the
/// index writes x9 + x0 (index + n, n the popped top of stack) back to x9,
/// whatever the branch offset.
pub proof fn lemma_plus_loop_step_adds(back: i32, regs: Seq<i64>)
    requires
        regs.len() == 32,
    ensures
        alu_effect(plus_loop_seq(back)[3], regs) == Some((9u32, regs[9].wrapping_add(regs[0]))),
{
    lemma_addsub_fields(9, 9, TOS, 0);
    assert(0u32 & 0x1F == 0 && 9u32 & 0x1F == 9) by (bit_vector);
    let w = plus_loop_seq(back)[3];
    assert(w == add_reg_w(9, 9, TOS));
    assert(rd_of(w) == 9 && rn_of(w) == 9 && rm_of(w) == 0);
}
} // verus!
