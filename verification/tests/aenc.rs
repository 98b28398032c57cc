use mf66::aenc::{
    add_imm, add_reg, and_reg, b, bcond, blr, cbz, cmp_imm, cmp_reg, csetm, emit_call, emit_lit,
    emit_loop, emit_nest, emit_unnest_ret, eor_reg, ldr0, ldr_off, ldr_post, ldrb0, load_imm64,
    mov_reg, movk, movz, mul, mvn, neg, orr_reg, patch_b, patch_bcond, patch_cbz, ret, str_off,
    str_pre, strb0, sub_imm, sub_reg, tbz, EQ, GE, LT,
};

// Expected words are the assembler's encodings of the instruction in each comment.

#[test]
fn cf_encoders_match_assembler() {
    assert_eq!(vec![mov_reg(9, 0)], vec![0xAA0003E9]); // mov x9, x0
    assert_eq!(vec![ldr0(0, 19)], vec![0xF9400260]); // ldr x0, [x19]
    assert_eq!(vec![add_imm(19, 19, 8)], vec![0x91002273]); // add x19, x19, #8
    // cbz/b with a +2-word forward offset (label two instructions ahead)
    assert_eq!(0xB4000049, cbz(9, 2)); // cbz x9, .L / nop / .L:
    assert_eq!(0x14000002, b(2)); // b .L / nop / .L:
    // backward (negative) offset
    assert_eq!(0x17FFFFFF, b(-1)); // .L: / nop / b .L
    assert_eq!(0x5400004A, bcond(GE, 2)); // b.ge .L / nop / .L:
    assert_eq!(0x54000040, bcond(EQ, 2)); // b.eq .L / nop / .L:
}

#[test]
fn doloop_encoders_match_assembler() {
    assert_eq!(vec![ldr_off(9, 28, 8)], vec![0xF9400789]); // ldr x9, [x28, #8]
    assert_eq!(vec![str_off(9, 28, 0)], vec![0xF9000389]); // str x9, [x28]
    assert_eq!(vec![add_reg(9, 9, 0)], vec![0x8B000129]); // add x9, x9, x0
    assert_eq!(vec![sub_reg(11, 9, 10)], vec![0xCB0A012B]); // sub x11, x9, x10
    assert_eq!(vec![eor_reg(11, 11, 12)], vec![0xCA0C016B]); // eor x11, x11, x12
    assert_eq!(tbz(11, 63, 2), 0xB6F8_004B);
    assert_eq!(tbz(9, 5, 2), 0x3628_0049);
}

#[test]
fn opt_encoders_match_assembler() {
    assert_eq!(vec![mul(0, 0, 9)], vec![0x9B097C00]); // mul x0, x0, x9
    assert_eq!(vec![and_reg(0, 0, 9)], vec![0x8A090000]); // and x0, x0, x9
    assert_eq!(vec![orr_reg(0, 0, 9)], vec![0xAA090000]); // orr x0, x0, x9
    assert_eq!(vec![sub_imm(0, 0, 5)], vec![0xD1001400]); // sub x0, x0, #5
    assert_eq!(vec![cmp_reg(9, 0)], vec![0xEB00013F]); // cmp x9, x0
    assert_eq!(vec![cmp_imm(0, 0)], vec![0xF100001F]); // cmp x0, #0
    assert_eq!(vec![csetm(0, EQ)], vec![0xDA9F13E0]); // csetm x0, eq
    assert_eq!(vec![csetm(0, LT)], vec![0xDA9FA3E0]); // csetm x0, lt
    assert_eq!(vec![ldrb0(0, 0)], vec![0x39400000]); // ldrb w0, [x0]
    assert_eq!(vec![strb0(9, 0)], vec![0x39000009]); // strb w9, [x0]
    assert_eq!(vec![neg(0, 0)], vec![0xCB0003E0]); // neg x0, x0
    assert_eq!(vec![mvn(0, 0)], vec![0xAA2003E0]); // mvn x0, x0
    assert_eq!(vec![ldr_post(9, 19, 8)], vec![0xF8408669]); // ldr x9, [x19], #8
}

#[test]
fn encoders_match_assembler() {
    assert_eq!(vec![movz(0, 0x1234, 0)], vec![0xD2824680]); // movz x0, #0x1234
    assert_eq!(vec![movz(16, 0xABCD, 16)], vec![0xD2B579B0]); // movz x16, #0xABCD, lsl #16
    assert_eq!(vec![movk(0, 0xFFFF, 32)], vec![0xF2DFFFE0]); // movk x0, #0xFFFF, lsl #32
    assert_eq!(vec![movk(16, 0x1, 48)], vec![0xF2E00030]); // movk x16, #0x1, lsl #48
    assert_eq!(vec![blr(16)], vec![0xD63F0200]); // blr x16
    assert_eq!(vec![ret()], vec![0xD65F03C0]); // ret
    assert_eq!(vec![str_pre(30, 28, -8)], vec![0xF81F8F9E]); // str x30, [x28, #-8]!
    assert_eq!(vec![ldr_post(30, 28, 8)], vec![0xF840879E]); // ldr x30, [x28], #8
    assert_eq!(vec![str_pre(0, 19, -8)], vec![0xF81F8E60]); // str x0, [x19, #-8]!
}

#[test]
fn load_imm64_matches_assembler() {
    let mut out = Vec::new();
    load_imm64(0, 0x1234_5678_9ABC_DEF0, &mut out);
    // movz x0, #0xDEF0 / movk x0, #0x9ABC, lsl #16 / movk x0, #0x5678, lsl #32 / movk x0, #0x1234, lsl #48
    assert_eq!(out, vec![0xD29BDE00, 0xF2B35780, 0xF2CACF00, 0xF2E24680]);
}

#[test]
fn nest_and_unnest_frame_the_return_address() {
    let mut out = Vec::new();
    emit_nest(&mut out);
    emit_unnest_ret(&mut out);
    // str x30, [x28, #-8]! / ldr x30, [x28], #8 / ret
    assert_eq!(out, vec![0xF81F8F9E, 0xF840879E, 0xD65F03C0]);
}

#[test]
fn call_is_a_veneer_through_x16() {
    let mut out = Vec::new();
    emit_call(0x1_0000, &mut out);
    // movz x16, #0 / movk x16, #1, lsl #16 / movk x16, #0, lsl #32 / movk x16, #0, lsl #48 / blr x16
    assert_eq!(out, vec![0xD2800010, 0xF2A00030, 0xF2C00010, 0xF2E00010, 0xD63F0200]);
}

#[test]
fn literal_spills_tos_then_loads() {
    let mut out = Vec::new();
    emit_lit(-1, &mut out);
    assert_eq!(out.len(), 5);
    assert_eq!(out[0], 0xF81F8E60); // str x0, [x19, #-8]!
    assert_eq!(out[1], 0xD29FFFE0); // movz x0, #0xFFFF
}

#[test]
fn patched_branches_land_on_their_targets() {
    let mut code = vec![cbz(9, 0), bcond(EQ, 0), b(0), 0, 0];
    patch_cbz(&mut code, 0, 3);
    patch_bcond(&mut code, 1, 4);
    patch_b(&mut code, 2, 0);
    assert_eq!(code[0], cbz(9, 3));
    assert_eq!(code[1], bcond(EQ, 3));
    assert_eq!(code[2], b(-2));
}

#[test]
fn loop_branches_back_to_its_top() {
    let mut out = vec![0u32; 4];
    emit_loop(&mut out, 1);
    assert_eq!(out.len(), 13);
    // the tbz before the frame drop jumps back to word 1
    let at = out.len() - 2;
    let field = (out[at] >> 5) & 0x3FFF;
    let off = ((field << 18) as i32) >> 18;
    assert_eq!(at as i32 + off, 1);
    assert_eq!(out[at], tbz(11, 63, 1 - at as i32));
}

#[test]
fn constant_value_and_double_constant_bodies() {
    // constant 3: str x0, [x19, #-8]! spills TOS; movz x0, #3; movk ×3; ret
    assert_eq!(
        mf66::aenc::constant_body(3),
        vec![0xF81F8E60, 0xD2800060, 0xF2A00000, 0xF2C00000, 0xF2E00000, 0xD65F03C0]
    );
    let mut want = Vec::new();
    emit_lit(1, &mut want);
    emit_lit(2, &mut want);
    want.push(ret());
    assert_eq!(mf66::aenc::dconstant_body(1, 2), want);
    let mut want = vec![str_pre(0, 19, -8)];
    load_imm64(0, 0x1234_5678, &mut want);
    want.push(ldr0(0, 0));
    want.push(ret());
    assert_eq!(mf66::aenc::value_body(0x1234_5678), want);
}
