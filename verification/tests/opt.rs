use mf66::opt::{fused_cmp, lower, reduce, Bin, Cmp, Metrics, Sel, Stk, Tok};

fn red(toks: &[Tok]) -> Vec<Tok> {
    reduce(toks, &mut Metrics::default())
}

#[test]
fn const_fold() {
    // 2 3 + -> Lit 5
    let r = red(&[Tok::Lit(2), Tok::Lit(3), Tok::Bin(Bin::Add)]);
    assert_eq!(r.len(), 1);
    assert!(matches!(r[0], Tok::Lit(5)));
    // 2 3 + 4 * -> Lit 20
    let r = red(&[Tok::Lit(2), Tok::Lit(3), Tok::Bin(Bin::Add), Tok::Lit(4), Tok::Bin(Bin::Mul)]);
    assert!(matches!(r[..], [Tok::Lit(20)]));
}

#[test]
fn imm_and_dup_and_dce() {
    // x 5 + -> ImmBin(Add,5)
    let r = red(&[Tok::Bin(Bin::Add), Tok::Lit(5), Tok::Bin(Bin::Add)]);
    assert!(matches!(r.last(), Some(Tok::ImmBin(Bin::Add, 5))));
    // dup + -> DupBin(Add)
    let r = red(&[Tok::Stk(Stk::Dup), Tok::Bin(Bin::Add)]);
    assert!(matches!(r[..], [Tok::DupBin(Bin::Add)]));
    // 7 drop -> nothing
    let r = red(&[Tok::Lit(7), Tok::Stk(Stk::Drop)]);
    assert!(r.is_empty());
}

#[test]
fn immediates_chain() {
    // 1+ 1+ → +2 ; x 3 - 4 - → x 7 -
    assert_eq!(
        red(&[Tok::Lit(1), Tok::Bin(Bin::Add), Tok::Lit(1), Tok::Bin(Bin::Add)]),
        vec![Tok::ImmBin(Bin::Add, 2)]
    );
    assert_eq!(
        red(&[Tok::Lit(3), Tok::Bin(Bin::Sub), Tok::Lit(4), Tok::Bin(Bin::Sub)]),
        vec![Tok::ImmBin(Bin::Sub, 7)]
    );
    // different ops do not chain
    assert_eq!(
        red(&[Tok::Lit(3), Tok::Bin(Bin::Add), Tok::Lit(4), Tok::Bin(Bin::Mul)]),
        vec![Tok::ImmBin(Bin::Add, 3), Tok::ImmBin(Bin::Mul, 4)]
    );
    // wrapping arithmetic in folds
    assert_eq!(red(&[Tok::Lit(i64::MAX), Tok::Lit(1), Tok::Bin(Bin::Add)]), vec![Tok::Lit(i64::MIN)]);
}

#[test]
fn inverse_motions_cancel_and_compares_negate() {
    assert!(red(&[Tok::Stk(Stk::Swap), Tok::Stk(Stk::Swap)]).is_empty());
    assert!(red(&[Tok::Stk(Stk::Rot), Tok::Stk(Stk::MinusRot)]).is_empty());
    assert!(red(&[Tok::Stk(Stk::MinusRot), Tok::Stk(Stk::Rot)]).is_empty());
    assert_eq!(red(&[Tok::Cmp(Cmp::Lt), Tok::Cmp(Cmp::ZEq)]), vec![Tok::Cmp(Cmp::Ge)]);
    assert_eq!(red(&[Tok::Cmp(Cmp::Eq), Tok::Cmp(Cmp::ZEq)]), vec![Tok::Cmp(Cmp::Ne)]);
    // unsigned compares have no inverse in the IR
    assert_eq!(red(&[Tok::Cmp(Cmp::ULt), Tok::Cmp(Cmp::ZEq)]), vec![Tok::Cmp(Cmp::ULt), Tok::Cmp(Cmp::ZEq)]);
}

#[test]
fn reduce_counts_every_rewrite() {
    let toks = [
        Tok::Lit(2),
        Tok::Lit(3),
        Tok::Bin(Bin::Add), // const fold
        Tok::Lit(4),
        Tok::Bin(Bin::Mul), // const fold
        Tok::Stk(Stk::Dup),
        Tok::Bin(Bin::Add), // dup fuse
        Tok::Lit(9),
        Tok::Stk(Stk::Drop), // dce
        Tok::Stk(Stk::Swap),
        Tok::Stk(Stk::Swap), // cancel
        Tok::Cmp(Cmp::Gt),
        Tok::Cmp(Cmp::ZEq), // negate
    ];
    let mut m = Metrics::default();
    let out = reduce(&toks, &mut m);
    assert_eq!(out, vec![Tok::Lit(20), Tok::DupBin(Bin::Add), Tok::Cmp(Cmp::Le)]);
    assert_eq!((m.toks_in, m.toks_out), (13, 3));
    assert_eq!((m.const_folds, m.dup_fuses, m.dce, m.stack_cancels, m.cmp_negates), (2, 1, 1, 1, 1));
    assert_eq!(m.rewrites(), 6);
    // tokens in = tokens out + what the rewrites saved
    let saved = 2 * m.const_folds + m.imm_folds + 2 * m.imm_chains + m.dup_fuses + 2 * m.dce
        + 2 * m.stack_cancels + m.cmp_negates;
    assert_eq!(m.toks_in, m.toks_out + saved);
}

#[test]
fn reducing_twice_changes_nothing() {
    let toks = [
        Tok::Lit(1),
        Tok::Lit(2),
        Tok::Stk(Stk::Drop),
        Tok::Bin(Bin::Add),
        Tok::Stk(Stk::Over),
        Tok::Cmp(Cmp::Lt),
        Tok::Cmp(Cmp::ZEq),
        Tok::Cmp(Cmp::ZEq),
        Tok::Sel(Sel::Max),
    ];
    let once = red(&toks);
    assert_eq!(red(&once), once);
    assert!(once.len() <= toks.len());
}

#[test]
fn merge_sums_counters_and_keeps_peaks() {
    let mut a = Metrics::default();
    a.toks_in = 3;
    a.peak_gp = 5;
    let mut b = Metrics::default();
    b.toks_in = 4;
    b.peak_gp = 2;
    b.calls = 1;
    b.instrs = 1;
    a.instrs = 2;
    a.merge(&b);
    assert_eq!((a.toks_in, a.peak_gp, a.calls, a.instrs), (7, 5, 1, 3));
}

#[test]
fn lowering_a_folded_sum_settles_to_x0() {
    let mut out = Vec::new();
    let mut m = Metrics::default();
    assert!(lower(&[Tok::Lit(1), Tok::Lit(2), Tok::Bin(Bin::Add)], &mut out, &mut m));
    // sub x19, x19, #8 / str x0, [x19] / movz x0, #3 / movk ×3
    assert_eq!(out, vec![0xD1002273, 0xF9000260, 0xD2800060, 0xF2A00000, 0xF2C00000, 0xF2E00000]);
    assert_eq!((m.settles, m.dsp_adjusts, m.stack_stores), (1, 1, 1));
}

#[test]
fn lowering_dup_mul_squares_tos_in_place() {
    let mut out = vec![0xD503201F]; // a word already there stays
    let mut m = Metrics::default();
    assert!(lower(&[Tok::DupBin(Bin::Mul)], &mut out, &mut m));
    // mul x0, x0, x0 — TOS stays in x0, nothing to settle
    assert_eq!(out, vec![0xD503201F, 0x9B007C00]);
}

#[test]
fn lowering_a_call_settles_first() {
    let mut out = Vec::new();
    let mut m = Metrics::default();
    assert!(lower(&[Tok::Lit(7), Tok::Call(0x1000)], &mut out, &mut m));
    // str x0, [x19, #-8]! is not used: the settle moves DSP then stores
    assert_eq!(out[0], 0xD1002273); // sub x19, x19, #8
    assert_eq!(out[1], 0xF9000260); // str x0, [x19]
    assert_eq!(out[2], 0xD28000E0); // movz x0, #7
    assert_eq!(out[out.len() - 1], 0xD63F0200); // blr x16
    assert_eq!(m.calls, 1);
    assert_eq!(m.settles, 2);
}

#[test]
fn stack_motion_is_free() {
    let mut out = Vec::new();
    let mut m = Metrics::default();
    assert!(lower(&[Tok::Lit(1), Tok::Lit(2), Tok::Stk(Stk::Swap), Tok::Stk(Stk::Drop)], &mut out, &mut m));
    assert_eq!((m.stack_ops, m.stack_ops_free), (2, 2));
}

#[test]
fn fused_compares_pick_the_true_condition() {
    let mut out = Vec::new();
    assert_eq!(fused_cmp(Cmp::ZEq, &mut out), 0); // EQ
    // cmp x0, #0 / ldr x0, [x19], #8
    assert_eq!(out, vec![0xF100001F, 0xF8408660]);
    let mut out = Vec::new();
    assert_eq!(fused_cmp(Cmp::Lt, &mut out), 0xB); // LT
    // ldr x9, [x19], #8 / cmp x9, x0 / ldr x0, [x19], #8
    assert_eq!(out, vec![0xF8408669, 0xEB00013F, 0xF8408660]);
    let mut out = Vec::new();
    assert_eq!(fused_cmp(Cmp::Ne, &mut out), 1); // NE
    assert_eq!(out[1], 0xEB09001F); // cmp x0, x9
}

#[test]
fn lowering_copies_never_share_a_live_register() {
    // over over on ( a b ): b is in x0, a is pulled into x9; the two copies
    // land in x10 and x11 — three pool registers live at once, none reused.
    let mut out = Vec::new();
    let mut m = Metrics::default();
    assert!(lower(&[Tok::Stk(Stk::Over), Tok::Stk(Stk::Over)], &mut out, &mut m));
    assert_eq!(m.reg_copies, 2);
    assert_eq!(m.peak_gp, 3);
}

#[test]
fn lowering_refuses_a_pick_deeper_than_the_pool() {
    let mut out = vec![0xD503201F];
    let mut m = Metrics::default();
    assert!(!lower(&[Tok::Lit(5), Tok::PickN(7)], &mut out, &mut m));
    assert_eq!(out, vec![0xD503201F]);
    assert_eq!(m.toks_in, 0);
    assert_eq!(m.settles, 0);
    assert!(lower(&[Tok::PickN(6)], &mut out, &mut m));
    assert!(out.len() > 1);
}

#[test]
fn logic_on_literals_folds() {
    assert_eq!(red(&[Tok::Lit(6), Tok::Lit(3), Tok::Bin(Bin::And)]), vec![Tok::Lit(2)]);
    assert_eq!(red(&[Tok::Lit(4), Tok::Lit(1), Tok::Bin(Bin::Or)]), vec![Tok::Lit(5)]);
    assert_eq!(red(&[Tok::Lit(6), Tok::Lit(3), Tok::Bin(Bin::Xor)]), vec![Tok::Lit(5)]);
    // compares are left for the lowerer
    assert_eq!(
        red(&[Tok::Lit(2), Tok::Lit(3), Tok::Cmp(Cmp::Lt)]),
        vec![Tok::Lit(2), Tok::Lit(3), Tok::Cmp(Cmp::Lt)]
    );
}

#[test]
fn lowering_folds_compares_of_literals_to_flags() {
    let flag = |toks: &[Tok]| {
        let mut out = Vec::new();
        assert!(lower(toks, &mut out, &mut Metrics::default()));
        out
    };
    let settled = |v: i64| {
        // sub x19, x19, #8 / str x0, [x19], then the flag into x0
        let mut want = vec![0xD1002273, 0xF9000260];
        mf66::aenc::load_imm64(0, v as u64, &mut want);
        want
    };
    assert_eq!(flag(&[Tok::Lit(2), Tok::Lit(3), Tok::Cmp(Cmp::Lt)]), settled(-1));
    assert_eq!(flag(&[Tok::Lit(5), Tok::Lit(3), Tok::Cmp(Cmp::Lt)]), settled(0));
    assert_eq!(flag(&[Tok::Lit(4), Tok::Lit(4), Tok::Cmp(Cmp::Eq)]), settled(-1));
    assert_eq!(flag(&[Tok::Lit(4), Tok::Lit(4), Tok::Cmp(Cmp::Ne)]), settled(0));
    assert_eq!(flag(&[Tok::Lit(0), Tok::Cmp(Cmp::ZEq)]), settled(-1));
    assert_eq!(flag(&[Tok::Lit(5), Tok::Cmp(Cmp::ZEq)]), settled(0));
    assert_eq!(flag(&[Tok::Lit(-3), Tok::Cmp(Cmp::ZLt)]), settled(-1));
    assert_eq!(flag(&[Tok::Lit(7), Tok::Cmp(Cmp::ZGt)]), settled(-1));
}
