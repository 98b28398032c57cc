use mf66::aenc::{b, bcond, cbz, ldr_post, str_off, sub_imm, add_imm, tbz, GE};
use mf66::colon::{control_word, CfError, ColonDef, ControlWord};
use mf66::opt::{Bin, Cmp, Metrics, Tok};

fn def() -> ColonDef {
    ColonDef::new("t".to_string(), 0x1000, false)
}

#[test]
fn if_else_then_patches_both_branches() {
    let mut d = def();
    assert_eq!(d.body.len(), 1); // the nest prologue
    assert_eq!(d.compile_control(ControlWord::If), Ok(()));
    assert_eq!(d.body.len(), 5);
    assert_eq!(d.compile_control(ControlWord::Else), Ok(()));
    assert_eq!(d.compile_control(ControlWord::Then), Ok(()));
    assert!(d.cf.is_empty());
    assert_eq!(d.body[4], cbz(9, 2)); // false → past the else jump
    assert_eq!(d.body[5], b(1)); // the else jump → after then
}

#[test]
fn begin_until_and_do_loop_branch_back() {
    let mut d = def();
    d.compile_control(ControlWord::Begin).unwrap();
    d.compile_control(ControlWord::Until).unwrap();
    assert_eq!(d.body[4], cbz(9, -3)); // back to word 1
    let mut d = def();
    d.compile_control(ControlWord::Do).unwrap();
    d.compile_control(ControlWord::Loop).unwrap();
    assert_eq!(d.body.len(), 1 + 5 + 9);
    assert_eq!(d.body[13], tbz(11, 63, -7)); // back to the loop body top (word 6)
    assert!(d.cf.is_empty());
}

#[test]
fn begin_while_repeat_resolves_the_exit() {
    let mut d = def();
    d.compile_control(ControlWord::Begin).unwrap();
    d.compile_control(ControlWord::While).unwrap();
    d.compile_control(ControlWord::Repeat).unwrap();
    assert!(d.cf.is_empty());
    assert_eq!(d.body[5], b(-4)); // back to begin (word 1)
    assert_eq!(d.body[4], cbz(9, 2)); // false → after the loop
}

#[test]
fn unbalanced_control_errors() {
    let mut d = def();
    assert_eq!(d.compile_control(ControlWord::Then), Err(CfError::ThenWithoutIf));
    assert_eq!(d.compile_control(ControlWord::Else), Err(CfError::ElseWithoutIf));
    assert_eq!(d.compile_control(ControlWord::Loop), Err(CfError::LoopWithoutDo));
    assert_eq!(d.compile_control(ControlWord::PlusLoop), Err(CfError::PlusLoopWithoutDo));
    assert_eq!(d.compile_control(ControlWord::Until), Err(CfError::UntilWithoutBegin));
    assert_eq!(d.compile_control(ControlWord::Repeat), Err(CfError::RepeatWithoutBegin));
    // `repeat` takes the `while` mark first: a lone `begin` is taken for it
    let mut d = def();
    d.compile_control(ControlWord::Begin).unwrap();
    assert_eq!(d.compile_control(ControlWord::Repeat), Err(CfError::RepeatWithoutBegin));
    let mut d = def();
    d.compile_control(ControlWord::Begin).unwrap();
    d.compile_control(ControlWord::Begin).unwrap();
    assert_eq!(d.compile_control(ControlWord::Repeat), Err(CfError::RepeatWithoutWhile));
    let mut d = def();
    d.compile_control(ControlWord::If).unwrap();
    assert_eq!(d.finish_body(), Err(CfError::Unbalanced));
}

#[test]
fn fused_compare_branches_on_the_inverse() {
    let mut d = def();
    assert_eq!(d.compile_control_fused(ControlWord::If, Cmp::Lt), Ok(()));
    assert_eq!(d.body.len(), 5);
    d.compile_control(ControlWord::Then).unwrap();
    assert_eq!(d.body[4], bcond(GE, 1)); // taken when a < b is false
    assert!(d.cf.is_empty());
}

#[test]
fn flush_locals_and_finish() {
    let mut d = def();
    let mut m = Metrics::default();
    d.toks = vec![Tok::Lit(1), Tok::Lit(2), Tok::Bin(Bin::Add)];
    assert_eq!(d.flush_toks(&mut m), Ok(()));
    assert!(d.toks.is_empty());
    assert_eq!(d.body.len(), 1 + 6);
    assert_eq!((m.toks_in, m.toks_out, m.const_folds, m.settles), (3, 1, 1, 1));
    assert_eq!(d.open_locals(vec!["a".to_string(), "b".to_string()], 2, &mut m), Ok(()));
    assert_eq!(
        d.body[7..].to_vec(),
        vec![sub_imm(21, 21, 16), str_off(0, 21, 8), ldr_post(0, 19, 8), str_off(0, 21, 0), ldr_post(0, 19, 8)]
    );
    assert_eq!(d.locals.len(), 2);
    assert_eq!(d.finish_body(), Ok(()));
    // free the frame, then ldr x30, [x28], #8 / ret
    assert_eq!(d.body[d.body.len() - 3..].to_vec(), vec![add_imm(21, 21, 16), 0xF840879E, 0xD65F03C0]);
}

#[test]
fn control_words_by_name() {
    assert_eq!(control_word("if"), Some(ControlWord::If));
    assert_eq!(control_word("+loop"), Some(ControlWord::PlusLoop));
    assert_eq!(control_word("repeat"), Some(ControlWord::Repeat));
    assert_eq!(control_word("IF"), None);
    assert_eq!(control_word("dup"), None);
}

#[test]
fn a_run_past_the_register_pool_is_refused_and_nothing_changes() {
    // 7 pick needs eight live pool registers; the pool has seven
    let mut d = def();
    let mut m = Metrics::default();
    d.toks = vec![Tok::PickN(7)];
    let body = d.body.clone();
    assert_eq!(d.flush_toks(&mut m), Err(CfError::Unlowerable));
    assert_eq!(d.body, body);
    assert_eq!(d.toks, vec![Tok::PickN(7)]);
    assert_eq!(m.toks_in, 0);
    // 6 pick still fits
    d.toks = vec![Tok::PickN(6)];
    assert_eq!(d.flush_toks(&mut m), Ok(()));
    assert!(d.toks.is_empty());
}
