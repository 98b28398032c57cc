use mf66::asm_macros::{dsp_adjust, DspAdjust, StkError};

#[test]
fn stk_moves_the_data_stack_pointer_by_the_net_effect() {
    // stk(2, 1) → add x19, x19, #8 ; stk(0, 1) → sub x19, x19, #8 ; stk(1, 1) → nothing
    assert_eq!(dsp_adjust(2, 1, 8), Ok(Some(DspAdjust::Raise(8))));
    assert_eq!(dsp_adjust(0, 1, 8), Ok(Some(DspAdjust::Lower(8))));
    assert_eq!(dsp_adjust(1, 1, 8), Ok(None));
    assert_eq!(dsp_adjust(0, 3, 4), Ok(Some(DspAdjust::Lower(12))));
}

#[test]
fn stk_refuses_negative_counts() {
    assert_eq!(dsp_adjust(-1, 1, 8), Err(StkError::NegativeCount));
    assert_eq!(dsp_adjust(1, -2, 8), Err(StkError::NegativeCount));
}
