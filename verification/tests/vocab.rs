use mf66::opt::{reduce, Bin, Metrics, Stk, Tok};
use mf66::vocab::{vocab_table, Vocab};

#[test]
fn primitives_inline_as_tokens() {
    let t = vocab_table();
    assert_eq!(t.len(), 51);
    let get = |s: &str| t.iter().find(|(n, _)| *n == s).map(|(_, v)| v.clone());
    assert_eq!(get("plus"), Some(vec![Tok::Bin(Bin::Add)]));
    assert_eq!(get("swap_"), Some(vec![Tok::Stk(Stk::Swap)]));
    assert_eq!(get("cells"), Some(vec![Tok::Lit(8), Tok::Bin(Bin::Mul)]));
    assert_eq!(get("invert"), Some(vec![Tok::Lit(-1), Tok::Bin(Bin::Xor)]));
    assert_eq!(get("nope"), None);
}

#[test]
fn inlined_one_plus_folds() {
    let t = vocab_table();
    let one_plus = t.iter().find(|(n, _)| *n == "one_plus").unwrap().1.clone();
    let mut toks = vec![Tok::Lit(5)];
    toks.extend(one_plus.iter().copied());
    toks.extend(one_plus.iter().copied());
    assert_eq!(reduce(&toks, &mut Metrics::default()), vec![Tok::Lit(7)]);
}

#[test]
fn the_vocabulary_inlines_resolved_primitives_and_calls_the_rest() {
    let resolved = vec![
        (Some(0x100), vec![Tok::Bin(Bin::Add)]),
        (None, vec![Tok::Stk(Stk::Dup)]),
        (Some(0x200), vec![Tok::Lit(1), Tok::Bin(Bin::Add)]),
        // a later entry at the same xt replaces the earlier one
        (Some(0x100), vec![Tok::Bin(Bin::Sub)]),
    ];
    let v = Vocab::build(&resolved);
    assert_eq!(v.tokens_for(0x100), vec![Tok::Bin(Bin::Sub)]);
    assert_eq!(v.tokens_for(0x200), vec![Tok::Lit(1), Tok::Bin(Bin::Add)]);
    assert_eq!(v.tokens_for(0x300), vec![Tok::Call(0x300)]);
    let mut v = Vocab::new();
    assert_eq!(v.tokens_for(0x100), vec![Tok::Call(0x100)]);
    v.insert(0x100, vec![Tok::Stk(Stk::Swap)]);
    assert_eq!(v.tokens_for(0x100), vec![Tok::Stk(Stk::Swap)]);
}
