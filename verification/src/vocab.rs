//! The optimizer's vocabulary: which kernel primitives (by assembly symbol)
//! compile to inline tokens instead of a call.
use vstd::prelude::*;
use crate::opt::{Bin, Cmp, FBin, FUn, Mem, Stk, Tok};
use std::collections::HashMap;

verus! {

/// How many primitives inline.
pub const VOCAB_LEN: usize = 51;

/// The vocabulary: each inlining primitive's assembly symbol and the tokens
/// that stand for it.
pub open spec fn vocab() -> Seq<(Seq<char>, Seq<Tok>)> {
    seq![
        ("plus"@, seq![Tok::Bin(Bin::Add)]),
        ("minus"@, seq![Tok::Bin(Bin::Sub)]),
        ("times"@, seq![Tok::Bin(Bin::Mul)]),
        ("and_"@, seq![Tok::Bin(Bin::And)]),
        ("or_"@, seq![Tok::Bin(Bin::Or)]),
        ("xor_"@, seq![Tok::Bin(Bin::Xor)]),
        ("dup_"@, seq![Tok::Stk(Stk::Dup)]),
        ("drop_"@, seq![Tok::Stk(Stk::Drop)]),
        ("swap_"@, seq![Tok::Stk(Stk::Swap)]),
        ("over_"@, seq![Tok::Stk(Stk::Over)]),
        ("nip_"@, seq![Tok::Stk(Stk::Nip)]),
        ("rot_word"@, seq![Tok::Stk(Stk::Rot)]),
        ("minus_rot_word"@, seq![Tok::Stk(Stk::MinusRot)]),
        ("tuck_word"@, seq![Tok::Stk(Stk::Tuck)]),
        ("f_plus"@, seq![Tok::FBin(FBin::Add)]),
        ("f_minus"@, seq![Tok::FBin(FBin::Sub)]),
        ("f_times"@, seq![Tok::FBin(FBin::Mul)]),
        ("f_slash"@, seq![Tok::FBin(FBin::Div)]),
        ("f_negate"@, seq![Tok::FUn(FUn::Neg)]),
        ("fsqrt_word"@, seq![Tok::FUn(FUn::Sqrt)]),
        ("fabs_word"@, seq![Tok::FUn(FUn::Abs)]),
        ("fdup"@, seq![Tok::FStk(Stk::Dup)]),
        ("fdrop"@, seq![Tok::FStk(Stk::Drop)]),
        ("fswap"@, seq![Tok::FStk(Stk::Swap)]),
        ("fover"@, seq![Tok::FStk(Stk::Over)]),
        ("equal"@, seq![Tok::Cmp(Cmp::Eq)]),
        ("not_equal"@, seq![Tok::Cmp(Cmp::Ne)]),
        ("less"@, seq![Tok::Cmp(Cmp::Lt)]),
        ("greater"@, seq![Tok::Cmp(Cmp::Gt)]),
        ("less_equal"@, seq![Tok::Cmp(Cmp::Le)]),
        ("greater_equal"@, seq![Tok::Cmp(Cmp::Ge)]),
        ("u_less"@, seq![Tok::Cmp(Cmp::ULt)]),
        ("u_greater"@, seq![Tok::Cmp(Cmp::UGt)]),
        ("zero_equal"@, seq![Tok::Cmp(Cmp::ZEq)]),
        ("zero_not_equal"@, seq![Tok::Cmp(Cmp::ZNe)]),
        ("zero_less"@, seq![Tok::Cmp(Cmp::ZLt)]),
        ("zero_greater"@, seq![Tok::Cmp(Cmp::ZGt)]),
        ("fetch"@, seq![Tok::Mem(Mem::Fetch)]),
        ("store"@, seq![Tok::Mem(Mem::Store)]),
        ("c_fetch"@, seq![Tok::Mem(Mem::CFetch)]),
        ("c_store"@, seq![Tok::Mem(Mem::CStore)]),
        ("one_plus"@, seq![Tok::Lit(1), Tok::Bin(Bin::Add)]),
        ("one_minus"@, seq![Tok::Lit(1), Tok::Bin(Bin::Sub)]),
        ("two_plus"@, seq![Tok::Lit(2), Tok::Bin(Bin::Add)]),
        ("two_minus"@, seq![Tok::Lit(2), Tok::Bin(Bin::Sub)]),
        ("two_times"@, seq![Tok::Lit(2), Tok::Bin(Bin::Mul)]),
        ("cell_plus"@, seq![Tok::Lit(8), Tok::Bin(Bin::Add)]),
        ("cells"@, seq![Tok::Lit(8), Tok::Bin(Bin::Mul)]),
        ("char_plus"@, seq![Tok::Lit(1), Tok::Bin(Bin::Add)]),
        ("negate"@, seq![Tok::Lit(-1i64), Tok::Bin(Bin::Mul)]),
        ("invert"@, seq![Tok::Lit(-1i64), Tok::Bin(Bin::Xor)]),
    ]
}

/// Entry `k` of the vocabulary.
pub open spec fn vocab_entry(k: int) -> (Seq<char>, Seq<Tok>) {
    vocab()[k]
}

/// Build the optimizer vocabulary: primitive asm symbol → inline token(s).
pub fn vocab_table() -> (t: Vec<(&'static str, Vec<Tok>)>)
    ensures
        t@.len() == VOCAB_LEN,
        forall|k: int|
            0 <= k < VOCAB_LEN ==> #[trigger] t@[k].0@ == vocab_entry(k).0 && t@[k].1@ == vocab_entry(k).1,
{
    let mut t: Vec<(&'static str, Vec<Tok>)> = Vec::new();
    t.push(("plus", vec![Tok::Bin(Bin::Add)]));
    t.push(("minus", vec![Tok::Bin(Bin::Sub)]));
    t.push(("times", vec![Tok::Bin(Bin::Mul)]));
    t.push(("and_", vec![Tok::Bin(Bin::And)]));
    t.push(("or_", vec![Tok::Bin(Bin::Or)]));
    t.push(("xor_", vec![Tok::Bin(Bin::Xor)]));
    t.push(("dup_", vec![Tok::Stk(Stk::Dup)]));
    t.push(("drop_", vec![Tok::Stk(Stk::Drop)]));
    t.push(("swap_", vec![Tok::Stk(Stk::Swap)]));
    t.push(("over_", vec![Tok::Stk(Stk::Over)]));
    t.push(("nip_", vec![Tok::Stk(Stk::Nip)]));
    t.push(("rot_word", vec![Tok::Stk(Stk::Rot)]));
    t.push(("minus_rot_word", vec![Tok::Stk(Stk::MinusRot)]));
    t.push(("tuck_word", vec![Tok::Stk(Stk::Tuck)]));
    t.push(("f_plus", vec![Tok::FBin(FBin::Add)]));
    t.push(("f_minus", vec![Tok::FBin(FBin::Sub)]));
    t.push(("f_times", vec![Tok::FBin(FBin::Mul)]));
    t.push(("f_slash", vec![Tok::FBin(FBin::Div)]));
    t.push(("f_negate", vec![Tok::FUn(FUn::Neg)]));
    t.push(("fsqrt_word", vec![Tok::FUn(FUn::Sqrt)]));
    t.push(("fabs_word", vec![Tok::FUn(FUn::Abs)]));
    t.push(("fdup", vec![Tok::FStk(Stk::Dup)]));
    t.push(("fdrop", vec![Tok::FStk(Stk::Drop)]));
    t.push(("fswap", vec![Tok::FStk(Stk::Swap)]));
    t.push(("fover", vec![Tok::FStk(Stk::Over)]));
    t.push(("equal", vec![Tok::Cmp(Cmp::Eq)]));
    t.push(("not_equal", vec![Tok::Cmp(Cmp::Ne)]));
    t.push(("less", vec![Tok::Cmp(Cmp::Lt)]));
    t.push(("greater", vec![Tok::Cmp(Cmp::Gt)]));
    t.push(("less_equal", vec![Tok::Cmp(Cmp::Le)]));
    t.push(("greater_equal", vec![Tok::Cmp(Cmp::Ge)]));
    t.push(("u_less", vec![Tok::Cmp(Cmp::ULt)]));
    t.push(("u_greater", vec![Tok::Cmp(Cmp::UGt)]));
    t.push(("zero_equal", vec![Tok::Cmp(Cmp::ZEq)]));
    t.push(("zero_not_equal", vec![Tok::Cmp(Cmp::ZNe)]));
    t.push(("zero_less", vec![Tok::Cmp(Cmp::ZLt)]));
    t.push(("zero_greater", vec![Tok::Cmp(Cmp::ZGt)]));
    t.push(("fetch", vec![Tok::Mem(Mem::Fetch)]));
    t.push(("store", vec![Tok::Mem(Mem::Store)]));
    t.push(("c_fetch", vec![Tok::Mem(Mem::CFetch)]));
    t.push(("c_store", vec![Tok::Mem(Mem::CStore)]));
    t.push(("one_plus", vec![Tok::Lit(1), Tok::Bin(Bin::Add)]));
    t.push(("one_minus", vec![Tok::Lit(1), Tok::Bin(Bin::Sub)]));
    t.push(("two_plus", vec![Tok::Lit(2), Tok::Bin(Bin::Add)]));
    t.push(("two_minus", vec![Tok::Lit(2), Tok::Bin(Bin::Sub)]));
    t.push(("two_times", vec![Tok::Lit(2), Tok::Bin(Bin::Mul)]));
    t.push(("cell_plus", vec![Tok::Lit(8), Tok::Bin(Bin::Add)]));
    t.push(("cells", vec![Tok::Lit(8), Tok::Bin(Bin::Mul)]));
    t.push(("char_plus", vec![Tok::Lit(1), Tok::Bin(Bin::Add)]));
    t.push(("negate", vec![Tok::Lit(-1), Tok::Bin(Bin::Mul)]));
    t.push(("invert", vec![Tok::Lit(-1), Tok::Bin(Bin::Xor)]));
    assert forall|k: int| 0 <= k < VOCAB_LEN implies #[trigger] t@[k].0@ == vocab_entry(k).0 && t@[k].1@
        == vocab_entry(k).1 by {
        assert(t@[k].1@ =~= vocab_entry(k).1);
    }
    t
}


/// The tokens a word's xt compiles to: what the vocabulary inlines it to, or a
/// call of it.
pub open spec fn inline_or_call(m: Map<u64, Seq<Tok>>, xt: u64) -> Seq<Tok> {
    if m.contains_key(xt) {
        m[xt]
    } else {
        seq![Tok::Call(xt)]
    }
}

/// The vocabulary built from primitives whose xts were resolved (or not), in
/// order: an unresolved one is skipped, a later one replaces an earlier one
/// with the same xt.
pub open spec fn built(rs: Seq<(Option<u64>, Vec<Tok>)>) -> Map<u64, Seq<Tok>>
    decreases rs.len(),
{
    if rs.len() == 0 {
        Map::empty()
    } else {
        let m = built(rs.drop_last());
        match rs.last().0 {
            Some(xt) => m.insert(xt, rs.last().1@),
            None => m,
        }
    }
}

/// A copy of a token list.
fn copy_toks(toks: &Vec<Tok>) -> (r: Vec<Tok>)
    ensures
        r@ == toks@,
{
    let mut r: Vec<Tok> = Vec::new();
    let mut i: usize = 0;
    while i < toks.len()
        invariant
            i <= toks@.len(),
            r@ == toks@.subrange(0, i as int),
        decreases toks@.len() - i,
    {
        r.push(toks[i]);
        i = i + 1;
        assert(r@ =~= toks@.subrange(0, i as int));
    }
    assert(toks@.subrange(0, i as int) =~= toks@);
    r
}

/// The optimizer's vocabulary by xt: primitive → the tokens it inlines to.
pub struct Vocab {
    map: HashMap<u64, Vec<Tok>>,
}

impl Vocab {
    /// What each xt inlines to.
    pub closed spec fn entries(&self) -> Map<u64, Seq<Tok>> {
        self.map@.map_values(|v: Vec<Tok>| v@)
    }

    /// An empty vocabulary: every word compiles to a call.
    pub fn new() -> (v: Vocab)
        ensures
            v.entries() == Map::<u64, Seq<Tok>>::empty(),
    {
        let v = Vocab { map: HashMap::new() };
        assert(v.entries() =~= Map::<u64, Seq<Tok>>::empty());
        v
    }

    /// Make `xt` inline to `toks`.
    pub fn insert(&mut self, xt: u64, toks: Vec<Tok>)
        ensures
            final(self).entries() == old(self).entries().insert(xt, toks@),
    {
        broadcast use vstd::std_specs::hash::group_hash_axioms;
        let ghost t = toks@;
        self.map.insert(xt, toks);
        assert(self.entries() =~= old(self).entries().insert(xt, t));
    }

    /// The vocabulary of the primitives in `resolved`, each with the xt it was
    /// found at (None: not found, skipped).
    pub fn build(resolved: &Vec<(Option<u64>, Vec<Tok>)>) -> (v: Vocab)
        ensures
            v.entries() == built(resolved@),
    {
        let mut v = Vocab::new();
        let mut i: usize = 0;
        while i < resolved.len()
            invariant
                i <= resolved@.len(),
                v.entries() == built(resolved@.take(i as int)),
            decreases resolved@.len() - i,
        {
            assert(resolved@.take(i + 1).drop_last() =~= resolved@.take(i as int));
            match resolved[i].0 {
                Some(x) => {
                    v.insert(x, copy_toks(&resolved[i].1));
                },
                None => {},
            }
            i = i + 1;
        }
        assert(resolved@.take(i as int) =~= resolved@);
        v
    }

    /// The tokens `xt` compiles to: its inline form, or a call of it.
    pub fn tokens_for(&self, xt: u64) -> (r: Vec<Tok>)
        ensures
            r@ == inline_or_call(self.entries(), xt),
    {
        broadcast use vstd::std_specs::hash::group_hash_axioms;
        match self.map.get(&xt) {
            Some(toks) => copy_toks(toks),
            None => vec![Tok::Call(xt)],
        }
    }
}

} // verus!
