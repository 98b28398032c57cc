//! What a token run means: a Forth data stack (last element = TOS) acted on by
//! the pure tokens, with every other token (memory, locals, calls, floats)
//! handed to a caller-chosen world. The reducer's laws are stated over it.
use vstd::prelude::*;
use crate::opt::{
    bin_eval, chain_const, cmp_eval, cmp_eval_zero, cmp_negate, flag, is_zero_cmp, reduce_step,
    reduced, sel_eval, tally, Bin, Cmp, Rewrite, Stk, Tok,
};

verus! {

/// A machine state: the data stack and whatever else the world keeps.
pub type State<S> = (Seq<i64>, S);

/// Meaning of the tokens the optimizer does not model: memory, locals, instance
/// variables, calls, and the float stack.
pub type World<S> = spec_fn(State<S>, Tok) -> Option<State<S>>;

/// A stack word on the data stack; `None` on underflow.
pub open spec fn stk_apply(s: Stk, st: Seq<i64>) -> Option<Seq<i64>> {
    let n = st.len();
    match s {
        Stk::Dup => if n >= 1 {
            Some(st.push(st[n - 1]))
        } else {
            None
        },
        Stk::Drop => if n >= 1 {
            Some(st.take(n - 1))
        } else {
            None
        },
        Stk::Swap => if n >= 2 {
            Some(st.take(n - 2).push(st[n - 1]).push(st[n - 2]))
        } else {
            None
        },
        Stk::Over => if n >= 2 {
            Some(st.push(st[n - 2]))
        } else {
            None
        },
        Stk::Nip => if n >= 2 {
            Some(st.take(n - 2).push(st[n - 1]))
        } else {
            None
        },
        Stk::Rot => if n >= 3 {
            Some(st.take(n - 3).push(st[n - 2]).push(st[n - 1]).push(st[n - 3]))
        } else {
            None
        },
        Stk::MinusRot => if n >= 3 {
            Some(st.take(n - 3).push(st[n - 1]).push(st[n - 3]).push(st[n - 2]))
        } else {
            None
        },
        Stk::Tuck => if n >= 2 {
            Some(st.take(n - 2).push(st[n - 1]).push(st[n - 2]).push(st[n - 1]))
        } else {
            None
        },
    }
}

/// The data-stack effect of a pure token; `None` on underflow.
pub open spec fn pure_apply(t: Tok, st: Seq<i64>) -> Option<Seq<i64>> {
    let n = st.len();
    match t {
        Tok::Lit(v) => Some(st.push(v)),
        Tok::Bin(op) => if n >= 2 {
            Some(st.take(n - 2).push(bin_eval(op, st[n - 2], st[n - 1])))
        } else {
            None
        },
        Tok::ImmBin(op, k) => if n >= 1 {
            Some(st.take(n - 1).push(bin_eval(op, st[n - 1], k)))
        } else {
            None
        },
        Tok::DupBin(op) => if n >= 1 {
            Some(st.take(n - 1).push(bin_eval(op, st[n - 1], st[n - 1])))
        } else {
            None
        },
        Tok::Stk(s) => stk_apply(s, st),
        Tok::Cmp(c) => if is_zero_cmp(c) {
            if n >= 1 {
                Some(st.take(n - 1).push(cmp_eval_zero(c, st[n - 1])))
            } else {
                None
            }
        } else if n >= 2 {
            Some(st.take(n - 2).push(cmp_eval(c, st[n - 2], st[n - 1])))
        } else {
            None
        },
        Tok::Sel(s) => if n >= 2 {
            Some(st.take(n - 2).push(sel_eval(s, st[n - 2], st[n - 1])))
        } else {
            None
        },
        Tok::PickN(k) => if n >= k + 1 {
            Some(st.push(st[n - 1 - k]))
        } else {
            None
        },
        Tok::RollN(k) => if n >= k + 1 {
            Some(st.remove(n - 1 - k).push(st[n - 1 - k]))
        } else {
            None
        },
        _ => None,
    }
}

/// `true` for the tokens whose meaning is a data-stack effect alone.
pub open spec fn is_pure(t: Tok) -> bool {
    match t {
        Tok::Lit(_) | Tok::Bin(_) | Tok::ImmBin(_, _) | Tok::DupBin(_) | Tok::Stk(_) | Tok::Cmp(
            _,
        ) | Tok::Sel(_) | Tok::PickN(_) | Tok::RollN(_) => true,
        _ => false,
    }
}

/// One token acting on a machine state.
pub open spec fn tok_apply<S>(w: World<S>, st: State<S>, t: Tok) -> Option<State<S>> {
    if is_pure(t) {
        match pure_apply(t, st.0) {
            Some(s2) => Some((s2, st.1)),
            None => None,
        }
    } else {
        w(st, t)
    }
}

/// A token run acting on a machine state, left to right; `None` once a token fails.
pub open spec fn run_toks<S>(w: World<S>, toks: Seq<Tok>, st: State<S>) -> Option<State<S>>
    decreases toks.len(),
{
    if toks.len() == 0 {
        Some(st)
    } else {
        match run_toks(w, toks.drop_last(), st) {
            Some(mid) => tok_apply(w, mid, toks.last()),
            None => None,
        }
    }
}

proof fn lemma_run_push<S>(w: World<S>, p: Seq<Tok>, t: Tok, st: State<S>)
    ensures
        run_toks(w, p.push(t), st) == (match run_toks(w, p, st) {
            Some(mid) => tok_apply(w, mid, t),
            None => None,
        }),
{
    assert(p.push(t).drop_last() =~= p);
}

/// Chaining two same-op immediates computes what applying them one after the other does.
pub proof fn lemma_chain_const(op: Bin, x: i64, k1: i64, k: i64)
    ensures
        bin_eval(op, bin_eval(op, x, k1), k) == bin_eval(op, x, chain_const(op, k1, k)),
{
    match op {
        Bin::Add => {},
        Bin::Sub => {},
        Bin::Mul => {
            lemma_wrapping_mul_assoc(x, k1, k);
        },
        Bin::And => {
            assert((x & k1) & k == x & (k1 & k)) by (bit_vector);
        },
        Bin::Or => {
            assert((x | k1) | k == x | (k1 | k)) by (bit_vector);
        },
        Bin::Xor => {
            assert((x ^ k1) ^ k == x ^ (k1 ^ k)) by (bit_vector);
        },
    }
}

proof fn lemma_crop_congruent(v: int)
    ensures
        (vstd::wrapping::i64_specs::signed_crop(v) as int) % 0x1_0000_0000_0000_0000 == v
            % 0x1_0000_0000_0000_0000,
{
    let r: int = 0x1_0000_0000_0000_0000;
    let m = v % r;
    vstd::arithmetic::div_mod::lemma_mod_bound(v, r);
    if m > i64::MAX as int {
        vstd::arithmetic::div_mod::lemma_mod_add_multiples_vanish(m - r, r);
        assert((m - r) % r == m % r);
        vstd::arithmetic::div_mod::lemma_mod_twice(v, r);
    } else {
        vstd::arithmetic::div_mod::lemma_mod_twice(v, r);
    }
}

proof fn lemma_wrapping_mul_assoc(x: i64, k1: i64, k: i64)
    ensures
        x.wrapping_mul(k1).wrapping_mul(k) == x.wrapping_mul(k1.wrapping_mul(k)),
{
    let r: int = 0x1_0000_0000_0000_0000;
    let a = vstd::wrapping::i64_specs::signed_crop(x * k1);
    let b = vstd::wrapping::i64_specs::signed_crop(k1 * k);
    lemma_crop_congruent(x * k1);
    lemma_crop_congruent(k1 * k);
    // (a * k) ≡ (x * k1) * k and x * b ≡ x * (k1 * k), modulo 2^64
    vstd::arithmetic::div_mod::lemma_mul_mod_noop_left(a as int, k as int, r);
    vstd::arithmetic::div_mod::lemma_mul_mod_noop_left(x * k1, k as int, r);
    vstd::arithmetic::div_mod::lemma_mul_mod_noop_right(x as int, b as int, r);
    vstd::arithmetic::div_mod::lemma_mul_mod_noop_right(x as int, k1 * k, r);
    vstd::arithmetic::mul::lemma_mul_is_associative(x as int, k1 as int, k as int);
    assert((a * k) % r == (x * b) % r);
}

/// One reduce step means what the token it consumed means, whenever that token runs.
pub proof fn lemma_reduce_step_sound<S>(w: World<S>, out: Seq<Tok>, t: Tok, st: State<S>)
    requires
        run_toks(w, out, st) is Some,
        tok_apply(w, run_toks(w, out, st)->Some_0, t) is Some,
    ensures
        run_toks(w, reduce_step(out, t).0, st) == tok_apply(w, run_toks(w, out, st)->Some_0, t),
{
    let n = out.len();
    let step = reduce_step(out, t);
    let r = run_toks(w, out, st)->Some_0;
    if step.1 == Rewrite::Kept {
        lemma_run_push(w, out, t, st);
        return ;
    }
    // every rewrite replaces a suffix of `out`; unfold the run over it
    let p1 = out.take(n - 1);
    assert(n >= 1);
    assert(out =~= p1.push(out[n - 1]));
    lemma_run_push(w, p1, out[n - 1], st);
    let q1 = run_toks(w, p1, st)->Some_0;
    match step.1 {
        Rewrite::ConstFold => {
            let p2 = out.take(n - 2);
            assert(p1 =~= p2.push(out[n - 2]));
            lemma_run_push(w, p2, out[n - 2], st);
            let q2 = run_toks(w, p2, st)->Some_0;
            let v = step.0.last();
            assert(step.0 =~= p2.push(v));
            lemma_run_push(w, p2, v, st);
            assert(r.0.take(r.0.len() - 2) =~= q2.0);
        },
        Rewrite::ImmFold => {
            assert(step.0 =~= p1.push(step.0.last()));
            lemma_run_push(w, p1, step.0.last(), st);
            assert(r.0.take(r.0.len() - 2) =~= q1.0.take(q1.0.len() - 1));
        },
        Rewrite::ImmChain => {
            let p2 = out.take(n - 2);
            assert(p1 =~= p2.push(out[n - 2]));
            lemma_run_push(w, p2, out[n - 2], st);
            let q2 = run_toks(w, p2, st)->Some_0;
            assert(step.0 =~= p2.push(step.0.last()));
            lemma_run_push(w, p2, step.0.last(), st);
            let op = t->Bin_0;
            let x = q2.0[q2.0.len() - 1];
            lemma_chain_const(op, x, out[n - 2]->ImmBin_1, out[n - 1]->Lit_0);
            assert(r.0.take(r.0.len() - 2) =~= q2.0.take(q2.0.len() - 1));
        },
        Rewrite::DupFuse => {
            assert(step.0 =~= p1.push(step.0.last()));
            lemma_run_push(w, p1, step.0.last(), st);
            assert(r.0.take(r.0.len() - 2) =~= q1.0.take(q1.0.len() - 1));
        },
        Rewrite::Dce => {
            assert(step.0 =~= p1);
            assert(r.0.take(r.0.len() - 1) =~= q1.0);
        },
        Rewrite::Cancel => {
            assert(step.0 =~= p1);
            let m = q1.0.len();
            if out[n - 1] == Tok::Stk(Stk::Swap) {
                assert(r.0.take(m - 2).push(r.0[m - 1]).push(r.0[m - 2]) =~= q1.0);
            } else if out[n - 1] == Tok::Stk(Stk::Rot) {
                assert(r.0.take(m - 3).push(r.0[m - 1]).push(r.0[m - 3]).push(r.0[m - 2]) =~= q1.0);
            } else {
                assert(r.0.take(m - 3).push(r.0[m - 2]).push(r.0[m - 1]).push(r.0[m - 3]) =~= q1.0);
            }
        },
        Rewrite::Negate => {
            assert(step.0 =~= p1.push(step.0.last()));
            lemma_run_push(w, p1, step.0.last(), st);
            assert(r.0.take(r.0.len() - 1) =~= q1.0.take(q1.0.len() - 2));
        },
        Rewrite::Kept => {},
    }
}

/// Reducing a run never changes what it does: wherever the unreduced run
/// completes, the reduced run completes in the same state.
pub proof fn lemma_reduce_sound<S>(w: World<S>, toks: Seq<Tok>, st: State<S>)
    requires
        run_toks(w, toks, st) is Some,
    ensures
        run_toks(w, reduced(toks), st) == run_toks(w, toks, st),
    decreases toks.len(),
{
    if toks.len() > 0 {
        let p = toks.drop_last();
        lemma_reduce_sound(w, p, st);
        lemma_reduce_step_sound(w, reduced(p), toks.last(), st);
    }
}

} // verus!
