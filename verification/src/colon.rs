//! The colon compiler's control flow: a definition's body words and its
//! compile-time stack of pending branch patches / loop targets.
//!
//! `if`/`while` leave a forward `cbz` to patch, `else` a forward `b`, `begin` and
//! `do` a backward target; `then`, `until`, `repeat`, `loop` and `+loop` resolve
//! them. A comparison right before `if`/`while`/`until` fuses into one
//! `cmp` + `b.<cond>` (no -1/0 flag in between).
use vstd::prelude::*;
use crate::aenc::{
    add_imm, add_imm_w, b, b_w, bcond, bcond_w, cbz_w, do_seq, emit_do, emit_flag_test_cbz,
    emit_loop, emit_nest, emit_plus_loop, emit_unnest_ret, nest_seq, flag_test_seq, ldr_post, ldr_post_w, loop_seq,
    patch_b, patch_bcond, patch_cbz, plus_loop_seq, rel_ok, str_off, str_off_w, sub_imm, sub_imm_w,
    unnest_ret_seq, SCRATCH,
};
use crate::lowering::{fused_cmp, fused_cond, fused_words, lowered, open_pops};
use crate::opt::{merged, reduce, reduce_metrics, reduced, Cmp, Metrics, Tok};

verus! {

/// A pending control-flow mark (compile time).
#[derive(Clone, Copy, PartialEq, Eq, Debug, Structural)]
pub enum Cf {
    FwdCbz(usize),  // a forward `cbz` to patch (if / while)
    FwdBcond(usize),  // a forward `b.<cond>` to patch (fused cmp + if / while)
    FwdB(usize),  // a forward `b` to patch (else)
    Begin(usize),  // a backward target word index (begin)
    Do(usize),  // a DO-loop body top (loop / +loop branch back here)
}

/// The control words the colon compiler resolves itself.
#[derive(Clone, Copy, PartialEq, Eq, Debug, Structural)]
pub enum ControlWord {
    If,
    Else,
    Then,
    Begin,
    Until,
    While,
    Repeat,
    Do,
    Loop,
    PlusLoop,
}

/// Why a control word cannot compile where it stands.
#[derive(Clone, Copy, PartialEq, Eq, Debug, Structural)]
pub enum CfError {
    ElseWithoutIf,
    ThenWithoutIf,
    UntilWithoutBegin,
    RepeatWithoutBegin,
    RepeatWithoutWhile,
    LoopWithoutDo,
    PlusLoopWithoutDo,
    Unbalanced,
    /// A straight-line run the lowerer cannot compile: a register pool runs
    /// dry, or an offset has no encoding.
    Unlowerable,
    /// The body would outgrow the range its branches can be patched across.
    BodyTooLong,
}

/// An in-progress colon definition: the word name, the accumulated body words,
/// and the compile-time control-flow stack.
pub struct ColonDef {
    pub name: String,
    pub body: Vec<u32>,
    pub cf: Vec<Cf>,
    /// Accumulated straight-line token run (flushed → reduced → lowered into
    /// `body` at each control-flow boundary and at `;`).
    pub toks: Vec<Tok>,
    /// Local names by slot index (LP-relative frame); empty if none declared.
    pub locals: Vec<String>,
    /// `:noname` — finish pushes the xt instead of creating a header.
    pub noname: bool,
    /// The code address this body will commit to (for `recurse`).
    pub self_xt: u64,
    /// `: name create … [does> …] ;` is a defining word — its body is captured
    /// raw and replayed at use time rather than compiled.
    pub defining: bool,
    pub raw: Vec<String>,
}

/// Bodies stay below this many words, so every branch offset is an `i32`.
pub const BODY_LIMIT: usize = 0x4000_0000;

/// Every mark on `cf` points into a body of `len` words.
pub open spec fn marks_fit(len: int, cf: Seq<Cf>) -> bool {
    forall|k: int|
        0 <= k < cf.len() ==> match #[trigger] cf[k] {
            Cf::FwdCbz(i) => i < len,
            Cf::FwdBcond(i) => i < len,
            Cf::FwdB(i) => i < len,
            Cf::Begin(t) => t <= len,
            Cf::Do(t) => t <= len,
        }
}

/// The word offset from `at` to `target`.
pub open spec fn rel(at: int, target: int) -> i32 {
    ((target as i32) - (at as i32)) as i32
}

/// The most recent mark, if any.
pub open spec fn top_mark(cf: Seq<Cf>) -> Option<Cf> {
    if cf.len() > 0 {
        Some(cf.last())
    } else {
        None
    }
}

/// The marks below the most recent one (`cf.pop()`).
pub open spec fn popped(cf: Seq<Cf>) -> Seq<Cf> {
    if cf.len() > 0 {
        cf.drop_last()
    } else {
        cf
    }
}

/// A forward conditional branch `m` resolved to land at `here`.
pub open spec fn resolve_cond(body: Seq<u32>, m: Cf, here: int) -> Option<Seq<u32>> {
    match m {
        Cf::FwdCbz(i) => Some(body.update(i as int, cbz_w(SCRATCH, rel(i as int, here)))),
        Cf::FwdBcond(i) => Some(
            body.update(i as int, bcond_w(body[i as int] & 0xF, rel(i as int, here))),
        ),
        _ => None,
    }
}

/// What a control word does to the body and the mark stack, and whether it fits
/// the marks it finds.
pub open spec fn control_effect(body: Seq<u32>, cf: Seq<Cf>, w: ControlWord) -> (
    Seq<u32>,
    Seq<Cf>,
    Result<(), CfError>,
) {
    let n = body.len() as int;
    match w {
        ControlWord::If => (body + flag_test_seq(), cf.push(Cf::FwdCbz((n + 3) as usize)), Ok(())),
        ControlWord::Else => {
            // jump over the else-clause (patched at `then`)
            let b1 = body.push(b_w(0));
            match top_mark(cf) {
                Some(m) => match resolve_cond(b1, m, n + 1) {
                    Some(b2) => (b2, popped(cf).push(Cf::FwdB(n as usize)), Ok(())),
                    None => (b1, popped(cf), Err(CfError::ElseWithoutIf)),
                },
                None => (b1, cf, Err(CfError::ElseWithoutIf)),
            }
        },
        ControlWord::Then => match top_mark(cf) {
            Some(Cf::FwdB(i)) => (body.update(i as int, b_w(rel(i as int, n))), popped(cf), Ok(())),
            Some(m) => match resolve_cond(body, m, n) {
                Some(b2) => (b2, popped(cf), Ok(())),
                None => (body, popped(cf), Err(CfError::ThenWithoutIf)),
            },
            None => (body, cf, Err(CfError::ThenWithoutIf)),
        },
        ControlWord::Begin => (body, cf.push(Cf::Begin(n as usize)), Ok(())),
        ControlWord::Until => {
            // false → loop back
            let b1 = body + flag_test_seq();
            match top_mark(cf) {
                Some(Cf::Begin(t)) => (
                    b1.update(n + 3, cbz_w(SCRATCH, rel(n + 3, t as int))),
                    popped(cf),
                    Ok(()),
                ),
                _ => (b1, popped(cf), Err(CfError::UntilWithoutBegin)),
            }
        },
        ControlWord::While => (body + flag_test_seq(), cf.push(Cf::FwdCbz((n + 3) as usize)), Ok(())),
        ControlWord::Repeat => {
            let w = top_mark(cf);
            let cf1 = popped(cf);
            match top_mark(cf1) {
                Some(Cf::Begin(t)) => {
                    // branch back to begin
                    let b1 = body.push(b_w(rel(n, t as int)));
                    match w {
                        Some(m) => match resolve_cond(b1, m, n + 1) {
                            Some(b2) => (b2, popped(cf1), Ok(())),
                            None => (b1, popped(cf1), Err(CfError::RepeatWithoutWhile)),
                        },
                        None => (b1, popped(cf1), Err(CfError::RepeatWithoutWhile)),
                    }
                },
                _ => (body, popped(cf1), Err(CfError::RepeatWithoutBegin)),
            }
        },
        ControlWord::Do => (body + do_seq(), cf.push(Cf::Do((n + 5) as usize)), Ok(())),
        ControlWord::Loop => match top_mark(cf) {
            Some(Cf::Do(t)) => (body + loop_seq(rel(n + 7, t as int)), popped(cf), Ok(())),
            _ => (body, popped(cf), Err(CfError::LoopWithoutDo)),
        },
        ControlWord::PlusLoop => match top_mark(cf) {
            Some(Cf::Do(t)) => (body + plus_loop_seq(rel(n + 9, t as int)), popped(cf), Ok(())),
            _ => (body, popped(cf), Err(CfError::PlusLoopWithoutDo)),
        },
    }
}

/// The fused forms: `if`/`while`/`until` right after a comparison.
pub open spec fn is_fusable(w: ControlWord) -> bool {
    w == ControlWord::If || w == ControlWord::While || w == ControlWord::Until
}

/// What a fused comparison + control word does: the comparison's words, then a
/// `b.<cond>` taken when the comparison is false.
pub open spec fn fused_effect(body: Seq<u32>, cf: Seq<Cf>, w: ControlWord, c: Cmp) -> (
    Seq<u32>,
    Seq<Cf>,
    Result<(), CfError>,
) {
    let b1 = body + fused_words(c);
    let i = b1.len() as int;
    let binv = fused_cond(c) ^ 1;
    let b2 = b1.push(bcond_w(binv, 0));
    if w == ControlWord::Until {
        match top_mark(cf) {
            Some(Cf::Begin(t)) => (
                b2.update(i, bcond_w(b2[i] & 0xF, rel(i, t as int))),
                popped(cf),
                Ok(()),
            ),
            _ => (b2, popped(cf), Err(CfError::UntilWithoutBegin)),
        }
    } else {
        (b2, cf.push(Cf::FwdBcond(i as usize)), Ok(()))
    }
}

/// The frame of `count` locals: allocate it on LP (x21) and pop `inputs` of
/// them off the data stack (rightmost input = TOS).
pub open spec fn frame_words(count: int, inputs: int) -> Seq<u32> {
    seq![sub_imm_w(21, 21, (count * 8) as u32)] + open_pops(inputs)
}

/// The word for a control-word name (`if`, `+loop`, …), if it is one.
pub open spec fn control_named(t: Seq<char>) -> Option<ControlWord> {
    if t == "if"@ {
        Some(ControlWord::If)
    } else if t == "else"@ {
        Some(ControlWord::Else)
    } else if t == "then"@ {
        Some(ControlWord::Then)
    } else if t == "begin"@ {
        Some(ControlWord::Begin)
    } else if t == "until"@ {
        Some(ControlWord::Until)
    } else if t == "while"@ {
        Some(ControlWord::While)
    } else if t == "repeat"@ {
        Some(ControlWord::Repeat)
    } else if t == "do"@ {
        Some(ControlWord::Do)
    } else if t == "loop"@ {
        Some(ControlWord::Loop)
    } else if t == "+loop"@ {
        Some(ControlWord::PlusLoop)
    } else {
        None
    }
}

fn named(cs: &Vec<char>, lit: &str) -> (r: bool)
    ensures
        r == (cs@ == lit@),
{
    let r = crate::text::span_is(cs.as_slice(), 0, cs.len(), lit);
    assert(cs@.subrange(0, cs@.len() as int) =~= cs@);
    r
}

/// The control word a (lower-cased) token names, if it names one.
pub fn control_word(tok: &str) -> (r: Option<ControlWord>)
    ensures
        r == control_named(tok@),
{
    let cs = crate::text::chars_of(tok);
    if named(&cs, "if") {
        Some(ControlWord::If)
    } else if named(&cs, "else") {
        Some(ControlWord::Else)
    } else if named(&cs, "then") {
        Some(ControlWord::Then)
    } else if named(&cs, "begin") {
        Some(ControlWord::Begin)
    } else if named(&cs, "until") {
        Some(ControlWord::Until)
    } else if named(&cs, "while") {
        Some(ControlWord::While)
    } else if named(&cs, "repeat") {
        Some(ControlWord::Repeat)
    } else if named(&cs, "do") {
        Some(ControlWord::Do)
    } else if named(&cs, "loop") {
        Some(ControlWord::Loop)
    } else if named(&cs, "+loop") {
        Some(ControlWord::PlusLoop)
    } else {
        None
    }
}

proof fn lemma_popped_fits(len: int, cf: Seq<Cf>, len2: int)
    requires
        marks_fit(len, cf),
        len <= len2,
    ensures
        marks_fit(len2, popped(cf)),
        marks_fit(len2, cf),
{
    assert forall|k: int| 0 <= k < popped(cf).len() implies match #[trigger] popped(cf)[k] {
        Cf::FwdCbz(i) => i < len2,
        Cf::FwdBcond(i) => i < len2,
        Cf::FwdB(i) => i < len2,
        Cf::Begin(t) => t <= len2,
        Cf::Do(t) => t <= len2,
    } by {
        assert(popped(cf)[k] == cf[k]);
    }
    assert forall|k: int| 0 <= k < cf.len() implies match #[trigger] cf[k] {
        Cf::FwdCbz(i) => i < len2,
        Cf::FwdBcond(i) => i < len2,
        Cf::FwdB(i) => i < len2,
        Cf::Begin(t) => t <= len2,
        Cf::Do(t) => t <= len2,
    } by {}
}

proof fn lemma_push_fits(len: int, cf: Seq<Cf>, m: Cf)
    requires
        marks_fit(len, cf),
        marks_fit(len, seq![m]),
    ensures
        marks_fit(len, cf.push(m)),
{
    assert forall|k: int| 0 <= k < cf.push(m).len() implies match #[trigger] cf.push(m)[k] {
        Cf::FwdCbz(i) => i < len,
        Cf::FwdBcond(i) => i < len,
        Cf::FwdB(i) => i < len,
        Cf::Begin(t) => t <= len,
        Cf::Do(t) => t <= len,
    } by {
        if k < cf.len() {
            assert(cf.push(m)[k] == cf[k]);
        } else {
            assert(cf.push(m)[k] == seq![m][0]);
        }
    }
}

impl ColonDef {
    /// The body's size and marks are ones the control words can patch.
    pub open spec fn fits(&self) -> bool {
        self.body@.len() < BODY_LIMIT && marks_fit(self.body@.len() as int, self.cf@)
    }

    /// The most recent mark, popped.
    fn pop_mark(&mut self) -> (m: Option<Cf>)
        requires
            old(self).fits(),
        ensures
            m == top_mark(old(self).cf@),
            final(self).cf@ == popped(old(self).cf@),
            final(self).body@ == old(self).body@,
            final(self).fits(),
    {
        proof {
            lemma_popped_fits(self.body@.len() as int, self.cf@, self.body@.len() as int);
        }
        self.cf.pop()
    }

    fn push_mark(&mut self, m: Cf)
        requires
            old(self).fits(),
            marks_fit(old(self).body@.len() as int, seq![m]),
        ensures
            final(self).cf@ == old(self).cf@.push(m),
            final(self).body@ == old(self).body@,
            final(self).fits(),
    {
        proof {
            lemma_push_fits(self.body@.len() as int, self.cf@, m);
        }
        self.cf.push(m);
    }

    /// Resolve a forward conditional branch to land at `here`; `false` (nothing
    /// done) when `m` is no forward conditional branch.
    fn resolve(&mut self, m: Cf, here: usize) -> (ok: bool)
        requires
            old(self).fits(),
            marks_fit(old(self).body@.len() as int, seq![m]),
            here <= old(self).body@.len(),
        ensures
            ok == resolve_cond(old(self).body@, m, here as int) is Some,
            ok ==> final(self).body@ == resolve_cond(old(self).body@, m, here as int)->Some_0,
            !ok ==> final(self).body@ == old(self).body@,
            final(self).cf@ == old(self).cf@,
            final(self).fits(),
    {
        match m {
            Cf::FwdCbz(i) => {
                assert(seq![m][0] == m);
                patch_cbz(self.body.as_mut_slice(), i, here);
                true
            },
            Cf::FwdBcond(i) => {
                assert(seq![m][0] == m);
                patch_bcond(self.body.as_mut_slice(), i, here);
                true
            },
            _ => false,
        }
    }

    /// Compile a control word into the body (the straight-line run before it
    /// already flushed).
    pub fn compile_control(&mut self, w: ControlWord) -> (r: Result<(), CfError>)
        requires
            old(self).fits(),
            old(self).body@.len() + 16 < BODY_LIMIT,
        ensures
            (final(self).body@, final(self).cf@, r) == control_effect(old(self).body@, old(self).cf@, w),
            final(self).fits(),
    {
        let ghost b0 = self.body@;
        let ghost c0 = self.cf@;
        let n = self.body.len();
        match w {
            ControlWord::If => {
                let i = emit_flag_test_cbz(&mut self.body);
                self.push_mark(Cf::FwdCbz(i));
                Ok(())
            },
            ControlWord::Else => {
                let bidx = self.body.len();
                self.body.push(b(0));  // jump over the else-clause (patched at `then`)
                let here = self.body.len();
                proof {
                    lemma_popped_fits(n as int, c0, here as int);
                }
                match self.pop_mark() {
                    Some(m) => {
                        proof {
                            assert(m == c0.last());
                            assert(marks_fit(here as int, seq![m])) by {
                                assert(seq![m][0] == c0[c0.len() - 1]);
                            }
                        }
                        if self.resolve(m, here) {
                            self.push_mark(Cf::FwdB(bidx));
                            Ok(())
                        } else {
                            Err(CfError::ElseWithoutIf)
                        }
                    },
                    None => Err(CfError::ElseWithoutIf),
                }
            },
            ControlWord::Then => {
                let here = self.body.len();
                match self.pop_mark() {
                    Some(Cf::FwdB(i)) => {
                        proof {
                            assert(c0[c0.len() - 1] == Cf::FwdB(i));
                        }
                        patch_b(self.body.as_mut_slice(), i, here);
                        Ok(())
                    },
                    Some(m) => {
                        proof {
                            assert(seq![m][0] == c0[c0.len() - 1]);
                        }
                        if self.resolve(m, here) {
                            Ok(())
                        } else {
                            Err(CfError::ThenWithoutIf)
                        }
                    },
                    None => Err(CfError::ThenWithoutIf),
                }
            },
            ControlWord::Begin => {
                self.push_mark(Cf::Begin(n));
                Ok(())
            },
            ControlWord::Until => {
                let i = emit_flag_test_cbz(&mut self.body);  // false → loop back
                proof {
                    lemma_popped_fits(n as int, c0, self.body@.len() as int);
                }
                match self.pop_mark() {
                    Some(Cf::Begin(t)) => {
                        proof {
                            assert(c0[c0.len() - 1] == Cf::Begin(t));
                        }
                        patch_cbz(self.body.as_mut_slice(), i, t);
                        Ok(())
                    },
                    _ => Err(CfError::UntilWithoutBegin),
                }
            },
            ControlWord::While => {
                let i = emit_flag_test_cbz(&mut self.body);  // false → exit loop
                proof {
                    lemma_popped_fits(n as int, c0, self.body@.len() as int);
                }
                self.push_mark(Cf::FwdCbz(i));
                Ok(())
            },
            ControlWord::Repeat => {
                let wbranch = self.pop_mark();
                let target = match self.pop_mark() {
                    Some(Cf::Begin(t)) => t,
                    _ => {
                        return Err(CfError::RepeatWithoutBegin);
                    },
                };
                proof {
                    let c1 = popped(c0);
                    assert(c1[c1.len() - 1] == Cf::Begin(target));
                    assert(c1[c1.len() - 1] == c0[c1.len() - 1]);
                }
                let bidx = self.body.len();
                self.body.push(b(0));
                patch_b(self.body.as_mut_slice(), bidx, target);  // branch back to begin
                let here = self.body.len();
                proof {
                    lemma_popped_fits(n as int, popped(popped(c0)), here as int);
                }
                match wbranch {
                    Some(m) => {
                        proof {
                            assert(seq![m][0] == c0[c0.len() - 1]);
                        }
                        if self.resolve(m, here) {
                            Ok(())
                        } else {
                            Err(CfError::RepeatWithoutWhile)
                        }
                    },
                    None => Err(CfError::RepeatWithoutWhile),
                }
            },
            ControlWord::Do => {
                emit_do(&mut self.body);
                let top = self.body.len();
                proof {
                    lemma_popped_fits(n as int, c0, top as int);
                }
                self.push_mark(Cf::Do(top));  // loop body top
                Ok(())
            },
            ControlWord::Loop => {
                let top = match self.pop_mark() {
                    Some(Cf::Do(t)) => t,
                    _ => {
                        return Err(CfError::LoopWithoutDo);
                    },
                };
                proof {
                    assert(c0[c0.len() - 1] == Cf::Do(top));
                    lemma_popped_fits(n as int, popped(c0), n + 9);
                }
                emit_loop(&mut self.body, top);
                Ok(())
            },
            ControlWord::PlusLoop => {
                let top = match self.pop_mark() {
                    Some(Cf::Do(t)) => t,
                    _ => {
                        return Err(CfError::PlusLoopWithoutDo);
                    },
                };
                proof {
                    assert(c0[c0.len() - 1] == Cf::Do(top));
                    lemma_popped_fits(n as int, popped(c0), n + 11);
                }
                emit_plus_loop(&mut self.body, top);
                Ok(())
            },
        }
    }
}


/// The words that close a body: free the locals frame (if any), then unnest + ret.
pub open spec fn epilogue(nlocals: int) -> Seq<u32> {
    if nlocals > 0 {
        seq![add_imm_w(21, 21, (nlocals * 8) as u32)] + unnest_ret_seq()
    } else {
        unnest_ret_seq()
    }
}

/// What flushing a token run into a body needs: the lowerer completes, and
/// the body stays patchable.
pub open spec fn flush_ok(body: Seq<u32>, toks: Seq<Tok>) -> bool {
    toks.len() > 0 ==> {
        &&& lowered(body, reduced(toks)) is Some
        &&& lowered(body, reduced(toks))->Some_0.code.len() < BODY_LIMIT
    }
}

/// Why a flush fails, where it does.
pub open spec fn flush_error(body: Seq<u32>, toks: Seq<Tok>) -> CfError {
    if lowered(body, reduced(toks)) is None {
        CfError::Unlowerable
    } else {
        CfError::BodyTooLong
    }
}

/// The body after flushing `toks` into it.
pub open spec fn flushed_body(body: Seq<u32>, toks: Seq<Tok>) -> Seq<u32> {
    if toks.len() > 0 {
        lowered(body, reduced(toks))->Some_0.code
    } else {
        body
    }
}

/// The metrics after flushing `toks`.
pub open spec fn flushed_metrics(body: Seq<u32>, toks: Seq<Tok>, m: Metrics) -> Metrics {
    if toks.len() > 0 {
        merged(reduce_metrics(m, toks), lowered(body, reduced(toks))->Some_0.m)
    } else {
        m
    }
}

proof fn lemma_fits_longer(len: int, cf: Seq<Cf>, len2: int)
    requires
        marks_fit(len, cf),
        len <= len2,
    ensures
        marks_fit(len2, cf),
{
    lemma_popped_fits(len, cf, len2);
}

proof fn lemma_fits_grow(b0: Seq<u32>, b1: Seq<u32>, cf: Seq<Cf>)
    requires
        marks_fit(b0.len() as int, cf),
        b0.len() <= b1.len(),
    ensures
        marks_fit(b1.len() as int, cf),
{
    lemma_popped_fits(b0.len() as int, cf, b1.len() as int);
}

impl ColonDef {
    /// A fresh definition: the body opens with the nest prologue.
    pub fn new(name: String, self_xt: u64, noname: bool) -> (d: ColonDef)
        ensures
            d.name == name,
            d.body@ == nest_seq(),
            d.cf@.len() == 0,
            d.toks@.len() == 0,
            d.locals@.len() == 0,
            d.noname == noname,
            d.self_xt == self_xt,
            !d.defining,
            d.raw@.len() == 0,
            d.fits(),
    {
        let mut body = Vec::new();
        emit_nest(&mut body);
        ColonDef {
            name,
            body,
            cf: Vec::new(),
            toks: Vec::new(),
            locals: Vec::new(),
            noname,
            self_xt,
            defining: false,
            raw: Vec::new(),
        }
    }

    /// Fused comparison + control test (cmp-branch fusion): emit the comparison
    /// (consuming its operands), then a single `b.<cond>` on the inverse so the
    /// branch is taken when the Forth test is false — no `-1/0` flag in between.
    pub fn compile_control_fused(&mut self, w: ControlWord, c: Cmp) -> (r: Result<(), CfError>)
        requires
            old(self).fits(),
            old(self).body@.len() + 16 < BODY_LIMIT,
            is_fusable(w),
        ensures
            (final(self).body@, final(self).cf@, r) == fused_effect(old(self).body@, old(self).cf@, w, c),
            final(self).fits(),
    {
        let ghost c0 = self.cf@;
        let ghost b0 = self.body@;
        let ctrue = fused_cmp(c, &mut self.body);
        let binv = ctrue ^ 1;  // branch when the comparison is FALSE
        let i = self.body.len();
        self.body.push(bcond(binv, 0));
        proof {
            lemma_fits_grow(b0, self.body@, c0);
        }
        match w {
            ControlWord::Until => {
                match self.pop_mark() {
                    Some(Cf::Begin(t)) => {
                        proof {
                            assert(c0[c0.len() - 1] == Cf::Begin(t));
                        }
                        patch_bcond(self.body.as_mut_slice(), i, t);
                        Ok(())
                    },
                    _ => Err(CfError::UntilWithoutBegin),
                }
            },
            _ => {
                self.push_mark(Cf::FwdBcond(i));
                Ok(())
            },
        }
    }

    /// Reduce + lower the accumulated token run into the body, then clear it.
    /// Where the run cannot be lowered, or the body would outgrow its patchable
    /// range, nothing changes and the error says which.
    pub fn flush_toks(&mut self, m: &mut Metrics) -> (r: Result<(), CfError>)
        requires
            old(self).fits(),
        ensures
            r is Ok <==> flush_ok(old(self).body@, old(self).toks@),
            r is Ok ==> final(self).body@ == flushed_body(old(self).body@, old(self).toks@)
                && *final(m) == flushed_metrics(old(self).body@, old(self).toks@, *old(m))
                && final(self).toks@.len() == 0,
            r is Err ==> r == Err::<(), CfError>(flush_error(old(self).body@, old(self).toks@))
                && final(self).body@ == old(self).body@ && *final(m) == *old(m)
                && final(self).toks@ == old(self).toks@,
            final(self).cf@ == old(self).cf@,
            final(self).locals@ == old(self).locals@,
            final(self).fits(),
    {
        if self.toks.len() > 0 {
            let mut m2 = *m;
            let r = reduce(self.toks.as_slice(), &mut m2);
            let n0 = self.body.len();
            let ghost b0 = self.body@;
            if !crate::lowering::lower(r.as_slice(), &mut self.body, &mut m2) {
                return Err(CfError::Unlowerable);
            }
            proof {
                crate::lowering::lemma_lowered_appends(b0, r@);
            }
            if self.body.len() >= BODY_LIMIT {
                self.body.truncate(n0);
                assert(self.body@ =~= b0);
                return Err(CfError::BodyTooLong);
            }
            proof {
                lemma_fits_longer(b0.len() as int, self.cf@, self.body@.len() as int);
            }
            *m = m2;
            self.toks.clear();
        }
        Ok(())
    }

    /// `{: … :}` — flush the run, allocate a locals frame on LP (x21) and pop the
    /// input locals (declaration order; rightmost input = TOS) into it.
    /// Uninitialized locals (after `|`) just reserve a slot.
    pub fn open_locals(&mut self, names: Vec<String>, inputs: usize, m: &mut Metrics) -> (r: Result<
        (),
        CfError,
    >)
        requires
            old(self).fits(),
            names@.len() * 8 <= usize::MAX,
            inputs * 8 <= usize::MAX,
        ensures
            r is Ok <==> flush_ok(old(self).body@, old(self).toks@) && (names@.len() == 0
                || flushed_body(old(self).body@, old(self).toks@).len() + 1 + 2 * inputs < BODY_LIMIT),
            r is Ok ==> final(self).body@ == flushed_body(old(self).body@, old(self).toks@) + (if names@.len()
                > 0 {
                frame_words(names@.len() as int, inputs as int)
            } else {
                Seq::empty()
            }) && final(self).locals@ == names@,
            flush_ok(old(self).body@, old(self).toks@) ==> *final(m) == flushed_metrics(
                old(self).body@,
                old(self).toks@,
                *old(m),
            ) && final(self).toks@.len() == 0,
            flush_ok(old(self).body@, old(self).toks@) && r is Err ==> r == Err::<(), CfError>(
                CfError::BodyTooLong,
            ) && final(self).body@ == flushed_body(old(self).body@, old(self).toks@)
                && final(self).locals@ == old(self).locals@,
            !flush_ok(old(self).body@, old(self).toks@) ==> r == Err::<(), CfError>(
                flush_error(old(self).body@, old(self).toks@),
            ) && final(self).body@ == old(self).body@ && *final(m) == *old(m) && final(self).toks@
                == old(self).toks@ && final(self).locals@ == old(self).locals@,
            final(self).cf@ == old(self).cf@,
            final(self).fits(),
    {
        let ghost b0 = self.body@;
        let ghost t0 = self.toks@;
        let ghost m0 = *m;
        match self.flush_toks(m) {
            Ok(()) => {},
            Err(e) => return Err(e),
        }
        assert(flush_ok(b0, t0));
        assert(self.body@ == flushed_body(b0, t0));
        let count = names.len();
        if count > 0 {
            if inputs >= BODY_LIMIT || self.body.len() + 1 + 2 * inputs >= BODY_LIMIT {
                return Err(CfError::BodyTooLong);
            }
            self.emit_frame(count, inputs);
        }
        self.locals = names;
        Ok(())
    }

    /// Allocate a frame of `count` locals and pop `inputs` of them into it.
    fn emit_frame(&mut self, count: usize, inputs: usize)
        requires
            old(self).fits(),
            count * 8 <= usize::MAX,
            inputs * 8 <= usize::MAX,
            old(self).body@.len() + 1 + 2 * inputs < BODY_LIMIT,
        ensures
            final(self).body@ == old(self).body@ + frame_words(count as int, inputs as int),
            final(self).cf@ == old(self).cf@,
            final(self).toks@ == old(self).toks@,
            final(self).locals@ == old(self).locals@,
            final(self).fits(),
    {
        let ghost b0 = self.body@;
        let ghost c0 = self.cf@;
        self.body.push(sub_imm(21, 21, (count * 8) as u32));  // allocate frame
        let mut k: usize = inputs;
        while k > 0
            invariant
                k <= inputs,
                inputs * 8 <= usize::MAX,
                self.body@ + open_pops(k as int) == b0 + frame_words(count as int, inputs as int),
                self.cf@ == c0,
                self.toks@ == old(self).toks@,
                self.locals@ == old(self).locals@,
            decreases k,
        {
            let i = k - 1;
            let ghost before = self.body@;
            self.body.push(str_off(0, 21, (i * 8) as u32));  // local[i] = TOS
            self.body.push(ldr_post(0, 19, 8));  // raise NOS into TOS
            proof {
                assert(open_pops(k as int) == seq![str_off_w(0, 21, ((k - 1) * 8) as u32), ldr_post_w(0, 19, 8)]
                    + open_pops(k - 1));
                assert(self.body@ + open_pops(i as int) =~= before + open_pops(k as int));
            }
            k = i;
        }
        proof {
            assert(self.body@ =~= b0 + frame_words(count as int, inputs as int));
            lemma_open_pops_len(inputs as int);
            lemma_fits_grow(b0, self.body@, c0);
        }
    }

    /// Close the body at `;` (after the last flush): the control flow must be
    /// balanced, then the locals frame is freed and the word returns.
    pub fn finish_body(&mut self) -> (r: Result<(), CfError>)
        requires
            old(self).fits(),
            old(self).body@.len() + 3 < BODY_LIMIT,
            old(self).locals@.len() * 8 <= usize::MAX,
        ensures
            r is Err <==> old(self).cf@.len() > 0,
            r is Err ==> final(self).body@ == old(self).body@ && r == Err::<(), CfError>(CfError::Unbalanced),
            r is Ok ==> final(self).body@ == old(self).body@ + epilogue(old(self).locals@.len() as int),
            final(self).cf@ == old(self).cf@,
            final(self).locals@ == old(self).locals@,
    {
        if self.cf.len() > 0 {
            return Err(CfError::Unbalanced);
        }
        let nl = self.locals.len();
        if nl > 0 {
            self.body.push(add_imm(21, 21, (nl * 8) as u32));
        }
        emit_unnest_ret(&mut self.body);
        proof {
            assert(self.body@ =~= old(self).body@ + epilogue(nl as int));
        }
        Ok(())
    }
}

proof fn lemma_open_pops_len(n: int)
    requires
        n >= 0,
    ensures
        open_pops(n).len() == 2 * n,
    decreases n,
{
    if n > 0 {
        lemma_open_pops_len(n - 1);
    }
}


// ── laws ────────────────────────────────────────────────────────────────────
/// `if … then`: whatever straight-line code `mid` stands between them, `then`
/// resolves the `cbz` that `if` left to land right after `mid`, and the mark
/// stack is as before.
pub proof fn lemma_if_then_resolves(body: Seq<u32>, cf: Seq<Cf>, mid: Seq<u32>)
    requires
        body.len() + mid.len() + 16 < BODY_LIMIT,
    ensures
        ({
            let (b1, c1, r1) = control_effect(body, cf, ControlWord::If);
            let (b2, c2, r2) = control_effect(b1 + mid, c1, ControlWord::Then);
            let at = body.len() + 3int;
            &&& r1 is Ok && r2 is Ok
            &&& c2 == cf
            &&& b2 == (b1 + mid).update(at, cbz_w(SCRATCH, rel(at, (b1.len() + mid.len()) as int)))
        }),
{
    let (b1, c1, r1) = control_effect(body, cf, ControlWord::If);
    assert(b1.len() == body.len() + 4);
    assert(c1.last() == Cf::FwdCbz((body.len() + 3) as usize));
    assert(c1.drop_last() =~= cf);
}

/// `begin … until`: the `cbz` that `until` emits branches back to where `begin`
/// stood, and the mark stack is as before.
pub proof fn lemma_begin_until_loops(body: Seq<u32>, cf: Seq<Cf>, mid: Seq<u32>)
    requires
        body.len() + mid.len() + 16 < BODY_LIMIT,
    ensures
        ({
            let (b1, c1, r1) = control_effect(body, cf, ControlWord::Begin);
            let (b2, c2, r2) = control_effect(b1 + mid, c1, ControlWord::Until);
            let at = (body.len() + mid.len() + 3) as int;
            &&& r1 is Ok && r2 is Ok
            &&& c2 == cf
            &&& b2 == (body + mid + flag_test_seq()).update(at, cbz_w(SCRATCH, rel(at, body.len() as int)))
        }),
{
    let (b1, c1, r1) = control_effect(body, cf, ControlWord::Begin);
    assert(c1.drop_last() =~= cf);
    assert(b1 + mid =~= body + mid);
}

/// `do … loop`: the `tbz` that `loop` emits branches back to the first word of
/// the loop body, and the mark stack is as before.
pub proof fn lemma_do_loop_loops(body: Seq<u32>, cf: Seq<Cf>, mid: Seq<u32>)
    requires
        body.len() + mid.len() + 16 < BODY_LIMIT,
    ensures
        ({
            let (b1, c1, r1) = control_effect(body, cf, ControlWord::Do);
            let (b2, c2, r2) = control_effect(b1 + mid, c1, ControlWord::Loop);
            let top = body.len() + 5int;
            &&& r1 is Ok && r2 is Ok
            &&& c2 == cf
            &&& b2 == b1 + mid + loop_seq(rel((b1.len() + mid.len() + 7) as int, top))
        }),
{
    let (b1, c1, r1) = control_effect(body, cf, ControlWord::Do);
    assert(b1.len() == body.len() + 5);
    assert(c1.drop_last() =~= cf);
}

/// A closing word with no mark to close is refused, and the body gains at most
/// the words it had emitted before looking.
pub proof fn lemma_unopened_is_refused(body: Seq<u32>, w: ControlWord)
    requires
        w == ControlWord::Else || w == ControlWord::Then || w == ControlWord::Until || w
            == ControlWord::Repeat || w == ControlWord::Loop || w == ControlWord::PlusLoop,
    ensures
        control_effect(body, Seq::empty(), w).2 is Err,
        control_effect(body, Seq::empty(), w).1.len() == 0,
{
}

/// The fused branch is taken when the comparison is false: its condition is the
/// true-condition of the negated comparison (the same one `reduce` rewrites
/// `<cmp> 0=` into).
pub proof fn lemma_fused_branch_negates(c: Cmp)
    requires
        crate::opt::cmp_negate(c) is Some,
    ensures
        fused_cond(c) ^ 1 == fused_cond(crate::opt::cmp_negate(c)->Some_0),
{
    assert(0u32 ^ 1 == 1u32) by (bit_vector);
    assert(1u32 ^ 1 == 0u32) by (bit_vector);
    assert(11u32 ^ 1 == 10u32) by (bit_vector);
    assert(10u32 ^ 1 == 11u32) by (bit_vector);
    assert(12u32 ^ 1 == 13u32) by (bit_vector);
    assert(13u32 ^ 1 == 12u32) by (bit_vector);
}

} // verus!
