//! What a token inside a colon body compiles to before the dictionary is asked:
//! an instance variable, `recurse`, `super`, a local, a literal-index
//! `pick`/`roll`, a compare fused into the branch that follows it, or a control
//! word. Everything else is a dictionary word or a number, which the host looks up.
use vstd::prelude::*;
use crate::colon::{control_named, control_word, ColonDef, ControlWord};
use crate::interp::{lower_code, same_word, word_is};
use crate::oop::{early_binding, selector_index, with_selector, Oop};
use crate::opt::{Cmp, Mem, Tok};
use crate::text::{chars_of, string_of};

verus! {

/// `c` with ASCII letters lower-cased.
pub open spec fn fold(c: char) -> char {
    if 'A' <= c <= 'Z' {
        ((c as u32) + 32) as char
    } else {
        c
    }
}

/// `t` with ASCII letters lower-cased.
pub open spec fn folded(t: Seq<char>) -> Seq<char> {
    t.map_values(|c: char| fold(c))
}

/// `a` and `b` are the same word regardless of ASCII letter case.
pub open spec fn same_fold(a: Seq<char>, b: Seq<char>) -> bool {
    a.len() == b.len() && forall|k: int| 0 <= k < a.len() ==> lower_code(a[k]) == lower_code(b[k])
}

/// The first local at or after `i` named `t` (any letter case).
pub open spec fn local_from(ls: Seq<String>, t: Seq<char>, i: int) -> Option<int>
    decreases ls.len() - i,
{
    if i < 0 || i >= ls.len() {
        None
    } else if same_fold(ls[i]@, t) {
        Some(i)
    } else {
        local_from(ls, t, i + 1)
    }
}

/// How a body token is taken, in the order the compiler tries.
#[derive(Clone, Copy, PartialEq, Eq, Debug, Structural)]
pub enum TokenCase {
    Ivar(u32),
    Recurse,
    Super,
    Local(u32),
    Pick(u32),
    Roll(u32),
    Fused(ControlWord, Cmp),
    Control(ControlWord),
    Lookup,
}

/// The run's last token, if it is a literal from 0 to 6.
pub open spec fn small_lit(toks: Seq<Tok>) -> Option<u32> {
    if toks.len() > 0 {
        match toks.last() {
            Tok::Lit(n) => if 0 <= n <= 6 {
                Some(n as u32)
            } else {
                None
            },
            _ => None,
        }
    } else {
        None
    }
}

/// The run's last token, if it is a compare.
pub open spec fn trailing_compare(toks: Seq<Tok>) -> Option<Cmp> {
    if toks.len() > 0 {
        match toks.last() {
            Tok::Cmp(c) => Some(c),
            _ => None,
        }
    } else {
        None
    }
}

/// How token `t` is taken, given the instance variable it may name, the locals
/// and the run so far.
pub open spec fn token_case(ivar: Option<u32>, locals: Seq<String>, toks: Seq<Tok>, t: Seq<char>) -> TokenCase {
    let lk = folded(t);
    if ivar is Some {
        TokenCase::Ivar(ivar->Some_0)
    } else if same_word(t, "recurse"@) {
        TokenCase::Recurse
    } else if same_word(t, "super"@) {
        TokenCase::Super
    } else if local_from(locals, t, 0) is Some {
        TokenCase::Local(local_from(locals, t, 0)->Some_0 as u32)
    } else if lk == "pick"@ && small_lit(toks) is Some {
        TokenCase::Pick(small_lit(toks)->Some_0)
    } else if lk == "roll"@ && small_lit(toks) is Some {
        TokenCase::Roll(small_lit(toks)->Some_0)
    } else if (lk == "if"@ || lk == "until"@ || lk == "while"@) && trailing_compare(toks) is Some {
        TokenCase::Fused(control_named(lk)->Some_0, trailing_compare(toks)->Some_0)
    } else if control_named(lk) is Some {
        TokenCase::Control(control_named(lk)->Some_0)
    } else {
        TokenCase::Lookup
    }
}

/// The run after token case `k`: the fetch, call or motion it compiles to
/// appended, a literal index or compare it consumes dropped.
pub open spec fn run_after(k: TokenCase, toks: Seq<Tok>, self_xt: u64) -> Seq<Tok> {
    match k {
        TokenCase::Ivar(off) => toks.push(Tok::IvarFetch(off)),
        TokenCase::Recurse => toks.push(Tok::Call(self_xt)),
        TokenCase::Super => toks.push(Tok::SelfPush),
        TokenCase::Local(i) => toks.push(Tok::LocalFetch(i)),
        TokenCase::Pick(n) => toks.drop_last().push(Tok::PickN(n)),
        TokenCase::Roll(n) => toks.drop_last().push(Tok::RollN(n)),
        TokenCase::Fused(_, _) => toks.drop_last(),
        _ => toks,
    }
}

/// `t` lower-cased (ASCII letters only), as characters.
fn fold_chars(t: &str) -> (r: Vec<char>)
    ensures
        r@ == folded(t@),
{
    let cs = chars_of(t);
    let mut r: Vec<char> = Vec::new();
    let mut i: usize = 0;
    while i < cs.len()
        invariant
            cs@ == t@,
            i <= cs@.len(),
            r@ == folded(cs@.subrange(0, i as int)),
        decreases cs@.len() - i,
    {
        let c = cs[i];
        let d = if 'A' <= c && c <= 'Z' {
            ((c as u8) + 32) as char
        } else {
            c
        };
        proof {
            if 'A' <= c && c <= 'Z' {
                assert((c as u8) as u32 == c as u32);
            }
        }
        r.push(d);
        i = i + 1;
        assert(r@ =~= folded(cs@.subrange(0, i as int)));
    }
    assert(cs@.subrange(0, i as int) =~= cs@);
    r
}

/// `a` and `b` are the same word regardless of ASCII letter case.
fn same_fold_text(a: &str, b: &str) -> (r: bool)
    ensures
        r == same_fold(a@, b@),
{
    let x = chars_of(a);
    let y = chars_of(b);
    if x.len() != y.len() {
        return false;
    }
    let mut k: usize = 0;
    while k < x.len()
        invariant
            x@ == a@,
            y@ == b@,
            x@.len() == y@.len(),
            k <= x@.len(),
            forall|j: int| 0 <= j < k ==> lower_code(x@[j]) == lower_code(y@[j]),
        decreases x@.len() - k,
    {
        let c = x[k];
        let d = y[k];
        let lc: u32 = if 'A' <= c && c <= 'Z' {
            (c as u32) + 32
        } else {
            c as u32
        };
        let ld: u32 = if 'A' <= d && d <= 'Z' {
            (d as u32) + 32
        } else {
            d as u32
        };
        if lc != ld {
            return false;
        }
        k = k + 1;
    }
    true
}

/// The slot of the first local named `t` (any letter case).
pub fn find_local(locals: &Vec<String>, t: &str) -> (r: Option<usize>)
    ensures
        r matches Some(i) ==> local_from(locals@, t@, 0) == Some(i as int),
        r is None <==> local_from(locals@, t@, 0) is None,
{
    let mut i: usize = 0;
    while i < locals.len()
        invariant
            i <= locals@.len(),
            local_from(locals@, t@, 0) == local_from(locals@, t@, i as int),
        decreases locals@.len() - i,
    {
        if same_fold_text(locals[i].as_str(), t) {
            return Some(i);
        }
        i = i + 1;
    }
    None
}

/// Take body token `tok`: append what it compiles to the open definition's run
/// (an instance-variable fetch, a `recurse` call, `super`'s receiver, a local
/// fetch, a literal-index pick/roll), or say which control word to compile
/// (fused with a compare the run ends in, which is detached), or that the
/// dictionary must be asked.
pub fn plan_token(def: &mut ColonDef, oop: &mut Oop, tok: &str) -> (k: TokenCase)
    requires
        old(oop).wf(),
    ensures
        k == token_case(old(oop).ivar_offset_of(tok@), old(def).locals@, old(def).toks@, tok@),
        final(def).toks@ == run_after(k, old(def).toks@, old(def).self_xt),
        final(def).body@ == old(def).body@,
        final(def).cf@ == old(def).cf@,
        final(def).locals@ == old(def).locals@,
        final(def).self_xt == old(def).self_xt,
        final(def).name@ == old(def).name@,
        final(def).noname == old(def).noname,
        final(def).defining == old(def).defining,
        final(def).raw@ == old(def).raw@,
        final(oop).wf(),
        final(oop).super_pending_of() == (old(oop).super_pending_of() || k is Super),
        final(oop).classes_of() == old(oop).classes_of(),
        final(oop).selectors_of() == old(oop).selectors_of(),
        final(oop).objects_of() == old(oop).objects_of(),
        final(oop).pending_of() == old(oop).pending_of(),
        final(oop).method_class_of() == old(oop).method_class_of(),
        final(oop).receiver_of() == old(oop).receiver_of(),
{
    if let Some(off) = oop.ivar_offset(tok) {
        def.toks.push(Tok::IvarFetch(off));
        return TokenCase::Ivar(off);
    }
    let owned = tok.to_owned();
    if word_is(&owned, "recurse") {
        def.toks.push(Tok::Call(def.self_xt));
        return TokenCase::Recurse;
    }
    if word_is(&owned, "super") {
        def.toks.push(Tok::SelfPush);
        oop.mark_super();
        return TokenCase::Super;
    }
    if let Some(i) = find_local(&def.locals, tok) {
        def.toks.push(Tok::LocalFetch(i as u32));
        return TokenCase::Local(i as u32);
    }
    assert(local_from(def.locals@, tok@, 0) is None);
    let lk = fold_chars(tok);
    let lks = string_of(lk.as_slice(), 0, lk.len());
    assert(lk@.subrange(0, lk@.len() as int) =~= lk@);
    assert(lks@ == folded(tok@));
    let n = def.toks.len();
    let is_pick = crate::text::span_is(lk.as_slice(), 0, lk.len(), "pick");
    let is_roll = crate::text::span_is(lk.as_slice(), 0, lk.len(), "roll");
    if (is_pick || is_roll) && n > 0 {
        if let Tok::Lit(v) = def.toks[n - 1] {
            if 0 <= v && v <= 6 {
                def.toks.pop();
                let m = v as u32;
                if is_pick {
                    def.toks.push(Tok::PickN(m));
                    return TokenCase::Pick(m);
                } else {
                    def.toks.push(Tok::RollN(m));
                    return TokenCase::Roll(m);
                }
            }
        }
    }
    let w = control_word(lks.as_str());
    match w {
        Some(cw) => {
            let fusable = match cw {
                ControlWord::If | ControlWord::Until | ControlWord::While => true,
                _ => false,
            };
            // the control words that take a flag differ from the others in spelling
            proof {
                reveal_strlit("if");
                reveal_strlit("else");
                reveal_strlit("then");
                reveal_strlit("begin");
                reveal_strlit("until");
                reveal_strlit("while");
                assert("until"@[0] != "begin"@[0]);
                assert("while"@[0] != "begin"@[0]);
                assert("while"@[0] != "until"@[0]);
            }
            assert(fusable <==> (folded(tok@) == "if"@ || folded(tok@) == "until"@ || folded(tok@) == "while"@));
            if fusable && n > 0 {
                if let Tok::Cmp(c) = def.toks[n - 1] {
                    def.toks.pop();
                    return TokenCase::Fused(cw, c);
                }
            }
            TokenCase::Control(cw)
        },
        None => TokenCase::Lookup,
    }
}

/// What `to NAME` compiles to inside a definition: a store to the instance
/// variable, else to the value's cell, else to the local; None when NAME is
/// none of these.
pub open spec fn to_tokens(ivar: Option<u32>, cell: Option<u64>, locals: Seq<String>, t: Seq<char>) -> Option<Seq<Tok>> {
    if ivar is Some {
        Some(seq![Tok::IvarStore(ivar->Some_0)])
    } else if cell is Some {
        Some(seq![Tok::Lit(cell->Some_0 as i64), Tok::Mem(Mem::Store)])
    } else if local_from(locals, t, 0) is Some {
        Some(seq![Tok::LocalStore(local_from(locals, t, 0)->Some_0 as u32)])
    } else {
        None
    }
}

/// Compile `to target` into the open definition, given the cell of the value
/// so named, if any. False, with nothing changed, when `target` is neither an
/// instance variable, a value nor a local.
pub fn compile_to(def: &mut ColonDef, oop: &Oop, target: &str, cell: Option<u64>) -> (ok: bool)
    ensures
        ok == to_tokens(oop.ivar_offset_of(target@), cell, old(def).locals@, target@) is Some,
        ok ==> final(def).toks@ == old(def).toks@ + to_tokens(
            oop.ivar_offset_of(target@),
            cell,
            old(def).locals@,
            target@,
        )->Some_0,
        !ok ==> final(def).toks@ == old(def).toks@,
        final(def).body@ == old(def).body@,
        final(def).cf@ == old(def).cf@,
        final(def).locals@ == old(def).locals@,
        final(def).self_xt == old(def).self_xt,
        final(def).name@ == old(def).name@,
        final(def).noname == old(def).noname,
        final(def).defining == old(def).defining,
        final(def).raw@ == old(def).raw@,
{
    if let Some(off) = oop.ivar_offset(target) {
        def.toks.push(Tok::IvarStore(off));
        assert(def.toks@ =~= old(def).toks@ + seq![Tok::IvarStore(off)]);
        return true;
    }
    if let Some(c) = cell {
        def.toks.push(Tok::Lit(c as i64));
        def.toks.push(Tok::Mem(Mem::Store));
        assert(def.toks@ =~= old(def).toks@ + seq![Tok::Lit(c as i64), Tok::Mem(Mem::Store)]);
        return true;
    }
    match find_local(&def.locals, target) {
        Some(i) => {
            def.toks.push(Tok::LocalStore(i as u32));
            assert(def.toks@ =~= old(def).toks@ + seq![Tok::LocalStore(i as u32)]);
            true
        },
        None => false,
    }
}


/// Where `-> SELECTOR` goes: the method bound early, or the selector to look up
/// in the receiver's class at run time.
#[derive(Clone, Copy, PartialEq, Eq, Debug, Structural)]
pub enum SendTarget {
    Method(u64),
    Selector(u64),
}

/// The target of a send of `selector` from state `o`.
pub open spec fn send_target(o: Oop, selector: Seq<char>) -> SendTarget {
    match early_binding(o.classes_of(), o.pending_of(), o.super_pending_of(), o.receiver_of(), selector) {
        Some(xt) => SendTarget::Method(xt),
        None => SendTarget::Selector(selector_index(o.selectors_of(), selector) as u64),
    }
}

/// Resolve `-> selector`: the early-bound method when the receiver's class is
/// known, else the selector's id (assigned on first use). The receiver
/// knowledge is consumed either way.
pub fn resolve_send(oop: &mut Oop, selector: &str) -> (t: SendTarget)
    requires
        old(oop).wf(),
    ensures
        t == send_target(*old(oop), selector@),
        final(oop).wf(),
        !final(oop).super_pending_of(),
        final(oop).receiver_of() is None,
        final(oop).selectors_of() == (if t is Method {
            old(oop).selectors_of()
        } else {
            with_selector(old(oop).selectors_of(), selector@)
        }),
        final(oop).classes_of() == old(oop).classes_of(),
        final(oop).objects_of() == old(oop).objects_of(),
        final(oop).pending_of() == old(oop).pending_of(),
        final(oop).method_class_of() == old(oop).method_class_of(),
{
    match oop.bind_send(selector) {
        Some(xt) => SendTarget::Method(xt),
        None => SendTarget::Selector(oop.selector_id(selector)),
    }
}

/// Compile `-> selector` into the open definition: the early-bound method's xt
/// and a call of `send_by_xt`, or the selector's id and a call of `send`.
pub fn compile_send(def: &mut ColonDef, oop: &mut Oop, selector: &str, send: u64, send_by_xt: u64) -> (t: SendTarget)
    requires
        old(oop).wf(),
    ensures
        t == send_target(*old(oop), selector@),
        final(def).toks@ == old(def).toks@ + match t {
            SendTarget::Method(xt) => seq![Tok::Lit(xt as i64), Tok::Call(send_by_xt)],
            SendTarget::Selector(id) => seq![Tok::Lit(id as i64), Tok::Call(send)],
        },
        final(def).body@ == old(def).body@,
        final(def).cf@ == old(def).cf@,
        final(def).locals@ == old(def).locals@,
        final(def).self_xt == old(def).self_xt,
        final(def).name@ == old(def).name@,
        final(def).noname == old(def).noname,
        final(def).defining == old(def).defining,
        final(def).raw@ == old(def).raw@,
        final(oop).wf(),
        !final(oop).super_pending_of(),
        final(oop).receiver_of() is None,
        final(oop).selectors_of() == (if t is Method {
            old(oop).selectors_of()
        } else {
            with_selector(old(oop).selectors_of(), selector@)
        }),
        final(oop).classes_of() == old(oop).classes_of(),
        final(oop).objects_of() == old(oop).objects_of(),
        final(oop).pending_of() == old(oop).pending_of(),
        final(oop).method_class_of() == old(oop).method_class_of(),
{
    let t = resolve_send(oop, selector);
    let (v, target) = match t {
        SendTarget::Method(xt) => (xt as i64, send_by_xt),
        SendTarget::Selector(id) => (id as i64, send),
    };
    def.toks.push(Tok::Lit(v));
    def.toks.push(Tok::Call(target));
    assert(def.toks@ =~= old(def).toks@ + seq![Tok::Lit(v), Tok::Call(target)]);
    t
}

} // verus!
