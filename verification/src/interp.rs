//! The outer interpreter's reading of source text: words split on whitespace,
//! `( … )` comments, `[if] [else] [then]` conditional skipping and `{: … :}`
//! locals declarations. Forth is case-insensitive: words compare lower-cased.
use vstd::prelude::*;
use crate::editor::{line_words, pair_words, words_from};
use crate::text::{chars_of, string_of};

verus! {

/// The words of source text `t`, as the interpreter reads them.
pub open spec fn words(t: Seq<char>) -> Seq<Seq<char>> {
    words_from(t, 0)
}

/// The views of a vector of words.
pub open spec fn views(ws: Seq<String>) -> Seq<Seq<char>> {
    ws.map_values(|w: String| w@)
}

/// Split source text into its whitespace-separated words.
pub fn split_words(text: &str) -> (ws: Vec<String>)
    ensures
        views(ws@) == words(text@),
{
    let cs = chars_of(text);
    let ps = line_words(cs.as_slice());
    let mut ws: Vec<String> = Vec::new();
    let mut k: usize = 0;
    while k < ps.len()
        invariant
            k <= ps@.len(),
            cs@ == text@,
            pair_words(cs@, ps@) == words_from(cs@, 0),
            forall|j: int| 0 <= j < ps@.len() ==> (#[trigger] ps@[j]).0 < ps@[j].1 <= cs@.len(),
            views(ws@) == pair_words(cs@, ps@).take(k as int),
            ws@.len() == k,
        decreases ps@.len() - k,
    {
        let (a, b) = ps[k];
        let ghost before = ws@;
        let w = string_of(cs.as_slice(), a, b);
        ws.push(w);
        proof {
            assert(pair_words(cs@, ps@)[k as int] == cs@.subrange(a as int, b as int));
            assert forall|j: int| 0 <= j < k + 1 implies #[trigger] views(ws@)[j] == pair_words(cs@, ps@).take(k + 1)[j] by {
                if j < k {
                    assert(ws@[j] == before[j]);
                    assert(views(before)[j] == pair_words(cs@, ps@).take(k as int)[j]);
                }
            }
        }
        k = k + 1;
        assert(views(ws@) =~= pair_words(cs@, ps@).take(k as int));
    }
    assert(pair_words(cs@, ps@).take(k as int) =~= pair_words(cs@, ps@));
    ws
}

/// A character's code, ASCII letters lower-cased.
pub open spec fn lower_code(c: char) -> u32 {
    if 'A' <= c <= 'Z' {
        (c as u32 + 32) as u32
    } else {
        c as u32
    }
}

/// `w` is `lit` (written in lower case) regardless of letter case.
pub open spec fn same_word(w: Seq<char>, lit: Seq<char>) -> bool {
    w.len() == lit.len() && forall|k: int| 0 <= k < w.len() ==> lower_code(w[k]) == lit[k] as u32
}

/// `w` is the word `lit` (in lower case) regardless of letter case.
pub fn word_is(w: &String, lit: &str) -> (r: bool)
    ensures
        r == same_word(w@, lit@),
{
    let a = chars_of(w.as_str());
    let b = chars_of(lit);
    if a.len() != b.len() {
        return false;
    }
    let mut k: usize = 0;
    while k < a.len()
        invariant
            k <= a@.len(),
            a@.len() == b@.len(),
            a@ == w@,
            b@ == lit@,
            forall|j: int| 0 <= j < k ==> lower_code(a@[j]) == b@[j] as u32,
        decreases a@.len() - k,
    {
        let c = a[k];
        let lc: u32 = if 'A' <= c && c <= 'Z' {
            (c as u32) + 32
        } else {
            c as u32
        };
        if lc != (b[k] as u32) {
            return false;
        }
        k = k + 1;
    }
    true
}

/// Where the words after an opening `(` resume: past the first word that ends
/// with `)`, or at the end.
pub open spec fn paren_end(ws: Seq<Seq<char>>, i: int) -> int
    decreases ws.len() - i,
{
    if i >= ws.len() || i < 0 {
        ws.len() as int
    } else if ws[i].len() > 0 && ws[i].last() == ')' {
        i + 1
    } else {
        paren_end(ws, i + 1)
    }
}

/// Skip an inline `( … )` comment whose opening word is just before `i`.
pub fn skip_paren_comment(ws: &Vec<String>, i: usize) -> (j: usize)
    requires
        i <= ws@.len(),
    ensures
        j == paren_end(views(ws@), i as int),
{
    let mut k = i;
    while k < ws.len()
        invariant
            i <= k <= ws@.len(),
            paren_end(views(ws@), k as int) == paren_end(views(ws@), i as int),
        decreases ws@.len() - k,
    {
        let cs = chars_of(ws[k].as_str());
        assert(views(ws@)[k as int] == ws@[k as int]@);
        if cs.len() > 0 && cs[cs.len() - 1] == ')' {
            return k + 1;
        }
        k = k + 1;
    }
    k
}

/// Where the words resume after skipping the false branch of `[if]` from `i`
/// (nesting at `depth`): past the matching `[else]` or `[then]`, or at the end.
pub open spec fn false_branch_end(ws: Seq<Seq<char>>, i: int, depth: int) -> int
    decreases ws.len() - i,
{
    if i >= ws.len() || i < 0 {
        ws.len() as int
    } else if same_word(ws[i], "[if]"@) {
        false_branch_end(ws, i + 1, depth + 1)
    } else if same_word(ws[i], "[else]"@) && depth == 0 {
        i + 1
    } else if same_word(ws[i], "[then]"@) {
        if depth == 0 {
            i + 1
        } else {
            false_branch_end(ws, i + 1, depth - 1)
        }
    } else {
        false_branch_end(ws, i + 1, depth)
    }
}

/// Where the words resume after skipping an `[else]` branch from `i` (nesting at
/// `depth`): past the matching `[then]`, or at the end.
pub open spec fn else_branch_end(ws: Seq<Seq<char>>, i: int, depth: int) -> int
    decreases ws.len() - i,
{
    if i >= ws.len() || i < 0 {
        ws.len() as int
    } else if same_word(ws[i], "[if]"@) {
        else_branch_end(ws, i + 1, depth + 1)
    } else if same_word(ws[i], "[then]"@) {
        if depth == 0 {
            i + 1
        } else {
            else_branch_end(ws, i + 1, depth - 1)
        }
    } else {
        else_branch_end(ws, i + 1, depth)
    }
}

/// `[if]` with a false flag: skip the true branch up to the matching `[else]`
/// or `[then]`.
pub fn skip_false_branch(ws: &Vec<String>, i: usize) -> (j: usize)
    requires
        i <= ws@.len(),
    ensures
        j == false_branch_end(views(ws@), i as int, 0),
{
    let mut depth: usize = 0;
    let mut k = i;
    while k < ws.len()
        invariant
            i <= k <= ws@.len(),
            depth <= k - i,
            false_branch_end(views(ws@), k as int, depth as int) == false_branch_end(
                views(ws@),
                i as int,
                0,
            ),
        decreases ws@.len() - k,
    {
        assert(views(ws@)[k as int] == ws@[k as int]@);
        let t = &ws[k];
        if word_is(t, "[if]") {
            depth = depth + 1;
        } else if word_is(t, "[else]") && depth == 0 {
            return k + 1;
        } else if word_is(t, "[then]") {
            if depth == 0 {
                return k + 1;
            }
            depth = depth - 1;
        }
        k = k + 1;
    }
    k
}

/// `[else]` reached after a taken true branch: skip to the matching `[then]`.
pub fn skip_else_branch(ws: &Vec<String>, i: usize) -> (j: usize)
    requires
        i <= ws@.len(),
    ensures
        j == else_branch_end(views(ws@), i as int, 0),
{
    let mut depth: usize = 0;
    let mut k = i;
    while k < ws.len()
        invariant
            i <= k <= ws@.len(),
            depth <= k - i,
            else_branch_end(views(ws@), k as int, depth as int) == else_branch_end(
                views(ws@),
                i as int,
                0,
            ),
        decreases ws@.len() - k,
    {
        assert(views(ws@)[k as int] == ws@[k as int]@);
        let t = &ws[k];
        if word_is(t, "[if]") {
            depth = depth + 1;
        } else if word_is(t, "[then]") {
            if depth == 0 {
                return k + 1;
            }
            depth = depth - 1;
        }
        k = k + 1;
    }
    k
}

/// A `{: in… | uninit… :}` declaration read from `i` up to `j`: the local names
/// (inputs first) and how many of them are inputs (those before `|`).
pub open spec fn locals_decl(ws: Seq<Seq<char>>, i: int, j: int) -> (Seq<Seq<char>>, int)
    decreases j - i,
{
    if j <= i || j > ws.len() || i < 0 {
        (Seq::empty(), 0)
    } else {
        let (names, inputs) = locals_decl(ws, i, j - 1);
        let w = ws[j - 1];
        if w == ":}"@ {
            (names, inputs)
        } else if w == "|"@ || names_after_pipe(ws, i, j - 1) {
            if w == "|"@ {
                (names, inputs)
            } else {
                (names.push(w), inputs)
            }
        } else {
            (names.push(w), inputs + 1)
        }
    }
}

/// Whether a `|` stands among the words `i..j`.
pub open spec fn names_after_pipe(ws: Seq<Seq<char>>, i: int, j: int) -> bool {
    exists|k: int| i <= k < j && ws[k] == "|"@
}

/// Where a `{: … :}` declaration that starts at `i` ends: the index of `:}`, or
/// the end of the words.
pub open spec fn decl_close(ws: Seq<Seq<char>>, i: int) -> int
    decreases ws.len() - i,
{
    if i >= ws.len() || i < 0 {
        ws.len() as int
    } else if ws[i] == ":}"@ {
        i
    } else {
        decl_close(ws, i + 1)
    }
}

fn is_exactly(w: &String, lit: &str) -> (r: bool)
    ensures
        r == (w@ == lit@),
{
    let cs = chars_of(w.as_str());
    let r = crate::text::span_is(cs.as_slice(), 0, cs.len(), lit);
    assert(cs@.subrange(0, cs@.len() as int) =~= cs@);
    r
}

/// Read a `{: … :}` locals declaration whose `{:` is just before `i`: the local
/// names (inputs first, declaration order), how many are inputs, and where the
/// words resume (past `:}`, or at the end).
pub fn read_locals_decl(ws: &Vec<String>, i: usize) -> (r: (Vec<String>, usize, usize))
    requires
        i <= ws@.len(),
    ensures
        ({
            let close = decl_close(views(ws@), i as int);
            &&& views(r.0@) == locals_decl(views(ws@), i as int, close).0
            &&& r.1 == locals_decl(views(ws@), i as int, close).1
            &&& r.2 == if close < ws@.len() {
                close + 1
            } else {
                close
            }
        }),
{
    let ghost v = views(ws@);
    let mut names: Vec<String> = Vec::new();
    let mut inputs: usize = 0;
    let mut after_pipe = false;
    let mut k = i;
    while k < ws.len()
        invariant
            i <= k <= ws@.len(),
            v == views(ws@),
            inputs <= k - i,
            decl_close(v, k as int) == decl_close(v, i as int),
            forall|j: int| i <= j < k ==> v[j] != ":}"@,
            after_pipe == names_after_pipe(v, i as int, k as int),
            views(names@) == locals_decl(v, i as int, k as int).0,
            inputs == locals_decl(v, i as int, k as int).1,
        decreases ws@.len() - k,
    {
        assert(v[k as int] == ws@[k as int]@);
        let t = &ws[k];
        if is_exactly(t, ":}") {
            return (names, inputs, k + 1);
        }
        proof {
            if names_after_pipe(v, i as int, k as int + 1) && !names_after_pipe(v, i as int, k as int) {
                let q = choose|q: int| i <= q < k + 1 && v[q] == "|"@;
                assert(q == k);
            }
            if names_after_pipe(v, i as int, k as int) {
                let q = choose|q: int| i <= q < k && v[q] == "|"@;
                assert(i <= q < k + 1 && v[q] == "|"@);
            }
        }
        if is_exactly(t, "|") {
            after_pipe = true;
            assert(names_after_pipe(v, i as int, k as int + 1));
        } else {
            if !after_pipe {
                inputs = inputs + 1;
            }
            let tc = chars_of(t.as_str());
            names.push(string_of(tc.as_slice(), 0, tc.len()));
            assert(tc@.subrange(0, tc@.len() as int) =~= t@);
            assert(views(names@) =~= locals_decl(v, i as int, k as int + 1).0);
        }
        k = k + 1;
    }
    (names, inputs, k)
}


/// One word of a string literal, after the text `acc` gathered so far: a space
/// between words, and the closing word without its `"`.
pub open spec fn lit_step(acc: Seq<char>, t: Seq<char>) -> Seq<char> {
    let piece = if t.len() > 0 && t.last() == '"' {
        t.drop_last()
    } else {
        t
    };
    (if acc.len() > 0 {
        acc.push(' ')
    } else {
        acc
    }) + piece
}

/// The text of an `s" …"` literal whose words start at `i`, with `acc` gathered
/// already, and where the words resume: up to and including the first word that
/// ends with `"`. None if no word closes it.
pub open spec fn lit_from(ws: Seq<Seq<char>>, i: int, acc: Seq<char>) -> Option<(Seq<char>, int)>
    decreases ws.len() - i,
{
    if i < 0 || i >= ws.len() {
        None
    } else if ws[i].len() > 0 && ws[i].last() == '"' {
        Some((lit_step(acc, ws[i]), i + 1))
    } else {
        lit_from(ws, i + 1, lit_step(acc, ws[i]))
    }
}

/// Read the text of an `s" …"` or `." …"` literal from word `i`: the words up to
/// the one that ends with `"`, joined by single spaces, that quote dropped; and
/// the word after it. None when the literal is not closed.
pub fn string_literal(ws: &Vec<String>, i: usize) -> (r: Option<(String, usize)>)
    requires
        i <= ws@.len(),
    ensures
        r matches Some((t, j)) ==> lit_from(views(ws@), i as int, Seq::empty()) == Some((t@, j as int)),
        r is None <==> lit_from(views(ws@), i as int, Seq::empty()) is None,
{
    let mut acc: Vec<char> = Vec::new();
    let mut k = i;
    while k < ws.len()
        invariant
            i <= k <= ws@.len(),
            lit_from(views(ws@), k as int, acc@) == lit_from(views(ws@), i as int, Seq::empty()),
        decreases ws@.len() - k,
    {
        assert(views(ws@)[k as int] == ws@[k as int]@);
        let cs = chars_of(ws[k].as_str());
        let done = cs.len() > 0 && cs[cs.len() - 1] == '"';
        let end = if done {
            cs.len() - 1
        } else {
            cs.len()
        };
        let ghost before = acc@;
        if acc.len() > 0 {
            acc.push(' ');
        }
        let ghost mid = acc@;
        let mut m: usize = 0;
        while m < end
            invariant
                end <= cs@.len(),
                m <= end,
                acc@ == mid + cs@.subrange(0, m as int),
            decreases end - m,
        {
            acc.push(cs[m]);
            m = m + 1;
            assert(acc@ =~= mid + cs@.subrange(0, m as int));
        }
        proof {
            if done {
                assert(cs@.subrange(0, end as int) =~= cs@.drop_last());
            } else {
                assert(cs@.subrange(0, end as int) =~= cs@);
            }
            assert(acc@ == lit_step(before, cs@));
        }
        if done {
            let t = string_of(acc.as_slice(), 0, acc.len());
            assert(acc@.subrange(0, acc@.len() as int) =~= acc@);
            return Some((t, k + 1));
        }
        k = k + 1;
    }
    None
}

} // verus!
