//! Character-level helpers shared by the syntax classifier, the formatter and
//! the editor buffer: Unicode whitespace, `&str` ⇄ `Vec<char>`, literal tests.
use vstd::prelude::*;

verus! {

/// The Unicode `White_Space` property (what `char::is_whitespace` tests).
pub open spec fn is_ws(c: char) -> bool {
    let u = c as u32;
    ||| 0x09 <= u <= 0x0D
    ||| u == 0x20
    ||| u == 0x85
    ||| u == 0xA0
    ||| u == 0x1680
    ||| 0x2000 <= u <= 0x200A
    ||| u == 0x2028
    ||| u == 0x2029
    ||| u == 0x202F
    ||| u == 0x205F
    ||| u == 0x3000
}

/// Executable `White_Space` test.
pub fn is_whitespace(c: char) -> (r: bool)
    ensures
        r == is_ws(c),
{
    let u = c as u32;
    (0x09 <= u && u <= 0x0D) || u == 0x20 || u == 0x85 || u == 0xA0 || u == 0x1680 || (0x2000 <= u
        && u <= 0x200A) || u == 0x2028 || u == 0x2029 || u == 0x202F || u == 0x205F || u == 0x3000
}

/// The characters of `s`, in order.
pub fn chars_of(s: &str) -> (v: Vec<char>)
    ensures
        v@ == s@,
{
    let n = s.unicode_len();
    let mut v: Vec<char> = Vec::new();
    let mut i: usize = 0;
    while i < n
        invariant
            n == s@.len(),
            i <= n,
            v@ == s@.subrange(0, i as int),
        decreases n - i,
    {
        v.push(s.get_char(i));
        i = i + 1;
        assert(v@ =~= s@.subrange(0, i as int));
    }
    assert(v@ =~= s@);
    v
}

/// `String::push` — append one `char` to a `String` (std documents it as
/// appending the given char to the end of the string; that is all it claims).
#[verifier::external_body]
fn string_push(s: &mut String, c: char)
    ensures
        final(s)@ == old(s)@.push(c),
{
    s.push(c);
}

/// A `String` holding exactly the characters `cs[from..to]`.
pub fn string_of(cs: &[char], from: usize, to: usize) -> (r: String)
    requires
        from <= to <= cs@.len(),
    ensures
        r@ == cs@.subrange(from as int, to as int),
{
    let mut r = String::new();
    let mut i = from;
    while i < to
        invariant
            from <= i <= to,
            to <= cs@.len(),
            r@ == cs@.subrange(from as int, i as int),
        decreases to - i,
    {
        string_push(&mut r, cs[i]);
        i = i + 1;
        assert(r@ =~= cs@.subrange(from as int, i as int));
    }
    r
}

/// `true` iff `w[from..to]` spells exactly the literal `lit`.
pub fn span_is(w: &[char], from: usize, to: usize, lit: &str) -> (r: bool)
    requires
        from <= to <= w@.len(),
    ensures
        r == (w@.subrange(from as int, to as int) == lit@),
{
    let n = lit.unicode_len();
    if to - from != n {
        assert(w@.subrange(from as int, to as int).len() != lit@.len());
        return false;
    }
    let mut i: usize = 0;
    while i < n
        invariant
            n == lit@.len(),
            to - from == n,
            from <= to <= w@.len(),
            i <= n,
            forall|k: int| 0 <= k < i ==> w@[from + k] == lit@[k],
        decreases n - i,
    {
        if w[from + i] != lit.get_char(i) {
            assert(w@.subrange(from as int, to as int)[i as int] != lit@[i as int]);
            return false;
        }
        i = i + 1;
    }
    assert(w@.subrange(from as int, to as int) =~= lit@);
    true
}

/// First index `>= i` that is not whitespace (or `c.len()`).
pub open spec fn ws_end(c: Seq<char>, i: int) -> int
    decreases c.len() - i,
{
    if i >= c.len() || !is_ws(c[i]) {
        i
    } else {
        ws_end(c, i + 1)
    }
}

/// First index `>= i` that is whitespace (or `c.len()`).
pub open spec fn word_end(c: Seq<char>, i: int) -> int
    decreases c.len() - i,
{
    if i >= c.len() || is_ws(c[i]) {
        i
    } else {
        word_end(c, i + 1)
    }
}

pub proof fn lemma_ws_end(c: Seq<char>, i: int)
    requires
        0 <= i,
    ensures
        i <= ws_end(c, i),
        i <= c.len() ==> ws_end(c, i) <= c.len(),
        i < c.len() && is_ws(c[i]) ==> i < ws_end(c, i),
        forall|k: int| i <= k < ws_end(c, i) ==> is_ws(#[trigger] c[k]),
        ws_end(c, i) < c.len() ==> !is_ws(c[ws_end(c, i)]),
    decreases c.len() - i,
{
    if i < c.len() && is_ws(c[i]) {
        lemma_ws_end(c, i + 1);
    }
}

pub proof fn lemma_word_end(c: Seq<char>, i: int)
    requires
        0 <= i,
    ensures
        i <= word_end(c, i),
        i <= c.len() ==> word_end(c, i) <= c.len(),
        i < c.len() && !is_ws(c[i]) ==> i < word_end(c, i),
        forall|k: int| i <= k < word_end(c, i) ==> !is_ws(#[trigger] c[k]),
        word_end(c, i) < c.len() ==> is_ws(c[word_end(c, i)]),
    decreases c.len() - i,
{
    if i < c.len() && !is_ws(c[i]) {
        lemma_word_end(c, i + 1);
    }
}

pub fn ws_run_end(c: &[char], i: usize) -> (j: usize)
    requires
        i <= c@.len(),
    ensures
        j as int == ws_end(c@, i as int),
        i <= j <= c@.len(),
{
    let mut j = i;
    while j < c.len() && is_whitespace(c[j])
        invariant
            i <= j <= c@.len(),
            ws_end(c@, i as int) == ws_end(c@, j as int),
        decreases c@.len() - j,
    {
        j = j + 1;
    }
    j
}

pub fn word_run_end(c: &[char], i: usize) -> (j: usize)
    requires
        i <= c@.len(),
    ensures
        j as int == word_end(c@, i as int),
        i <= j <= c@.len(),
{
    let mut j = i;
    while j < c.len() && !is_whitespace(c[j])
        invariant
            i <= j <= c@.len(),
            word_end(c@, i as int) == word_end(c@, j as int),
        decreases c@.len() - j,
    {
        j = j + 1;
    }
    j
}

} // verus!
