//! Forth syntax classification for the editor. `highlight` splits a source line
//! into spans tagged by token class. Per-line (no cross-line comment state),
//! which covers ordinary Forth (`\ …`, `( … )`, `s" … "` on one line).
use vstd::prelude::*;
use crate::text::{
    chars_of, is_whitespace, is_ws, lemma_word_end, lemma_ws_end, span_is, string_of, word_end,
    word_run_end, ws_end, ws_run_end,
};

verus! {

/// Token class for colouring.
#[derive(Clone, Copy, PartialEq, Eq, Debug, Structural)]
pub enum Tag {
    Normal,
    Comment,  // \ … and ( … )
    Str,  // s" … "  ." … "  .( … )
    Def,  // : ; and the defined name
    Control,  // if then begin … do loop …
    Number,
    Core,  // common primitives
}

/// Control-flow words.
pub open spec fn is_control_word(w: Seq<char>) -> bool {
    ||| w == "if"@
    ||| w == "else"@
    ||| w == "then"@
    ||| w == "begin"@
    ||| w == "until"@
    ||| w == "while"@
    ||| w == "repeat"@
    ||| w == "do"@
    ||| w == "loop"@
    ||| w == "+loop"@
    ||| w == "?do"@
    ||| w == "leave"@
    ||| w == "again"@
    ||| w == "unloop"@
    ||| w == "case"@
    ||| w == "of"@
    ||| w == "endof"@
    ||| w == "endcase"@
    ||| w == "recurse"@
    ||| w == "exit"@
    ||| w == "does>"@
    ||| w == "[if]"@
    ||| w == "[else]"@
    ||| w == "[then]"@
    ||| w == "unless"@
}

/// Common primitives.
pub open spec fn is_core_word(w: Seq<char>) -> bool {
    ||| w == "dup"@
    ||| w == "drop"@
    ||| w == "swap"@
    ||| w == "over"@
    ||| w == "nip"@
    ||| w == "rot"@
    ||| w == "-rot"@
    ||| w == "tuck"@
    ||| w == "?dup"@
    ||| w == "2dup"@
    ||| w == "2drop"@
    ||| w == "2swap"@
    ||| w == "+"@
    ||| w == "-"@
    ||| w == "*"@
    ||| w == "/"@
    ||| w == "mod"@
    ||| w == "/mod"@
    ||| w == "1+"@
    ||| w == "1-"@
    ||| w == "2*"@
    ||| w == "2/"@
    ||| w == "negate"@
    ||| w == "abs"@
    ||| w == "min"@
    ||| w == "max"@
    ||| w == "and"@
    ||| w == "or"@
    ||| w == "xor"@
    ||| w == "invert"@
    ||| w == "lshift"@
    ||| w == "rshift"@
    ||| w == "="@
    ||| w == "<>"@
    ||| w == "<"@
    ||| w == ">"@
    ||| w == "<="@
    ||| w == ">="@
    ||| w == "u<"@
    ||| w == "0="@
    ||| w == "0<"@
    ||| w == "0>"@
    ||| w == "@"@
    ||| w == "!"@
    ||| w == "+!"@
    ||| w == "c@"@
    ||| w == "c!"@
    ||| w == "."@
    ||| w == "cr"@
    ||| w == "emit"@
    ||| w == "type"@
    ||| w == "space"@
    ||| w == ".s"@
    ||| w == "f+"@
    ||| w == "f-"@
    ||| w == "f*"@
    ||| w == "f/"@
    ||| w == "f."@
    ||| w == "f@"@
    ||| w == "f!"@
    ||| w == "fdup"@
    ||| w == "fdrop"@
    ||| w == "fswap"@
    ||| w == "fsqrt"@
    ||| w == "fabs"@
    ||| w == "f<"@
    ||| w == ">r"@
    ||| w == "r>"@
    ||| w == "r@"@
    ||| w == "i"@
    ||| w == "j"@
    ||| w == "pick"@
    ||| w == "roll"@
    ||| w == "execute"@
    ||| w == "here"@
    ||| w == "allot"@
    ||| w == ","@
}

fn is_control(w: &[char], from: usize, to: usize) -> (r: bool)
    requires
        from <= to <= w@.len(),
    ensures
        r == is_control_word(w@.subrange(from as int, to as int)),
{
    span_is(w, from, to, "if") ||
        span_is(w, from, to, "else") ||
        span_is(w, from, to, "then") ||
        span_is(w, from, to, "begin") ||
        span_is(w, from, to, "until") ||
        span_is(w, from, to, "while") ||
        span_is(w, from, to, "repeat") ||
        span_is(w, from, to, "do") ||
        span_is(w, from, to, "loop") ||
        span_is(w, from, to, "+loop") ||
        span_is(w, from, to, "?do") ||
        span_is(w, from, to, "leave") ||
        span_is(w, from, to, "again") ||
        span_is(w, from, to, "unloop") ||
        span_is(w, from, to, "case") ||
        span_is(w, from, to, "of") ||
        span_is(w, from, to, "endof") ||
        span_is(w, from, to, "endcase") ||
        span_is(w, from, to, "recurse") ||
        span_is(w, from, to, "exit") ||
        span_is(w, from, to, "does>") ||
        span_is(w, from, to, "[if]") ||
        span_is(w, from, to, "[else]") ||
        span_is(w, from, to, "[then]") ||
        span_is(w, from, to, "unless")
}

fn is_core(w: &[char], from: usize, to: usize) -> (r: bool)
    requires
        from <= to <= w@.len(),
    ensures
        r == is_core_word(w@.subrange(from as int, to as int)),
{
    span_is(w, from, to, "dup") ||
        span_is(w, from, to, "drop") ||
        span_is(w, from, to, "swap") ||
        span_is(w, from, to, "over") ||
        span_is(w, from, to, "nip") ||
        span_is(w, from, to, "rot") ||
        span_is(w, from, to, "-rot") ||
        span_is(w, from, to, "tuck") ||
        span_is(w, from, to, "?dup") ||
        span_is(w, from, to, "2dup") ||
        span_is(w, from, to, "2drop") ||
        span_is(w, from, to, "2swap") ||
        span_is(w, from, to, "+") ||
        span_is(w, from, to, "-") ||
        span_is(w, from, to, "*") ||
        span_is(w, from, to, "/") ||
        span_is(w, from, to, "mod") ||
        span_is(w, from, to, "/mod") ||
        span_is(w, from, to, "1+") ||
        span_is(w, from, to, "1-") ||
        span_is(w, from, to, "2*") ||
        span_is(w, from, to, "2/") ||
        span_is(w, from, to, "negate") ||
        span_is(w, from, to, "abs") ||
        span_is(w, from, to, "min") ||
        span_is(w, from, to, "max") ||
        span_is(w, from, to, "and") ||
        span_is(w, from, to, "or") ||
        span_is(w, from, to, "xor") ||
        span_is(w, from, to, "invert") ||
        span_is(w, from, to, "lshift") ||
        span_is(w, from, to, "rshift") ||
        span_is(w, from, to, "=") ||
        span_is(w, from, to, "<>") ||
        span_is(w, from, to, "<") ||
        span_is(w, from, to, ">") ||
        span_is(w, from, to, "<=") ||
        span_is(w, from, to, ">=") ||
        span_is(w, from, to, "u<") ||
        span_is(w, from, to, "0=") ||
        span_is(w, from, to, "0<") ||
        span_is(w, from, to, "0>") ||
        span_is(w, from, to, "@") ||
        span_is(w, from, to, "!") ||
        span_is(w, from, to, "+!") ||
        span_is(w, from, to, "c@") ||
        span_is(w, from, to, "c!") ||
        span_is(w, from, to, ".") ||
        span_is(w, from, to, "cr") ||
        span_is(w, from, to, "emit") ||
        span_is(w, from, to, "type") ||
        span_is(w, from, to, "space") ||
        span_is(w, from, to, ".s") ||
        span_is(w, from, to, "f+") ||
        span_is(w, from, to, "f-") ||
        span_is(w, from, to, "f*") ||
        span_is(w, from, to, "f/") ||
        span_is(w, from, to, "f.") ||
        span_is(w, from, to, "f@") ||
        span_is(w, from, to, "f!") ||
        span_is(w, from, to, "fdup") ||
        span_is(w, from, to, "fdrop") ||
        span_is(w, from, to, "fswap") ||
        span_is(w, from, to, "fsqrt") ||
        span_is(w, from, to, "fabs") ||
        span_is(w, from, to, "f<") ||
        span_is(w, from, to, ">r") ||
        span_is(w, from, to, "r>") ||
        span_is(w, from, to, "r@") ||
        span_is(w, from, to, "i") ||
        span_is(w, from, to, "j") ||
        span_is(w, from, to, "pick") ||
        span_is(w, from, to, "roll") ||
        span_is(w, from, to, "execute") ||
        span_is(w, from, to, "here") ||
        span_is(w, from, to, "allot") ||
        span_is(w, from, to, ",")
}

// ── Numbers ───────────────────────────────────────────────────────────────
/// Character classes used by the number recogniser.
pub open spec fn in_class(k: u8, c: char) -> bool {
    if k == 0 {
        '0' <= c <= '9'
    } else if k == 1 {
        ('0' <= c <= '9') || ('a' <= c <= 'f') || ('A' <= c <= 'F')
    } else if k == 2 {
        c == '0' || c == '1'
    } else {
        ('0' <= c <= '9') || c == '.' || c == 'e' || c == 'E' || c == '-' || c == '+'
    }
}

/// Every character of `s` is in class `k`.
pub open spec fn all_in(k: u8, s: Seq<char>) -> bool {
    forall|i: int| 0 <= i < s.len() ==> in_class(k, #[trigger] s[i])
}

/// `w` without one leading `-` or `+`.
pub open spec fn strip_sign(w: Seq<char>) -> Seq<char> {
    if w.len() > 0 && (w[0] == '-' || w[0] == '+') {
        w.drop_first()
    } else {
        w
    }
}

/// A Forth number: optional sign, then hex (`0x…`/`$…`), binary (`%…`),
/// decimal digits, or a float (digits with `.` and/or an exponent marker).
pub open spec fn is_number_word(w: Seq<char>) -> bool {
    let s = strip_sign(w);
    if s.len() == 0 {
        false
    } else if s.len() >= 2 && s[0] == '0' && s[1] == 'x' {
        s.len() > 2 && all_in(1, s.skip(2))
    } else if s[0] == '$' {
        s.len() > 1 && all_in(1, s.skip(1))
    } else if s[0] == '%' {
        s.len() > 1 && all_in(2, s.skip(1))
    } else if all_in(0, s) {
        true
    } else {
        &&& all_in(3, s)
        &&& exists|i: int| 0 <= i < s.len() && '0' <= #[trigger] s[i] <= '9'
        &&& (s.contains('.') || s.contains('e') || s.contains('E'))
    }
}

fn class_all(k: u8, w: &[char], from: usize, to: usize) -> (r: bool)
    requires
        from <= to <= w@.len(),
    ensures
        r == all_in(k, w@.subrange(from as int, to as int)),
{
    let mut i = from;
    while i < to
        invariant
            from <= i <= to <= w@.len(),
            forall|j: int| from <= j < i ==> in_class(k, #[trigger] w@[j]),
        decreases to - i,
    {
        let c = w[i];
        let ok = if k == 0 {
            '0' <= c && c <= '9'
        } else if k == 1 {
            ('0' <= c && c <= '9') || ('a' <= c && c <= 'f') || ('A' <= c && c <= 'F')
        } else if k == 2 {
            c == '0' || c == '1'
        } else {
            ('0' <= c && c <= '9') || c == '.' || c == 'e' || c == 'E' || c == '-' || c == '+'
        };
        if !ok {
            assert(!in_class(k, w@.subrange(from as int, to as int)[i - from]));
            return false;
        }
        i = i + 1;
    }
    assert forall|j: int| 0 <= j < to - from implies in_class(
        k,
        #[trigger] w@.subrange(from as int, to as int)[j],
    ) by {
        assert(w@.subrange(from as int, to as int)[j] == w@[from + j]);
    }
    true
}

fn has_char(w: &[char], from: usize, to: usize, c: char) -> (r: bool)
    requires
        from <= to <= w@.len(),
    ensures
        r == w@.subrange(from as int, to as int).contains(c),
{
    let mut i = from;
    while i < to
        invariant
            from <= i <= to <= w@.len(),
            forall|j: int| from <= j < i ==> w@[j] != c,
        decreases to - i,
    {
        if w[i] == c {
            assert(w@.subrange(from as int, to as int)[i - from] == c);
            return true;
        }
        i = i + 1;
    }
    assert forall|j: int| 0 <= j < to - from implies w@.subrange(from as int, to as int)[j] != c by {
        assert(w@.subrange(from as int, to as int)[j] == w@[from + j]);
    }
    false
}

fn has_digit(w: &[char], from: usize, to: usize) -> (r: bool)
    requires
        from <= to <= w@.len(),
    ensures
        r == exists|i: int|
            0 <= i < to - from && '0' <= #[trigger] w@.subrange(from as int, to as int)[i] <= '9',
{
    let mut i = from;
    while i < to
        invariant
            from <= i <= to <= w@.len(),
            forall|j: int| from <= j < i ==> !('0' <= #[trigger] w@[j] <= '9'),
        decreases to - i,
    {
        if '0' <= w[i] && w[i] <= '9' {
            assert(w@.subrange(from as int, to as int)[i - from] == w@[i as int]);
            return true;
        }
        i = i + 1;
    }
    assert forall|j: int| 0 <= j < to - from implies !('0' <= #[trigger] w@.subrange(
        from as int,
        to as int,
    )[j] <= '9') by {
        assert(w@.subrange(from as int, to as int)[j] == w@[from + j]);
    }
    false
}

/// Is `w[from..to]` a Forth number literal?
fn is_number(w: &[char], from: usize, to: usize) -> (r: bool)
    requires
        from <= to <= w@.len(),
    ensures
        r == is_number_word(w@.subrange(from as int, to as int)),
{
    let ghost ws = w@.subrange(from as int, to as int);
    let mut s = from;
    if from < to && (w[from] == '-' || w[from] == '+') {
        s = from + 1;
    }
    assert(strip_sign(ws) =~= w@.subrange(s as int, to as int));
    let ghost ss = w@.subrange(s as int, to as int);
    if s == to {
        return false;
    }
    if to - s >= 2 && w[s] == '0' && w[s + 1] == 'x' {
        assert(ss.skip(2) =~= w@.subrange(s + 2, to as int));
        return to - s > 2 && class_all(1, w, s + 2, to);
    }
    assert(ss.skip(1) =~= w@.subrange(s + 1, to as int));
    if w[s] == '$' {
        return to - s > 1 && class_all(1, w, s + 1, to);
    }
    if w[s] == '%' {
        return to - s > 1 && class_all(2, w, s + 1, to);
    }
    if class_all(0, w, s, to) {
        return true;
    }
    class_all(3, w, s, to) && has_digit(w, s, to) && (has_char(w, s, to, '.') || has_char(
        w,
        s,
        to,
        'e',
    ) || has_char(w, s, to, 'E'))
}

/// The colouring class of a single word (the name after `:` is handled by
/// `highlight`).
pub open spec fn classify_word(w: Seq<char>) -> Tag {
    if w == ":"@ || w == ";"@ || w == ":noname"@ {
        Tag::Def
    } else if is_control_word(w) {
        Tag::Control
    } else if is_number_word(w) {
        Tag::Number
    } else if is_core_word(w) {
        Tag::Core
    } else {
        Tag::Normal
    }
}

fn classify(w: &[char], from: usize, to: usize) -> (t: Tag)
    requires
        from <= to <= w@.len(),
    ensures
        t == classify_word(w@.subrange(from as int, to as int)),
{
    if span_is(w, from, to, ":") || span_is(w, from, to, ";") || span_is(w, from, to, ":noname") {
        Tag::Def
    } else if is_control(w, from, to) {
        Tag::Control
    } else if is_number(w, from, to) {
        Tag::Number
    } else if is_core(w, from, to) {
        Tag::Core
    } else {
        Tag::Normal
    }
}

// ── Highlighting ──────────────────────────────────────────────────────────
/// One past the first `ch` at index `>= i`, or `c.len()` if there is none.
pub open spec fn close_after(c: Seq<char>, i: int, ch: char) -> int
    decreases c.len() - i,
{
    if i >= c.len() {
        c.len() as int
    } else if c[i] == ch {
        i + 1
    } else {
        close_after(c, i + 1, ch)
    }
}

pub proof fn lemma_close_after(c: Seq<char>, i: int, ch: char)
    requires
        0 <= i <= c.len(),
    ensures
        i <= close_after(c, i, ch) <= c.len(),
        forall|k: int| i <= k < close_after(c, i, ch) - 1 ==> #[trigger] c[k] != ch,
    decreases c.len() - i,
{
    if i < c.len() && c[i] != ch {
        lemma_close_after(c, i + 1, ch);
    }
}

/// Words that open a string literal running to the next `"`.
pub open spec fn is_string_opener(w: Seq<char>) -> bool {
    w == "s\""@ || w == ".\""@ || w == "c\""@ || w == "abort\""@ || w == "s\\\""@
}

/// The spans of `c` from index `i` on; `name_next` marks that the previous
/// word was `:` (so this word is the definition's name).
pub open spec fn spans_from(c: Seq<char>, i: int, name_next: bool) -> Seq<(Seq<char>, Tag)>
    decreases c.len() - i, 1int,
    when 0 <= i
{
    if i >= c.len() {
        seq![]
    } else if is_ws(c[i]) {
        let j = ws_end(c, i);
        proof {
            lemma_ws_end(c, i);
        }
        seq![(c.subrange(i, j), Tag::Normal)] + spans_from(c, j, name_next)
    } else {
        proof {
            lemma_word_end(c, i);
        }
        word_spans(c, i, word_end(c, i), name_next)
    }
}

/// The spans starting with the word `c[i..e]` (then the rest of the line).
pub open spec fn word_spans(c: Seq<char>, i: int, e: int, name_next: bool) -> Seq<
    (Seq<char>, Tag),
>
    decreases c.len() - i, 0int,
    when 0 <= i < e <= c.len()
{
    let w = c.subrange(i, e);
    proof {
        lemma_close_after(c, e, ')');
        lemma_close_after(c, e, '"');
    }
    if w == "\\"@ {
        seq![(c.subrange(i, c.len() as int), Tag::Comment)]
    } else if w == "("@ {
        let j = close_after(c, e, ')');
        seq![(c.subrange(i, j), Tag::Comment)] + spans_from(c, j, name_next)
    } else if is_string_opener(w) {
        let j = close_after(c, e, '"');
        seq![(c.subrange(i, j), Tag::Str)] + spans_from(c, j, name_next)
    } else if w == ".("@ {
        let j = close_after(c, e, ')');
        seq![(c.subrange(i, j), Tag::Str)] + spans_from(c, j, name_next)
    } else {
        let tag = if name_next {
            Tag::Def
        } else {
            classify_word(w)
        };
        seq![(w, tag)] + spans_from(c, e, w == ":"@)
    }
}

/// The spans of a whole line.
pub open spec fn spans_of(line: Seq<char>) -> Seq<(Seq<char>, Tag)> {
    spans_from(line, 0, false)
}

/// The text of a span list, concatenated.
pub open spec fn span_text(sp: Seq<(Seq<char>, Tag)>) -> Seq<char>
    decreases sp.len(),
{
    if sp.len() == 0 {
        seq![]
    } else {
        sp[0].0 + span_text(sp.drop_first())
    }
}

/// A `(String, Tag)` list viewed as `(chars, Tag)` pairs.
pub open spec fn spans_view(v: Seq<(String, Tag)>) -> Seq<(Seq<char>, Tag)> {
    v.map_values(|p: (String, Tag)| (p.0@, p.1))
}

fn find_close(c: &[char], i: usize, ch: char) -> (j: usize)
    requires
        i <= c@.len(),
    ensures
        j as int == close_after(c@, i as int, ch),
        i <= j <= c@.len(),
{
    let mut j = i;
    while j < c.len() && c[j] != ch
        invariant
            i <= j <= c@.len(),
            close_after(c@, i as int, ch) == close_after(c@, j as int, ch),
        decreases c@.len() - j,
    {
        j = j + 1;
    }
    if j < c.len() {
        j + 1
    } else {
        j
    }
}

/// Split `line` into consecutive (text, Tag) spans covering every character
/// (whitespace included, as `Normal`).
pub fn highlight(line: &str) -> (spans: Vec<(String, Tag)>)
    ensures
        spans_view(spans@) == spans_of(line@),
{
    let chars = chars_of(line);
    let n = chars.len();
    let ghost c = chars@;
    let mut spans: Vec<(String, Tag)> = Vec::new();
    let mut i: usize = 0;
    let mut name_next = false;
    while i < n
        invariant
            c == chars@,
            c == line@,
            n == c.len(),
            i <= n,
            spans_view(spans@) + spans_from(c, i as int, name_next) == spans_of(c),
        decreases n - i,
    {
        let ghost before = spans@;
        if is_whitespace(chars[i]) {
            let j = ws_run_end(chars.as_slice(), i);
            proof {
                lemma_ws_end(c, i as int);
            }
            let t = string_of(chars.as_slice(), i, j);
            spans.push((t, Tag::Normal));
            assert(spans_view(spans@) =~= spans_view(before).push((c.subrange(i as int, j as int), Tag::Normal)));
            assert(spans_view(spans@) + spans_from(c, j as int, name_next) =~= spans_view(before)
                + spans_from(c, i as int, name_next));
            i = j;
            continue;
        }
        let start = i;
        let e = word_run_end(chars.as_slice(), i);
        proof {
            lemma_word_end(c, i as int);
            lemma_close_after(c, e as int, ')');
            lemma_close_after(c, e as int, '"');
        }
        assert(spans_from(c, i as int, name_next) == word_spans(c, i as int, e as int, name_next));
        let ghost w = c.subrange(start as int, e as int);
        if span_is(chars.as_slice(), start, e, "\\") {
            let t = string_of(chars.as_slice(), start, n);
            spans.push((t, Tag::Comment));
            assert(spans_view(spans@) =~= spans_view(before).push((c.subrange(start as int, n as int), Tag::Comment)));
            assert(spans_view(spans@) =~= spans_of(c));
            return spans;
        }
        let opener = span_is(chars.as_slice(), start, e, "s\"") || span_is(chars.as_slice(), start, e, ".\"")
            || span_is(chars.as_slice(), start, e, "c\"") || span_is(chars.as_slice(), start, e, "abort\"")
            || span_is(chars.as_slice(), start, e, "s\\\"");
        assert(opener == is_string_opener(w));
        if span_is(chars.as_slice(), start, e, "(") {
            let j = find_close(chars.as_slice(), e, ')');
            let t = string_of(chars.as_slice(), start, j);
            spans.push((t, Tag::Comment));
            assert(spans_view(spans@) =~= spans_view(before).push((c.subrange(start as int, j as int), Tag::Comment)));
            assert(spans_view(spans@) + spans_from(c, j as int, name_next) =~= spans_view(before)
                + spans_from(c, start as int, name_next));
            i = j;
        } else if opener {
            let j = find_close(chars.as_slice(), e, '"');
            let t = string_of(chars.as_slice(), start, j);
            spans.push((t, Tag::Str));
            assert(spans_view(spans@) =~= spans_view(before).push((c.subrange(start as int, j as int), Tag::Str)));
            assert(spans_view(spans@) + spans_from(c, j as int, name_next) =~= spans_view(before)
                + spans_from(c, start as int, name_next));
            i = j;
        } else if span_is(chars.as_slice(), start, e, ".(") {
            let j = find_close(chars.as_slice(), e, ')');
            let t = string_of(chars.as_slice(), start, j);
            spans.push((t, Tag::Str));
            assert(spans_view(spans@) =~= spans_view(before).push((c.subrange(start as int, j as int), Tag::Str)));
            assert(spans_view(spans@) + spans_from(c, j as int, name_next) =~= spans_view(before)
                + spans_from(c, start as int, name_next));
            i = j;
        } else {
            let tag = if name_next {
                Tag::Def
            } else {
                classify(chars.as_slice(), start, e)
            };
            let is_colon = span_is(chars.as_slice(), start, e, ":");
            let t = string_of(chars.as_slice(), start, e);
            spans.push((t, tag));
            assert(spans_view(spans@) =~= spans_view(before).push((w, tag)));
            assert(spans_view(spans@) + spans_from(c, e as int, is_colon) =~= spans_view(before)
                + spans_from(c, start as int, name_next));
            name_next = is_colon;
            i = e;
        }
    }
    assert(spans_view(spans@) =~= spans_of(c));
    spans
}

// ── Laws ──────────────────────────────────────────────────────────────────
pub proof fn lemma_span_text_append(a: Seq<(Seq<char>, Tag)>, b: Seq<(Seq<char>, Tag)>)
    ensures
        span_text(a + b) == span_text(a) + span_text(b),
    decreases a.len(),
{
    if a.len() == 0 {
        assert(a + b =~= b);
    } else {
        assert((a + b).drop_first() =~= a.drop_first() + b);
        lemma_span_text_append(a.drop_first(), b);
        assert(span_text(a + b) =~= span_text(a) + span_text(b));
    }
}

/// Spans from position `i` cover `c[i..]` exactly, and none is empty.
pub proof fn lemma_spans_from_cover(c: Seq<char>, i: int, name_next: bool)
    requires
        0 <= i <= c.len(),
    ensures
        span_text(spans_from(c, i, name_next)) == c.subrange(i, c.len() as int),
        forall|k: int|
            0 <= k < spans_from(c, i, name_next).len() ==> #[trigger] spans_from(
                c,
                i,
                name_next,
            )[k].0.len() > 0,
    decreases c.len() - i, 1int,
{
    if i >= c.len() {
        assert(c.subrange(i, c.len() as int) =~= seq![]);
    } else if is_ws(c[i]) {
        let j = ws_end(c, i);
        lemma_ws_end(c, i);
        lemma_spans_from_cover(c, j, name_next);
        let head = seq![(c.subrange(i, j), Tag::Normal)];
        lemma_span_text_append(head, spans_from(c, j, name_next));
        assert(head.drop_first() =~= seq![]);
        assert(span_text(head.drop_first()) =~= seq![]);
        assert(span_text(head) =~= c.subrange(i, j));
        assert(c.subrange(i, j) + c.subrange(j, c.len() as int) =~= c.subrange(i, c.len() as int));
        let sp = spans_from(c, i, name_next);
        assert forall|k: int| 0 <= k < sp.len() implies #[trigger] sp[k].0.len() > 0 by {
            if k > 0 {
                assert(sp[k] == spans_from(c, j, name_next)[k - 1]);
            }
        }
    } else {
        lemma_word_end(c, i);
        lemma_word_spans_cover(c, i, word_end(c, i), name_next);
    }
}

pub proof fn lemma_word_spans_cover(c: Seq<char>, i: int, e: int, name_next: bool)
    requires
        0 <= i < e <= c.len(),
    ensures
        span_text(word_spans(c, i, e, name_next)) == c.subrange(i, c.len() as int),
        forall|k: int|
            0 <= k < word_spans(c, i, e, name_next).len() ==> #[trigger] word_spans(
                c,
                i,
                e,
                name_next,
            )[k].0.len() > 0,
    decreases c.len() - i, 0int,
{
    let w = c.subrange(i, e);
    lemma_close_after(c, e, ')');
    lemma_close_after(c, e, '"');
    let sp = word_spans(c, i, e, name_next);
    if w == "\\"@ {
        let head = seq![(c.subrange(i, c.len() as int), Tag::Comment)];
        assert(head.drop_first() =~= seq![]);
        assert(span_text(head.drop_first()) =~= seq![]);
        assert(span_text(head) =~= c.subrange(i, c.len() as int));
    } else {
        let (j, tag, nn) = if w == "("@ {
            (close_after(c, e, ')'), Tag::Comment, name_next)
        } else if is_string_opener(w) {
            (close_after(c, e, '"'), Tag::Str, name_next)
        } else if w == ".("@ {
            (close_after(c, e, ')'), Tag::Str, name_next)
        } else {
            (e, if name_next {
                Tag::Def
            } else {
                classify_word(w)
            }, w == ":"@)
        };
        let head = seq![(c.subrange(i, j), tag)];
        assert(sp == head + spans_from(c, j, nn));
        lemma_spans_from_cover(c, j, nn);
        lemma_span_text_append(head, spans_from(c, j, nn));
        assert(head.drop_first() =~= seq![]);
        assert(span_text(head.drop_first()) =~= seq![]);
        assert(span_text(head) =~= c.subrange(i, j));
        assert(c.subrange(i, j) + c.subrange(j, c.len() as int) =~= c.subrange(i, c.len() as int));
        assert forall|k: int| 0 <= k < sp.len() implies #[trigger] sp[k].0.len() > 0 by {
            if k > 0 {
                assert(sp[k] == spans_from(c, j, nn)[k - 1]);
            }
        }
    }
}

/// `highlight` loses and invents nothing: its spans, concatenated, spell the
/// line exactly, and no span is empty.
pub proof fn lemma_highlight_covers_line(line: Seq<char>)
    ensures
        span_text(spans_of(line)) == line,
        forall|k: int| 0 <= k < spans_of(line).len() ==> #[trigger] spans_of(line)[k].0.len() > 0,
{
    lemma_spans_from_cover(line, 0, false);
    assert(line.subrange(0, line.len() as int) =~= line);
}


/// A word that spells a number behind a radix prefix — `$` or `0x` and then
/// one or more hexadecimal digits, or `%` and then one or more binary digits,
/// with or without a leading `-` — is coloured as a number. The digits are
/// those the number parser reads in that radix.
pub proof fn lemma_prefixed_numbers_are_numbers(w: Seq<char>)
    requires
        ({
            ||| (w.len() >= 2 && w[0] == '$' && forall|i: int| 1 <= i < w.len() ==> crate::number::digit_of(#[trigger] w[i]) < 16)
            ||| (w.len() >= 3 && w[0] == '0' && w[1] == 'x' && forall|i: int| 2 <= i < w.len() ==> crate::number::digit_of(#[trigger] w[i]) < 16)
            ||| (w.len() >= 2 && w[0] == '%' && forall|i: int| 1 <= i < w.len() ==> crate::number::digit_of(#[trigger] w[i]) < 2)
        }),
    ensures
        classify_word(w) == Tag::Number,
        classify_word(seq!['-'] + w) == Tag::Number,
{
    reveal_strlit("if");
    assert("if"@[0] == 'i');
    reveal_strlit("else");
    assert("else"@[0] == 'e');
    reveal_strlit("then");
    assert("then"@[0] == 't');
    reveal_strlit("begin");
    assert("begin"@[0] == 'b');
    reveal_strlit("until");
    assert("until"@[0] == 'u');
    reveal_strlit("while");
    assert("while"@[0] == 'w');
    reveal_strlit("repeat");
    assert("repeat"@[0] == 'r');
    reveal_strlit("do");
    assert("do"@[0] == 'd');
    reveal_strlit("loop");
    assert("loop"@[0] == 'l');
    reveal_strlit("+loop");
    assert("+loop"@[0] == '+');
    reveal_strlit("?do");
    assert("?do"@[0] == '?');
    reveal_strlit("leave");
    assert("leave"@[0] == 'l');
    reveal_strlit("again");
    assert("again"@[0] == 'a');
    reveal_strlit("unloop");
    assert("unloop"@[0] == 'u');
    reveal_strlit("case");
    assert("case"@[0] == 'c');
    reveal_strlit("of");
    assert("of"@[0] == 'o');
    reveal_strlit("endof");
    assert("endof"@[0] == 'e');
    reveal_strlit("endcase");
    assert("endcase"@[0] == 'e');
    reveal_strlit("recurse");
    assert("recurse"@[0] == 'r');
    reveal_strlit("exit");
    assert("exit"@[0] == 'e');
    reveal_strlit("does>");
    assert("does>"@[0] == 'd');
    reveal_strlit("[if]");
    assert("[if]"@[0] == '[');
    reveal_strlit("[else]");
    assert("[else]"@[0] == '[');
    reveal_strlit("[then]");
    assert("[then]"@[0] == '[');
    reveal_strlit("unless");
    assert("unless"@[0] == 'u');
    reveal_strlit(":");
    assert(":"@[0] == ':');
    reveal_strlit(";");
    assert(";"@[0] == ';');
    reveal_strlit(":noname");
    assert(":noname"@[0] == ':');
    let v = seq!['-'] + w;
    assert(v.drop_first() =~= w);
    assert(strip_sign(w) == w);
    assert(strip_sign(v) == w);
    if w[0] == '$' {
        assert(all_in(1, w.skip(1))) by {
            assert forall|i: int| 0 <= i < w.skip(1).len() implies in_class(1, #[trigger] w.skip(1)[i]) by {
                assert(w.skip(1)[i] == w[i + 1]);
                assert(crate::number::digit_of(w[i + 1]) < 16);
            }
        }
    } else if w[0] == '0' {
        assert(all_in(1, w.skip(2))) by {
            assert forall|i: int| 0 <= i < w.skip(2).len() implies in_class(1, #[trigger] w.skip(2)[i]) by {
                assert(w.skip(2)[i] == w[i + 2]);
                assert(crate::number::digit_of(w[i + 2]) < 16);
            }
        }
    } else {
        assert(all_in(2, w.skip(1))) by {
            assert forall|i: int| 0 <= i < w.skip(1).len() implies in_class(2, #[trigger] w.skip(1)[i]) by {
                assert(w.skip(1)[i] == w[i + 1]);
                assert(crate::number::digit_of(w[i + 1]) < 2);
            }
        }
    }
    assert(is_number_word(w));
    assert(is_number_word(v));
    assert(v[0] == '-');
}

/// A word of decimal digits, with or without a leading `-`, is coloured as a
/// number.
pub proof fn lemma_decimals_are_numbers(w: Seq<char>)
    requires
        w.len() >= 1,
        forall|i: int| 0 <= i < w.len() ==> '0' <= #[trigger] w[i] <= '9',
    ensures
        classify_word(w) == Tag::Number,
        classify_word(seq!['-'] + w) == Tag::Number,
{
    reveal_strlit("if");
    assert("if"@[0] == 'i');
    reveal_strlit("else");
    assert("else"@[0] == 'e');
    reveal_strlit("then");
    assert("then"@[0] == 't');
    reveal_strlit("begin");
    assert("begin"@[0] == 'b');
    reveal_strlit("until");
    assert("until"@[0] == 'u');
    reveal_strlit("while");
    assert("while"@[0] == 'w');
    reveal_strlit("repeat");
    assert("repeat"@[0] == 'r');
    reveal_strlit("do");
    assert("do"@[0] == 'd');
    reveal_strlit("loop");
    assert("loop"@[0] == 'l');
    reveal_strlit("+loop");
    assert("+loop"@[0] == '+');
    reveal_strlit("?do");
    assert("?do"@[0] == '?');
    reveal_strlit("leave");
    assert("leave"@[0] == 'l');
    reveal_strlit("again");
    assert("again"@[0] == 'a');
    reveal_strlit("unloop");
    assert("unloop"@[0] == 'u');
    reveal_strlit("case");
    assert("case"@[0] == 'c');
    reveal_strlit("of");
    assert("of"@[0] == 'o');
    reveal_strlit("endof");
    assert("endof"@[0] == 'e');
    reveal_strlit("endcase");
    assert("endcase"@[0] == 'e');
    reveal_strlit("recurse");
    assert("recurse"@[0] == 'r');
    reveal_strlit("exit");
    assert("exit"@[0] == 'e');
    reveal_strlit("does>");
    assert("does>"@[0] == 'd');
    reveal_strlit("[if]");
    assert("[if]"@[0] == '[');
    reveal_strlit("[else]");
    assert("[else]"@[0] == '[');
    reveal_strlit("[then]");
    assert("[then]"@[0] == '[');
    reveal_strlit("unless");
    assert("unless"@[0] == 'u');
    reveal_strlit(":");
    assert(":"@[0] == ':');
    reveal_strlit(";");
    assert(";"@[0] == ';');
    reveal_strlit(":noname");
    assert(":noname"@[0] == ':');
    let v = seq!['-'] + w;
    assert(v.drop_first() =~= w);
    assert(strip_sign(w) == w);
    assert(strip_sign(v) == w);
    assert(all_in(0, w));
    assert(is_number_word(w));
    assert(is_number_word(v));
    assert(v[0] == '-');
}
} // verus!
