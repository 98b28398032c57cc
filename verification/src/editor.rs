//! The workspace editor — a thin editing surface over a character buffer.
//! The cursor is a code-point offset into the buffer; line/column is derived
//! on demand. Headless: edit ops, motion, and a Forth re-indent formatter.
use vstd::prelude::*;
use crate::text::{
    chars_of, is_whitespace, is_ws, lemma_word_end, lemma_ws_end, span_is, string_of, word_end,
    word_run_end, ws_end, ws_run_end,
};

verus! {

// ── The formatter ─────────────────────────────────────────────────────────
/// The whitespace-separated words of `l` from index `i` on.
pub open spec fn words_from(l: Seq<char>, i: int) -> Seq<Seq<char>>
    decreases l.len() - i,
    when 0 <= i
{
    let j = ws_end(l, i);
    if j >= l.len() {
        seq![]
    } else {
        let e = word_end(l, j);
        proof {
            lemma_ws_end(l, i);
            lemma_word_end(l, j);
        }
        seq![l.subrange(j, e)] + words_from(l, e)
    }
}

/// Words that open an indentation level.
pub open spec fn opens_word(w: Seq<char>) -> bool {
    w == ":"@ || w == "if"@ || w == "begin"@ || w == "do"@ || w == "?do"@ || w == "case"@ || w
        == "of"@ || w == "[if]"@
}

/// Words that close an indentation level.
pub open spec fn closes_word(w: Seq<char>) -> bool {
    w == ";"@ || w == "then"@ || w == "loop"@ || w == "+loop"@ || w == "repeat"@ || w == "until"@
        || w == "again"@ || w == "endcase"@ || w == "endof"@ || w == "[then]"@
}

/// Words that dedent only their own line (the level continues after).
pub open spec fn dedent_word(w: Seq<char>) -> bool {
    w == "else"@ || w == "while"@ || w == "of"@ || w == "endof"@ || w == "[else]"@
}

/// The running depth after scanning `ws[k..]` (inside a `( … )` comment while
/// `in_comment`; a `\` ends the scan).
pub open spec fn depth_scan(ws: Seq<Seq<char>>, k: int, depth: int, in_comment: bool) -> int
    decreases ws.len() - k,
{
    if k >= ws.len() {
        depth
    } else if in_comment {
        let closes_comment = ws[k].len() > 0 && ws[k].last() == ')';
        depth_scan(ws, k + 1, depth, !closes_comment)
    } else if ws[k] == "("@ {
        depth_scan(ws, k + 1, depth, true)
    } else if ws[k] == "\\"@ {
        depth
    } else if opens_word(ws[k]) {
        depth_scan(ws, k + 1, depth + 1, false)
    } else if closes_word(ws[k]) {
        depth_scan(ws, k + 1, depth - 1, false)
    } else {
        depth_scan(ws, k + 1, depth, false)
    }
}

/// `2 * d` spaces.
pub open spec fn indent(d: int) -> Seq<char> {
    Seq::new((2 * d) as nat, |k: int| ' ')
}

/// The end of `l[..k]` without its trailing whitespace.
pub open spec fn trim_end(l: Seq<char>, k: int) -> int
    decreases k,
{
    if k <= 0 {
        0
    } else if is_ws(l[k - 1]) {
        trim_end(l, k - 1)
    } else {
        k
    }
}

/// Where a `( … )` comment whose remaining words start at `k` ends: after the
/// first word that ends in `)`, or after the line's last word when none does.
pub open spec fn paren_close(l: Seq<char>, k: int) -> int
    decreases l.len() - k,
    when 0 <= k
{
    let j = ws_end(l, k);
    if j >= l.len() {
        k
    } else {
        let e = word_end(l, j);
        proof {
            lemma_ws_end(l, k);
            lemma_word_end(l, j);
        }
        if l[e - 1] == ')' {
            e
        } else {
            paren_close(l, e)
        }
    }
}

/// The first index `>= k` holding `"` (or `l.len()`).
pub open spec fn quote_at(l: Seq<char>, k: int) -> int
    decreases l.len() - k,
{
    if k >= l.len() || l[k] == '"' {
        k
    } else {
        quote_at(l, k + 1)
    }
}

/// Where the text that the word `l[j..e]` begins is copied up to: a `\`
/// comment runs to the end of the line, a `( … )` comment to its closing word,
/// an `s" … "` or `." … "` string to the word holding its closing quote (or to
/// the end of the line, unclosed); any other word is just itself.
pub open spec fn region_end(l: Seq<char>, j: int, e: int) -> int {
    let w = l.subrange(j, e);
    if w == "\\"@ {
        trim_end(l, l.len() as int)
    } else if w == "("@ {
        paren_close(l, e)
    } else if w == "s\""@ || w == ".\""@ {
        if quote_at(l, e) < l.len() {
            word_end(l, quote_at(l, e))
        } else {
            trim_end(l, l.len() as int)
        }
    } else {
        e
    }
}

pub proof fn lemma_trim_end(l: Seq<char>, k: int, m: int)
    requires
        0 < m <= k <= l.len(),
        !is_ws(l[m - 1]),
    ensures
        m <= trim_end(l, k) <= k,
    decreases k,
{
    if is_ws(l[k - 1]) {
        lemma_trim_end(l, k - 1, m);
    }
}

pub proof fn lemma_paren_close(l: Seq<char>, k: int)
    requires
        0 <= k <= l.len(),
    ensures
        k <= paren_close(l, k) <= l.len(),
    decreases l.len() - k,
{
    lemma_ws_end(l, k);
    let j = ws_end(l, k);
    if j < l.len() {
        lemma_word_end(l, j);
        let e = word_end(l, j);
        if l[e - 1] != ')' {
            lemma_paren_close(l, e);
        }
    }
}

pub proof fn lemma_quote_at(l: Seq<char>, k: int)
    requires
        0 <= k,
    ensures
        k <= quote_at(l, k),
        k <= l.len() ==> quote_at(l, k) <= l.len(),
        quote_at(l, k) < l.len() ==> l[quote_at(l, k)] == '"',
    decreases l.len() - k,
{
    if k < l.len() && l[k] != '"' {
        lemma_quote_at(l, k + 1);
    }
}

/// A region begun by a word ends at or after the word, inside the line.
pub proof fn lemma_region_end(l: Seq<char>, j: int)
    requires
        0 <= j < l.len(),
        !is_ws(l[j]),
    ensures
        j < word_end(l, j) <= region_end(l, j, word_end(l, j)) <= l.len(),
{
    lemma_word_end(l, j);
    let e = word_end(l, j);
    lemma_trim_end(l, l.len() as int, e);
    lemma_paren_close(l, e);
    lemma_quote_at(l, e);
    if quote_at(l, e) < l.len() {
        lemma_word_end(l, quote_at(l, e));
    }
}

/// The text of line `l` from index `i` on as the formatter writes it: words
/// single-spaced, comments and strings copied as they stand.
pub open spec fn body_from(l: Seq<char>, i: int, first: bool) -> Seq<char>
    decreases l.len() - i,
    when 0 <= i
{
    let j = ws_end(l, i);
    if j >= l.len() {
        seq![]
    } else {
        proof {
            lemma_ws_end(l, i);
            lemma_region_end(l, j);
        }
        let r = region_end(l, j, word_end(l, j));
        (if first {
            Seq::<char>::empty()
        } else {
            seq![' ']
        }) + l.subrange(j, r) + body_from(l, r, false)
    }
}

/// The formatted text of one source line at `depth`, and the depth after it.
pub open spec fn fmt_line(raw: Seq<char>, depth: int) -> (Seq<char>, int) {
    let ws = words_from(raw, 0);
    if ws.len() == 0 {
        (seq!['\n'], depth)
    } else {
        let first = ws[0];
        let td = if closes_word(first) || dedent_word(first) {
            if depth - 1 > 0 {
                depth - 1
            } else {
                0
            }
        } else {
            depth
        };
        let d2 = depth_scan(ws, 0, depth, false);
        (indent(td) + body_from(raw, 0, true) + seq!['\n'], if d2 > 0 {
            d2
        } else {
            0
        })
    }
}

/// First `'\n'` at index `>= i` (or `s.len()`).
pub open spec fn next_nl(s: Seq<char>, i: int) -> int
    decreases s.len() - i,
{
    if i >= s.len() || s[i] == '\n' {
        i
    } else {
        next_nl(s, i + 1)
    }
}

pub proof fn lemma_next_nl(s: Seq<char>, i: int)
    requires
        0 <= i <= s.len(),
    ensures
        i <= next_nl(s, i) <= s.len(),
        next_nl(s, i) < s.len() ==> s[next_nl(s, i)] == '\n',
        forall|k: int| i <= k < next_nl(s, i) ==> #[trigger] s[k] != '\n',
    decreases s.len() - i,
{
    if i < s.len() && s[i] != '\n' {
        lemma_next_nl(s, i + 1);
    }
}

/// The formatted text of the lines starting at `i`, entered at `depth`.
pub open spec fn fmt_from(src: Seq<char>, i: int, depth: int) -> Seq<char>
    decreases src.len() - i,
    when 0 <= i <= src.len()
{
    let e = next_nl(src, i);
    proof {
        lemma_next_nl(src, i);
    }
    let (piece, d2) = fmt_line(src.subrange(i, e), depth);
    if e >= src.len() {
        piece
    } else {
        piece + fmt_from(src, e + 1, d2)
    }
}

/// The formatter: every line re-indented by structural depth (two spaces per
/// level), the words between comments and strings single-spaced, the text of
/// `( … )` and `\` comments and of `s" … "` strings kept as it stands, blank
/// lines kept, one trailing newline dropped.
pub open spec fn format_spec(src: Seq<char>) -> Seq<char> {
    let o = fmt_from(src, 0, 0);
    if o.len() > 0 && o.last() == '\n' {
        o.drop_last()
    } else {
        o
    }
}

/// Each of `:` `if` `begin` `do` `?do` `case` `of` `[if]` opens a level: a line
/// made of one of them leaves the depth one deeper than it found it, so the
/// lines after it are indented two more spaces.
pub proof fn lemma_openers_open(raw: Seq<char>, w: Seq<char>, d: int)
    requires
        d >= 0,
        words_from(raw, 0) == seq![w],
        w == "begin"@ || w == ":"@ || w == "if"@ || w == "do"@ || w == "?do"@ || w == "case"@
            || w == "of"@ || w == "[if]"@,
    ensures
        fmt_line(raw, d).1 == d + 1,
{
    reveal_strlit(":");
    reveal_strlit("if");
    reveal_strlit("begin");
    reveal_strlit("do");
    reveal_strlit("?do");
    reveal_strlit("case");
    reveal_strlit("of");
    reveal_strlit("[if]");
    reveal_strlit(";");
    reveal_strlit("then");
    reveal_strlit("loop");
    reveal_strlit("+loop");
    reveal_strlit("repeat");
    reveal_strlit("until");
    reveal_strlit("again");
    reveal_strlit("endcase");
    reveal_strlit("endof");
    reveal_strlit("[then]");
    reveal_strlit("else");
    reveal_strlit("while");
    reveal_strlit("[else]");
    reveal_strlit("(");
    reveal_strlit("\\");
    assert(":"@[0] == ':');
    assert("if"@[0] == 'i');
    assert("begin"@[0] == 'b');
    assert("do"@[0] == 'd');
    assert("?do"@[0] == '?');
    assert("case"@[0] == 'c');
    assert("of"@[0] == 'o');
    assert("[if]"@[0] == '[');
    assert(";"@[0] == ';');
    assert("then"@[0] == 't');
    assert("loop"@[0] == 'l');
    assert("+loop"@[0] == '+');
    assert("repeat"@[0] == 'r');
    assert("until"@[0] == 'u');
    assert("again"@[0] == 'a');
    assert("endcase"@[0] == 'e');
    assert("endof"@[0] == 'e');
    assert("[then]"@[0] == '[');
    assert("else"@[0] == 'e');
    assert("while"@[0] == 'w');
    assert("[else]"@[0] == '[');
    assert("("@[0] == '(');
    assert("\\"@[0] == '\\');
    assert(":"@.len() == 1);
    assert("if"@.len() == 2);
    assert("begin"@.len() == 5);
    assert("do"@.len() == 2);
    assert("?do"@.len() == 3);
    assert("case"@.len() == 4);
    assert("of"@.len() == 2);
    assert("[if]"@.len() == 4);
    assert(";"@.len() == 1);
    assert("then"@.len() == 4);
    assert("loop"@.len() == 4);
    assert("+loop"@.len() == 5);
    assert("repeat"@.len() == 6);
    assert("until"@.len() == 5);
    assert("again"@.len() == 5);
    assert("endcase"@.len() == 7);
    assert("endof"@.len() == 5);
    assert("[then]"@.len() == 6);
    assert("else"@.len() == 4);
    assert("while"@.len() == 5);
    assert("[else]"@.len() == 6);
    assert("("@.len() == 1);
    let ws = seq![w];
    assert(w != "("@ && w != "\\"@);
    assert(opens_word(w));
    assert(depth_scan(ws, 1, d + 1, false) == d + 1);
    assert(depth_scan(ws, 0, d, false) == d + 1);
}

/// Each of `;` `then` `loop` `+loop` `repeat` `until` `again` `endcase` `endof`
/// `[then]` closes a level: a line made of one of them, met one level deep, is
/// written at the level it returns to and leaves the depth there.
pub proof fn lemma_closers_close(raw: Seq<char>, w: Seq<char>, d: int)
    requires
        d >= 0,
        words_from(raw, 0) == seq![w],
        w == ";"@ || w == "then"@ || w == "loop"@ || w == "+loop"@ || w == "repeat"@ || w
            == "until"@ || w == "again"@ || w == "endcase"@ || w == "endof"@ || w == "[then]"@,
    ensures
        fmt_line(raw, d + 1).1 == d,
        fmt_line(raw, d + 1).0 == indent(d) + body_from(raw, 0, true) + seq!['\n'],
{
    reveal_strlit(":");
    reveal_strlit("if");
    reveal_strlit("begin");
    reveal_strlit("do");
    reveal_strlit("?do");
    reveal_strlit("case");
    reveal_strlit("of");
    reveal_strlit("[if]");
    reveal_strlit(";");
    reveal_strlit("then");
    reveal_strlit("loop");
    reveal_strlit("+loop");
    reveal_strlit("repeat");
    reveal_strlit("until");
    reveal_strlit("again");
    reveal_strlit("endcase");
    reveal_strlit("endof");
    reveal_strlit("[then]");
    reveal_strlit("else");
    reveal_strlit("while");
    reveal_strlit("[else]");
    reveal_strlit("(");
    reveal_strlit("\\");
    assert(":"@[0] == ':');
    assert("if"@[0] == 'i');
    assert("begin"@[0] == 'b');
    assert("do"@[0] == 'd');
    assert("?do"@[0] == '?');
    assert("case"@[0] == 'c');
    assert("of"@[0] == 'o');
    assert("[if]"@[0] == '[');
    assert(";"@[0] == ';');
    assert("then"@[0] == 't');
    assert("loop"@[0] == 'l');
    assert("+loop"@[0] == '+');
    assert("repeat"@[0] == 'r');
    assert("until"@[0] == 'u');
    assert("again"@[0] == 'a');
    assert("endcase"@[0] == 'e');
    assert("endof"@[0] == 'e');
    assert("[then]"@[0] == '[');
    assert("else"@[0] == 'e');
    assert("while"@[0] == 'w');
    assert("[else]"@[0] == '[');
    assert("("@[0] == '(');
    assert("\\"@[0] == '\\');
    assert(":"@.len() == 1);
    assert("if"@.len() == 2);
    assert("begin"@.len() == 5);
    assert("do"@.len() == 2);
    assert("?do"@.len() == 3);
    assert("case"@.len() == 4);
    assert("of"@.len() == 2);
    assert("[if]"@.len() == 4);
    assert(";"@.len() == 1);
    assert("then"@.len() == 4);
    assert("loop"@.len() == 4);
    assert("+loop"@.len() == 5);
    assert("repeat"@.len() == 6);
    assert("until"@.len() == 5);
    assert("again"@.len() == 5);
    assert("endcase"@.len() == 7);
    assert("endof"@.len() == 5);
    assert("[then]"@.len() == 6);
    assert("else"@.len() == 4);
    assert("while"@.len() == 5);
    assert("[else]"@.len() == 6);
    assert("("@.len() == 1);
    let ws = seq![w];
    assert(w != "("@ && w != "\\"@);
    assert(!opens_word(w));
    assert(closes_word(w));
    assert(depth_scan(ws, 1, d, false) == d);
    assert(depth_scan(ws, 0, d + 1, false) == d);
}

/// Each of `else` `while` `[else]` steps out for its own line only: met one
/// level deep, its line is written at the outer level and the depth stays.
pub proof fn lemma_dedents_step_out(raw: Seq<char>, w: Seq<char>, d: int)
    requires
        d >= 0,
        words_from(raw, 0) == seq![w],
        w == "while"@ || w == "else"@ || w == "[else]"@,
    ensures
        fmt_line(raw, d + 1).1 == d + 1,
        fmt_line(raw, d + 1).0 == indent(d) + body_from(raw, 0, true) + seq!['\n'],
{
    reveal_strlit(":");
    reveal_strlit("if");
    reveal_strlit("begin");
    reveal_strlit("do");
    reveal_strlit("?do");
    reveal_strlit("case");
    reveal_strlit("of");
    reveal_strlit("[if]");
    reveal_strlit(";");
    reveal_strlit("then");
    reveal_strlit("loop");
    reveal_strlit("+loop");
    reveal_strlit("repeat");
    reveal_strlit("until");
    reveal_strlit("again");
    reveal_strlit("endcase");
    reveal_strlit("endof");
    reveal_strlit("[then]");
    reveal_strlit("else");
    reveal_strlit("while");
    reveal_strlit("[else]");
    reveal_strlit("(");
    reveal_strlit("\\");
    assert(":"@[0] == ':');
    assert("if"@[0] == 'i');
    assert("begin"@[0] == 'b');
    assert("do"@[0] == 'd');
    assert("?do"@[0] == '?');
    assert("case"@[0] == 'c');
    assert("of"@[0] == 'o');
    assert("[if]"@[0] == '[');
    assert(";"@[0] == ';');
    assert("then"@[0] == 't');
    assert("loop"@[0] == 'l');
    assert("+loop"@[0] == '+');
    assert("repeat"@[0] == 'r');
    assert("until"@[0] == 'u');
    assert("again"@[0] == 'a');
    assert("endcase"@[0] == 'e');
    assert("endof"@[0] == 'e');
    assert("[then]"@[0] == '[');
    assert("else"@[0] == 'e');
    assert("while"@[0] == 'w');
    assert("[else]"@[0] == '[');
    assert("("@[0] == '(');
    assert("\\"@[0] == '\\');
    assert(":"@.len() == 1);
    assert("if"@.len() == 2);
    assert("begin"@.len() == 5);
    assert("do"@.len() == 2);
    assert("?do"@.len() == 3);
    assert("case"@.len() == 4);
    assert("of"@.len() == 2);
    assert("[if]"@.len() == 4);
    assert(";"@.len() == 1);
    assert("then"@.len() == 4);
    assert("loop"@.len() == 4);
    assert("+loop"@.len() == 5);
    assert("repeat"@.len() == 6);
    assert("until"@.len() == 5);
    assert("again"@.len() == 5);
    assert("endcase"@.len() == 7);
    assert("endof"@.len() == 5);
    assert("[then]"@.len() == 6);
    assert("else"@.len() == 4);
    assert("while"@.len() == 5);
    assert("[else]"@.len() == 6);
    assert("("@.len() == 1);
    let ws = seq![w];
    assert(w != "("@ && w != "\\"@);
    assert(!opens_word(w));
    assert("[else]"@[1] == 'e' && "[then]"@[1] == 't');
    assert(!closes_word(w));
    assert(dedent_word(w));
    assert(depth_scan(ws, 1, d + 1, false) == d + 1);
    assert(depth_scan(ws, 0, d + 1, false) == d + 1);
}

/// The number of line breaks in `s`.
pub open spec fn nl_count(s: Seq<char>) -> nat
    decreases s.len(),
{
    if s.len() == 0 {
        0
    } else {
        nl_count(s.drop_last()) + if s.last() == '\n' {
            1nat
        } else {
            0nat
        }
    }
}

proof fn lemma_nl_count_add(a: Seq<char>, b: Seq<char>)
    ensures
        nl_count(a + b) == nl_count(a) + nl_count(b),
    decreases b.len(),
{
    if b.len() == 0 {
        assert(a + b =~= a);
    } else {
        assert((a + b).drop_last() =~= a + b.drop_last());
        lemma_nl_count_add(a, b.drop_last());
    }
}

proof fn lemma_nl_one()
    ensures
        nl_count(seq!['\n']) == 1,
{
    assert(seq!['\n'].drop_last() =~= Seq::<char>::empty());
    assert(nl_count(Seq::<char>::empty()) == 0);
    assert(seq!['\n'].last() == '\n');
}

proof fn lemma_nl_count_none(s: Seq<char>)
    requires
        forall|k: int| 0 <= k < s.len() ==> s[k] != '\n',
    ensures
        nl_count(s) == 0,
    decreases s.len(),
{
    if s.len() > 0 {
        lemma_nl_count_none(s.drop_last());
    }
}

proof fn lemma_body_no_nl(l: Seq<char>, i: int, first: bool)
    requires
        0 <= i <= l.len(),
        forall|k: int| 0 <= k < l.len() ==> l[k] != '\n',
    ensures
        nl_count(body_from(l, i, first)) == 0,
    decreases l.len() - i,
{
    lemma_ws_end(l, i);
    let j = ws_end(l, i);
    if j < l.len() {
        lemma_region_end(l, j);
        let r = region_end(l, j, word_end(l, j));
        let sep = if first {
            Seq::<char>::empty()
        } else {
            seq![' ']
        };
        lemma_body_no_nl(l, r, false);
        lemma_nl_count_none(sep);
        lemma_nl_count_none(l.subrange(j, r));
        lemma_nl_count_add(sep, l.subrange(j, r));
        lemma_nl_count_add(sep + l.subrange(j, r), body_from(l, r, false));
    }
}

/// A formatted line holds exactly one line break, at its end.
proof fn lemma_fmt_line_nl(raw: Seq<char>, depth: int)
    requires
        forall|k: int| 0 <= k < raw.len() ==> raw[k] != '\n',
    ensures
        nl_count(fmt_line(raw, depth).0) == 1,
        fmt_line(raw, depth).0.len() > 0,
        fmt_line(raw, depth).0.last() == '\n',
{
    let ws = words_from(raw, 0);
    if ws.len() == 0 {
        lemma_nl_one();
    } else {
        let first = ws[0];
        let td = if closes_word(first) || dedent_word(first) {
            if depth - 1 > 0 {
                depth - 1
            } else {
                0
            }
        } else {
            depth
        };
        let a = indent(td) + body_from(raw, 0, true);
        lemma_nl_count_none(indent(td));
        lemma_body_no_nl(raw, 0, true);
        lemma_nl_count_add(indent(td), body_from(raw, 0, true));
        assert((a + seq!['\n']).drop_last() =~= a);
        assert(fmt_line(raw, depth).0 == a + seq!['\n']);
    }
}

proof fn lemma_fmt_from_nl(src: Seq<char>, i: int, depth: int)
    requires
        0 <= i <= src.len(),
    ensures
        nl_count(fmt_from(src, i, depth)) == 1 + nl_count(src.subrange(i, src.len() as int)),
        fmt_from(src, i, depth).len() > 0,
        fmt_from(src, i, depth).last() == '\n',
    decreases src.len() - i,
{
    lemma_next_nl(src, i);
    let e = next_nl(src, i);
    let raw = src.subrange(i, e);
    lemma_fmt_line_nl(raw, depth);
    lemma_nl_count_none(raw);
    let (piece, d2) = fmt_line(raw, depth);
    if e >= src.len() {
        assert(src.subrange(i, src.len() as int) =~= raw);
    } else {
        lemma_fmt_from_nl(src, e + 1, d2);
        let rest = src.subrange(e + 1, src.len() as int);
        assert(src.subrange(i, src.len() as int) =~= raw + seq!['\n'] + rest);
        lemma_nl_count_add(raw + seq!['\n'], rest);
        lemma_nl_count_add(raw, seq!['\n']);
        lemma_nl_one();
        lemma_nl_count_add(piece, fmt_from(src, e + 1, d2));
    }
}

/// Formatting keeps the number of lines: the result has exactly as many line
/// breaks as the source.
pub proof fn lemma_format_keeps_lines(src: Seq<char>)
    ensures
        nl_count(format_spec(src)) == nl_count(src),
{
    lemma_fmt_from_nl(src, 0, 0);
    assert(src.subrange(0, src.len() as int) =~= src);
}

fn is_opens(w: &[char], s: usize, e: usize) -> (r: bool)
    requires
        s <= e <= w@.len(),
    ensures
        r == opens_word(w@.subrange(s as int, e as int)),
{
    span_is(w, s, e, ":") || span_is(w, s, e, "if") || span_is(w, s, e, "begin") || span_is(
        w,
        s,
        e,
        "do",
    ) || span_is(w, s, e, "?do") || span_is(w, s, e, "case") || span_is(w, s, e, "of")
        || span_is(w, s, e, "[if]")
}

fn is_closes(w: &[char], s: usize, e: usize) -> (r: bool)
    requires
        s <= e <= w@.len(),
    ensures
        r == closes_word(w@.subrange(s as int, e as int)),
{
    span_is(w, s, e, ";") || span_is(w, s, e, "then") || span_is(w, s, e, "loop") || span_is(
        w,
        s,
        e,
        "+loop",
    ) || span_is(w, s, e, "repeat") || span_is(w, s, e, "until") || span_is(w, s, e, "again")
        || span_is(w, s, e, "endcase") || span_is(w, s, e, "endof") || span_is(w, s, e, "[then]")
}

fn is_dedent(w: &[char], s: usize, e: usize) -> (r: bool)
    requires
        s <= e <= w@.len(),
    ensures
        r == dedent_word(w@.subrange(s as int, e as int)),
{
    span_is(w, s, e, "else") || span_is(w, s, e, "while") || span_is(w, s, e, "of") || span_is(
        w,
        s,
        e,
        "endof",
    ) || span_is(w, s, e, "[else]")
}

/// The words of `l` as `(start, end)` index pairs.
pub open spec fn pair_words(l: Seq<char>, ps: Seq<(usize, usize)>) -> Seq<Seq<char>> {
    ps.map_values(|p: (usize, usize)| l.subrange(p.0 as int, p.1 as int))
}

pub(crate) fn line_words(l: &[char]) -> (ps: Vec<(usize, usize)>)
    ensures
        pair_words(l@, ps@) == words_from(l@, 0),
        forall|k: int|
            0 <= k < ps@.len() ==> (#[trigger] ps@[k]).0 < ps@[k].1 <= l@.len(),
        ps@.len() <= l@.len(),
{
    let mut ps: Vec<(usize, usize)> = Vec::new();
    let mut i: usize = 0;
    while i < l.len()
        invariant
            i <= l@.len(),
            pair_words(l@, ps@) + words_from(l@, i as int) == words_from(l@, 0),
            forall|k: int|
                0 <= k < ps@.len() ==> (#[trigger] ps@[k]).0 < ps@[k].1 <= i,
            ps@.len() <= i,
        decreases l@.len() - i,
    {
        let j = ws_run_end(l, i);
        proof {
            lemma_ws_end(l@, i as int);
        }
        if j >= l.len() {
            assert(words_from(l@, i as int) == Seq::<Seq<char>>::empty());
            assert(pair_words(l@, ps@) =~= words_from(l@, 0));
            return ps;
        }
        let e = word_run_end(l, j);
        proof {
            lemma_word_end(l@, j as int);
        }
        let ghost before = ps@;
        ps.push((j, e));
        assert(pair_words(l@, ps@) =~= pair_words(l@, before).push(l@.subrange(j as int, e as int)));
        assert(pair_words(l@, ps@) + words_from(l@, e as int) =~= pair_words(l@, before)
            + words_from(l@, i as int));
        i = e;
    }
    assert(words_from(l@, i as int) == Seq::<Seq<char>>::empty());
    assert(pair_words(l@, ps@) =~= words_from(l@, 0));
    ps
}

pub proof fn lemma_depth_scan_bounds(ws: Seq<Seq<char>>, k: int, depth: int, in_comment: bool)
    requires
        0 <= k <= ws.len(),
    ensures
        depth - (ws.len() - k) <= depth_scan(ws, k, depth, in_comment) <= depth + (ws.len() - k),
    decreases ws.len() - k,
{
    if k < ws.len() {
        let closes_comment = ws[k].len() > 0 && ws[k].last() == ')';
        if in_comment {
            lemma_depth_scan_bounds(ws, k + 1, depth, !closes_comment);
        } else if ws[k] == "("@ {
            lemma_depth_scan_bounds(ws, k + 1, depth, true);
        } else if ws[k] == "\\"@ {
        } else if opens_word(ws[k]) {
            lemma_depth_scan_bounds(ws, k + 1, depth + 1, false);
        } else if closes_word(ws[k]) {
            lemma_depth_scan_bounds(ws, k + 1, depth - 1, false);
        } else {
            lemma_depth_scan_bounds(ws, k + 1, depth, false);
        }
    }
}

/// Append `l[s..e]` to `out`.
pub(crate) fn push_span(out: &mut Vec<char>, l: &[char], s: usize, e: usize)
    requires
        s <= e <= l@.len(),
    ensures
        final(out)@ == old(out)@ + l@.subrange(s as int, e as int),
{
    let mut k = s;
    while k < e
        invariant
            s <= k <= e <= l@.len(),
            out@ == old(out)@ + l@.subrange(s as int, k as int),
        decreases e - k,
    {
        out.push(l[k]);
        k = k + 1;
        assert(out@ =~= old(out)@ + l@.subrange(s as int, k as int));
    }
}

/// `trim_end(l, l.len())`: the line's length without trailing whitespace.
fn trimmed_len(l: &[char]) -> (k: usize)
    ensures
        k as int == trim_end(l@, l@.len() as int),
{
    let mut k = l.len();
    while k > 0 && is_whitespace(l[k - 1])
        invariant
            k <= l@.len(),
            trim_end(l@, l@.len() as int) == trim_end(l@, k as int),
        decreases k,
    {
        k = k - 1;
    }
    k
}

/// Where a `( … )` comment whose remaining words start at `from` ends.
fn paren_stop(l: &[char], from: usize) -> (r: usize)
    requires
        from <= l@.len(),
    ensures
        r as int == paren_close(l@, from as int),
{
    let mut k = from;
    loop
        invariant
            k <= l@.len(),
            paren_close(l@, k as int) == paren_close(l@, from as int),
        decreases l@.len() - k,
    {
        let j = ws_run_end(l, k);
        if j >= l.len() {
            return k;
        }
        proof {
            lemma_ws_end(l@, k as int);
            lemma_word_end(l@, j as int);
        }
        let e = word_run_end(l, j);
        if l[e - 1] == ')' {
            return e;
        }
        k = e;
    }
}

/// The first index at or after `from` holding `"` (or the length).
fn quote_from(l: &[char], from: usize) -> (q: usize)
    requires
        from <= l@.len(),
    ensures
        q as int == quote_at(l@, from as int),
{
    let mut q = from;
    while q < l.len() && l[q] != '"'
        invariant
            from <= q <= l@.len(),
            quote_at(l@, q as int) == quote_at(l@, from as int),
        decreases l@.len() - q,
    {
        q = q + 1;
    }
    q
}

/// `region_end(l, j, e)`.
fn region_stop(l: &[char], j: usize, e: usize) -> (r: usize)
    requires
        j <= e <= l@.len(),
    ensures
        r as int == region_end(l@, j as int, e as int),
{
    if span_is(l, j, e, "\\") {
        trimmed_len(l)
    } else if span_is(l, j, e, "(") {
        paren_stop(l, e)
    } else if span_is(l, j, e, "s\"") || span_is(l, j, e, ".\"") {
        let q = quote_from(l, e);
        if q < l.len() {
            word_run_end(l, q)
        } else {
            trimmed_len(l)
        }
    } else {
        e
    }
}

/// Format one line at `depth`, appending it; returns the depth after it.
fn format_line(line: &[char], depth: i32, out: &mut Vec<char>) -> (d2: i32)
    requires
        0 <= depth,
        depth + line@.len() < i32::MAX,
    ensures
        final(out)@ == old(out)@ + fmt_line(line@, depth as int).0,
        d2 as int == fmt_line(line@, depth as int).1,
        0 <= d2 <= depth + line@.len(),
{
    let ps = line_words(line);
    let ghost ws = words_from(line@, 0);
    if ps.len() == 0 {
        out.push('\n');
        return depth;
    }
    let (f0, f1) = ps[0];
    assert(ws[0] == line@.subrange(f0 as int, f1 as int));
    let td = if is_closes(line, f0, f1) || is_dedent(line, f0, f1) {
        if depth - 1 > 0 {
            depth - 1
        } else {
            0
        }
    } else {
        depth
    };
    let ghost start = out@;
    let mut t: i32 = 0;
    while t < td
        invariant
            0 <= t <= td,
            td <= depth,
            out@ == start + indent(t as int),
        decreases td - t,
    {
        out.push(' ');
        out.push(' ');
        t = t + 1;
        assert(out@ =~= start + indent(t as int));
    }
    let ghost base = out@;
    let mut i: usize = 0;
    let mut first = true;
    loop
        invariant_except_break
            i <= line@.len(),
            out@ + body_from(line@, i as int, first) == base + body_from(line@, 0, true),
        ensures
            out@ == base + body_from(line@, 0, true),
        decreases line@.len() - i,
    {
        let j = ws_run_end(line, i);
        if j >= line.len() {
            assert(body_from(line@, i as int, first) == Seq::<char>::empty());
            assert(out@ =~= base + body_from(line@, 0, true));
            break;
        }
        proof {
            lemma_ws_end(line@, i as int);
            lemma_region_end(line@, j as int);
        }
        let e = word_run_end(line, j);
        let r = region_stop(line, j, e);
        let ghost before = out@;
        if !first {
            out.push(' ');
        }
        push_span(out, line, j, r);
        assert(out@ + body_from(line@, r as int, false) =~= before + body_from(line@, i as int, first));
        i = r;
        first = false;
    }
    out.push('\n');
    // running depth across the line's words
    let mut d: i32 = depth;
    let mut in_comment = false;
    let mut j: usize = 0;
    let mut stop = false;
    proof {
        lemma_depth_scan_bounds(ws, 0, depth as int, false);
    }
    while j < ps.len() && !stop
        invariant
            j <= ps@.len(),
            stop ==> j < ps@.len() && ws[j as int] == "\\"@ && !in_comment,
            ps@.len() <= line@.len(),
            pair_words(line@, ps@) == ws,
            forall|q: int| 0 <= q < ps@.len() ==> (#[trigger] ps@[q]).0 < ps@[q].1 <= line@.len(),
            depth_scan(ws, j as int, d as int, in_comment) == depth_scan(ws, 0, depth as int, false),
            depth - j <= d <= depth + j,
            depth + line@.len() < i32::MAX,
            0 <= depth,
        decreases ps@.len() - j + (if stop {
            0int
        } else {
            1int
        }),
    {
        let (a, b) = ps[j];
        assert(ws[j as int] == line@.subrange(a as int, b as int));
        if in_comment {
            let closes_comment = line[b - 1] == ')';
            assert(ws[j as int].last() == line@[b - 1]);
            in_comment = !closes_comment;
        } else if span_is(line, a, b, "(") {
            in_comment = true;
        } else if span_is(line, a, b, "\\") {
            stop = true;
        } else if is_opens(line, a, b) {
            d = d + 1;
        } else if is_closes(line, a, b) {
            d = d - 1;
        }
        if !stop {
            j = j + 1;
        }
    }
    proof {
        reveal_strlit("\\");
        reveal_strlit("(");
        if stop {
            assert("\\"@[0] != "("@[0]);
            assert(ws[j as int] != "("@);
            assert(depth_scan(ws, j as int, d as int, in_comment) == d);
        } else {
            assert(j == ps@.len());
        }
    }
    assert(depth_scan(ws, j as int, d as int, in_comment) == d);
    proof {
        lemma_depth_scan_bounds(ws, 0, depth as int, false);
    }
    assert(out@ =~= old(out)@ + fmt_line(line@, depth as int).0);
    if d > 0 {
        d
    } else {
        0
    }
}

/// Basic Forth source formatter: re-indent each line by structural depth and
/// collapse runs of whitespace between words to a single space. Blank lines and
/// the interior of `( … )`/`\ …` comments and `s" … "` strings are left intact.
pub fn format_forth(src: &str) -> (r: String)
    requires
        src@.len() < i32::MAX,
    ensures
        r@ == format_spec(src@),
        nl_count(r@) == nl_count(src@),
{
    let c = chars_of(src);
    let n = c.len();
    let mut out: Vec<char> = Vec::new();
    let mut i: usize = 0;
    let mut depth: i32 = 0;
    loop
        invariant_except_break
            c@ == src@,
            n == c@.len(),
            n < i32::MAX,
            i <= n,
            0 <= depth <= i,
            out@ + fmt_from(c@, i as int, depth as int) == fmt_from(c@, 0, 0),
        ensures
            out@ == fmt_from(c@, 0, 0),
            c@ == src@,
        decreases n - i,
    {
        let mut e = i;
        while e < n && c[e] != '\n'
            invariant
                i <= e <= n,
                n == c@.len(),
                next_nl(c@, i as int) == next_nl(c@, e as int),
            decreases n - e,
        {
            e = e + 1;
        }
        proof {
            lemma_next_nl(c@, i as int);
        }
        let mut line: Vec<char> = Vec::new();
        push_span(&mut line, c.as_slice(), i, e);
        assert(line@ =~= c@.subrange(i as int, e as int));
        let ghost before = out@;
        let d2 = format_line(line.as_slice(), depth, &mut out);
        assert(fmt_line(c@.subrange(i as int, e as int), depth as int).0 == out@.subrange(
            before.len() as int,
            out@.len() as int,
        ));
        if e >= n {
            assert(fmt_from(c@, i as int, depth as int) == fmt_line(
                c@.subrange(i as int, e as int),
                depth as int,
            ).0);
            assert(out@ =~= before + fmt_from(c@, i as int, depth as int));
            break;
        }
        assert(out@ + fmt_from(c@, (e + 1) as int, d2 as int) == before + fmt_from(
            c@,
            i as int,
            depth as int,
        ));
        i = e + 1;
        depth = d2;
    }
    let ghost o = out@;
    if out.len() > 0 && out[out.len() - 1] == '\n' {
        out.pop();
        assert(out@ =~= o.drop_last());
    }
    assert(out@ == format_spec(src@));
    proof {
        lemma_format_keeps_lines(src@);
    }
    assert(out@.subrange(0, out@.len() as int) =~= out@);
    string_of(out.as_slice(), 0, out.len())
}

// ── The text model ────────────────────────────────────────────────────────
/// Number of `'\n'` in `t[0..k]` — the row of offset `k`.
pub open spec fn row_at(t: Seq<char>, k: int) -> nat
    decreases k,
{
    if k <= 0 {
        0
    } else {
        row_at(t, k - 1) + if t[k - 1] == '\n' {
            1nat
        } else {
            0nat
        }
    }
}

/// Start offset of the line containing offset `k`.
pub open spec fn bol_at(t: Seq<char>, k: int) -> int
    decreases k,
{
    if k <= 0 {
        0
    } else if t[k - 1] == '\n' {
        k
    } else {
        bol_at(t, k - 1)
    }
}

/// Lines in `t`: one more than its newlines.
pub open spec fn lines_in(t: Seq<char>) -> nat {
    row_at(t, t.len() as int) + 1
}

/// Start offset of line `row`, if `t` has that many lines.
pub open spec fn line_start(t: Seq<char>, row: nat) -> Option<int>
    decreases row,
{
    if row == 0 {
        Some(0)
    } else {
        match line_start(t, (row - 1) as nat) {
            Some(p) => {
                let e = next_nl(t, p);
                if e < t.len() {
                    Some(e + 1)
                } else {
                    None
                }
            },
            None => None,
        }
    }
}

/// The text of line `row` (without its newline); empty past the last line.
pub open spec fn line_text(t: Seq<char>, row: nat) -> Seq<char> {
    match line_start(t, row) {
        Some(s) => t.subrange(s, next_nl(t, s)),
        None => seq![],
    }
}

/// `(start, end)` of line `row`, `end` past its newline (if it has one).
pub open spec fn line_range(t: Seq<char>, row: nat) -> Option<(int, int)> {
    match line_start(t, row) {
        Some(s) => {
            let e = next_nl(t, s);
            Some((s, if e < t.len() {
                e + 1
            } else {
                t.len() as int
            }))
        },
        None => None,
    }
}

/// Offset of (`row`, `col`), the column clamped to the line's length.
pub open spec fn col_to_offset(t: Seq<char>, row: nat, col: nat) -> int {
    match line_start(t, row) {
        Some(s) => {
            let e = next_nl(t, s);
            if s + col <= e {
                s + col
            } else {
                e
            }
        },
        None => t.len() as int,
    }
}

pub proof fn lemma_line_start_bounds(t: Seq<char>, row: nat)
    ensures
        line_start(t, row) matches Some(s) ==> 0 <= s <= t.len() && row_at(t, s) == row,
    decreases row,
{
    if row > 0 {
        lemma_line_start_bounds(t, (row - 1) as nat);
        if let Some(p) = line_start(t, (row - 1) as nat) {
            lemma_next_nl(t, p);
            let e = next_nl(t, p);
            if e < t.len() {
                lemma_row_flat(t, p, e);
            }
        }
    }
}

/// No newline in `t[s..e]` keeps the row.
pub proof fn lemma_row_flat(t: Seq<char>, s: int, e: int)
    requires
        0 <= s <= e <= t.len(),
        forall|k: int| s <= k < e ==> #[trigger] t[k] != '\n',
    ensures
        row_at(t, e) == row_at(t, s),
    decreases e - s,
{
    if e > s {
        lemma_row_flat(t, s, e - 1);
    }
}

pub proof fn lemma_row_mono(t: Seq<char>, a: int, b: int)
    requires
        0 <= a <= b,
    ensures
        row_at(t, a) <= row_at(t, b),
    decreases b - a,
{
    if b > a {
        lemma_row_mono(t, a, b - 1);
    }
}

/// Line `row` exists exactly when `row < lines_in(t)`.
pub proof fn lemma_line_exists(t: Seq<char>, row: nat)
    ensures
        line_start(t, row) is Some <==> row < lines_in(t),
    decreases row,
{
    lemma_line_start_bounds(t, row);
    if let Some(s) = line_start(t, row) {
        lemma_row_mono(t, s, t.len() as int);
    }
    if row > 0 {
        lemma_line_exists(t, (row - 1) as nat);
        lemma_line_start_bounds(t, (row - 1) as nat);
        if let Some(p) = line_start(t, (row - 1) as nat) {
            lemma_next_nl(t, p);
            let e = next_nl(t, p);
            if e >= t.len() {
                lemma_row_flat(t, p, t.len() as int);
            }
        }
    }
}

/// The editor state.
pub struct Editor {
    buf: Vec<char>,
    caret: usize,  // code-point offset
    goal_col: usize,  // column vertical motion tries to keep
    pub top: usize,  // first visible line (scroll)
    pub path: Option<String>,
    pub dirty: bool,
}

impl Editor {
    /// The buffer's characters.
    pub closed spec fn chars(&self) -> Seq<char> {
        self.buf@
    }

    /// The caret offset.
    pub closed spec fn caret_at(&self) -> int {
        self.caret as int
    }

    /// The column vertical motion tries to keep.
    pub closed spec fn goal(&self) -> int {
        self.goal_col as int
    }

    /// The first visible line.
    pub closed spec fn top_row(&self) -> int {
        self.top as int
    }

    /// The file path, as characters.
    pub closed spec fn path_of(&self) -> Option<Seq<char>> {
        match self.path {
            Some(p) => Some(p@),
            None => None,
        }
    }

    /// Unsaved changes?
    pub closed spec fn is_dirty(&self) -> bool {
        self.dirty
    }

    /// The caret lies within the buffer (whose length leaves room to grow).
    pub open spec fn wf(&self) -> bool {
        0 <= self.caret_at() <= self.chars().len() && self.chars().len() < usize::MAX
    }

    /// The caret's (row, col).
    pub open spec fn cursor_of(&self) -> (int, int) {
        (row_at(self.chars(), self.caret_at()) as int, self.caret_at() - bol_at(
            self.chars(),
            self.caret_at(),
        ))
    }

    pub fn new() -> (e: Self)
        ensures
            e.wf(),
            e.chars() == Seq::<char>::empty(),
            e.caret_at() == 0,
            e.goal() == 0,
            e.top_row() == 0,
            e.path_of() is None,
            !e.is_dirty(),
    {
        Editor { buf: Vec::new(), caret: 0, goal_col: 0, top: 0, path: None, dirty: false }
    }

    // ── text ──
    pub fn text(&self) -> (s: String)
        ensures
            s@ == self.chars(),
    {
        string_of(self.buf.as_slice(), 0, self.buf.len())
    }

    pub fn set_text(&mut self, s: &str)
        requires
            old(self).wf(),
            s@.len() < usize::MAX,
        ensures
            final(self).wf(),
            final(self).chars() == s@,
            final(self).caret_at() == if old(self).caret_at() <= s@.len() {
                old(self).caret_at()
            } else {
                s@.len() as int
            },
            final(self).goal() == old(self).goal(),
            final(self).top_row() == old(self).top_row(),
            final(self).path_of() == old(self).path_of(),
            final(self).is_dirty() == old(self).is_dirty(),
    {
        self.buf = chars_of(s);
        if self.caret > self.buf.len() {
            self.caret = self.buf.len();
        }
    }

    pub fn line_count(&self) -> (n: usize)
        requires
            self.wf(),
        ensures
            n == lines_in(self.chars()),
    {
        let mut k: usize = 0;
        let mut n: usize = 0;
        while k < self.buf.len()
            invariant
                k <= self.buf@.len(),
                self.buf@.len() < usize::MAX,
                n == row_at(self.buf@, k as int),
                n <= k,
            decreases self.buf@.len() - k,
        {
            if self.buf[k] == '\n' {
                n = n + 1;
            }
            k = k + 1;
        }
        n + 1
    }

    /// Start offset of line `row` (None past the last line).
    fn start_of_line(&self, row: usize) -> (r: Option<usize>)
        requires
            self.wf(),
        ensures
            match r {
                Some(s) => line_start(self.chars(), row as nat) == Some(s as int),
                None => line_start(self.chars(), row as nat) is None,
            },
    {
        let mut s: usize = 0;
        let mut r: usize = 0;
        while r < row
            invariant
                r <= row,
                s <= self.buf@.len(),
                line_start(self.buf@, r as nat) == Some(s as int),
            decreases row - r,
        {
            let e = self.next_newline(s);
            if e >= self.buf.len() {
                proof {
                    lemma_none_stays(self.buf@, (r + 1) as nat, row as nat);
                }
                return None;
            }
            s = e + 1;
            r = r + 1;
        }
        Some(s)
    }

    fn next_newline(&self, i: usize) -> (e: usize)
        requires
            i <= self.buf@.len(),
        ensures
            e as int == next_nl(self.buf@, i as int),
            i <= e <= self.buf@.len(),
    {
        let mut e = i;
        while e < self.buf.len() && self.buf[e] != '\n'
            invariant
                i <= e <= self.buf@.len(),
                next_nl(self.buf@, i as int) == next_nl(self.buf@, e as int),
            decreases self.buf@.len() - e,
        {
            e = e + 1;
        }
        e
    }

    pub fn line(&self, row: usize) -> (s: String)
        requires
            self.wf(),
        ensures
            s@ == line_text(self.chars(), row as nat),
    {
        match self.start_of_line(row) {
            Some(st) => {
                proof {
                    lemma_line_start_bounds(self.buf@, row as nat);
                }
                let e = self.next_newline(st);
                string_of(self.buf.as_slice(), st, e)
            },
            None => String::new(),
        }
    }

    /// Cursor as (row, col), 0-based.
    pub fn cursor(&self) -> (rc: (usize, usize))
        requires
            self.wf(),
        ensures
            rc.0 as int == self.cursor_of().0,
            rc.1 as int == self.cursor_of().1,
    {
        let mut k: usize = 0;
        let mut row: usize = 0;
        let mut bol: usize = 0;
        while k < self.caret
            invariant
                k <= self.caret <= self.buf@.len(),
                row == row_at(self.buf@, k as int),
                bol == bol_at(self.buf@, k as int),
                row <= k,
                bol <= k,
            decreases self.caret - k,
        {
            if self.buf[k] == '\n' {
                row = row + 1;
                bol = k + 1;
            }
            k = k + 1;
        }
        (row, self.caret - bol)
    }
}

pub proof fn lemma_none_stays(t: Seq<char>, a: nat, b: nat)
    requires
        a <= b,
        line_start(t, (a - 1) as nat) matches Some(p) && a > 0 && next_nl(t, p) >= t.len(),
    ensures
        line_start(t, b) is None,
    decreases b - a,
{
    if b > a {
        lemma_none_stays(t, a, (b - 1) as nat);
    }
}

/// Start of the path segment ending at `end` (a run of non-`/`).
pub open spec fn seg_start(p: Seq<char>, end: int) -> int
    decreases end,
{
    if end <= 0 || p[end - 1] == '/' {
        end
    } else {
        seg_start(p, end - 1)
    }
}

pub proof fn lemma_seg_start(p: Seq<char>, end: int)
    requires
        0 <= end <= p.len(),
    ensures
        0 <= seg_start(p, end) <= end,
    decreases end,
{
    if end > 0 && p[end - 1] != '/' {
        lemma_seg_start(p, end - 1);
    }
}

/// The final component of the path `p[..end]` (trailing `/` and `.` components
/// skipped); none when the path is empty, a root, or ends in `..`.
pub open spec fn file_name_before(p: Seq<char>, end: int) -> Option<Seq<char>>
    decreases end,
    when 0 <= end <= p.len()
{
    if end <= 0 {
        None
    } else if p[end - 1] == '/' {
        file_name_before(p, end - 1)
    } else {
        let st = seg_start(p, end);
        proof {
            lemma_seg_start(p, end - 1);
        }
        let seg = p.subrange(st, end);
        if seg == "."@ {
            file_name_before(p, st)
        } else if seg == ".."@ {
            None
        } else {
            Some(seg)
        }
    }
}

/// The editor's title: the file name (or `untitled`), `" *"` when modified.
pub open spec fn label_of(path: Option<Seq<char>>, dirty: bool) -> Seq<char> {
    let name = match path {
        Some(p) => match file_name_before(p, p.len() as int) {
            Some(n) => n,
            None => "untitled"@,
        },
        None => "untitled"@,
    };
    if dirty {
        name + " *"@
    } else {
        name
    }
}

fn file_name_of(p: &[char]) -> (r: Option<(usize, usize)>)
    ensures
        match r {
            Some((a, b)) => a <= b <= p@.len() && file_name_before(p@, p@.len() as int) == Some(
                p@.subrange(a as int, b as int),
            ),
            None => file_name_before(p@, p@.len() as int) is None,
        },
{
    let mut end = p.len();
    loop
        invariant
            end <= p@.len(),
            file_name_before(p@, end as int) == file_name_before(p@, p@.len() as int),
        decreases end,
    {
        if end == 0 {
            return None;
        }
        if p[end - 1] == '/' {
            end = end - 1;
            continue;
        }
        let mut st = end - 1;
        while st > 0 && p[st - 1] != '/'
            invariant
                st < end <= p@.len(),
                seg_start(p@, end as int) == seg_start(p@, st as int),
            decreases st,
        {
            st = st - 1;
        }
        proof {
            lemma_seg_start(p@, end - 1);
        }
        assert(seg_start(p@, end as int) == st);
        if span_is(p, st, end, ".") {
            end = st;
            continue;
        }
        if span_is(p, st, end, "..") {
            return None;
        }
        return Some((st, end));
    }
}

/// Append the characters of `lit`.
pub(crate) fn push_str(out: &mut Vec<char>, lit: &str)
    ensures
        final(out)@ == old(out)@ + lit@,
{
    let cs = chars_of(lit);
    push_span(out, cs.as_slice(), 0, cs.len());
    assert(cs@.subrange(0, cs@.len() as int) =~= lit@);
}

impl Editor {
    /// The caret sits at `caret` with `goal` the caret's column.
    pub open spec fn goal_synced(&self) -> bool {
        self.goal() == self.cursor_of().1
    }

    fn sync_goal(&mut self)
        requires
            old(self).wf(),
        ensures
            final(self).wf(),
            final(self).chars() == old(self).chars(),
            final(self).caret_at() == old(self).caret_at(),
            final(self).goal_synced(),
            final(self).top_row() == old(self).top_row(),
            final(self).path_of() == old(self).path_of(),
            final(self).is_dirty() == old(self).is_dirty(),
    {
        let (_, col) = self.cursor();
        self.goal_col = col;
    }

    // ── file ops ──
    /// Start a fresh, untitled, unmodified buffer.
    pub fn new_file(&mut self)
        requires
            old(self).wf(),
        ensures
            final(self).wf(),
            final(self).chars() == Seq::<char>::empty(),
            final(self).caret_at() == 0,
            final(self).goal() == old(self).goal(),
            final(self).top_row() == 0,
            final(self).path_of() is None,
            !final(self).is_dirty(),
    {
        self.buf = Vec::new();
        self.caret = 0;
        self.top = 0;
        self.path = None;
        self.dirty = false;
    }

    /// Take in the `contents` read from `path`: the caret and the scroll go to
    /// the top, and the buffer is unmodified.
    pub fn load(&mut self, path: String, contents: &str)
        requires
            old(self).wf(),
            contents@.len() < usize::MAX,
        ensures
            final(self).wf(),
            final(self).chars() == contents@,
            final(self).caret_at() == 0,
            final(self).goal() == old(self).goal(),
            final(self).top_row() == 0,
            final(self).path_of() == Some(path@),
            !final(self).is_dirty(),
    {
        self.buf = chars_of(contents);
        self.caret = 0;
        self.top = 0;
        self.path = Some(path);
        self.dirty = false;
    }

    /// Point the editor at `path` (the caller then writes `text()` there and
    /// calls `mark_saved`).
    pub fn save_as(&mut self, path: String)
        requires
            old(self).wf(),
        ensures
            final(self).wf(),
            final(self).chars() == old(self).chars(),
            final(self).caret_at() == old(self).caret_at(),
            final(self).goal() == old(self).goal(),
            final(self).top_row() == old(self).top_row(),
            final(self).path_of() == Some(path@),
            final(self).is_dirty() == old(self).is_dirty(),
    {
        self.path = Some(path);
    }

    /// The buffer has been written to its file.
    pub fn mark_saved(&mut self)
        requires
            old(self).wf(),
        ensures
            final(self).wf(),
            final(self).chars() == old(self).chars(),
            final(self).caret_at() == old(self).caret_at(),
            final(self).goal() == old(self).goal(),
            final(self).top_row() == old(self).top_row(),
            final(self).path_of() == old(self).path_of(),
            !final(self).is_dirty(),
    {
        self.dirty = false;
    }

    pub fn file_label(&self) -> (s: String)
        ensures
            s@ == label_of(self.path_of(), self.is_dirty()),
    {
        let mut out: Vec<char> = Vec::new();
        match &self.path {
            Some(p) => {
                let pc = chars_of(p.as_str());
                match file_name_of(pc.as_slice()) {
                    Some((a, b)) => push_span(&mut out, pc.as_slice(), a, b),
                    None => push_str(&mut out, "untitled"),
                }
            },
            None => push_str(&mut out, "untitled"),
        }
        if self.dirty {
            push_str(&mut out, " *");
        }
        string_of(out.as_slice(), 0, out.len())
    }

    // ── editing ──
    pub fn insert_char(&mut self, c: char)
        requires
            old(self).wf(),
            old(self).chars().len() + 1 < usize::MAX,
        ensures
            final(self).wf(),
            final(self).chars() == old(self).chars().insert(old(self).caret_at(), c),
            final(self).caret_at() == old(self).caret_at() + 1,
            final(self).goal_synced(),
            final(self).top_row() == old(self).top_row(),
            final(self).path_of() == old(self).path_of(),
            final(self).is_dirty(),
    {
        self.buf.insert(self.caret, c);
        self.caret = self.caret + 1;
        self.sync_goal();
        self.dirty = true;
    }

    pub fn insert_str(&mut self, s: &str)
        requires
            old(self).wf(),
            old(self).chars().len() + s@.len() + 1 < usize::MAX,
        ensures
            final(self).wf(),
            final(self).chars() == old(self).chars().subrange(0, old(self).caret_at()) + s@
                + old(self).chars().subrange(old(self).caret_at(), old(self).chars().len() as int),
            final(self).caret_at() == old(self).caret_at() + s@.len(),
            s@.len() > 0 ==> final(self).goal_synced(),
            s@.len() == 0 ==> final(self).goal() == old(self).goal(),
            final(self).top_row() == old(self).top_row(),
            final(self).path_of() == old(self).path_of(),
            final(self).is_dirty() == (old(self).is_dirty() || s@.len() > 0),
    {
        let cs = chars_of(s);
        let ghost t0 = self.buf@;
        let ghost c0 = self.caret as int;
        let mut k: usize = 0;
        while k < cs.len()
            invariant
                cs@ == s@,
                k <= cs@.len(),
                self.wf(),
                t0.len() + s@.len() + 1 < usize::MAX,
                0 <= c0 <= t0.len(),
                self.chars() == t0.subrange(0, c0) + cs@.subrange(0, k as int) + t0.subrange(
                    c0,
                    t0.len() as int,
                ),
                self.caret_at() == c0 + k,
                k > 0 ==> self.goal_synced(),
                k == 0 ==> self.goal() == old(self).goal(),
                self.top_row() == old(self).top_row(),
                self.path_of() == old(self).path_of(),
                self.is_dirty() == (old(self).is_dirty() || k > 0),
            decreases cs@.len() - k,
        {
            self.insert_char(cs[k]);
            k = k + 1;
            assert(self.chars() =~= t0.subrange(0, c0) + cs@.subrange(0, k as int) + t0.subrange(
                c0,
                t0.len() as int,
            ));
        }
        assert(cs@.subrange(0, k as int) =~= s@);
    }

    pub fn newline(&mut self)
        requires
            old(self).wf(),
            old(self).chars().len() + 1 < usize::MAX,
        ensures
            final(self).wf(),
            final(self).chars() == old(self).chars().insert(old(self).caret_at(), '\n'),
            final(self).caret_at() == old(self).caret_at() + 1,
            final(self).goal_synced(),
            final(self).top_row() == old(self).top_row(),
            final(self).path_of() == old(self).path_of(),
            final(self).is_dirty(),
    {
        self.insert_char('\n');
    }

    pub fn backspace(&mut self)
        requires
            old(self).wf(),
        ensures
            final(self).wf(),
            old(self).caret_at() > 0 ==> {
                &&& final(self).chars() == old(self).chars().remove(old(self).caret_at() - 1)
                &&& final(self).caret_at() == old(self).caret_at() - 1
                &&& final(self).goal_synced()
                &&& final(self).is_dirty()
            },
            old(self).caret_at() == 0 ==> {
                &&& final(self).chars() == old(self).chars()
                &&& final(self).caret_at() == 0
                &&& final(self).goal() == old(self).goal()
                &&& final(self).is_dirty() == old(self).is_dirty()
            },
            final(self).top_row() == old(self).top_row(),
            final(self).path_of() == old(self).path_of(),
    {
        if self.caret > 0 {
            self.buf.remove(self.caret - 1);
            self.caret = self.caret - 1;
            self.sync_goal();
            self.dirty = true;
        }
    }

    pub fn delete_forward(&mut self)
        requires
            old(self).wf(),
        ensures
            final(self).wf(),
            final(self).chars() == if old(self).caret_at() < old(self).chars().len() {
                old(self).chars().remove(old(self).caret_at())
            } else {
                old(self).chars()
            },
            final(self).is_dirty() == (old(self).is_dirty() || old(self).caret_at() < old(
                self,
            ).chars().len()),
            final(self).caret_at() == old(self).caret_at(),
            final(self).goal() == old(self).goal(),
            final(self).top_row() == old(self).top_row(),
            final(self).path_of() == old(self).path_of(),
    {
        if self.caret < self.buf.len() {
            self.buf.remove(self.caret);
            self.dirty = true;
        }
    }

    // ── motion ──
    pub fn move_left(&mut self)
        requires
            old(self).wf(),
        ensures
            final(self).wf(),
            final(self).chars() == old(self).chars(),
            final(self).caret_at() == if old(self).caret_at() > 0 {
                old(self).caret_at() - 1
            } else {
                0
            },
            final(self).goal_synced(),
            final(self).top_row() == old(self).top_row(),
            final(self).path_of() == old(self).path_of(),
            final(self).is_dirty() == old(self).is_dirty(),
    {
        self.caret = if self.caret > 0 {
            self.caret - 1
        } else {
            0
        };
        self.sync_goal();
    }

    pub fn move_right(&mut self)
        requires
            old(self).wf(),
        ensures
            final(self).wf(),
            final(self).chars() == old(self).chars(),
            final(self).caret_at() == if old(self).caret_at() < old(self).chars().len() {
                old(self).caret_at() + 1
            } else {
                old(self).caret_at()
            },
            final(self).goal_synced(),
            final(self).top_row() == old(self).top_row(),
            final(self).path_of() == old(self).path_of(),
            final(self).is_dirty() == old(self).is_dirty(),
    {
        if self.caret < self.buf.len() {
            self.caret = self.caret + 1;
        }
        self.sync_goal();
    }

    /// Offset of (`row`, `col`) with `col` clamped to the line.
    fn line_col_to_offset(&self, row: usize, col: usize) -> (o: usize)
        requires
            self.wf(),
            (row as nat) < lines_in(self.chars()),
        ensures
            o as int == col_to_offset(self.chars(), row as nat, col as nat),
            o <= self.chars().len(),
    {
        proof {
            lemma_line_exists(self.buf@, row as nat);
        }
        let st = self.start_of_line(row).unwrap();
        proof {
            lemma_line_start_bounds(self.buf@, row as nat);
        }
        let e = self.next_newline(st);
        if col <= e - st {
            st + col
        } else {
            e
        }
    }

    pub fn move_up(&mut self)
        requires
            old(self).wf(),
        ensures
            final(self).wf(),
            final(self).chars() == old(self).chars(),
            final(self).caret_at() == if old(self).cursor_of().0 > 0 {
                col_to_offset(
                    old(self).chars(),
                    (old(self).cursor_of().0 - 1) as nat,
                    old(self).goal() as nat,
                )
            } else {
                old(self).caret_at()
            },
            final(self).goal() == old(self).goal(),
            final(self).top_row() == old(self).top_row(),
            final(self).path_of() == old(self).path_of(),
            final(self).is_dirty() == old(self).is_dirty(),
    {
        let (row, _) = self.cursor();
        if row > 0 {
            proof {
                lemma_row_mono(self.buf@, self.caret as int, self.buf@.len() as int);
            }
            self.caret = self.line_col_to_offset(row - 1, self.goal_col);
        }
    }

    pub fn move_down(&mut self)
        requires
            old(self).wf(),
        ensures
            final(self).wf(),
            final(self).chars() == old(self).chars(),
            final(self).caret_at() == if old(self).cursor_of().0 + 1 < lines_in(old(self).chars()) {
                col_to_offset(
                    old(self).chars(),
                    (old(self).cursor_of().0 + 1) as nat,
                    old(self).goal() as nat,
                )
            } else {
                old(self).caret_at()
            },
            final(self).goal() == old(self).goal(),
            final(self).top_row() == old(self).top_row(),
            final(self).path_of() == old(self).path_of(),
            final(self).is_dirty() == old(self).is_dirty(),
    {
        let (row, _) = self.cursor();
        proof {
            lemma_line_of_caret(self.buf@, self.caret as int);
        }
        let n = self.line_count();
        if row + 1 < n {
            self.caret = self.line_col_to_offset(row + 1, self.goal_col);
        }
    }

    pub fn home(&mut self)
        requires
            old(self).wf(),
        ensures
            final(self).wf(),
            final(self).chars() == old(self).chars(),
            final(self).caret_at() == bol_at(old(self).chars(), old(self).caret_at()),
            final(self).goal_synced(),
            final(self).top_row() == old(self).top_row(),
            final(self).path_of() == old(self).path_of(),
            final(self).is_dirty() == old(self).is_dirty(),
    {
        let (row, _) = self.cursor();
        proof {
            lemma_row_mono(self.buf@, self.caret as int, self.buf@.len() as int);
            lemma_line_exists(self.buf@, row as nat);
            lemma_line_of_caret(self.buf@, self.caret as int);
        }
        if let Some(st) = self.start_of_line(row) {
            self.caret = st;
        }
        self.sync_goal();
    }

    pub fn end(&mut self)
        requires
            old(self).wf(),
        ensures
            final(self).wf(),
            final(self).chars() == old(self).chars(),
            final(self).caret_at() == ({
                let t = old(self).chars();
                let e = next_nl(t, bol_at(t, old(self).caret_at()));
                let end = if e < t.len() {
                    e + 1
                } else {
                    t.len() as int
                };
                let nl = end > 0 && t[end - 1] == '\n';
                if nl {
                    end - 1
                } else {
                    end
                }
            }),
            final(self).goal_synced(),
            final(self).top_row() == old(self).top_row(),
            final(self).path_of() == old(self).path_of(),
            final(self).is_dirty() == old(self).is_dirty(),
    {
        let (row, _) = self.cursor();
        proof {
            lemma_row_mono(self.buf@, self.caret as int, self.buf@.len() as int);
            lemma_line_exists(self.buf@, row as nat);
            lemma_line_of_caret(self.buf@, self.caret as int);
        }
        if let Some(st) = self.start_of_line(row) {
            proof {
                lemma_line_start_bounds(self.buf@, row as nat);
            }
            let e = self.next_newline(st);
            let end = if e < self.buf.len() {
                e + 1
            } else {
                self.buf.len()
            };
            let nl = end > 0 && self.buf[end - 1] == '\n';
            self.caret = if nl && end > 0 {
                end - 1
            } else {
                end
            };
        }
        self.sync_goal();
    }

    /// Scroll so the caret row is within `[top, top+rows)`.
    pub fn ensure_visible(&mut self, rows: usize)
        requires
            old(self).wf(),
            old(self).top_row() + rows <= usize::MAX,
        ensures
            final(self).wf(),
            final(self).chars() == old(self).chars(),
            final(self).caret_at() == old(self).caret_at(),
            final(self).goal() == old(self).goal(),
            final(self).path_of() == old(self).path_of(),
            final(self).is_dirty() == old(self).is_dirty(),
            final(self).top_row() == ({
                let row = old(self).cursor_of().0;
                if row < old(self).top_row() {
                    row
                } else if rows > 0 && row >= old(self).top_row() + rows {
                    row + 1 - rows
                } else {
                    old(self).top_row()
                }
            }),
    {
        let (row, _) = self.cursor();
        proof {
            lemma_line_of_caret(self.buf@, self.caret as int);
        }
        if row < self.top {
            self.top = row;
        } else if rows > 0 && row >= self.top + rows {
            self.top = row + 1 - rows;
        }
    }

    /// Reindent + normalise spacing of the whole buffer; keeps the caret near
    /// where it was (clamped).
    /// Re-indent the buffer (a buffer whose formatted text would not fit in
    /// memory is left as it is).
    pub fn format(&mut self)
        requires
            old(self).wf(),
            old(self).chars().len() < i32::MAX,
        ensures
            final(self).wf(),
            format_spec(old(self).chars()).len() < usize::MAX ==> {
                &&& final(self).chars() == format_spec(old(self).chars())
                &&& final(self).caret_at() == if old(self).caret_at() <= format_spec(old(self).chars()).len() {
                    old(self).caret_at()
                } else {
                    format_spec(old(self).chars()).len() as int
                }
                &&& final(self).is_dirty()
            },
            format_spec(old(self).chars()).len() >= usize::MAX ==> {
                &&& final(self).chars() == old(self).chars()
                &&& final(self).caret_at() == old(self).caret_at()
                &&& final(self).is_dirty() == old(self).is_dirty()
            },
            final(self).goal() == old(self).goal(),
            final(self).top_row() == old(self).top_row(),
            final(self).path_of() == old(self).path_of(),
    {
        let t = self.text();
        let formatted = format_forth(t.as_str());
        let cs = chars_of(formatted.as_str());
        if cs.len() < usize::MAX {
            self.set_text(formatted.as_str());
            self.dirty = true;
        }
    }

    /// How many characters the buffer holds.
    pub fn char_count(&self) -> (n: usize)
        ensures
            n == self.chars().len(),
    {
        self.buf.len()
    }
}

/// The caret's line starts where its line begins.
pub proof fn lemma_line_of_caret(t: Seq<char>, k: int)
    requires
        0 <= k <= t.len(),
    ensures
        line_start(t, row_at(t, k)) == Some(bol_at(t, k)),
        0 <= bol_at(t, k) <= k,
        row_at(t, k) <= k,
        next_nl(t, bol_at(t, k)) >= k,
    decreases k,
{
    if k > 0 {
        lemma_line_of_caret(t, k - 1);
        lemma_next_nl(t, k);
        if t[k - 1] == '\n' {
            let p = bol_at(t, k - 1);
            lemma_next_nl(t, p);
            lemma_nl_skip(t, p, k - 1);
            assert(next_nl(t, p) == k - 1);
        } else {
            lemma_next_nl(t, bol_at(t, k - 1));
            lemma_nl_skip(t, bol_at(t, k - 1), k - 1);
        }
    } else {
        lemma_next_nl(t, 0);
    }
}

/// `next_nl` from `p` equals `next_nl` from any `q` with no newline in
/// `t[p..q]`.
pub proof fn lemma_nl_skip(t: Seq<char>, p: int, q: int)
    requires
        0 <= p <= q <= t.len(),
        forall|k: int| p <= k < q ==> #[trigger] t[k] != '\n',
    ensures
        next_nl(t, p) == next_nl(t, q),
    decreases q - p,
{
    if p < q {
        lemma_nl_skip(t, p + 1, q);
    }
}



/// Backspace undoes a typed character: inserting `c` at the caret `k` (which
/// then moves to `k + 1`) and deleting the character before the new caret gives
/// back the buffer as it was, with the caret where it was.
pub proof fn lemma_backspace_undoes_insert(t: Seq<char>, k: int, c: char)
    requires
        0 <= k <= t.len(),
    ensures
        t.insert(k, c).remove((k + 1) - 1) == t,
        (k + 1) - 1 == k,
{
    assert(t.insert(k, c).remove(k) =~= t);
}

} // verus!
