//! Forth integer literals: an optional `-`, an optional radix prefix (`0x`/`$`
//! hex, `0b`/`%` binary, `0o` octal), then digits in that radix (the session's
//! `base` when there is no prefix).
use vstd::prelude::*;
use crate::text::chars_of;

verus! {

/// The value of digit character `c` (`0-9`, then `a-z` / `A-Z` as 10..35); 36
/// for a character that is no digit in any radix.
pub open spec fn digit_of(c: char) -> int {
    if '0' <= c <= '9' {
        c as int - '0' as int
    } else if 'a' <= c <= 'z' {
        c as int - 'a' as int + 10
    } else if 'A' <= c <= 'Z' {
        c as int - 'A' as int + 10
    } else {
        36
    }
}

pub open spec fn all_digits(s: Seq<char>, radix: int) -> bool {
    forall|i: int| 0 <= i < s.len() ==> #[trigger] digit_of(s[i]) < radix
}

/// The number that digit string `s` spells in `radix`.
pub open spec fn digits_value(s: Seq<char>, radix: int) -> int
    decreases s.len(),
{
    if s.len() == 0 {
        0
    } else {
        digits_value(s.drop_last(), radix) * radix + digit_of(s.last())
    }
}

/// The integer `s` spells in `radix` as `i64::from_str_radix` reads it: an
/// optional `+` or `-`, then one or more digits of the radix, the value in range.
pub open spec fn radix_int(s: Seq<char>, radix: int) -> Option<i64> {
    let neg = s.len() > 0 && s[0] == '-';
    let body = if s.len() > 0 && (s[0] == '-' || s[0] == '+') {
        s.skip(1)
    } else {
        s
    };
    let v = if neg {
        -digits_value(body, radix)
    } else {
        digits_value(body, radix)
    };
    if body.len() == 0 || !all_digits(body, radix) || v < i64::MIN || v > i64::MAX {
        None
    } else {
        Some(v as i64)
    }
}

/// `true` when `t` holds the two characters `a b` at position `i`.
pub open spec fn has_pair(t: Seq<char>, i: int, a: char, b: char) -> bool {
    i + 2 <= t.len() && t[i] == a && t[i + 1] == b
}

/// `true` when `t` holds character `a` at position `i`.
pub open spec fn has_char(t: Seq<char>, i: int, a: char) -> bool {
    i + 1 <= t.len() && t[i] == a
}

/// `base` kept to the radixes digits can spell (2..=36).
pub open spec fn clamp_radix(base: u32) -> int {
    if base < 2 {
        2
    } else if base > 36 {
        36
    } else {
        base as int
    }
}

/// The radix a literal's prefix at `i` selects, and where its digits start.
pub open spec fn radix_prefix(t: Seq<char>, i: int, base: u32) -> (int, int) {
    if has_pair(t, i, '0', 'x') || has_pair(t, i, '0', 'X') {
        (16, i + 2)
    } else if has_char(t, i, '$') {
        (16, i + 1)
    } else if has_pair(t, i, '0', 'b') || has_pair(t, i, '0', 'B') {
        (2, i + 2)
    } else if has_char(t, i, '%') {
        (2, i + 1)
    } else if has_pair(t, i, '0', 'o') {
        (8, i + 2)
    } else {
        (clamp_radix(base), i)
    }
}

/// The Forth integer literal `t` in `base`: the magnitude as the radix reads it,
/// negated (two's complement, wrapping: `0 - mag`) after a leading `-`.
pub open spec fn forth_int(t: Seq<char>, base: u32) -> Option<i64> {
    let neg = t.len() > 0 && t[0] == '-';
    let start = if neg {
        1int
    } else {
        0int
    };
    let (radix, from) = radix_prefix(t, start, base);
    if from >= t.len() {
        None
    } else {
        match radix_int(t.skip(from), radix) {
            None => None,
            Some(mag) => Some(
                if neg {
                    0i64.wrapping_sub(mag)
                } else {
                    mag
                },
            ),
        }
    }
}

proof fn lemma_digits_nonneg(s: Seq<char>, radix: int)
    requires
        radix >= 2,
        all_digits(s, radix),
    ensures
        digits_value(s, radix) >= 0,
    decreases s.len(),
{
    if s.len() > 0 {
        let p = s.drop_last();
        assert(all_digits(p, radix)) by {
            assert forall|i: int| 0 <= i < p.len() implies #[trigger] digit_of(p[i]) < radix by {
                assert(p[i] == s[i]);
            }
        }
        lemma_digits_nonneg(p, radix);
        let v = digits_value(p, radix);
        assert(v * radix >= 0) by (nonlinear_arith)
            requires
                v >= 0,
                radix >= 2,
        ;
        assert(digit_of(s[s.len() - 1]) < radix);
    }
}

/// The digit value of `c` (36 for a non-digit).
fn digit_value(c: char) -> (d: u32)
    ensures
        d == digit_of(c),
{
    if '0' <= c && c <= '9' {
        (c as u32) - ('0' as u32)
    } else if 'a' <= c && c <= 'z' {
        (c as u32) - ('a' as u32) + 10
    } else if 'A' <= c && c <= 'Z' {
        (c as u32) - ('A' as u32) + 10
    } else {
        36
    }
}

/// `i64::from_str_radix` on the characters of `cs` from `from` on.
pub fn int_in_radix(cs: &Vec<char>, from: usize, radix: u32) -> (r: Option<i64>)
    requires
        from <= cs@.len(),
        2 <= radix <= 36,
    ensures
        r == radix_int(cs@.skip(from as int), radix as int),
{
    let ghost s = cs@.skip(from as int);
    let n = cs.len();
    let neg = from < n && cs[from] == '-';
    let start = if from < n && (cs[from] == '-' || cs[from] == '+') {
        from + 1
    } else {
        from
    };
    let ghost body = cs@.skip(start as int);
    assert(body =~= (if s.len() > 0 && (s[0] == '-' || s[0] == '+') {
        s.skip(1)
    } else {
        s
    }));
    if start == n {
        return None;
    }
    // The magnitude so far, or `over` once it exceeds any i64's.
    let limit: i128 = 0x8000_0000_0000_0000;
    let mut acc: i128 = 0;
    let mut over = false;
    let mut k: usize = start;
    while k < n
        invariant
            start <= k <= n,
            n == cs@.len(),
            from <= start,
            s == cs@.skip(from as int),
            body == (if s.len() > 0 && (s[0] == '-' || s[0] == '+') {
                s.skip(1)
            } else {
                s
            }),
            2 <= radix <= 36,
            body == cs@.skip(start as int),
            limit == 0x8000_0000_0000_0000i128,
            all_digits(body.take(k - start), radix as int),
            !over ==> 0 <= acc <= limit && acc == digits_value(body.take(k - start), radix as int),
            over ==> digits_value(body.take(k - start), radix as int) > limit,
        decreases n - k,
    {
        let d = digit_value(cs[k]);
        let ghost p = body.take(k - start);
        let ghost q = body.take(k - start + 1);
        proof {
            assert(q.drop_last() =~= p);
            assert(q.last() == cs@[k as int]);
        }
        if d >= radix {
            proof {
                assert(!all_digits(body, radix as int)) by {
                    assert(body[k - start] == cs@[k as int]);
                }
            }
            return None;
        }
        proof {
            assert(all_digits(q, radix as int)) by {
                assert forall|i: int| 0 <= i < q.len() implies #[trigger] digit_of(q[i]) < radix by {
                    if i < p.len() {
                        assert(q[i] == p[i]);
                    }
                }
            }
            lemma_digits_nonneg(p, radix as int);
            let v = digits_value(p, radix as int);
            assert(v * radix >= v) by (nonlinear_arith)
                requires
                    v >= 0,
                    radix >= 2,
            ;
        }
        if !over {
            assert(acc * (radix as i128) <= limit * 36) by (nonlinear_arith)
                requires
                    0 <= acc <= limit,
                    radix <= 36,
            ;
            let next = acc * (radix as i128) + (d as i128);
            if next > limit {
                over = true;
            } else {
                acc = next;
            }
        }
        k = k + 1;
    }
    proof {
        assert(body.take(n - start) =~= body);
    }
    if over {
        return None;
    }
    if neg {
        if acc > limit {
            None
        } else {
            Some((0 - acc) as i64)
        }
    } else if acc >= limit {
        None
    } else {
        Some(acc as i64)
    }
}

/// `true` when `cs` holds the two characters `a b` at `i`.
fn pair_at(cs: &Vec<char>, i: usize, a: char, b: char) -> (r: bool)
    ensures
        r == has_pair(cs@, i as int, a, b),
{
    i < cs.len() && i + 1 < cs.len() && cs[i] == a && cs[i + 1] == b
}

/// `true` when `cs` holds character `a` at `i`.
fn char_at(cs: &Vec<char>, i: usize, a: char) -> (r: bool)
    ensures
        r == has_char(cs@, i as int, a),
{
    i < cs.len() && cs[i] == a
}

/// Parse a Forth integer literal in `base` (2..=36), allowing a leading `-` and
/// explicit radix prefixes `0x`/`$` (hex), `0b`/`%` (binary), `0o` (octal).
pub fn parse_forth_int(tok: &str, base: u32) -> (r: Option<i64>)
    ensures
        r == forth_int(tok@, base),
{
    let cs = chars_of(tok);
    let neg = cs.len() > 0 && cs[0] == '-';
    let start: usize = if neg {
        1
    } else {
        0
    };
    let (radix, from): (u32, usize) = if pair_at(&cs, start, '0', 'x') || pair_at(
        &cs,
        start,
        '0',
        'X',
    ) {
        (16, start + 2)
    } else if char_at(&cs, start, '$') {
        (16, start + 1)
    } else if pair_at(&cs, start, '0', 'b') || pair_at(&cs, start, '0', 'B') {
        (2, start + 2)
    } else if char_at(&cs, start, '%') {
        (2, start + 1)
    } else if pair_at(&cs, start, '0', 'o') {
        (8, start + 2)
    } else {
        (
            if base < 2 {
                2
            } else if base > 36 {
                36
            } else {
                base
            },
            start,
        )
    };
    if from >= cs.len() {
        return None;
    }
    let mag = match int_in_radix(&cs, from, radix) {
        Some(v) => v,
        None => {
            return None;
        },
    };
    Some(
        if neg {
            0i64.wrapping_sub(mag)
        } else {
            mag
        },
    )
}

} // verus!
