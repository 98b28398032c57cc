//! Key names as scripts write them (`Enter`, `Shift+Tab`, `Cmd+s`) and the
//! `(virtual_key, modifiers)` pairs the workspace's key events carry.
use vstd::prelude::*;
use crate::text::{chars_of, span_is};

verus! {

pub const MOD_SHIFT: u32 = 1;
pub const MOD_CTRL: u32 = 2;
pub const MOD_ALT: u32 = 4;
pub const MOD_CMD: u32 = 8;

/// `true` when `t` spells `lit` from position `i`, `n` characters long.
pub open spec fn spells(t: Seq<char>, i: int, n: int, lit: Seq<char>) -> bool {
    i + n <= t.len() && t.subrange(i, i + n) == lit
}

/// Strip the modifier prefixes at `i` (`Shift+`, `Ctrl+`/`Control+`, `Alt+`,
/// `Cmd+`/`Command+`), or-ing their bits into `acc`: the modifiers and where the
/// key name starts.
pub open spec fn strip_mods(t: Seq<char>, i: int, acc: u32) -> (u32, int)
    decreases t.len() - i,
{
    if i < 0 || i >= t.len() {
        (acc, i)
    } else if spells(t, i, 6, "Shift+"@) {
        strip_mods(t, i + 6, acc | MOD_SHIFT)
    } else if spells(t, i, 5, "Ctrl+"@) {
        strip_mods(t, i + 5, acc | MOD_CTRL)
    } else if spells(t, i, 8, "Control+"@) {
        strip_mods(t, i + 8, acc | MOD_CTRL)
    } else if spells(t, i, 4, "Alt+"@) {
        strip_mods(t, i + 4, acc | MOD_ALT)
    } else if spells(t, i, 4, "Cmd+"@) {
        strip_mods(t, i + 4, acc | MOD_CMD)
    } else if spells(t, i, 8, "Command+"@) {
        strip_mods(t, i + 8, acc | MOD_CMD)
    } else {
        (acc, i)
    }
}

/// ASCII letters upper-cased, every other character as it is.
pub open spec fn ascii_upper(c: char) -> u32 {
    if 'a' <= c <= 'z' {
        (c as u32 - 32) as u32
    } else {
        c as u32
    }
}

/// The virtual key a key name stands for.
pub open spec fn key_code(k: Seq<char>) -> Option<u32> {
    if k == "Enter"@ || k == "Return"@ {
        Some(0x0D)
    } else if k == "Backspace"@ {
        Some(0x08)
    } else if k == "Tab"@ {
        Some(0x09)
    } else if k == "Escape"@ {
        Some(0x1B)
    } else if k == "Left"@ {
        Some(0x25)
    } else if k == "Up"@ {
        Some(0x26)
    } else if k == "Right"@ {
        Some(0x27)
    } else if k == "Down"@ {
        Some(0x28)
    } else if k == "Home"@ {
        Some(0x24)
    } else if k == "End"@ {
        Some(0x23)
    } else if k == "Delete"@ {
        Some(0x2E)
    } else if k.len() == 1 {
        Some(ascii_upper(k[0]))
    } else {
        None
    }
}

/// A key name (with `Shift+`/`Ctrl+`/`Alt+`/`Cmd+` prefixes) as `(virtual_key, modifiers)`.
pub open spec fn key_of(name: Seq<char>) -> Option<(u32, u32)> {
    let (mods, at) = strip_mods(name, 0, 0);
    match key_code(name.skip(at)) {
        Some(vk) => Some((vk, mods)),
        None => None,
    }
}

/// `true` when `cs` spells `lit` (of `n` characters) from `i`.
fn spells_at(cs: &Vec<char>, i: usize, n: usize, lit: &str) -> (r: bool)
    requires
        i <= cs@.len(),
    ensures
        r == spells(cs@, i as int, n as int, lit@),
{
    if n <= cs.len() - i {
        span_is(cs.as_slice(), i, i + n, lit)
    } else {
        false
    }
}

/// `true` when the name from `i` on is exactly `lit`.
fn rest_is(cs: &Vec<char>, i: usize, lit: &str) -> (r: bool)
    requires
        i <= cs@.len(),
    ensures
        r == (cs@.skip(i as int) == lit@),
{
    let r = span_is(cs.as_slice(), i, cs.len(), lit);
    assert(cs@.subrange(i as int, cs@.len() as int) =~= cs@.skip(i as int));
    r
}

/// Map a key name (studio convention, with `Shift+`/`Ctrl+`/`Alt+`/`Cmd+`
/// prefixes) to a `(virtual_key, modifiers)` pair.
pub fn map_key(name: &str) -> (r: Option<(u32, u32)>)
    ensures
        r == key_of(name@),
{
    let cs = chars_of(name);
    let mut mods: u32 = 0;
    let mut i: usize = 0;
    loop
        invariant
            i <= cs@.len(),
            cs@ == name@,
            strip_mods(cs@, i as int, mods) == strip_mods(cs@, 0, 0),
        ensures
            strip_mods(cs@, i as int, mods) == (mods, i as int),
        decreases cs@.len() - i,
    {
        if i >= cs.len() {
            break;
        }
        if spells_at(&cs, i, 6, "Shift+") {
            mods = mods | MOD_SHIFT;
            i = i + 6;
        } else if spells_at(&cs, i, 5, "Ctrl+") {
            mods = mods | MOD_CTRL;
            i = i + 5;
        } else if spells_at(&cs, i, 8, "Control+") {
            mods = mods | MOD_CTRL;
            i = i + 8;
        } else if spells_at(&cs, i, 4, "Alt+") {
            mods = mods | MOD_ALT;
            i = i + 4;
        } else if spells_at(&cs, i, 4, "Cmd+") {
            mods = mods | MOD_CMD;
            i = i + 4;
        } else if spells_at(&cs, i, 8, "Command+") {
            mods = mods | MOD_CMD;
            i = i + 8;
        } else {
            break;
        }
    }
    let ghost k = cs@.skip(i as int);
    let vk: u32 = if rest_is(&cs, i, "Enter") || rest_is(&cs, i, "Return") {
        0x0D
    } else if rest_is(&cs, i, "Backspace") {
        0x08
    } else if rest_is(&cs, i, "Tab") {
        0x09
    } else if rest_is(&cs, i, "Escape") {
        0x1B
    } else if rest_is(&cs, i, "Left") {
        0x25
    } else if rest_is(&cs, i, "Up") {
        0x26
    } else if rest_is(&cs, i, "Right") {
        0x27
    } else if rest_is(&cs, i, "Down") {
        0x28
    } else if rest_is(&cs, i, "Home") {
        0x24
    } else if rest_is(&cs, i, "End") {
        0x23
    } else if rest_is(&cs, i, "Delete") {
        0x2E
    } else if cs.len() - i == 1 {
        let c = cs[i];
        if 'a' <= c && c <= 'z' {
            (c as u32) - 32
        } else {
            c as u32
        }
    } else {
        return None;
    };
    Some((vk, mods))
}

} // verus!
