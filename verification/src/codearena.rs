//! Placement in the executable code arena: how large the arena is made, and
//! where each committed body goes — 16-byte aligned, one after the other, and
//! refused when it would run past the end. Mapping the region and copying the
//! words in are the host's.
use vstd::prelude::*;

verus! {

/// `x` rounded up to a multiple of `m`.
pub open spec fn round_up(x: int, m: int) -> int {
    ((x + m - 1) / m) * m
}

/// The arena size for a request of `cap` bytes: rounded up to 64 KiB.
pub fn arena_size(cap: usize) -> (n: usize)
    requires
        cap + 0xFFFF <= usize::MAX,
    ensures
        n == round_up(cap as int, 0x10000),
{
    let x: usize = cap + 0xFFFF;
    let n: usize = x & !0xFFFFusize;
    assert(n == x - x % 0x10000) by (bit_vector)
        requires
            n == x & !0xFFFFusize,
    ;
    n
}

/// `x` rounded up to a multiple of 16.
fn align16(x: usize) -> (a: usize)
    requires
        x + 15 <= usize::MAX,
    ensures
        a == round_up(x as int, 16),
{
    let y: usize = x + 15;
    let a: usize = y & !15usize;
    assert(a == y - y % 16) by (bit_vector)
        requires
            a == y & !15usize,
    ;
    a
}

/// The bump cursor of a code arena of `cap` bytes: `cursor` bytes are in use.
pub struct ArenaCursor {
    cap: usize,
    cursor: usize,
}

impl ArenaCursor {
    /// The arena's size in bytes.
    pub closed spec fn cap_of(&self) -> int {
        self.cap as int
    }

    /// The bytes in use.
    pub closed spec fn cursor_of(&self) -> int {
        self.cursor as int
    }

    /// The cursor lies inside an arena no larger than an allocation can be.
    pub closed spec fn wf(&self) -> bool {
        self.cursor <= self.cap <= isize::MAX
    }

    /// An empty arena of `cap` bytes.
    pub fn new(cap: usize) -> (a: ArenaCursor)
        requires
            cap <= isize::MAX,
        ensures
            a.wf(),
            a.cap_of() == cap,
            a.cursor_of() == 0,
    {
        ArenaCursor { cap, cursor: 0 }
    }

    /// The arena's size in bytes.
    pub fn cap(&self) -> (n: usize)
        ensures
            n == self.cap_of(),
    {
        self.cap
    }

    /// Where the next body would start: the cursor rounded up to 16 bytes.
    pub fn next_start(&self) -> (s: usize)
        requires
            self.wf(),
        ensures
            s == round_up(self.cursor_of(), 16),
    {
        align16(self.cursor)
    }

    /// Place a body of `words` instruction words: its byte offset, 16-byte
    /// aligned after what is in use, and the cursor moves past it; None, with
    /// nothing changed, when it would run past the end of the arena.
    pub fn place(&mut self, words: usize) -> (r: Option<usize>)
        requires
            old(self).wf(),
            words * 4 <= isize::MAX,
        ensures
            final(self).wf(),
            final(self).cap_of() == old(self).cap_of(),
            ({
                let start = round_up(old(self).cursor_of(), 16);
                if start + 4 * words <= old(self).cap_of() {
                    r == Some(start as usize) && final(self).cursor_of() == start + 4 * words
                } else {
                    r is None && final(self).cursor_of() == old(self).cursor_of()
                }
            }),
    {
        let start = align16(self.cursor);
        let bytes = words * 4;
        if bytes > self.cap || start > self.cap - bytes {
            return None;
        }
        self.cursor = start + bytes;
        Some(start)
    }
}

/// Bodies placed one after another are 16-byte aligned, never overlap, and stay
/// inside the arena: each starts at or after the end of the one before.
pub proof fn lemma_placements_ordered(a: ArenaCursor, b: ArenaCursor, c: ArenaCursor, w1: usize, w2: usize, s1: usize, s2: usize)
    requires
        a.wf(),
        b.cap_of() == a.cap_of(),
        round_up(a.cursor_of(), 16) + 4 * w1 <= a.cap_of(),
        s1 == round_up(a.cursor_of(), 16),
        b.cursor_of() == s1 + 4 * w1,
        c.cap_of() == b.cap_of(),
        round_up(b.cursor_of(), 16) + 4 * w2 <= b.cap_of(),
        s2 == round_up(b.cursor_of(), 16),
        c.cursor_of() == s2 + 4 * w2,
    ensures
        s1 % 16 == 0,
        s2 % 16 == 0,
        s1 + 4 * w1 <= s2,
        s2 + 4 * w2 <= c.cap_of(),
{
    lemma_round_up16(a.cursor_of());
    lemma_round_up16(b.cursor_of());
}

/// Rounding up to 16 lands on a multiple of 16, at or after `x`.
proof fn lemma_round_up16(x: int)
    requires
        x >= 0,
    ensures
        round_up(x, 16) % 16 == 0,
        x <= round_up(x, 16) < x + 16,
{
    assert(((x + 15) / 16) * 16 % 16 == 0) by (nonlinear_arith);
    assert(x <= ((x + 15) / 16) * 16 < x + 16) by (nonlinear_arith)
        requires
            x >= 0,
    ;
}

} // verus!
