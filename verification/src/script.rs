//! The checks a workspace script makes with `assert` and `assert-eq`, so that a
//! script doubles as a UI test: when a check passes, and the message it fails
//! with.
use vstd::prelude::*;
use crate::editor::push_str;
use crate::text::{span_is, string_of};

verus! {

/// A script value counts as true unless it is empty, `0` or `false`.
pub open spec fn truthy_spec(c: Seq<char>) -> bool {
    !(c.len() == 0 || c == "0"@ || c == "false"@)
}

/// Does the script value `c` count as true?
pub fn truthy(c: &str) -> (b: bool)
    ensures
        b == truthy_spec(c@),
{
    let cs = crate::text::chars_of(c);
    assert(cs@.subrange(0, cs@.len() as int) =~= cs@);
    !(cs.len() == 0 || span_is(cs.as_slice(), 0, cs.len(), "0") || span_is(
        cs.as_slice(),
        0,
        cs.len(),
        "false",
    ))
}

/// `assert cond ?msg?`: nothing when `cond` counts as true, else the failure
/// message `assert failed: msg`.
pub fn assert_failure(cond: &str, msg: &str) -> (r: Option<String>)
    ensures
        truthy_spec(cond@) ==> r is None,
        !truthy_spec(cond@) ==> (r matches Some(m) && m@ == "assert failed: "@ + msg@),
{
    if truthy(cond) {
        return None;
    }
    let mut out: Vec<char> = Vec::new();
    push_str(&mut out, "assert failed: ");
    push_str(&mut out, msg);
    Some(string_of(out.as_slice(), 0, out.len()))
}

/// `assert-eq got want ?msg?`: nothing when the two values are the same text,
/// else the failure message ``assert-eq failed: got `got` want `want` msg``.
pub fn assert_eq_failure(got: &str, want: &str, msg: &str) -> (r: Option<String>)
    ensures
        got@ == want@ ==> r is None,
        got@ != want@ ==> (r matches Some(m) && m@ == "assert-eq failed: got `"@ + got@ + "` want `"@
            + want@ + "` "@ + msg@),
{
    let g = crate::text::chars_of(got);
    if span_is(g.as_slice(), 0, g.len(), want) {
        assert(g@.subrange(0, g@.len() as int) =~= g@);
        return None;
    }
    assert(g@.subrange(0, g@.len() as int) =~= g@);
    let mut out: Vec<char> = Vec::new();
    push_str(&mut out, "assert-eq failed: got `");
    push_str(&mut out, got);
    push_str(&mut out, "` want `");
    push_str(&mut out, want);
    push_str(&mut out, "` ");
    push_str(&mut out, msg);
    Some(string_of(out.as_slice(), 0, out.len()))
}

} // verus!
