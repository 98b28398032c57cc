use mf66::abi::{CALL_TMP, DSP, FORBIDDEN, FSP, FUSION_POOL, LP, PROMO_POOL, RP, UP};
use std::collections::HashSet;

/// No pool may contain a forbidden register, and the pools must be disjoint.
#[test]
fn pools_are_disjoint_and_avoid_forbidden() {
    let mut seen = HashSet::new();
    for &r in FUSION_POOL.iter().chain(PROMO_POOL.iter()).chain([DSP, UP, LP, FSP, RP].iter()) {
        assert!(!FORBIDDEN.contains(&r), "{r} is forbidden but in a pool/home");
        assert!(seen.insert(r), "{r} appears in two pools/homes");
    }
    // TOS=x0 and CALL_TMP=x16 are intentionally caller-saved and not pooled.
    assert!(FORBIDDEN.contains(&CALL_TMP), "x16 must be in the forbidden-for-pools set");
}
