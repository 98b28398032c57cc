//! The lowerer's register discipline: no register is held by two places (two
//! virtual-stack entries, or an entry and a cached local), and every register
//! held is x0 or a pool register marked live — so an allocation, which takes an
//! unmarked pool register, never clobbers a value still needed. The same holds
//! of the float window (d8 and the d9–d15 pool).
use vstd::prelude::*;
use vstd::multiset::Multiset;
use crate::aenc::TOS;
use crate::aenc::{ldr_off_w, DSP};
use crate::lowering::{
    adjust_words, bump, canonical, first_free_from, free_cached, ffree, lc_find, lc_insert,
    lemma_alloc_in_pool, lemma_ensure_frame, lemma_fensure_frame, lemma_first_free,
    lemma_fpass_frame, lemma_pass1_frame, lemma_pass2_frame, m_alloc, m_bin, m_close_locals,
    m_copy_of, m_dup_bin, m_emit, m_emit_seq, m_ensure, m_falloc, m_falloc_plain, m_fbin,
    m_fensure, m_flit, m_fsettle, m_fstk, m_gp_temp, m_imm_bin, m_imm_bin_to, m_local_fetch,
    m_local_store, m_mem, m_open_locals, m_pass1, m_pick, m_pop, m_push, m_reserve, m_roll, m_run,
    m_freer, m_sel, m_settle, m_settle_data, m_spill_all, m_spill_locals, m_start, m_stk, m_to_reg,
    m_tos_to_x0, m_tok, mark, nfree, Cached, Loc, LowModel, FTOS, POOL_HI, POOL_LO,
};
use crate::opt::{Bin, Cmp, Mem, Metrics, Sel, Stk, Tok};

verus! {

broadcast use {vstd::seq_lib::group_to_multiset_ensures, vstd::multiset::group_multiset_axioms};

/// How many cache entries hold register `r`.
pub open spec fn cached_in(c: Seq<Cached>, r: u32) -> nat
    decreases c.len(),
{
    if c.len() == 0 {
        0
    } else {
        cached_in(c.drop_last(), r) + if c.last().1 == r {
            1nat
        } else {
            0nat
        }
    }
}

/// How many places hold register `r`: locations in `bag`, and cache entries.
pub open spec fn holders(bag: Multiset<Loc>, c: Seq<Cached>, r: u32) -> nat {
    bag.count(Loc::Reg(r)) + cached_in(c, r)
}

/// A register that may be held: x0, or a pool register marked live.
pub open spec fn live_ok(r: u32, used: Seq<bool>) -> bool {
    r == TOS || (POOL_LO <= r <= POOL_HI && used[r as int])
}

/// The data-side discipline for a bag of locations (the virtual stack plus any
/// values an operation holds in flight) and the local cache.
pub open spec fn disciplined(bag: Multiset<Loc>, used: Seq<bool>, c: Seq<Cached>) -> bool {
    &&& used.len() == 32
    &&& forall|r: u32|
        #![trigger holders(bag, c, r)]
        holders(bag, c, r) <= 1 && (holders(bag, c, r) >= 1 ==> live_ok(r, used))
}

/// The float-side discipline for a bag of d-registers.
pub open spec fn fdisciplined(fbag: Multiset<u32>, fused: Seq<bool>) -> bool {
    &&& fused.len() == 32
    &&& forall|r: u32|
        #![trigger fbag.count(r)]
        fbag.count(r) <= 1 && (fbag.count(r) >= 1 ==> (r == FTOS || (POOL_LO <= r <= POOL_HI
            && fused[r as int])))
}

/// The lowerer's state keeps the register discipline.
pub open spec fn register_discipline(s: LowModel) -> bool {
    &&& disciplined(s.vs.to_multiset(), s.used, s.lcache)
    &&& fdisciplined(s.fvs.to_multiset(), s.fused)
}

// ── toolkit ─────────────────────────────────────────────────────────────────
proof fn lemma_fresh(bag: Multiset<Loc>, used: Seq<bool>, c: Seq<Cached>, r: u32)
    requires
        disciplined(bag, used, c),
        POOL_LO <= r <= POOL_HI,
        !used[r as int],
    ensures
        holders(bag, c, r) == 0,
{
    assert(holders(bag, c, r) <= 1);
}

proof fn lemma_take(bag: Multiset<Loc>, used: Seq<bool>, c: Seq<Cached>, r: u32)
    requires
        disciplined(bag, used, c),
        POOL_LO <= r <= POOL_HI,
        holders(bag, c, r) == 0,
    ensures
        disciplined(bag.insert(Loc::Reg(r)), used.update(r as int, true), c),
        disciplined(bag, used.update(r as int, true), c),
{
    let b2 = bag.insert(Loc::Reg(r));
    let u2 = used.update(r as int, true);
    assert forall|x: u32| #![trigger holders(b2, c, x)]
        holders(b2, c, x) <= 1 && (holders(b2, c, x) >= 1 ==> live_ok(x, u2)) by {
        assert(holders(bag, c, x) <= 1);
    }
    assert forall|x: u32| #![trigger holders(bag, c, x)]
        holders(bag, c, x) <= 1 && (holders(bag, c, x) >= 1 ==> live_ok(x, u2)) by {
        assert(holders(bag, c, x) <= 1);
    }
}

proof fn lemma_release(bag: Multiset<Loc>, used: Seq<bool>, c: Seq<Cached>, r: u32)
    requires
        disciplined(bag, used, c),
        holders(bag, c, r) == 0,
    ensures
        disciplined(bag, mark(used, r, false), c),
{
    let u2 = mark(used, r, false);
    assert forall|x: u32| #![trigger holders(bag, c, x)]
        holders(bag, c, x) <= 1 && (holders(bag, c, x) >= 1 ==> live_ok(x, u2)) by {
        assert(holders(bag, c, x) <= 1);
    }
}

proof fn lemma_sub_bag(bag: Multiset<Loc>, b2: Multiset<Loc>, used: Seq<bool>, c: Seq<Cached>)
    requires
        disciplined(bag, used, c),
        b2.subset_of(bag),
    ensures
        disciplined(b2, used, c),
{
    assert forall|x: u32| #![trigger holders(b2, c, x)]
        holders(b2, c, x) <= 1 && (holders(b2, c, x) >= 1 ==> live_ok(x, used)) by {
        assert(holders(bag, c, x) <= 1);
        assert(b2.count(Loc::Reg(x)) <= bag.count(Loc::Reg(x)));
    }
}

proof fn lemma_add_const(bag: Multiset<Loc>, used: Seq<bool>, c: Seq<Cached>, n: i64)
    requires
        disciplined(bag, used, c),
    ensures
        disciplined(bag.insert(Loc::Const(n)), used, c),
{
    let b2 = bag.insert(Loc::Const(n));
    assert forall|x: u32| #![trigger holders(b2, c, x)]
        holders(b2, c, x) <= 1 && (holders(b2, c, x) >= 1 ==> live_ok(x, used)) by {
        assert(holders(bag, c, x) <= 1);
    }
}

/// An allocation takes a register no place holds, and keeps the discipline.
proof fn lemma_alloc_disc(s: LowModel, bag: Multiset<Loc>)
    requires
        disciplined(bag, s.used, s.lcache),
        m_alloc(s) is Some,
    ensures
        holders(bag, s.lcache, m_alloc(s)->Some_0.1) == 0,
        POOL_LO <= m_alloc(s)->Some_0.1 <= POOL_HI,
        disciplined(bag.insert(Loc::Reg(m_alloc(s)->Some_0.1)), m_alloc(s)->Some_0.0.used, s.lcache),
        disciplined(bag, m_alloc(s)->Some_0.0.used, s.lcache),
        m_alloc(s)->Some_0.0.lcache == s.lcache,
        m_alloc(s)->Some_0.0.vs == s.vs,
        m_alloc(s)->Some_0.0.fvs == s.fvs,
        m_alloc(s)->Some_0.0.fused == s.fused,
{
    lemma_alloc_in_pool(s);
    let r = m_alloc(s)->Some_0.1;
    let ff = crate::lowering::first_free_from(s.used, 9);
    crate::lowering::lemma_first_free(s.used, 9);
    assert(ff == r as int);
    assert(m_alloc(s)->Some_0.0.used == s.used.update(r as int, true));
    lemma_fresh(bag, s.used, s.lcache, r);
    lemma_take(bag, s.used, s.lcache, r);
}

// ── the float side ──────────────────────────────────────────────────────────
proof fn lemma_ftake(fbag: Multiset<u32>, fused: Seq<bool>, r: u32)
    requires
        fdisciplined(fbag, fused),
        POOL_LO <= r <= POOL_HI,
        !fused[r as int],
    ensures
        fbag.count(r) == 0,
        fdisciplined(fbag.insert(r), fused.update(r as int, true)),
        fdisciplined(fbag, fused.update(r as int, true)),
{
    assert(fbag.count(r) <= 1);
    let f2 = fused.update(r as int, true);
    assert forall|x: u32| #![trigger fbag.insert(r).count(x)]
        fbag.insert(r).count(x) <= 1 && (fbag.insert(r).count(x) >= 1 ==> (x == FTOS || (POOL_LO
            <= x <= POOL_HI && f2[x as int]))) by {
        assert(fbag.count(x) <= 1);
    }
    assert forall|x: u32| #![trigger fbag.count(x)]
        fbag.count(x) <= 1 && (fbag.count(x) >= 1 ==> (x == FTOS || (POOL_LO <= x <= POOL_HI
            && f2[x as int]))) by {
        assert(fbag.count(x) <= 1);
    }
}

proof fn lemma_frelease(fbag: Multiset<u32>, fused: Seq<bool>, r: u32)
    requires
        fdisciplined(fbag, fused),
        fbag.count(r) == 0,
    ensures
        fdisciplined(fbag, mark(fused, r, false)),
{
    let f2 = mark(fused, r, false);
    assert forall|x: u32| #![trigger fbag.count(x)]
        fbag.count(x) <= 1 && (fbag.count(x) >= 1 ==> (x == FTOS || (POOL_LO <= x <= POOL_HI
            && f2[x as int]))) by {
        assert(fbag.count(x) <= 1);
    }
}

proof fn lemma_fsub_bag(fbag: Multiset<u32>, f2: Multiset<u32>, fused: Seq<bool>)
    requires
        fdisciplined(fbag, fused),
        f2.subset_of(fbag),
    ensures
        fdisciplined(f2, fused),
{
    assert forall|x: u32| #![trigger f2.count(x)]
        f2.count(x) <= 1 && (f2.count(x) >= 1 ==> (x == FTOS || (POOL_LO <= x <= POOL_HI
            && fused[x as int]))) by {
        assert(fbag.count(x) <= 1);
    }
}

/// The canonical windows keep the discipline.
proof fn lemma_canonical_disc(s: LowModel)
    requires
        canonical(s),
    ensures
        register_discipline(s),
{
    let bag = s.vs.to_multiset();
    assert(bag =~= Multiset::<Loc>::empty().insert(Loc::Reg(TOS))) by {
        assert(s.vs =~= Seq::<Loc>::empty().push(Loc::Reg(TOS)));
    }
    assert forall|x: u32| #![trigger holders(bag, s.lcache, x)]
        holders(bag, s.lcache, x) <= 1 && (holders(bag, s.lcache, x) >= 1 ==> live_ok(x, s.used)) by {
    }
    let fbag = s.fvs.to_multiset();
    assert(fbag =~= Multiset::<u32>::empty().insert(FTOS)) by {
        assert(s.fvs =~= Seq::<u32>::empty().push(FTOS));
    }
    assert forall|x: u32| #![trigger fbag.count(x)]
        fbag.count(x) <= 1 && (fbag.count(x) >= 1 ==> (x == FTOS || (POOL_LO <= x <= POOL_HI
            && s.fused[x as int]))) by {
    }
}


// ── the window operations ───────────────────────────────────────────────────
proof fn lemma_ensure_disc(s: LowModel, n: int)
    requires
        register_discipline(s),
        m_ensure(s, n) is Some,
    ensures
        register_discipline(m_ensure(s, n)->Some_0),
    decreases n - s.vs.len(),
{
    if s.vs.len() < n {
        let (s1, r) = m_alloc(s)->Some_0;
        lemma_alloc_disc(s, s.vs.to_multiset());
        let s2 = LowModel {
            code: s1.code.push(ldr_off_w(r, DSP, (s1.consumed * 8) as u32)),
            m: Metrics { stack_loads: bump(s1.m.stack_loads), ..s1.m },
            consumed: s1.consumed + 1,
            vs: s1.vs.insert(0, Loc::Reg(r)),
            ..s1
        };
        assert(s2.vs.to_multiset() == s.vs.to_multiset().insert(Loc::Reg(r)));
        lemma_ensure_disc(s2, n);
    }
}

proof fn lemma_spill_all_shape(s: LowModel, c: Seq<Cached>)
    requires
        m_spill_all(s, c) is Some,
    ensures
        m_spill_all(s, c)->Some_0.vs == s.vs,
        m_spill_all(s, c)->Some_0.fvs == s.fvs,
        m_spill_all(s, c)->Some_0.fused == s.fused,
        m_spill_all(s, c)->Some_0.lcache == s.lcache,
    decreases c.len(),
{
    if c.len() > 0 {
        lemma_spill_all_shape(s, c.drop_last());
    }
}

/// Settling the data window leaves it canonical and the float window as it was.
proof fn lemma_settle_data_shape(s: LowModel)
    requires
        m_settle_data(s) is Some,
    ensures
        m_settle_data(s)->Some_0.vs == seq![Loc::Reg(TOS)],
        m_settle_data(s)->Some_0.used == Seq::new(32, |i: int| i == 0),
        m_settle_data(s)->Some_0.lcache.len() == 0,
        m_settle_data(s)->Some_0.fvs == s.fvs,
        m_settle_data(s)->Some_0.fused == s.fused,
{
    let s0 = m_spill_locals(s)->Some_0;
    if s.lcache.len() > 0 {
        lemma_spill_all_shape(s, s.lcache);
    }
    let s1 = if s0.vs.len() == 0 {
        m_ensure(s0, 1)->Some_0
    } else {
        s0
    };
    if s0.vs.len() == 0 {
        lemma_ensure_frame(s0, 1);
    }
    let l = s1.vs.len() as int;
    let delta = s1.consumed - (l - 1);
    let adj = adjust_words(DSP, delta)->Some_0;
    let s2 = if delta != 0 {
        LowModel { code: s1.code + adj, m: Metrics { dsp_adjusts: bump(s1.m.dsp_adjusts), ..s1.m }, ..s1 }
    } else {
        s1
    };
    lemma_pass1_frame(s2, s1.vs, l - 1);
    let s3 = m_pass1(s2, s1.vs, l - 1)->Some_0;
    lemma_pass2_frame(m_tos_to_x0(s3, s1.vs[l - 1]), s1.vs, l - 1);
}

proof fn lemma_settle_data_disc(s: LowModel)
    requires
        fdisciplined(s.fvs.to_multiset(), s.fused),
        m_settle_data(s) is Some,
    ensures
        register_discipline(m_settle_data(s)->Some_0),
{
    lemma_settle_data_shape(s);
    let r = m_settle_data(s)->Some_0;
    let bag = r.vs.to_multiset();
    assert(bag =~= Multiset::<Loc>::empty().insert(Loc::Reg(TOS))) by {
        assert(r.vs =~= Seq::<Loc>::empty().push(Loc::Reg(TOS)));
    }
    assert forall|x: u32| #![trigger holders(bag, r.lcache, x)]
        holders(bag, r.lcache, x) <= 1 && (holders(bag, r.lcache, x) >= 1 ==> live_ok(x, r.used)) by {
    }
}

/// Settling the float window leaves it canonical and the data window as it was.
proof fn lemma_fsettle_disc(s: LowModel)
    requires
        disciplined(s.vs.to_multiset(), s.used, s.lcache),
        m_fsettle(s) is Some,
    ensures
        register_discipline(m_fsettle(s)->Some_0),
        m_fsettle(s)->Some_0.vs == s.vs,
        m_fsettle(s)->Some_0.used == s.used,
        m_fsettle(s)->Some_0.lcache == s.lcache,
{
    let s1 = if s.fvs.len() == 0 {
        m_fensure(s, 1)->Some_0
    } else {
        s
    };
    if s.fvs.len() == 0 {
        lemma_fensure_frame(s, 1);
    }
    let fl = s1.fvs.len() as int;
    let fadj = adjust_words(crate::lowering::FSP, s1.fconsumed - (fl - 1))->Some_0;
    lemma_fpass_frame(m_emit_seq(s1, fadj), s1.fvs, fl - 1);
    let r = m_fsettle(s)->Some_0;
    let fbag = r.fvs.to_multiset();
    assert(fbag =~= Multiset::<u32>::empty().insert(FTOS)) by {
        assert(r.fvs =~= Seq::<u32>::empty().push(FTOS));
    }
    assert forall|x: u32| #![trigger fbag.count(x)]
        fbag.count(x) <= 1 && (fbag.count(x) >= 1 ==> (x == FTOS || (POOL_LO <= x <= POOL_HI
            && r.fused[x as int]))) by {
    }
}

proof fn lemma_settle_disc(s: LowModel)
    requires
        register_discipline(s),
        m_settle(s) is Some,
    ensures
        register_discipline(m_settle(s)->Some_0),
{
    let sa = LowModel { m: Metrics { settles: bump(s.m.settles), ..s.m }, ..s };
    lemma_settle_data_disc(sa);
    lemma_fsettle_disc(m_settle_data(sa)->Some_0);
}

proof fn lemma_reserve_disc(s: LowModel, n: int)
    requires
        register_discipline(s),
        m_reserve(s, n) is Some,
    ensures
        register_discipline(m_reserve(s, n)->Some_0),
{
    if crate::lowering::nfree(s.used) < n {
        lemma_settle_data_disc(LowModel { m: Metrics { spills: bump(s.m.spills), ..s.m }, ..s });
    }
}

/// A value brought into a register keeps the discipline: the location it came
/// from (held in `bag`) gives way to the register.
proof fn lemma_to_reg_disc(s: LowModel, l: Loc, bag: Multiset<Loc>)
    requires
        disciplined(bag, s.used, s.lcache),
        bag.count(l) >= 1,
        m_to_reg(s, l) is Some,
    ensures
        disciplined(
            bag.remove(l).insert(Loc::Reg(m_to_reg(s, l)->Some_0.1)),
            m_to_reg(s, l)->Some_0.0.used,
            s.lcache,
        ),
        m_to_reg(s, l)->Some_0.0.lcache == s.lcache,
        m_to_reg(s, l)->Some_0.0.vs == s.vs,
        m_to_reg(s, l)->Some_0.0.fvs == s.fvs,
        m_to_reg(s, l)->Some_0.0.fused == s.fused,
{
    match l {
        Loc::Reg(r) => {
            assert(bag.remove(l).insert(l) =~= bag);
        },
        Loc::Const(n) => {
            lemma_alloc_disc(s, bag);
            let r = m_alloc(s)->Some_0.1;
            let b2 = bag.insert(Loc::Reg(r));
            lemma_sub_bag(b2, b2.remove(l), m_alloc(s)->Some_0.0.used, s.lcache);
            assert(b2.remove(l) =~= bag.remove(l).insert(Loc::Reg(r)));
        },
    }
}

/// A copy keeps the discipline: a constant is copied as is, a register into a
/// fresh register.
proof fn lemma_copy_of_disc(s: LowModel, l: Loc, bag: Multiset<Loc>)
    requires
        disciplined(bag, s.used, s.lcache),
        m_copy_of(s, l) is Some,
    ensures
        disciplined(bag.insert(m_copy_of(s, l)->Some_0.1), m_copy_of(s, l)->Some_0.0.used, s.lcache),
        disciplined(bag, m_copy_of(s, l)->Some_0.0.used, s.lcache),
        m_copy_of(s, l)->Some_0.0.lcache == s.lcache,
        m_copy_of(s, l)->Some_0.0.vs == s.vs,
        m_copy_of(s, l)->Some_0.0.fvs == s.fvs,
        m_copy_of(s, l)->Some_0.0.fused == s.fused,
{
    match l {
        Loc::Reg(_) => {
            lemma_alloc_disc(s, bag);
        },
        Loc::Const(n) => {
            lemma_add_const(bag, s.used, s.lcache, n);
        },
    }
}


// ── sequences as bags ───────────────────────────────────────────────────────
proof fn lemma_split_top<A>(v: Seq<A>)
    requires
        v.len() >= 1,
    ensures
        v.to_multiset() =~= v.drop_last().to_multiset().insert(v.last()),
{
    assert(v =~= v.drop_last().push(v.last()));
}

proof fn lemma_split_two<A>(v: Seq<A>)
    requires
        v.len() >= 2,
    ensures
        v.to_multiset() =~= v.drop_last().drop_last().to_multiset().insert(v.drop_last().last()).insert(
            v.last(),
        ),
{
    lemma_split_top(v);
    lemma_split_top(v.drop_last());
}

proof fn lemma_insert_bag<A>(v: Seq<A>, i: int, x: A)
    requires
        0 <= i <= v.len(),
    ensures
        v.insert(i, x).to_multiset() =~= v.to_multiset().insert(x),
{
    let w = v.insert(i, x);
    assert(w.remove(i) =~= v);
    assert(w[i] == x);
    assert(w.contains(x));
}

proof fn lemma_ensure_len(s: LowModel, n: int)
    requires
        m_ensure(s, n) is Some,
    ensures
        m_ensure(s, n)->Some_0.vs.len() >= n,
    decreases n - s.vs.len(),
{
    if s.vs.len() < n {
        let (s1, r) = m_alloc(s)->Some_0;
        let s2 = LowModel {
            code: s1.code.push(ldr_off_w(r, DSP, (s1.consumed * 8) as u32)),
            m: Metrics { stack_loads: bump(s1.m.stack_loads), ..s1.m },
            consumed: s1.consumed + 1,
            vs: s1.vs.insert(0, Loc::Reg(r)),
            ..s1
        };
        lemma_ensure_len(s2, n);
    }
}

/// The registers marked live once location `l` is dropped.
pub open spec fn free_used(used: Seq<bool>, l: Loc) -> Seq<bool> {
    match l {
        Loc::Reg(r) => mark(used, r, false),
        Loc::Const(_) => used,
    }
}

/// Dropping a register from the bag frees it: no place holds it any more.
proof fn lemma_drop_reg(bag: Multiset<Loc>, used: Seq<bool>, c: Seq<Cached>, r: u32)
    requires
        disciplined(bag, used, c),
        bag.count(Loc::Reg(r)) >= 1,
    ensures
        holders(bag.remove(Loc::Reg(r)), c, r) == 0,
        disciplined(bag.remove(Loc::Reg(r)), mark(used, r, false), c),
{
    assert(holders(bag, c, r) <= 1);
    lemma_sub_bag(bag, bag.remove(Loc::Reg(r)), used, c);
    lemma_release(bag.remove(Loc::Reg(r)), used, c, r);
}

/// Dropping any location (a register is freed with it).
proof fn lemma_drop_loc(bag: Multiset<Loc>, used: Seq<bool>, c: Seq<Cached>, l: Loc)
    requires
        disciplined(bag, used, c),
        bag.count(l) >= 1,
    ensures
        disciplined(bag.remove(l), free_used(used, l), c),
{
    lemma_sub_bag(bag, bag.remove(l), used, c);
    if let Loc::Reg(r) = l {
        lemma_drop_reg(bag, used, c, r);
    }
}

// ── stack words ─────────────────────────────────────────────────────────────
proof fn lemma_pick_disc(s: LowModel, n: int)
    requires
        register_discipline(s),
        m_pick(s, n) is Some,
    ensures
        register_discipline(m_pick(s, n)->Some_0),
{
    let s1 = m_reserve(s, n + 2)->Some_0;
    lemma_reserve_disc(s, n + 2);
    let s2 = m_ensure(s1, n + 1)->Some_0;
    lemma_ensure_disc(s1, n + 1);
    let src = s2.vs[s2.vs.len() - 1 - n];
    lemma_copy_of_disc(s2, src, s2.vs.to_multiset());
}

proof fn lemma_roll_disc(s: LowModel, n: int)
    requires
        register_discipline(s),
        n >= 0,
        m_roll(s, n) is Some,
    ensures
        register_discipline(m_roll(s, n)->Some_0),
{
    if n != 0 {
        let s1 = m_reserve(s, n + 1)->Some_0;
        lemma_reserve_disc(s, n + 1);
        let s2 = m_ensure(s1, n + 1)->Some_0;
        lemma_ensure_disc(s1, n + 1);
        lemma_ensure_len(s1, n + 1);
        let idx = s2.vs.len() - 1 - n;
        let x = s2.vs[idx];
        assert(s2.vs.contains(x));
        assert(s2.vs.remove(idx).push(x).to_multiset() =~= s2.vs.to_multiset());
    }
}

proof fn lemma_stk_disc(s: LowModel, w: Stk)
    requires
        register_discipline(s),
        m_stk(s, w) is Some,
    ensures
        register_discipline(m_stk(s, w)->Some_0),
{
    match w {
        Stk::Dup => lemma_pick_disc(s, 0),
        Stk::Over => lemma_pick_disc(s, 1),
        Stk::Swap => lemma_roll_disc(s, 1),
        Stk::Rot => lemma_roll_disc(s, 2),
        Stk::Drop => {
            let s1 = m_ensure(s, 1)->Some_0;
            lemma_ensure_disc(s, 1);
            lemma_ensure_len(s, 1);
            let t = s1.vs.last();
            lemma_split_top(s1.vs);
            let bag = s1.vs.to_multiset();
            assert(bag.remove(t) =~= s1.vs.drop_last().to_multiset());
            lemma_drop_loc(bag, s1.used, s1.lcache, t);
        },
        Stk::Nip => {
            let s1 = m_ensure(s, 2)->Some_0;
            lemma_ensure_disc(s, 2);
            lemma_ensure_len(s, 2);
            let n = s1.vs.len() as int;
            let u = s1.vs[n - 2];
            assert(s1.vs.contains(u));
            assert(s1.vs.remove(n - 2).to_multiset() =~= s1.vs.to_multiset().remove(u));
            lemma_drop_loc(s1.vs.to_multiset(), s1.used, s1.lcache, u);
        },
        Stk::MinusRot => {
            let s1 = m_ensure(s, 3)->Some_0;
            lemma_ensure_disc(s, 3);
            lemma_ensure_len(s, 3);
            let n = s1.vs.len() as int;
            lemma_split_top(s1.vs);
            lemma_insert_bag(s1.vs.drop_last(), n - 3, s1.vs.last());
        },
        Stk::Tuck => {
            let s1 = m_reserve(s, 3)->Some_0;
            lemma_reserve_disc(s, 3);
            let s2 = m_ensure(s1, 2)->Some_0;
            lemma_ensure_disc(s1, 2);
            lemma_ensure_len(s1, 2);
            let n = s2.vs.len() as int;
            lemma_copy_of_disc(s2, s2.vs[n - 1], s2.vs.to_multiset());
            let (s3, c) = m_copy_of(s2, s2.vs[n - 1])->Some_0;
            lemma_insert_bag(s3.vs, n - 2, c);
        },
    }
}

// ── arithmetic ──────────────────────────────────────────────────────────────
proof fn lemma_imm_bin_to_disc(s: LowModel, x: Loc, op: Bin, k: i64, rest: Multiset<Loc>)
    requires
        disciplined(rest.insert(x), s.used, s.lcache),
        fdisciplined(s.fvs.to_multiset(), s.fused),
        s.vs.to_multiset() == rest,
        m_imm_bin_to(s, x, op, k) is Some,
    ensures
        m_imm_bin_to(s, x, op, k)->Some_0.1 is None ==> m_imm_bin_to(s, x, op, k)->Some_0.0 == s,
        m_imm_bin_to(s, x, op, k)->Some_0.1 is Some ==> register_discipline(
            m_push(
                m_imm_bin_to(s, x, op, k)->Some_0.0,
                Loc::Reg(m_imm_bin_to(s, x, op, k)->Some_0.1->Some_0),
            ),
        ),
{
    if crate::lowering::imm_form(op, k) is Some {
        lemma_to_reg_disc(s, x, rest.insert(x));
        let r = m_to_reg(s, x)->Some_0.1;
        assert(rest.insert(x).remove(x).insert(Loc::Reg(r)) =~= rest.insert(Loc::Reg(r)));
    }
}

/// Two values in flight brought into registers, the second freed after use.
proof fn lemma_pair_disc(s: LowModel, a: Loc, b: Loc, rest: Multiset<Loc>)
    requires
        disciplined(rest.insert(a).insert(b), s.used, s.lcache),
        m_to_reg(s, a) is Some,
        m_to_reg(m_to_reg(s, a)->Some_0.0, b) is Some,
    ensures
        disciplined(
            rest.insert(Loc::Reg(m_to_reg(s, a)->Some_0.1)),
            mark(
                m_to_reg(m_to_reg(s, a)->Some_0.0, b)->Some_0.0.used,
                m_to_reg(m_to_reg(s, a)->Some_0.0, b)->Some_0.1,
                false,
            ),
            s.lcache,
        ),
        m_to_reg(m_to_reg(s, a)->Some_0.0, b)->Some_0.0.lcache == s.lcache,
        m_to_reg(m_to_reg(s, a)->Some_0.0, b)->Some_0.0.vs == s.vs,
        m_to_reg(m_to_reg(s, a)->Some_0.0, b)->Some_0.0.fvs == s.fvs,
        m_to_reg(m_to_reg(s, a)->Some_0.0, b)->Some_0.0.fused == s.fused,
{
    let (s1, ra) = m_to_reg(s, a)->Some_0;
    let bag0 = rest.insert(a).insert(b);
    lemma_to_reg_disc(s, a, bag0);
    let bag1 = bag0.remove(a).insert(Loc::Reg(ra));
    assert(bag1 =~= rest.insert(b).insert(Loc::Reg(ra)));
    lemma_to_reg_disc(s1, b, bag1);
    let (s2, rb) = m_to_reg(s1, b)->Some_0;
    let bag2 = bag1.remove(b).insert(Loc::Reg(rb));
    lemma_drop_reg(bag2, s2.used, s.lcache, rb);
    assert(bag2.remove(Loc::Reg(rb)) =~= rest.insert(Loc::Reg(ra)));
}

/// The window's top two cells, taken off: what stays, and the two values.
proof fn lemma_take_two(s2: LowModel)
    requires
        register_discipline(s2),
        s2.vs.len() >= 2,
    ensures
        disciplined(
            m_pop(m_pop(s2)).vs.to_multiset().insert(s2.vs.drop_last().last()).insert(s2.vs.last()),
            s2.used,
            s2.lcache,
        ),
{
    lemma_split_two(s2.vs);
}

proof fn lemma_take_one(s2: LowModel)
    requires
        register_discipline(s2),
        s2.vs.len() >= 1,
    ensures
        disciplined(m_pop(s2).vs.to_multiset().insert(s2.vs.last()), s2.used, s2.lcache),
{
    lemma_split_top(s2.vs);
}

proof fn lemma_bin_disc(s: LowModel, op: Bin)
    requires
        register_discipline(s),
        m_bin(s, op) is Some,
    ensures
        register_discipline(m_bin(s, op)->Some_0),
{
    let s1 = m_reserve(s, 4)->Some_0;
    lemma_reserve_disc(s, 4);
    let s2 = m_ensure(s1, 2)->Some_0;
    lemma_ensure_disc(s1, 2);
    lemma_ensure_len(s1, 2);
    let b = s2.vs.last();
    let a = s2.vs.drop_last().last();
    let s3 = m_pop(m_pop(s2));
    let rest = s3.vs.to_multiset();
    lemma_take_two(s2);
    let bag = rest.insert(a).insert(b);
    if a is Const && b is Const {
        lemma_sub_bag(bag, rest, s3.used, s3.lcache);
        lemma_add_const(rest, s3.used, s3.lcache, crate::opt::bin_eval(op, a->Const_0, b->Const_0));
    } else {
        if b is Const {
            lemma_sub_bag(bag, rest.insert(a), s3.used, s3.lcache);
            lemma_imm_bin_to_disc(s3, a, op, b->Const_0, rest);
        }
        if a is Const && op == Bin::Add {
            lemma_sub_bag(bag, rest.insert(b), s3.used, s3.lcache);
            lemma_imm_bin_to_disc(s3, b, Bin::Add, a->Const_0, rest);
        }
        if m_to_reg(s3, a) is Some && m_to_reg(m_to_reg(s3, a)->Some_0.0, b) is Some {
            lemma_pair_disc(s3, a, b, rest);
        }
    }
}

proof fn lemma_imm_bin_disc(s: LowModel, op: Bin, k: i64)
    requires
        register_discipline(s),
        m_imm_bin(s, op, k) is Some,
    ensures
        register_discipline(m_imm_bin(s, op, k)->Some_0),
{
    let res = m_imm_bin(s, op, k)->Some_0;
    let s1 = m_reserve(s, 2)->Some_0;
    lemma_reserve_disc(s, 2);
    let s2 = m_ensure(s1, 1)->Some_0;
    lemma_ensure_disc(s1, 1);
    lemma_ensure_len(s1, 1);
    let a = s2.vs.last();
    let s3 = m_pop(s2);
    let rest = s3.vs.to_multiset();
    lemma_take_one(s2);
    if a is Const {
        lemma_sub_bag(rest.insert(a), rest, s3.used, s3.lcache);
        lemma_add_const(rest, s3.used, s3.lcache, crate::opt::bin_eval(op, a->Const_0, k));
    } else {
        lemma_imm_bin_to_disc(s3, a, op, k, rest);
        let (s4, o) = m_imm_bin_to(s3, a, op, k)->Some_0;
        if o is Some {
            assert(res == m_push(s4, Loc::Reg(o->Some_0)));
        } else {
            assert(s4 == s3);
            lemma_to_reg_disc(s3, a, rest.insert(a));
            let (s5, r) = m_to_reg(s3, a)->Some_0;
            let b1 = rest.insert(Loc::Reg(r));
            assert(rest.insert(a).remove(a).insert(Loc::Reg(r)) =~= b1);
            lemma_alloc_disc(s5, b1);
            let (s6, t) = m_alloc(s5)->Some_0;
            lemma_drop_reg(b1.insert(Loc::Reg(t)), s6.used, s6.lcache, t);
            assert(b1.insert(Loc::Reg(t)).remove(Loc::Reg(t)) =~= b1);
            let s7 = m_freer(
                m_emit(m_emit_seq(s6, crate::aenc::load_imm64_seq(t, k as u64)), crate::lowering::bin_word(op, r, r, t)),
                t,
            );
            assert(res == m_push(s7, Loc::Reg(r)));
            assert(s7.vs.push(Loc::Reg(r)).to_multiset() =~= b1);
        }
    }
}

proof fn lemma_dup_bin_disc(s: LowModel, op: Bin)
    requires
        register_discipline(s),
        m_dup_bin(s, op) is Some,
    ensures
        register_discipline(m_dup_bin(s, op)->Some_0),
{
    let s1 = m_reserve(s, 2)->Some_0;
    lemma_reserve_disc(s, 2);
    let s2 = m_ensure(s1, 1)->Some_0;
    lemma_ensure_disc(s1, 1);
    lemma_ensure_len(s1, 1);
    let a = s2.vs.last();
    let s3 = m_pop(s2);
    let rest = s3.vs.to_multiset();
    lemma_take_one(s2);
    if a is Const {
        lemma_sub_bag(rest.insert(a), rest, s3.used, s3.lcache);
        lemma_add_const(rest, s3.used, s3.lcache, crate::opt::bin_eval(op, a->Const_0, a->Const_0));
    } else {
        match op {
            Bin::Add | Bin::Mul => {
                lemma_to_reg_disc(s3, a, rest.insert(a));
                let r = m_to_reg(s3, a)->Some_0.1;
                assert(rest.insert(a).remove(a).insert(Loc::Reg(r)) =~= rest.insert(Loc::Reg(r)));
            },
            Bin::And | Bin::Or => {},
            Bin::Sub | Bin::Xor => {
                lemma_drop_loc(rest.insert(a), s3.used, s3.lcache, a);
                assert(rest.insert(a).remove(a) =~= rest);
                lemma_add_const(rest, free_used(s3.used, a), s3.lcache, 0);
            },
        }
    }
}

// ── compares, selects, memory ───────────────────────────────────────────────
proof fn lemma_compare_disc(s: LowModel, c: Cmp)
    requires
        register_discipline(s),
        crate::lowering::m_compare(s, c) is Some,
    ensures
        register_discipline(crate::lowering::m_compare(s, c)->Some_0),
{
    let s1 = m_reserve(s, 4)->Some_0;
    lemma_reserve_disc(s, 4);
    if crate::opt::is_zero_cmp(c) {
        let s2 = m_ensure(s1, 1)->Some_0;
        lemma_ensure_disc(s1, 1);
        lemma_ensure_len(s1, 1);
        let a = s2.vs.last();
        let s3 = m_pop(s2);
        let rest = s3.vs.to_multiset();
        lemma_take_one(s2);
        if a is Const {
            lemma_sub_bag(rest.insert(a), rest, s3.used, s3.lcache);
            lemma_add_const(rest, s3.used, s3.lcache, crate::opt::cmp_eval_zero(c, a->Const_0));
        } else {
            lemma_to_reg_disc(s3, a, rest.insert(a));
            let r = m_to_reg(s3, a)->Some_0.1;
            assert(rest.insert(a).remove(a).insert(Loc::Reg(r)) =~= rest.insert(Loc::Reg(r)));
        }
    } else {
        let s2 = m_ensure(s1, 2)->Some_0;
        lemma_ensure_disc(s1, 2);
        lemma_ensure_len(s1, 2);
        let b = s2.vs.last();
        let a = s2.vs.drop_last().last();
        let s3 = m_pop(m_pop(s2));
        let rest = s3.vs.to_multiset();
        lemma_take_two(s2);
        let bag = rest.insert(a).insert(b);
        if a is Const && b is Const {
            lemma_sub_bag(bag, rest, s3.used, s3.lcache);
            lemma_add_const(rest, s3.used, s3.lcache, crate::opt::cmp_eval(c, a->Const_0, b->Const_0));
        } else if b is Const && crate::lowering::imm12_fits(b->Const_0) {
            lemma_sub_bag(bag, rest.insert(a), s3.used, s3.lcache);
            lemma_to_reg_disc(s3, a, rest.insert(a));
            let r = m_to_reg(s3, a)->Some_0.1;
            assert(rest.insert(a).remove(a).insert(Loc::Reg(r)) =~= rest.insert(Loc::Reg(r)));
        } else if a is Const && crate::lowering::imm12_fits(a->Const_0) {
            lemma_sub_bag(bag, rest.insert(b), s3.used, s3.lcache);
            lemma_to_reg_disc(s3, b, rest.insert(b));
            let r = m_to_reg(s3, b)->Some_0.1;
            assert(rest.insert(b).remove(b).insert(Loc::Reg(r)) =~= rest.insert(Loc::Reg(r)));
        } else {
            lemma_pair_disc(s3, a, b, rest);
        }
    }
}

proof fn lemma_sel_disc(s: LowModel, w: Sel)
    requires
        register_discipline(s),
        m_sel(s, w) is Some,
    ensures
        register_discipline(m_sel(s, w)->Some_0),
{
    let s1 = m_reserve(s, 3)->Some_0;
    lemma_reserve_disc(s, 3);
    let s2 = m_ensure(s1, 2)->Some_0;
    lemma_ensure_disc(s1, 2);
    lemma_ensure_len(s1, 2);
    let b = s2.vs.last();
    let a = s2.vs.drop_last().last();
    let s3 = m_pop(m_pop(s2));
    let rest = s3.vs.to_multiset();
    lemma_take_two(s2);
    if a is Const && b is Const {
        lemma_sub_bag(rest.insert(a).insert(b), rest, s3.used, s3.lcache);
        lemma_add_const(rest, s3.used, s3.lcache, crate::opt::sel_eval(w, a->Const_0, b->Const_0));
    } else {
        lemma_pair_disc(s3, a, b, rest);
    }
}

proof fn lemma_mem_disc(s: LowModel, w: Mem)
    requires
        register_discipline(s),
        m_mem(s, w) is Some,
    ensures
        register_discipline(m_mem(s, w)->Some_0),
{
    let s1 = m_reserve(s, 3)->Some_0;
    lemma_reserve_disc(s, 3);
    match w {
        Mem::Fetch | Mem::CFetch => {
            let s2 = m_ensure(s1, 1)->Some_0;
            lemma_ensure_disc(s1, 1);
            lemma_ensure_len(s1, 1);
            let a = s2.vs.last();
            let rest = m_pop(s2).vs.to_multiset();
            lemma_take_one(s2);
            let sn = crate::lowering::m_note_fetch(m_pop(s2), a);
            assert(sn.vs == m_pop(s2).vs && sn.used == s2.used && sn.lcache == s2.lcache
                && sn.fvs == s2.fvs && sn.fused == s2.fused);
            lemma_to_reg_disc(sn, a, rest.insert(a));
            let r = m_to_reg(sn, a)->Some_0.1;
            assert(rest.insert(a).remove(a).insert(Loc::Reg(r)) =~= rest.insert(Loc::Reg(r)));
        },
        Mem::Store | Mem::CStore => {
            let s2 = m_ensure(s1, 2)->Some_0;
            lemma_ensure_disc(s1, 2);
            lemma_ensure_len(s1, 2);
            let addr = s2.vs.last();
            let x = s2.vs.drop_last().last();
            let s3a = m_pop(m_pop(s2));
            let rest = s3a.vs.to_multiset();
            lemma_take_two(s2);
            let bag0 = rest.insert(x).insert(addr);
            lemma_to_reg_disc(s3a, addr, bag0);
            let (s3, raddr) = m_to_reg(s3a, addr)->Some_0;
            let bag1 = bag0.remove(addr).insert(Loc::Reg(raddr));
            assert(bag1 =~= rest.insert(x).insert(Loc::Reg(raddr)));
            lemma_to_reg_disc(s3, x, bag1);
            let (s4, rx) = m_to_reg(s3, x)->Some_0;
            let bag2 = bag1.remove(x).insert(Loc::Reg(rx));
            lemma_drop_reg(bag2, s4.used, s4.lcache, rx);
            let bag3 = bag2.remove(Loc::Reg(rx));
            assert(bag3 =~= rest.insert(Loc::Reg(raddr)));
            lemma_drop_reg(bag3, mark(s4.used, rx, false), s4.lcache, raddr);
            assert(bag3.remove(Loc::Reg(raddr)) =~= rest);
        },
    }
}

// ── locals and instance variables ───────────────────────────────────────────
proof fn lemma_cached_push(c: Seq<Cached>, e: Cached, r: u32)
    ensures
        cached_in(c.push(e), r) == cached_in(c, r) + if e.1 == r {
            1nat
        } else {
            0nat
        },
{
    assert(c.push(e).drop_last() =~= c);
}

proof fn lemma_cached_update(c: Seq<Cached>, k: int, e: Cached, r: u32)
    requires
        0 <= k < c.len(),
    ensures
        cached_in(c.update(k, e), r) + (if c[k].1 == r {
            1nat
        } else {
            0nat
        }) == cached_in(c, r) + (if e.1 == r {
            1nat
        } else {
            0nat
        }),
    decreases c.len(),
{
    let d = c.update(k, e);
    if k == c.len() - 1 {
        assert(d.drop_last() =~= c.drop_last());
    } else {
        assert(d.drop_last() =~= c.drop_last().update(k, e));
        lemma_cached_update(c.drop_last(), k, e, r);
    }
}

proof fn lemma_cached_pos(c: Seq<Cached>, k: int)
    requires
        0 <= k < c.len(),
    ensures
        cached_in(c, c[k].1) >= 1,
    decreases c.len(),
{
    if k < c.len() - 1 {
        lemma_cached_pos(c.drop_last(), k);
    }
}

proof fn lemma_lc_find(c: Seq<Cached>, i: u32)
    ensures
        lc_find(c, i) is Some ==> 0 <= lc_find(c, i)->Some_0 < c.len(),
        c.len() == 0 ==> lc_find(c, i) is None,
    decreases c.len(),
{
    if c.len() > 0 && c.last().0 != i {
        lemma_lc_find(c.drop_last(), i);
    }
}

/// A register leaving the bag for a new cache entry.
proof fn lemma_cache_push(bag: Multiset<Loc>, used: Seq<bool>, c: Seq<Cached>, e: Cached)
    requires
        disciplined(bag.insert(Loc::Reg(e.1)), used, c),
    ensures
        disciplined(bag, used, c.push(e)),
{
    let b1 = bag.insert(Loc::Reg(e.1));
    assert forall|x: u32| #![trigger holders(bag, c.push(e), x)]
        holders(bag, c.push(e), x) <= 1 && (holders(bag, c.push(e), x) >= 1 ==> live_ok(x, used)) by {
        lemma_cached_push(c, e, x);
        assert(holders(b1, c, x) <= 1);
    }
}

/// A register leaving the bag to replace cache entry `k`, whose register is freed.
proof fn lemma_cache_replace(bag: Multiset<Loc>, used: Seq<bool>, c: Seq<Cached>, k: int, e: Cached)
    requires
        disciplined(bag.insert(Loc::Reg(e.1)), used, c),
        0 <= k < c.len(),
    ensures
        c[k].1 != e.1,
        disciplined(bag, mark(used, c[k].1, false), c.update(k, e)),
{
    let b1 = bag.insert(Loc::Reg(e.1));
    let ro = c[k].1;
    lemma_cached_pos(c, k);
    assert(holders(b1, c, e.1) <= 1);
    assert(holders(b1, c, ro) <= 1);
    let c2 = c.update(k, e);
    let u2 = mark(used, ro, false);
    assert forall|x: u32| #![trigger holders(bag, c2, x)]
        holders(bag, c2, x) <= 1 && (holders(bag, c2, x) >= 1 ==> live_ok(x, u2)) by {
        lemma_cached_update(c, k, e, x);
        assert(holders(b1, c, x) <= 1);
    }
}

/// Reserving registers keeps the cache, or empties it (when the window was settled).
proof fn lemma_reserve_cache(s: LowModel, n: int)
    requires
        m_reserve(s, n) is Some,
    ensures
        m_reserve(s, n)->Some_0.lcache == s.lcache || m_reserve(s, n)->Some_0.lcache.len() == 0,
{
    if nfree(s.used) < n {
        lemma_settle_data_shape(LowModel { m: Metrics { spills: bump(s.m.spills), ..s.m }, ..s });
    }
}

proof fn lemma_local_fetch_disc(s: LowModel, i: u32)
    requires
        register_discipline(s),
        m_local_fetch(s, i) is Some,
    ensures
        register_discipline(m_local_fetch(s, i)->Some_0),
{
    lemma_lc_find(s.lcache, i);
    match lc_find(s.lcache, i) {
        Some(k) => {
            let r = s.lcache[k].1;
            let s1 = m_reserve(s, 1)->Some_0;
            lemma_reserve_disc(s, 1);
            lemma_copy_of_disc(s1, Loc::Reg(r), s1.vs.to_multiset());
        },
        None => {
            if s.hot.contains(i) {
                let s1 = m_reserve(s, 2)->Some_0;
                lemma_reserve_disc(s, 2);
                lemma_reserve_cache(s, 2);
                lemma_lc_find(s1.lcache, i);
                let bag = s1.vs.to_multiset();
                lemma_alloc_disc(s1, bag);
                let (s2, rc) = m_alloc(s1)->Some_0;
                assert(lc_insert(s2.lcache, i, rc, false) == s2.lcache.push((i, rc, false)));
                lemma_cache_push(bag, s2.used, s2.lcache, (i, rc, false));
                let s3 = LowModel {
                    code: s2.code.push(ldr_off_w(rc, crate::lowering::LP, (i * 8) as u32)),
                    m: Metrics { local_loads: bump(s2.m.local_loads), ..s2.m },
                    lcache: lc_insert(s2.lcache, i, rc, false),
                    ..s2
                };
                lemma_copy_of_disc(s3, Loc::Reg(rc), bag);
            } else {
                let s1 = m_reserve(s, 1)->Some_0;
                lemma_reserve_disc(s, 1);
                lemma_alloc_disc(s1, s1.vs.to_multiset());
            }
        },
    }
}

proof fn lemma_local_store_disc(s: LowModel, i: u32)
    requires
        register_discipline(s),
        m_local_store(s, i) is Some,
    ensures
        register_discipline(m_local_store(s, i)->Some_0),
{
    let s1 = m_reserve(s, 2)->Some_0;
    lemma_reserve_disc(s, 2);
    let s2 = m_ensure(s1, 1)->Some_0;
    lemma_ensure_disc(s1, 1);
    lemma_ensure_len(s1, 1);
    let a = s2.vs.last();
    let rest = m_pop(s2).vs.to_multiset();
    lemma_take_one(s2);
    lemma_to_reg_disc(m_pop(s2), a, rest.insert(a));
    let (s3, r) = m_to_reg(m_pop(s2), a)->Some_0;
    assert(rest.insert(a).remove(a).insert(Loc::Reg(r)) =~= rest.insert(Loc::Reg(r)));
    let c = s3.lcache;
    lemma_lc_find(c, i);
    match lc_find(c, i) {
        Some(k) => {
            lemma_cache_replace(rest, s3.used, c, k, (i, r, true));
        },
        None => {
            lemma_cache_push(rest, s3.used, c, (i, r, true));
        },
    }
}

proof fn lemma_free_cached(used: Seq<bool>, c: Seq<Cached>, x: u32)
    ensures
        free_cached(used, c).len() == used.len(),
        cached_in(c, x) == 0 && x < used.len() ==> free_cached(used, c)[x as int] == used[x as int],
    decreases c.len(),
{
    if c.len() > 0 {
        lemma_free_cached(used, c.drop_last(), x);
    }
}

proof fn lemma_close_locals_disc(s: LowModel, total: u32)
    requires
        register_discipline(s),
        m_close_locals(s, total) is Some,
    ensures
        register_discipline(m_close_locals(s, total)->Some_0),
{
    let bag = s.vs.to_multiset();
    let u2 = free_cached(s.used, s.lcache);
    let e = Seq::<Cached>::empty();
    lemma_free_cached(s.used, s.lcache, 0);
    assert forall|x: u32| #![trigger holders(bag, e, x)]
        holders(bag, e, x) <= 1 && (holders(bag, e, x) >= 1 ==> live_ok(x, u2)) by {
        assert(holders(bag, s.lcache, x) <= 1);
        lemma_free_cached(s.used, s.lcache, x);
    }
}

proof fn lemma_open_locals_disc(s: LowModel, total: u32, inputs: u32)
    requires
        register_discipline(s),
        m_open_locals(s, total, inputs) is Some,
    ensures
        register_discipline(m_open_locals(s, total, inputs)->Some_0),
{
    lemma_settle_disc(s);
}

proof fn lemma_ivar_disc(s: LowModel, t: Tok)
    requires
        register_discipline(s),
        t is IvarFetch || t is IvarStore || t is SelfPush,
        m_tok(s, t) is Some,
    ensures
        register_discipline(m_tok(s, t)->Some_0),
{
    match t {
        Tok::IvarStore(off) => {
            let s1 = m_reserve(s, 2)->Some_0;
            lemma_reserve_disc(s, 2);
            let s2 = m_ensure(s1, 1)->Some_0;
            lemma_ensure_disc(s1, 1);
            lemma_ensure_len(s1, 1);
            let a = s2.vs.last();
            let rest = m_pop(s2).vs.to_multiset();
            lemma_take_one(s2);
            lemma_to_reg_disc(m_pop(s2), a, rest.insert(a));
            let (s3, rv) = m_to_reg(m_pop(s2), a)->Some_0;
            let b1 = rest.insert(Loc::Reg(rv));
            assert(rest.insert(a).remove(a).insert(Loc::Reg(rv)) =~= b1);
            lemma_alloc_disc(s3, b1);
            let (s4, rs) = m_alloc(s3)->Some_0;
            let b2 = b1.insert(Loc::Reg(rs));
            lemma_drop_reg(b2, s4.used, s4.lcache, rv);
            assert(b2.remove(Loc::Reg(rv)) =~= rest.insert(Loc::Reg(rs)));
            lemma_drop_reg(rest.insert(Loc::Reg(rs)), mark(s4.used, rv, false), s4.lcache, rs);
            assert(rest.insert(Loc::Reg(rs)).remove(Loc::Reg(rs)) =~= rest);
        },
        _ => {
            let s1 = m_reserve(s, 1)->Some_0;
            lemma_reserve_disc(s, 1);
            lemma_alloc_disc(s1, s1.vs.to_multiset());
        },
    }
}

// ── the float side ──────────────────────────────────────────────────────────
proof fn lemma_falloc_plain_disc(s: LowModel)
    requires
        fdisciplined(s.fvs.to_multiset(), s.fused),
        m_falloc_plain(s) is Some,
    ensures
        s.fvs.to_multiset().count(m_falloc_plain(s)->Some_0.1) == 0,
        fdisciplined(
            s.fvs.to_multiset().insert(m_falloc_plain(s)->Some_0.1),
            m_falloc_plain(s)->Some_0.0.fused,
        ),
        m_falloc_plain(s)->Some_0.0.fvs == s.fvs,
        m_falloc_plain(s)->Some_0.0.vs == s.vs,
        m_falloc_plain(s)->Some_0.0.used == s.used,
        m_falloc_plain(s)->Some_0.0.lcache == s.lcache,
{
    lemma_first_free(s.fused, 9);
    let d = first_free_from(s.fused, 9);
    lemma_ftake(s.fvs.to_multiset(), s.fused, d as u32);
}

proof fn lemma_fensure_disc(s: LowModel, n: int)
    requires
        fdisciplined(s.fvs.to_multiset(), s.fused),
        m_fensure(s, n) is Some,
    ensures
        fdisciplined(m_fensure(s, n)->Some_0.fvs.to_multiset(), m_fensure(s, n)->Some_0.fused),
        m_fensure(s, n)->Some_0.fvs.len() >= n,
        m_fensure(s, n)->Some_0.vs == s.vs,
        m_fensure(s, n)->Some_0.used == s.used,
        m_fensure(s, n)->Some_0.lcache == s.lcache,
    decreases n - s.fvs.len(),
{
    if s.fvs.len() < n {
        lemma_falloc_plain_disc(s);
        let (s1, r) = m_falloc_plain(s)->Some_0;
        let s2 = LowModel {
            code: s1.code.push(crate::aenc::fldr_off_w(r, crate::lowering::FSP, (s1.fconsumed * 8) as u32)),
            fconsumed: s1.fconsumed + 1,
            fvs: s1.fvs.insert(0, r),
            ..s1
        };
        lemma_insert_bag(s1.fvs, 0, r);
        lemma_fensure_disc(s2, n);
    }
}

proof fn lemma_falloc_disc(s: LowModel)
    requires
        register_discipline(s),
        m_falloc(s) is Some,
    ensures
        fdisciplined(
            m_falloc(s)->Some_0.0.fvs.to_multiset().insert(m_falloc(s)->Some_0.1),
            m_falloc(s)->Some_0.0.fused,
        ),
        m_falloc(s)->Some_0.0.vs == s.vs,
        m_falloc(s)->Some_0.0.used == s.used,
        m_falloc(s)->Some_0.0.lcache == s.lcache,
{
    if ffree(s.fused) == 0 {
        lemma_fsettle_disc(s);
        lemma_falloc_plain_disc(m_fsettle(s)->Some_0);
    } else {
        lemma_falloc_plain_disc(s);
    }
}

/// The top float cell dropped, its register freed.
proof fn lemma_fdrop_top(s1: LowModel)
    requires
        fdisciplined(s1.fvs.to_multiset(), s1.fused),
        s1.fvs.len() >= 1,
    ensures
        fdisciplined(s1.fvs.drop_last().to_multiset(), mark(s1.fused, s1.fvs.last(), false)),
{
    let b = s1.fvs.last();
    let fb = s1.fvs.to_multiset();
    let dl = s1.fvs.drop_last().to_multiset();
    lemma_split_top(s1.fvs);
    assert(fb.count(b) <= 1);
    lemma_fsub_bag(fb, dl, s1.fused);
    lemma_frelease(dl, s1.fused, b);
}

proof fn lemma_flit_disc(s: LowModel, bits: i64)
    requires
        register_discipline(s),
        m_flit(s, bits) is Some,
    ensures
        register_discipline(m_flit(s, bits)->Some_0),
{
    let s0 = if nfree(s.used) == 0 {
        m_settle_data(s)->Some_0
    } else {
        s
    };
    if nfree(s.used) == 0 {
        lemma_settle_data_disc(s);
    }
    let bag = s0.vs.to_multiset();
    lemma_first_free(s0.used, 9);
    let g = first_free_from(s0.used, 9);
    lemma_fresh(bag, s0.used, s0.lcache, g as u32);
    lemma_take(bag, s0.used, s0.lcache, g as u32);
    let (s1, g1) = m_gp_temp(s)->Some_0;
    assert(g1 == g as u32 && s1.used == s0.used.update(g, true) && s1.vs == s0.vs && s1.lcache
        == s0.lcache && s1.fvs == s0.fvs && s1.fused == s0.fused);
    let se = m_emit_seq(s1, crate::aenc::load_imm64_seq(g1, bits as u64));
    lemma_falloc_disc(se);
    let (s2, d) = m_falloc(se)->Some_0;
    lemma_release(bag, s2.used, s2.lcache, g1);
}

proof fn lemma_fbin_disc(s: LowModel, op: crate::opt::FBin)
    requires
        register_discipline(s),
        m_fbin(s, op) is Some,
    ensures
        register_discipline(m_fbin(s, op)->Some_0),
{
    lemma_fensure_disc(s, 2);
    lemma_fdrop_top(m_fensure(s, 2)->Some_0);
}

proof fn lemma_fstk_disc(s: LowModel, w: Stk)
    requires
        register_discipline(s),
        m_fstk(s, w) is Some,
    ensures
        register_discipline(m_fstk(s, w)->Some_0),
{
    match w {
        Stk::Dup | Stk::Over => {
            let n: int = if w is Dup {
                1
            } else {
                2
            };
            lemma_fensure_disc(s, n);
            let s1 = m_fensure(s, n)->Some_0;
            lemma_falloc_disc(s1);
        },
        Stk::Drop => {
            lemma_fensure_disc(s, 1);
            lemma_fdrop_top(m_fensure(s, 1)->Some_0);
        },
        Stk::Swap => {
            lemma_fensure_disc(s, 2);
            let s1 = m_fensure(s, 2)->Some_0;
            let v = s1.fvs;
            let n = v.len() as int;
            let v2 = v.update(n - 1, v[n - 2]).update(n - 2, v[n - 1]);
            let base = v.drop_last().drop_last();
            assert(v =~= base.push(v[n - 2]).push(v[n - 1]));
            assert(v2 =~= base.push(v[n - 1]).push(v[n - 2]));
            assert(v2.to_multiset() =~= v.to_multiset());
        },
        _ => {},
    }
}

// ── one token, a run ────────────────────────────────────────────────────────
proof fn lemma_tok_disc(s: LowModel, t: Tok)
    requires
        register_discipline(s),
        m_tok(s, t) is Some,
    ensures
        register_discipline(m_tok(s, t)->Some_0),
{
    match t {
        Tok::Lit(n) => lemma_add_const(s.vs.to_multiset(), s.used, s.lcache, n),
        Tok::Bin(op) => lemma_bin_disc(s, op),
        Tok::ImmBin(op, k) => lemma_imm_bin_disc(s, op, k),
        Tok::DupBin(op) => lemma_dup_bin_disc(s, op),
        Tok::Stk(w) => lemma_stk_disc(s, w),
        Tok::PickN(n) => lemma_pick_disc(s, n as int),
        Tok::RollN(n) => lemma_roll_disc(s, n as int),
        Tok::Cmp(c) => lemma_compare_disc(s, c),
        Tok::Sel(w) => lemma_sel_disc(s, w),
        Tok::Mem(w) => lemma_mem_disc(s, w),
        Tok::LocalFetch(i) => lemma_local_fetch_disc(s, i),
        Tok::LocalStore(i) => lemma_local_store_disc(s, i),
        Tok::OpenLocals { total, inputs } => lemma_open_locals_disc(s, total, inputs),
        Tok::CloseLocals { total } => lemma_close_locals_disc(s, total),
        Tok::IvarFetch(_) | Tok::IvarStore(_) | Tok::SelfPush => lemma_ivar_disc(s, t),
        Tok::FLit(bits) => lemma_flit_disc(s, bits),
        Tok::FBin(op) => lemma_fbin_disc(s, op),
        Tok::FUn(_) => lemma_fensure_disc(s, 1),
        Tok::FStk(w) => lemma_fstk_disc(s, w),
        Tok::Call(_) => lemma_settle_disc(LowModel { m: Metrics { calls: bump(s.m.calls), ..s.m }, ..s }),
    }
}

proof fn lemma_run_disc(s: LowModel, toks: Seq<Tok>)
    requires
        register_discipline(s),
        m_run(s, toks) is Some,
    ensures
        register_discipline(m_run(s, toks)->Some_0),
    decreases toks.len(),
{
    if toks.len() > 0 {
        lemma_run_disc(s, toks.drop_last());
        lemma_tok_disc(m_run(s, toks.drop_last())->Some_0, toks.last());
    }
}

/// Register discipline: in every state the lowerer reaches on a run of tokens,
/// no register is held by two places (two virtual-stack entries, or an entry
/// and a cached local), every register held is x0 or a pool register marked
/// live, and likewise on the float side — so no allocation can clobber a value
/// that is still needed.
pub proof fn lemma_lowering_keeps_discipline(code: Seq<u32>, toks: Seq<Tok>, k: int)
    requires
        0 <= k <= toks.len(),
        m_run(m_start(code, toks), toks.take(k)) is Some,
    ensures
        register_discipline(m_run(m_start(code, toks), toks.take(k))->Some_0),
{
    let s0 = m_start(code, toks);
    assert(canonical(s0));
    lemma_canonical_disc(s0);
    lemma_run_disc(s0, toks.take(k));
}

} // verus!
