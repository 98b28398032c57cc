//! The object layer's bookkeeping: selector names and their stable ids, the
//! classes (instance layout, methods inherited by copy-down and added by `:m`,
//! the data-space class struct), the named instances, and the early binding of
//! a send whose receiver's class is known. The data space itself (the class
//! structs, the instances) is written by the host from what this decides.
use vstd::prelude::*;

verus! {

/// The cell size of the data space.
pub const CELL: u64 = 8;

/// Fixed vtable capacity per class struct.
pub const VTABLE_CAP: u64 = 256;

/// Why an object-layer word cannot act.
#[derive(Clone, Copy, PartialEq, Eq, Debug, Structural)]
pub enum OopError {
    /// `class`/`subclass` names a parent that is not a class.
    UnknownParent,
    /// `ivar:` outside a class.
    IvarOutsideClass,
    /// `end-class` without `class`.
    EndWithoutClass,
    /// `new` names something that is not a class.
    UnknownClass,
    /// `:m` outside a class.
    MethodOutsideClass,
    /// `;m` outside a class.
    EndMethodOutsideClass,
}

/// A class: its parent's name, the data-space class struct (0 until
/// `end-class`), the instance size in bytes (the class pointer cell included),
/// its instance variables (name, byte offset) and its methods (selector, xt).
pub struct ClassInfo {
    pub super_name: Option<String>,
    pub struct_addr: u64,
    pub isize_bytes: u64,
    pub ivars: Vec<(String, u64)>,
    pub methods: Vec<(String, u64)>,
}

// ── keyed lists ─────────────────────────────────────────────────────────────
/// The first index at or after `i` whose key is `k`.
pub open spec fn key_from<V>(v: Seq<(String, V)>, k: Seq<char>, i: int) -> Option<int>
    decreases v.len() - i,
{
    if i < 0 || i >= v.len() {
        None
    } else if v[i].0@ == k {
        Some(i)
    } else {
        key_from(v, k, i + 1)
    }
}

/// The first index whose key is `k`.
pub open spec fn first_key<V>(v: Seq<(String, V)>, k: Seq<char>) -> Option<int> {
    key_from(v, k, 0)
}

/// The value stored under `k`, if any.
pub open spec fn lookup<V>(v: Seq<(String, V)>, k: Seq<char>) -> Option<V> {
    match first_key(v, k) {
        Some(i) => Some(v[i].1),
        None => None,
    }
}

/// The keys of `v`, as text.
pub open spec fn keys<V>(v: Seq<(String, V)>) -> Seq<Seq<char>> {
    v.map_values(|e: (String, V)| e.0@)
}

/// `v` with `k` bound to `x`: the first entry under `k` takes the value, or a
/// new entry goes last.
pub open spec fn put_ok<V>(v0: Seq<(String, V)>, k: Seq<char>, x: V, v1: Seq<(String, V)>) -> bool {
    match first_key(v0, k) {
        Some(i) => v1 == v0.update(i, (v0[i].0, x)),
        None => {
            &&& v1.len() == v0.len() + 1
            &&& v1.drop_last() == v0
            &&& v1.last().0@ == k
            &&& v1.last().1 == x
        },
    }
}

proof fn lemma_key_from_in<V>(v: Seq<(String, V)>, k: Seq<char>, i: int)
    requires
        0 <= i,
    ensures
        key_from(v, k, i) is Some ==> i <= key_from(v, k, i)->Some_0 < v.len() && v[key_from(v, k, i)->Some_0].0@ == k,
    decreases v.len() - i,
{
    if i < v.len() && v[i].0@ != k {
        lemma_key_from_in(v, k, i + 1);
    }
}

proof fn lemma_key_from_none<V>(v: Seq<(String, V)>, k: Seq<char>, i: int)
    requires
        0 <= i,
        key_from(v, k, i) is None,
    ensures
        forall|j: int| i <= j < v.len() ==> v[j].0@ != k,
    decreases v.len() - i,
{
    if i < v.len() {
        lemma_key_from_none(v, k, i + 1);
    }
}

/// Binding a key keeps the keys distinct, and every earlier entry's key in place.
proof fn lemma_put_keys<V>(v0: Seq<(String, V)>, k: Seq<char>, x: V, v1: Seq<(String, V)>)
    requires
        put_ok(v0, k, x, v1),
        keys(v0).no_duplicates(),
    ensures
        keys(v1).no_duplicates(),
        v1.len() >= v0.len(),
        forall|j: int| 0 <= j < v0.len() ==> #[trigger] v1[j].0 == v0[j].0,
{
    lemma_key_from_in(v0, k, 0);
    match first_key(v0, k) {
        Some(i) => {
            assert(keys(v1) =~= keys(v0));
        },
        None => {
            lemma_key_from_none(v0, k, 0);
            assert(keys(v1) =~= keys(v0).push(k));
            assert forall|j: int| 0 <= j < v0.len() implies #[trigger] v1[j].0 == v0[j].0 by {
                assert(v1.drop_last()[j] == v0[j]);
            }
            assert forall|a: int, b: int| 0 <= a < b < keys(v1).len() implies keys(v1)[a] != keys(v1)[b] by {
                if b < v0.len() {
                    assert(keys(v1)[a] == keys(v0)[a]);
                    assert(keys(v1)[b] == keys(v0)[b]);
                } else {
                    assert(keys(v1)[a] == v0[a].0@);
                }
            }
        },
    }
}

/// `a` and `b` hold the same characters.
pub fn same_text(a: &str, b: &str) -> (r: bool)
    ensures
        r == (a@ == b@),
{
    let n = a.unicode_len();
    if n != b.unicode_len() {
        return false;
    }
    let mut i: usize = 0;
    while i < n
        invariant
            n == a@.len(),
            n == b@.len(),
            i <= n,
            forall|j: int| 0 <= j < i ==> a@[j] == b@[j],
        decreases n - i,
    {
        if a.get_char(i) != b.get_char(i) {
            return false;
        }
        i = i + 1;
    }
    assert(a@ =~= b@);
    true
}

/// Where `k` is first bound in `v`.
fn find_key<V>(v: &Vec<(String, V)>, k: &str) -> (r: Option<usize>)
    ensures
        match r {
            Some(i) => first_key(v@, k@) == Some(i as int) && i < v@.len() && v@[i as int].0@ == k@,
            None => first_key(v@, k@) is None,
        },
{
    let mut i: usize = 0;
    while i < v.len()
        invariant
            i <= v@.len(),
            first_key(v@, k@) == key_from(v@, k@, i as int),
        decreases v@.len() - i,
    {
        if same_text(v[i].0.as_str(), k) {
            return Some(i);
        }
        i = i + 1;
    }
    None
}

/// Bind `k` to `x` in `v`.
fn put<V>(v: &mut Vec<(String, V)>, k: &str, x: V)
    ensures
        put_ok(old(v)@, k@, x, final(v)@),
{
    let r = find_key(v, k);
    proof {
        lemma_key_from_in(v@, k@, 0);
    }
    match r {
        Some(i) => {
            let name = v[i].0.clone();
            let ghost v0 = v@;
            v.set(i, (name, x));
            assert(v@ =~= v0.update(i as int, (v0[i as int].0, x)));
        },
        None => {
            let ghost v0 = v@;
            v.push((k.to_owned(), x));
            assert(v@.drop_last() =~= v0);
        },
    }
}

// ── selectors ───────────────────────────────────────────────────────────────
/// The first index at or after `i` holding `k`.
pub open spec fn name_from(v: Seq<Seq<char>>, k: Seq<char>, i: int) -> Option<int>
    decreases v.len() - i,
{
    if i < 0 || i >= v.len() {
        None
    } else if v[i] == k {
        Some(i)
    } else {
        name_from(v, k, i + 1)
    }
}

/// The selector table after `name` asked for an id: unchanged where it has one,
/// else with `name` added last.
pub open spec fn with_selector(v: Seq<Seq<char>>, name: Seq<char>) -> Seq<Seq<char>> {
    if name_from(v, name, 0) is Some {
        v
    } else {
        v.push(name)
    }
}

/// The id of `name` in a table that holds it.
pub open spec fn selector_index(v: Seq<Seq<char>>, name: Seq<char>) -> int {
    name_from(with_selector(v, name), name, 0)->Some_0
}

/// The selector table after the names `ns`, in order, asked for ids.
pub open spec fn with_selectors(v: Seq<Seq<char>>, ns: Seq<Seq<char>>) -> Seq<Seq<char>>
    decreases ns.len(),
{
    if ns.len() == 0 {
        v
    } else {
        with_selector(with_selectors(v, ns.drop_last()), ns.last())
    }
}

proof fn lemma_name_from(v: Seq<Seq<char>>, k: Seq<char>, i: int)
    requires
        0 <= i,
    ensures
        name_from(v, k, i) is Some ==> i <= name_from(v, k, i)->Some_0 < v.len() && v[name_from(v, k, i)->Some_0] == k,
        name_from(v, k, i) is None ==> forall|j: int| i <= j < v.len() ==> v[j] != k,
        name_from(v, k, i) is Some ==> forall|j: int| i <= j < name_from(v, k, i)->Some_0 ==> v[j] != k,
    decreases v.len() - i,
{
    if i < v.len() && v[i] != k {
        lemma_name_from(v, k, i + 1);
    }
}

/// Asking for `name`'s id keeps every earlier id: the table only grows at its end.
proof fn lemma_with_selector(v: Seq<Seq<char>>, name: Seq<char>)
    ensures
        with_selector(v, name).len() >= v.len(),
        with_selector(v, name).subrange(0, v.len() as int) == v,
        name_from(with_selector(v, name), name, 0) is Some,
        selector_index(v, name) < with_selector(v, name).len(),
        name_from(v, name, 0) is Some ==> selector_index(v, name) == name_from(v, name, 0)->Some_0,
        name_from(v, name, 0) is None ==> selector_index(v, name) == v.len(),
{
    lemma_name_from(v, name, 0);
    let w = with_selector(v, name);
    assert(w.subrange(0, v.len() as int) =~= v);
    if name_from(v, name, 0) is None {
        lemma_name_from(w, name, 0);
        assert(w[v.len() as int] == name);
        if name_from(w, name, 0)->Some_0 < v.len() {
            assert(v[name_from(w, name, 0)->Some_0] == name);
        }
    } else {
        lemma_name_from(w, name, 0);
    }
}

/// Selector ids are stable: once `name` has an id, asking again gives the same
/// id and leaves the table as it is; a new name takes the next id.
pub proof fn lemma_selector_ids_stable(v: Seq<Seq<char>>, name: Seq<char>, other: Seq<char>)
    ensures
        with_selector(with_selector(v, name), name) == with_selector(v, name),
        selector_index(with_selector(v, name), name) == selector_index(v, name),
        name_from(v, other, 0) is Some ==> selector_index(with_selector(v, name), other)
            == selector_index(v, other),
{
    lemma_with_selector(v, name);
    let w = with_selector(v, name);
    lemma_with_selector(w, name);
    lemma_name_from(v, other, 0);
    lemma_name_from(w, other, 0);
    if name_from(v, other, 0) is Some {
        let i = name_from(v, other, 0)->Some_0;
        assert(w[i] == other);
        lemma_with_selector(w, other);
        lemma_with_selector(v, other);
        let j = name_from(w, other, 0)->Some_0;
        if j < i {
            assert(v[j] == w[j]);
        } else if j > i {
            assert(w[i] == other);
        }
    }
}

// ── the object layer's state ────────────────────────────────────────────────
/// A copy of keyed entries (each key cloned).
fn copy_entries(v: &Vec<(String, u64)>) -> (r: Vec<(String, u64)>)
    ensures
        r@ == v@,
{
    let mut r: Vec<(String, u64)> = Vec::new();
    let mut i: usize = 0;
    while i < v.len()
        invariant
            i <= v@.len(),
            r@ == v@.subrange(0, i as int),
        decreases v@.len() - i,
    {
        let (name, x) = (v[i].0.clone(), v[i].1);
        r.push((name, x));
        i = i + 1;
        assert(r@ =~= v@.subrange(0, i as int));
    }
    assert(v@.subrange(0, i as int) =~= v@);
    r
}

/// The early-bound method of a send of `sel`: the parent's method for a
/// `super` send from a class being built, else the method of the receiver's
/// known class.
pub open spec fn early_binding(
    classes: Seq<(String, ClassInfo)>,
    pending: Option<(String, ClassInfo)>,
    super_pending: bool,
    receiver: Option<Seq<char>>,
    sel: Seq<char>,
) -> Option<u64> {
    if super_pending {
        match pending {
            Some((_, c)) => match c.super_name {
                Some(p) => match lookup(classes, p@) {
                    Some(pc) => lookup(pc.methods@, sel),
                    None => None,
                },
                None => None,
            },
            None => None,
        }
    } else {
        match receiver {
            Some(cls) => match lookup(classes, cls) {
                Some(c) => lookup(c.methods@, sel),
                None => None,
            },
            None => None,
        }
    }
}

/// The first class (at or after `i`) whose struct is `addr`.
pub open spec fn struct_from(v: Seq<(String, ClassInfo)>, addr: u64, i: int) -> Option<int>
    decreases v.len() - i,
{
    if i < 0 || i >= v.len() {
        None
    } else if v[i].1.struct_addr == addr {
        Some(i)
    } else {
        struct_from(v, addr, i + 1)
    }
}

proof fn lemma_struct_from(v: Seq<(String, ClassInfo)>, addr: u64, i: int)
    requires
        0 <= i,
    ensures
        struct_from(v, addr, i) is Some ==> i <= struct_from(v, addr, i)->Some_0 < v.len(),
    decreases v.len() - i,
{
    if i < v.len() && v[i].1.struct_addr != addr {
        lemma_struct_from(v, addr, i + 1);
    }
}

pub struct Oop {
    classes: Vec<(String, ClassInfo)>,
    selectors: Vec<String>,
    objects: Vec<(String, (u64, String))>,
    pending: Option<(String, ClassInfo)>,
    method_class: Option<String>,
    super_pending: bool,
    receiver: Option<String>,
}

impl Oop {
    /// The classes by name (the root `object` first).
    pub closed spec fn classes_of(&self) -> Seq<(String, ClassInfo)> {
        self.classes@
    }

    /// The selector table: a selector's id is its index.
    pub closed spec fn selectors_of(&self) -> Seq<Seq<char>> {
        self.selectors@.map_values(|s: String| s@)
    }

    /// The named instances: (base address, class name).
    pub closed spec fn objects_of(&self) -> Seq<(String, (u64, String))> {
        self.objects@
    }

    /// The class being built, between `class` and `end-class`.
    pub closed spec fn pending_of(&self) -> Option<(String, ClassInfo)> {
        self.pending
    }

    /// While a method body is compiled: its class.
    pub closed spec fn method_class_of(&self) -> Option<Seq<char>> {
        match self.method_class {
            Some(c) => Some(c@),
            None => None,
        }
    }

    /// The next send is a `super` send.
    pub closed spec fn super_pending_of(&self) -> bool {
        self.super_pending
    }

    /// The static class of the most recent receiver, where known.
    pub closed spec fn receiver_of(&self) -> Option<Seq<char>> {
        match self.receiver {
            Some(c) => Some(c@),
            None => None,
        }
    }

    /// The root class comes first, and no two classes share a name.
    pub closed spec fn wf(&self) -> bool {
        &&& self.classes@.len() >= 1
        &&& self.classes@[0].0@ == "object"@
        &&& keys(self.classes@).no_duplicates()
    }

    /// The root class `object`: metadata only, one cell (the class pointer).
    pub fn new() -> (o: Oop)
        ensures
            o.wf(),
            o.classes_of().len() == 1,
            o.classes_of()[0].0@ == "object"@,
            o.classes_of()[0].1.super_name is None,
            o.classes_of()[0].1.struct_addr == 0,
            o.classes_of()[0].1.isize_bytes == CELL,
            o.classes_of()[0].1.ivars@.len() == 0,
            o.classes_of()[0].1.methods@.len() == 0,
            o.selectors_of().len() == 0,
            o.objects_of().len() == 0,
            o.pending_of() is None,
            o.method_class_of() is None,
            !o.super_pending_of(),
            o.receiver_of() is None,
    {
        let root = ClassInfo {
            super_name: None,
            struct_addr: 0,
            isize_bytes: CELL,
            ivars: Vec::new(),
            methods: Vec::new(),
        };
        let mut classes: Vec<(String, ClassInfo)> = Vec::new();
        classes.push(("object".to_owned(), root));
        let o = Oop {
            classes,
            selectors: Vec::new(),
            objects: Vec::new(),
            pending: None,
            method_class: None,
            super_pending: false,
            receiver: None,
        };
        assert(o.selectors_of() =~= Seq::<Seq<char>>::empty());
        assert(keys(o.classes@) =~= seq!["object"@]);
        o
    }

    /// Find-or-assign a stable selector id for `name`.
    pub fn selector_id(&mut self, name: &str) -> (id: u64)
        requires
            old(self).wf(),
        ensures
            final(self).wf(),
            final(self).selectors_of() == with_selector(old(self).selectors_of(), name@),
            id as int == selector_index(old(self).selectors_of(), name@),
            final(self).classes_of() == old(self).classes_of(),
            final(self).objects_of() == old(self).objects_of(),
            final(self).pending_of() == old(self).pending_of(),
            final(self).method_class_of() == old(self).method_class_of(),
            final(self).super_pending_of() == old(self).super_pending_of(),
            final(self).receiver_of() == old(self).receiver_of(),
    {
        let ghost v = self.selectors_of();
        proof {
            lemma_with_selector(v, name@);
            lemma_name_from(v, name@, 0);
        }
        let mut i: usize = 0;
        while i < self.selectors.len()
            invariant
                self.wf(),
                v == self.selectors@.map_values(|s: String| s@),
                i <= v.len(),
                name_from(v, name@, 0) == name_from(v, name@, i as int),
            decreases v.len() - i,
        {
            if same_text(self.selectors[i].as_str(), name) {
                assert(v[i as int] == name@);
                return i as u64;
            }
            i = i + 1;
        }
        self.selectors.push(name.to_owned());
        assert(self.selectors_of() =~= v.push(name@));
        (self.selectors.len() - 1) as u64
    }

    /// The class named `name`, if there is one.
    pub fn class_named(&self, name: &str) -> (r: Option<&ClassInfo>)
        ensures
            match r {
                Some(c) => lookup(self.classes_of(), name@) == Some(*c),
                None => lookup(self.classes_of(), name@) is None,
            },
    {
        match find_key(&self.classes, name) {
            Some(i) => Some(&self.classes[i].1),
            None => None,
        }
    }

    /// The name of the class whose data-space struct is `addr` (never the root,
    /// whose struct is 0).
    pub fn class_name_by_struct(&self, addr: u64) -> (r: Option<String>)
        ensures
            match r {
                Some(n) => addr != 0 && struct_from(self.classes_of(), addr, 0) is Some && n@ == self.classes_of()[struct_from(self.classes_of(), addr, 0)->Some_0].0@,
                None => addr == 0 || struct_from(self.classes_of(), addr, 0) is None,
            },
    {
        if addr == 0 {
            return None;
        }
        self.class_at_struct(addr)
    }

    /// The name of the first class whose struct is `addr` (`.class`).
    pub fn class_at_struct(&self, addr: u64) -> (r: Option<String>)
        ensures
            match r {
                Some(n) => struct_from(self.classes_of(), addr, 0) is Some && n@ == self.classes_of()[struct_from(self.classes_of(), addr, 0)->Some_0].0@,
                None => struct_from(self.classes_of(), addr, 0) is None,
            },
    {
        let ghost v = self.classes@;
        proof {
            lemma_struct_from(v, addr, 0);
        }
        let mut i: usize = 0;
        while i < self.classes.len()
            invariant
                v == self.classes@,
                i <= v.len(),
                struct_from(v, addr, 0) == struct_from(v, addr, i as int),
            decreases v.len() - i,
        {
            if self.classes[i].1.struct_addr == addr {
                return Some(self.classes[i].0.clone());
            }
            i = i + 1;
        }
        None
    }

    /// Is `x` the data-space struct of a class (`class?`, and the class test
    /// of `object?`)?
    pub fn is_class_struct(&self, x: u64) -> (b: bool)
        ensures
            b == (x != 0 && struct_from(self.classes_of(), x, 0) is Some),
    {
        match self.class_name_by_struct(x) {
            Some(_) => true,
            None => false,
        }
    }

    /// While a method body is compiled, the byte offset of its class's instance
    /// variable `name` (the first so named), taken to 32 bits.
    pub open spec fn ivar_offset_of(&self, name: Seq<char>) -> Option<u32> {
        match (self.method_class_of(), self.pending_of()) {
            (Some(_), Some((_, c))) => match lookup(c.ivars@, name) {
                Some(o) => Some(o as u32),
                None => None,
            },
            _ => None,
        }
    }

    /// While a method body is compiled, the byte offset of its class's instance
    /// variable `name` (the first so named), taken to 32 bits.
    pub fn ivar_offset(&self, name: &str) -> (r: Option<u32>)
        ensures
            r == self.ivar_offset_of(name@),
    {
        if self.method_class.is_none() {
            return None;
        }
        match &self.pending {
            Some((_, c)) => match find_key(&c.ivars, name) {
                Some(i) => Some(c.ivars[i].1 as u32),
                None => None,
            },
            None => None,
        }
    }

    /// Is a method body being compiled?
    pub fn in_method(&self) -> (b: bool)
        ensures
            b == self.method_class_of() is Some,
    {
        self.method_class.is_some()
    }
}

impl Oop {
    /// `class NAME` / `subclass NAME`: start building a class under `parent`,
    /// inheriting its instance layout and (by copy-down) its methods.
    pub fn start_class(&mut self, name: &str, parent: &str) -> (r: Result<(), OopError>)
        requires
            old(self).wf(),
        ensures
            final(self).wf(),
            r is Err <==> lookup(old(self).classes_of(), parent@) is None,
            r is Err ==> r == Err::<(), OopError>(OopError::UnknownParent) && final(self).pending_of()
                == old(self).pending_of(),
            r is Ok ==> ({
                let p = lookup(old(self).classes_of(), parent@)->Some_0;
                &&& final(self).pending_of() is Some
                &&& final(self).pending_of()->Some_0.0@ == name@
                &&& final(self).pending_of()->Some_0.1.super_name is Some
                &&& final(self).pending_of()->Some_0.1.super_name->Some_0@ == parent@
                &&& final(self).pending_of()->Some_0.1.struct_addr == 0
                &&& final(self).pending_of()->Some_0.1.isize_bytes == p.isize_bytes
                &&& final(self).pending_of()->Some_0.1.ivars@ == p.ivars@
                &&& final(self).pending_of()->Some_0.1.methods@ == p.methods@
            }),
            final(self).classes_of() == old(self).classes_of(),
            final(self).selectors_of() == old(self).selectors_of(),
            final(self).objects_of() == old(self).objects_of(),
            final(self).method_class_of() == old(self).method_class_of(),
            final(self).super_pending_of() == old(self).super_pending_of(),
            final(self).receiver_of() == old(self).receiver_of(),
    {
        let c = match find_key(&self.classes, parent) {
            Some(i) => ClassInfo {
                super_name: Some(parent.to_owned()),
                struct_addr: 0,
                isize_bytes: self.classes[i].1.isize_bytes,
                ivars: copy_entries(&self.classes[i].1.ivars),
                methods: copy_entries(&self.classes[i].1.methods),
            },
            None => return Err(OopError::UnknownParent),
        };
        self.pending = Some((name.to_owned(), c));
        Ok(())
    }

    /// `SIZE ivar: NAME`: add an instance variable at the end of the instance
    /// (the size is added as the counters wrap).
    pub fn add_ivar(&mut self, name: &str, size: u64) -> (r: Result<(), OopError>)
        requires
            old(self).wf(),
        ensures
            final(self).wf(),
            r is Err <==> old(self).pending_of() is None,
            r is Err ==> r == Err::<(), OopError>(OopError::IvarOutsideClass),
            r is Ok ==> ({
                let c0 = old(self).pending_of()->Some_0.1;
                let c1 = final(self).pending_of()->Some_0.1;
                &&& final(self).pending_of() is Some
                &&& final(self).pending_of()->Some_0.0 == old(self).pending_of()->Some_0.0
                &&& c1.ivars@.len() == c0.ivars@.len() + 1
                &&& c1.ivars@.drop_last() == c0.ivars@
                &&& c1.ivars@.last().0@ == name@
                &&& c1.ivars@.last().1 == c0.isize_bytes
                &&& c1.isize_bytes == c0.isize_bytes.wrapping_add(size)
                &&& c1.super_name == c0.super_name
                &&& c1.struct_addr == c0.struct_addr
                &&& c1.methods@ == c0.methods@
            }),
            r is Err ==> final(self).pending_of() == old(self).pending_of(),
            final(self).classes_of() == old(self).classes_of(),
            final(self).selectors_of() == old(self).selectors_of(),
            final(self).objects_of() == old(self).objects_of(),
            final(self).method_class_of() == old(self).method_class_of(),
            final(self).super_pending_of() == old(self).super_pending_of(),
            final(self).receiver_of() == old(self).receiver_of(),
    {
        match self.pending.take() {
            Some((n, mut c)) => {
                let off = c.isize_bytes;
                let ghost v0 = c.ivars@;
                c.ivars.push((name.to_owned(), off));
                assert(c.ivars@.drop_last() =~= v0);
                c.isize_bytes = c.isize_bytes.wrapping_add(size);
                self.pending = Some((n, c));
                Ok(())
            },
            None => Err(OopError::IvarOutsideClass),
        }
    }

    /// `:m SELECTOR`: start a method of the class being built (the selector
    /// takes its id now).
    pub fn begin_method(&mut self, selector: &str) -> (r: Result<(), OopError>)
        requires
            old(self).wf(),
        ensures
            final(self).wf(),
            r is Err <==> old(self).pending_of() is None,
            r is Err ==> r == Err::<(), OopError>(OopError::MethodOutsideClass) && final(self).selectors_of()
                == old(self).selectors_of() && final(self).method_class_of() == old(self).method_class_of(),
            r is Ok ==> final(self).selectors_of() == with_selector(old(self).selectors_of(), selector@)
                && final(self).method_class_of() == Some(old(self).pending_of()->Some_0.0@),
            final(self).classes_of() == old(self).classes_of(),
            final(self).objects_of() == old(self).objects_of(),
            final(self).pending_of() == old(self).pending_of(),
            final(self).super_pending_of() == old(self).super_pending_of(),
            final(self).receiver_of() == old(self).receiver_of(),
    {
        let class = match &self.pending {
            Some((n, _)) => n.clone(),
            None => return Err(OopError::MethodOutsideClass),
        };
        self.selector_id(selector);
        self.method_class = Some(class);
        Ok(())
    }

    /// `;m`: the method body compiled to `xt` joins the class being built
    /// (replacing an inherited method of that selector).
    pub fn end_method(&mut self, selector: &str, xt: u64) -> (r: Result<(), OopError>)
        requires
            old(self).wf(),
        ensures
            final(self).wf(),
            r is Err <==> old(self).pending_of() is None,
            r is Err ==> r == Err::<(), OopError>(OopError::EndMethodOutsideClass),
            r is Ok ==> ({
                let c0 = old(self).pending_of()->Some_0.1;
                let c1 = final(self).pending_of()->Some_0.1;
                &&& final(self).pending_of() is Some
                &&& final(self).pending_of()->Some_0.0 == old(self).pending_of()->Some_0.0
                &&& put_ok(c0.methods@, selector@, xt, c1.methods@)
                &&& c1.ivars@ == c0.ivars@
                &&& c1.isize_bytes == c0.isize_bytes
                &&& c1.super_name == c0.super_name
                &&& c1.struct_addr == c0.struct_addr
            }),
            r is Err ==> final(self).pending_of() == old(self).pending_of(),
            final(self).method_class_of() is None,
            final(self).classes_of() == old(self).classes_of(),
            final(self).selectors_of() == old(self).selectors_of(),
            final(self).objects_of() == old(self).objects_of(),
            final(self).super_pending_of() == old(self).super_pending_of(),
            final(self).receiver_of() == old(self).receiver_of(),
    {
        self.method_class = None;
        match self.pending.take() {
            Some((n, mut c)) => {
                put(&mut c.methods, selector, xt);
                self.pending = Some((n, c));
                Ok(())
            },
            None => Err(OopError::EndMethodOutsideClass),
        }
    }

    /// `end-class`: the class being built gets its data-space struct at
    /// `struct_addr` and is registered under its name. What the host writes
    /// into the struct comes back: the parent's struct (0 where there is none)
    /// and, per method, its selector id and xt.
    pub fn end_class(&mut self, struct_addr: u64) -> (r: Result<(u64, Vec<(u64, u64)>), OopError>)
        requires
            old(self).wf(),
        ensures
            final(self).wf(),
            r is Err <==> old(self).pending_of() is None,
            r is Err ==> r == Err::<(u64, Vec<(u64, u64)>), OopError>(OopError::EndWithoutClass),
            r is Err ==> final(self).classes_of() == old(self).classes_of(),
            r is Err ==> final(self).selectors_of() == old(self).selectors_of(),
            r is Ok ==> ({
                let (name, c) = old(self).pending_of()->Some_0;
                let (sup, slots) = r->Ok_0;
                let sels = keys(c.methods@);
                let table = with_selectors(old(self).selectors_of(), sels);
                &&& sup == match c.super_name {
                    Some(p) => match lookup(old(self).classes_of(), p@) {
                        Some(pc) => pc.struct_addr,
                        None => 0,
                    },
                    None => 0,
                }
                &&& final(self).selectors_of() == table
                &&& slots@.len() == c.methods@.len()
                &&& forall|j: int| 0 <= j < slots@.len() ==> (#[trigger] slots@[j]).1 == c.methods@[j].1 && slots@[j].0
                    == selector_index(with_selectors(old(self).selectors_of(), sels.take(j)), sels[j])
                &&& final(self).pending_of() is None
                &&& put_ok(
                    old(self).classes_of(),
                    name@,
                    ClassInfo { struct_addr, ..c },
                    final(self).classes_of(),
                )
            }),
            r is Err ==> final(self).pending_of() == old(self).pending_of(),
            final(self).objects_of() == old(self).objects_of(),
            final(self).method_class_of() == old(self).method_class_of(),
            final(self).super_pending_of() == old(self).super_pending_of(),
            final(self).receiver_of() == old(self).receiver_of(),
    {
        let (name, mut c) = match self.pending.take() {
            Some(p) => p,
            None => return Err(OopError::EndWithoutClass),
        };
        let sup = match &c.super_name {
            Some(p) => match find_key(&self.classes, p.as_str()) {
                Some(i) => self.classes[i].1.struct_addr,
                None => 0,
            },
            None => 0,
        };
        let ghost sels = keys(c.methods@);
        let ghost t0 = self.selectors_of();
        let mut slots: Vec<(u64, u64)> = Vec::new();
        let mut j: usize = 0;
        while j < c.methods.len()
            invariant
                self.wf(),
                j <= c.methods@.len(),
                sels == keys(c.methods@),
                self.selectors_of() == with_selectors(t0, sels.take(j as int)),
                slots@.len() == j,
                forall|q: int| 0 <= q < j ==> (#[trigger] slots@[q]).1 == c.methods@[q].1 && slots@[q].0
                    == selector_index(with_selectors(t0, sels.take(q)), sels[q]),
                self.classes@ == old(self).classes@,
                self.objects@ == old(self).objects@,
                self.pending is None,
                self.method_class_of() == old(self).method_class_of(),
                self.super_pending == old(self).super_pending,
                self.receiver_of() == old(self).receiver_of(),
            decreases c.methods@.len() - j,
        {
            proof {
                assert(sels.take(j as int + 1).drop_last() =~= sels.take(j as int));
                assert(sels[j as int] == c.methods@[j as int].0@);
            }
            let id = self.selector_id(c.methods[j].0.as_str());
            slots.push((id, c.methods[j].1));
            j = j + 1;
        }
        proof {
            assert(sels.take(j as int) =~= sels);
        }
        c.struct_addr = struct_addr;
        let ghost cl0 = self.classes@;
        put(&mut self.classes, name.as_str(), c);
        proof {
            lemma_put_keys(cl0, name@, c, self.classes@);
            assert(self.classes@[0].0 == cl0[0].0);
        }
        Ok((sup, slots))
    }
}

impl Oop {
    /// `C new NAME`: what an instance of `class_name` takes — its size in bytes
    /// and its class struct.
    pub fn instance_of(&self, class_name: &str) -> (r: Result<(u64, u64), OopError>)
        ensures
            match lookup(self.classes_of(), class_name@) {
                Some(c) => r == Ok::<(u64, u64), OopError>((c.isize_bytes, c.struct_addr)),
                None => r == Err::<(u64, u64), OopError>(OopError::UnknownClass),
            },
    {
        match self.class_named(class_name) {
            Some(c) => Ok((c.isize_bytes, c.struct_addr)),
            None => Err(OopError::UnknownClass),
        }
    }

    /// Register the instance `name` at `addr`, of class `class_name`.
    pub fn add_object(&mut self, name: &str, addr: u64, class_name: &str)
        requires
            old(self).wf(),
        ensures
            final(self).wf(),
            ({
                let v0 = old(self).objects_of();
                let v1 = final(self).objects_of();
                match first_key(v0, name@) {
                    Some(i) => v1.len() == v0.len() && v1[i].0 == v0[i].0 && v1[i].1.0 == addr && v1[i].1.1@
                        == class_name@ && (forall|j: int| 0 <= j < v0.len() && j != i ==> v1[j] == v0[j]),
                    None => v1.drop_last() == v0 && v1.len() == v0.len() + 1 && v1.last().0@ == name@
                        && v1.last().1.0 == addr && v1.last().1.1@ == class_name@,
                }
            }),
            final(self).classes_of() == old(self).classes_of(),
            final(self).selectors_of() == old(self).selectors_of(),
            final(self).pending_of() == old(self).pending_of(),
            final(self).method_class_of() == old(self).method_class_of(),
            final(self).super_pending_of() == old(self).super_pending_of(),
            final(self).receiver_of() == old(self).receiver_of(),
    {
        let ghost o0 = self.objects@;
        put(&mut self.objects, name, (addr, class_name.to_owned()));
        proof {
            lemma_key_from_in(o0, name@, 0);
        }
    }

    /// The instance named `name`: its base address and class name.
    pub fn object_named(&self, name: &str) -> (r: Option<(u64, String)>)
        ensures
            match lookup(self.objects_of(), name@) {
                Some((a, c)) => r is Some && r->Some_0.0 == a && r->Some_0.1@ == c@,
                None => r is None,
            },
    {
        match find_key(&self.objects, name) {
            Some(i) => Some((self.objects[i].1.0, self.objects[i].1.1.clone())),
            None => None,
        }
    }

    /// Is `name` a class or an instance?
    pub fn is_defined(&self, name: &str) -> (b: bool)
        ensures
            b == (lookup(self.classes_of(), name@) is Some || lookup(self.objects_of(), name@) is Some),
    {
        find_key(&self.classes, name).is_some() || find_key(&self.objects, name).is_some()
    }

    /// `super` in a method: the next send binds to the parent's method.
    pub fn mark_super(&mut self)
        requires
            old(self).wf(),
        ensures
            final(self).wf(),
            final(self).super_pending_of(),
            final(self).classes_of() == old(self).classes_of(),
            final(self).selectors_of() == old(self).selectors_of(),
            final(self).objects_of() == old(self).objects_of(),
            final(self).pending_of() == old(self).pending_of(),
            final(self).method_class_of() == old(self).method_class_of(),
            final(self).receiver_of() == old(self).receiver_of(),
    {
        self.super_pending = true;
    }

    /// The most recent receiver's static class (`None`: unknown).
    pub fn set_receiver(&mut self, class_name: Option<String>)
        requires
            old(self).wf(),
        ensures
            final(self).wf(),
            final(self).receiver_of() == match class_name {
                Some(c) => Some(c@),
                None => None::<Seq<char>>,
            },
            final(self).classes_of() == old(self).classes_of(),
            final(self).selectors_of() == old(self).selectors_of(),
            final(self).objects_of() == old(self).objects_of(),
            final(self).pending_of() == old(self).pending_of(),
            final(self).method_class_of() == old(self).method_class_of(),
            final(self).super_pending_of() == old(self).super_pending_of(),
    {
        self.receiver = class_name;
    }

    /// `recv -> SELECTOR`: the method the send binds to early, where the
    /// receiver's class is known (a `super` send, or a named instance); the
    /// send consumes that knowledge.
    pub fn bind_send(&mut self, selector: &str) -> (r: Option<u64>)
        requires
            old(self).wf(),
        ensures
            final(self).wf(),
            r == early_binding(
                old(self).classes_of(),
                old(self).pending_of(),
                old(self).super_pending_of(),
                old(self).receiver_of(),
                selector@,
            ),
            !final(self).super_pending_of(),
            final(self).receiver_of() is None,
            final(self).classes_of() == old(self).classes_of(),
            final(self).selectors_of() == old(self).selectors_of(),
            final(self).objects_of() == old(self).objects_of(),
            final(self).pending_of() == old(self).pending_of(),
            final(self).method_class_of() == old(self).method_class_of(),
    {
        let r = if self.super_pending {
            match &self.pending {
                Some((_, c)) => match &c.super_name {
                    Some(p) => match self.class_named(p.as_str()) {
                        Some(pc) => match find_key(&pc.methods, selector) {
                            Some(i) => Some(pc.methods[i].1),
                            None => None,
                        },
                        None => None,
                    },
                    None => None,
                },
                None => None,
            }
        } else {
            match &self.receiver {
                Some(cls) => match self.class_named(cls.as_str()) {
                    Some(c) => match find_key(&c.methods, selector) {
                        Some(i) => Some(c.methods[i].1),
                        None => None,
                    },
                    None => None,
                },
                None => None,
            }
        };
        self.super_pending = false;
        self.receiver = None;
        r
    }

    /// Abandon a half-built class or method (error recovery).
    pub fn abandon(&mut self)
        requires
            old(self).wf(),
        ensures
            final(self).wf(),
            final(self).pending_of() is None,
            final(self).method_class_of() is None,
            !final(self).super_pending_of(),
            final(self).receiver_of() == old(self).receiver_of(),
            final(self).classes_of() == old(self).classes_of(),
            final(self).selectors_of() == old(self).selectors_of(),
            final(self).objects_of() == old(self).objects_of(),
    {
        self.pending = None;
        self.method_class = None;
        self.super_pending = false;
    }

    /// Back to the root class only, with no instances and nothing half built;
    /// selector ids are kept.
    pub fn reset(&mut self)
        requires
            old(self).wf(),
        ensures
            final(self).wf(),
            final(self).classes_of() == old(self).classes_of().filter(is_root()),
            final(self).objects_of().len() == 0,
            final(self).selectors_of() == old(self).selectors_of(),
            final(self).pending_of() is None,
            final(self).method_class_of() is None,
            !final(self).super_pending_of(),
            final(self).receiver_of() is None,
    {
        let ghost v = self.classes@;
        self.classes.truncate(1);
        proof {
            lemma_root_only(v);
        }
        self.objects.clear();
        self.pending = None;
        self.method_class = None;
        self.super_pending = false;
        self.receiver = None;
        assert(keys(self.classes@) =~= seq!["object"@]);
    }
}

/// The test for the root class's entry.
pub open spec fn is_root() -> spec_fn((String, ClassInfo)) -> bool {
    |e: (String, ClassInfo)| e.0@ == "object"@
}

/// With the root first and the names distinct, the classes named `object` are
/// the first one alone.
proof fn lemma_root_only(v: Seq<(String, ClassInfo)>)
    requires
        v.len() >= 1,
        v[0].0@ == "object"@,
        keys(v).no_duplicates(),
    ensures
        v.filter(is_root()) == v.subrange(0, 1),
    decreases v.len(),
{
    reveal(Seq::filter);
    let f = is_root();
    if v.len() == 1 {
        assert(v =~= seq![v[0]]);
        assert(v.drop_last() =~= Seq::<(String, ClassInfo)>::empty());
        assert(v.drop_last().filter(f) =~= Seq::<(String, ClassInfo)>::empty());
        assert(v.subrange(0, 1) =~= v);
    } else {
        let w = v.drop_last();
        assert(keys(w) =~= keys(v).drop_last());
        assert(keys(w).no_duplicates()) by {
            assert forall|a: int, b: int| 0 <= a < b < keys(w).len() implies keys(w)[a] != keys(w)[b] by {
                assert(keys(w)[a] == keys(v)[a]);
                assert(keys(w)[b] == keys(v)[b]);
            }
        }
        lemma_root_only(w);
        assert(keys(v)[v.len() - 1] != keys(v)[0]);
        assert(!f(v.last()));
        assert(v.filter(f) == w.filter(f));
        assert(w.subrange(0, 1) =~= v.subrange(0, 1));
    }
}

} // verus!
