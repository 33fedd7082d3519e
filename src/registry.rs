use vstd::prelude::*;
use crate::action::Action;
use crate::input::{Hotkey, ModifierSet, Trigger};

verus! {

/// The action bound to `h` in a list of bindings; a later binding of the same
/// hotkey hides an earlier one.
pub open spec fn lookup(s: Seq<(Hotkey, Action)>, h: Hotkey) -> Option<Action>
    decreases s.len(),
{
    if s.len() == 0 {
        None
    } else if s.last().0 == h {
        Some(s.last().1)
    } else {
        lookup(s.drop_last(), h)
    }
}

/// The bindings of `s` other than those of `h`, in their order.
pub open spec fn unbound(s: Seq<(Hotkey, Action)>, h: Hotkey) -> Seq<(Hotkey, Action)>
    decreases s.len(),
{
    if s.len() == 0 {
        s
    } else if s.last().0 == h {
        unbound(s.drop_last(), h)
    } else {
        unbound(s.drop_last(), h).push(s.last())
    }
}

/// No hotkey is bound twice.
pub open spec fn unique_hotkeys(s: Seq<(Hotkey, Action)>) -> bool {
    forall|i: int, j: int| 0 <= i < j < s.len() ==> #[trigger] s[i].0 != #[trigger] s[j].0
}

/// `h` fires on `trigger` while the modifiers `active` are held.
pub open spec fn hotkey_matches(h: Hotkey, trigger: Trigger, active: ModifierSet) -> bool {
    h.trigger == trigger && h.modifiers.subset_of(active)
}

/// Binding `i` of `s` is the one that an event on `trigger` with `active`
/// held selects: it matches, no match has more modifiers, and every later
/// match has fewer.
pub open spec fn is_best(s: Seq<(Hotkey, Action)>, trigger: Trigger, active: ModifierSet, i: int) -> bool {
    &&& 0 <= i < s.len()
    &&& hotkey_matches(s[i].0, trigger, active)
    &&& forall|j: int|
        0 <= j < s.len() && #[trigger] hotkey_matches(s[j].0, trigger, active) ==> {
            &&& s[j].0.modifiers.size() <= s[i].0.modifiers.size()
            &&& (j > i ==> s[j].0.modifiers.size() < s[i].0.modifiers.size())
        }
}

/// The hotkey that an event on `trigger` with `active` held selects, if any.
pub open spec fn resolution(s: Seq<(Hotkey, Action)>, trigger: Trigger, active: ModifierSet) -> Option<Hotkey> {
    if exists|i: int| is_best(s, trigger, active, i) {
        Some(s[choose|i: int| is_best(s, trigger, active, i)].0)
    } else {
        None
    }
}

/// At most one binding is selected.
pub proof fn lemma_best_unique(s: Seq<(Hotkey, Action)>, trigger: Trigger, active: ModifierSet, i: int, j: int)
    requires
        is_best(s, trigger, active, i),
        is_best(s, trigger, active, j),
    ensures
        i == j,
{
    assert(hotkey_matches(s[j].0, trigger, active));
    assert(hotkey_matches(s[i].0, trigger, active));
}

/// What `lookup` gives when `i` is the last binding of `h`.
proof fn lemma_lookup_at(s: Seq<(Hotkey, Action)>, h: Hotkey, i: int)
    requires
        0 <= i < s.len(),
        s[i].0 == h,
        forall|j: int| i < j < s.len() ==> #[trigger] s[j].0 != h,
    ensures
        lookup(s, h) == Some(s[i].1),
    decreases s.len(),
{
    if i < s.len() - 1 {
        assert(s.last().0 != h);
        lemma_lookup_at(s.drop_last(), h, i);
    }
}

/// `lookup` finds nothing where `h` is not bound.
proof fn lemma_lookup_none(s: Seq<(Hotkey, Action)>, h: Hotkey)
    requires
        forall|j: int| 0 <= j < s.len() ==> #[trigger] s[j].0 != h,
    ensures
        lookup(s, h) is None,
    decreases s.len(),
{
    if s.len() > 0 {
        assert(s[s.len() - 1].0 != h);
        lemma_lookup_none(s.drop_last(), h);
    }
}

/// Taking out the bindings of `h` keeps the others and what they map to.
proof fn lemma_unbound(s: Seq<(Hotkey, Action)>, h: Hotkey)
    ensures
        forall|i: int| 0 <= i < unbound(s, h).len() ==> #[trigger] unbound(s, h)[i].0 != h
            && s.contains(unbound(s, h)[i]),
        unique_hotkeys(s) ==> unique_hotkeys(unbound(s, h)),
        forall|g: Hotkey| g != h ==> #[trigger] lookup(unbound(s, h), g) == lookup(s, g),
    decreases s.len(),
{
    if s.len() > 0 {
        let p = s.drop_last();
        lemma_unbound(p, h);
        let u = unbound(p, h);
        assert forall|i: int| 0 <= i < u.len() implies s.contains(#[trigger] u[i]) by {
            let j = choose|j: int| 0 <= j < p.len() && p[j] == u[i];
            assert(s[j] == u[i]);
        }
        if s.last().0 != h {
            let w = u.push(s.last());
            assert(w.drop_last() =~= u);
            assert forall|i: int| 0 <= i < w.len() implies #[trigger] w[i].0 != h && s.contains(
                w[i],
            ) by {
                if i == u.len() {
                    assert(s[s.len() - 1] == w[i]);
                } else {
                    assert(w[i] == u[i]);
                }
            }
            assert forall|g: Hotkey| g != h implies #[trigger] lookup(unbound(s, h), g) == lookup(
                s,
                g,
            ) by {
                assert(lookup(u, g) == lookup(p, g));
            }
            if unique_hotkeys(s) {
                assert(unique_hotkeys(p));
                assert forall|a: int, b: int| 0 <= a < b < w.len() implies #[trigger] w[a].0
                    != #[trigger] w[b].0 by {
                    if b == u.len() {
                        assert(w[a] == u[a]);
                        let j = choose|j: int| 0 <= j < p.len() && p[j] == u[a];
                        assert(s[j] == u[a]);
                        assert(s[s.len() - 1] == w[b]);
                    } else {
                        assert(w[a] == u[a] && w[b] == u[b]);
                    }
                }
            }
        } else {
            assert forall|g: Hotkey| g != h implies #[trigger] lookup(unbound(s, h), g) == lookup(
                s,
                g,
            ) by {
                assert(lookup(u, g) == lookup(p, g));
            }
            if unique_hotkeys(s) {
                assert(unique_hotkeys(p));
            }
        }
    }
}

/// A bound hotkey has a binding in the list.
proof fn lemma_lookup_some(s: Seq<(Hotkey, Action)>, h: Hotkey) -> (i: int)
    requires
        lookup(s, h) is Some,
    ensures
        0 <= i < s.len(),
        s[i].0 == h,
    decreases s.len(),
{
    if s.last().0 == h {
        s.len() - 1
    } else {
        lemma_lookup_some(s.drop_last(), h)
    }
}

/// Binding the same hotkey twice: the second action is the one bound, and
/// no binding of the hotkey to the first action is left.
pub proof fn lemma_second_binding_wins(s: Seq<(Hotkey, Action)>, h: Hotkey, first: Action, second: Action)
    ensures
        ({
            let after = unbound(unbound(s, h).push((h, first)), h).push((h, second));
            &&& lookup(after, h) == Some(second)
            &&& forall|i: int| 0 <= i < after.len() && #[trigger] after[i].0 == h ==> i == after.len() - 1
        }),
{
    let once = unbound(s, h).push((h, first));
    let u = unbound(once, h);
    let after = u.push((h, second));
    lemma_unbound(once, h);
    assert forall|i: int| 0 <= i < after.len() && #[trigger] after[i].0 == h implies i == after.len()
        - 1 by {
        if i < u.len() {
            assert(after[i] == u[i]);
        }
    }
}

/// With bindings of `trigger` alone and of `trigger` with the one modifier
/// `m`, an event on `trigger` while exactly `m` is held selects the second,
/// and while no modifier is held selects the first.
pub proof fn lemma_more_specific_wins(
    s: Seq<(Hotkey, Action)>,
    trigger: Trigger,
    m: crate::input::Modifier,
    none: ModifierSet,
    one: ModifierSet,
)
    requires
        unique_hotkeys(s),
        forall|x: crate::input::Modifier| !#[trigger] none.has(x),
        forall|x: crate::input::Modifier| #[trigger] one.has(x) <==> x == m,
        lookup(s, Hotkey { modifiers: none, trigger }) is Some,
        lookup(s, Hotkey { modifiers: one, trigger }) is Some,
    ensures
        resolution(s, trigger, one) == Some(Hotkey { modifiers: one, trigger }),
        resolution(s, trigger, none) == Some(Hotkey { modifiers: none, trigger }),
{
    let h0 = Hotkey { modifiers: none, trigger };
    let h1 = Hotkey { modifiers: one, trigger };
    let i0 = lemma_lookup_some(s, h0);
    let i1 = lemma_lookup_some(s, h1);
    assert(!none.ctrl && !none.shift && !none.alt && !none.meta) by {
        assert(!none.has(crate::input::Modifier::Ctrl));
        assert(!none.has(crate::input::Modifier::Shift));
        assert(!none.has(crate::input::Modifier::Alt));
        assert(!none.has(crate::input::Modifier::Meta));
    }
    assert(one.has(m));
    assert(one.size() == 1) by {
        assert(one.has(crate::input::Modifier::Ctrl) <==> m == crate::input::Modifier::Ctrl);
        assert(one.has(crate::input::Modifier::Shift) <==> m == crate::input::Modifier::Shift);
        assert(one.has(crate::input::Modifier::Alt) <==> m == crate::input::Modifier::Alt);
        assert(one.has(crate::input::Modifier::Meta) <==> m == crate::input::Modifier::Meta);
    }
    assert forall|j: int|
        0 <= j < s.len() && #[trigger] hotkey_matches(s[j].0, trigger, one) implies {
            &&& s[j].0.modifiers.size() <= s[i1].0.modifiers.size()
            &&& (j > i1 ==> s[j].0.modifiers.size() < s[i1].0.modifiers.size())
        } by {
        let ms = s[j].0.modifiers;
        assert(ms.subset_of(one));
        assert(ms.has(crate::input::Modifier::Ctrl) ==> one.has(crate::input::Modifier::Ctrl));
        assert(ms.has(crate::input::Modifier::Shift) ==> one.has(crate::input::Modifier::Shift));
        assert(ms.has(crate::input::Modifier::Alt) ==> one.has(crate::input::Modifier::Alt));
        assert(ms.has(crate::input::Modifier::Meta) ==> one.has(crate::input::Modifier::Meta));
        if ms.size() == 1 && j != i1 {
            assert(ms.has(m));
            assert(ms == one);
            assert(s[j].0 == h1);
            if j < i1 {
                assert(s[j].0 != s[i1].0);
            } else {
                assert(s[i1].0 != s[j].0);
            }
        }
    }
    assert(is_best(s, trigger, one, i1));
    let k1 = choose|k: int| is_best(s, trigger, one, k);
    lemma_best_unique(s, trigger, one, k1, i1);
    assert forall|j: int|
        0 <= j < s.len() && #[trigger] hotkey_matches(s[j].0, trigger, none) implies {
            &&& s[j].0.modifiers.size() <= s[i0].0.modifiers.size()
            &&& (j > i0 ==> s[j].0.modifiers.size() < s[i0].0.modifiers.size())
        } by {
        let ms = s[j].0.modifiers;
        assert(ms.subset_of(none));
        assert(ms.has(crate::input::Modifier::Ctrl) ==> none.has(crate::input::Modifier::Ctrl));
        assert(ms.has(crate::input::Modifier::Shift) ==> none.has(crate::input::Modifier::Shift));
        assert(ms.has(crate::input::Modifier::Alt) ==> none.has(crate::input::Modifier::Alt));
        assert(ms.has(crate::input::Modifier::Meta) ==> none.has(crate::input::Modifier::Meta));
        assert(ms == none);
        if j != i0 {
            assert(s[j].0 == h0);
            if j < i0 {
                assert(s[j].0 != s[i0].0);
            } else {
                assert(s[i0].0 != s[j].0);
            }
        }
    }
    assert(is_best(s, trigger, none, i0));
    let k0 = choose|k: int| is_best(s, trigger, none, k);
    lemma_best_unique(s, trigger, none, k0, i0);
}

/// The hotkeys bound in `s` that tie with `h`: another modifier set of the
/// same size on the same trigger, so that holding both sets leaves the choice
/// to the order of binding.
pub open spec fn rivals(s: Seq<(Hotkey, Action)>, h: Hotkey) -> Seq<Hotkey>
    decreases s.len(),
{
    if s.len() == 0 {
        seq![]
    } else {
        let g = s.last().0;
        if g.trigger == h.trigger && g.modifiers != h.modifiers && g.modifiers.size()
            == h.modifiers.size() {
            rivals(s.drop_last(), h).push(g)
        } else {
            rivals(s.drop_last(), h)
        }
    }
}

/// Registry mapping hotkeys to actions, in the order they were bound.
pub struct BindingRegistry {
    bindings: Vec<(Hotkey, Action)>,
}

impl BindingRegistry {
    /// The bindings, oldest first.
    pub closed spec fn entries(&self) -> Seq<(Hotkey, Action)> {
        self.bindings@
    }

    /// No hotkey is bound twice.
    pub open spec fn wf(&self) -> bool {
        unique_hotkeys(self.entries())
    }

    /// An empty registry.
    pub fn new() -> (r: BindingRegistry)
        ensures
            r.wf(),
            r.entries().len() == 0,
    {
        BindingRegistry { bindings: Vec::new() }
    }

    /// Binds `hotkey` to `action`, replacing any earlier binding of it; the
    /// binding becomes the most recent one.
    pub fn bind(self, hotkey: Hotkey, action: Action) -> (r: BindingRegistry)
        requires
            self.wf(),
        ensures
            r.wf(),
            r.entries() == unbound(self.entries(), hotkey).push((hotkey, action)),
            lookup(r.entries(), hotkey) == Some(action),
            forall|g: Hotkey| g != hotkey ==> #[trigger] lookup(r.entries(), g) == lookup(
                self.entries(),
                g,
            ),
    {
        let BindingRegistry { bindings } = self;
        let ghost s = bindings@;
        let mut kept: Vec<(Hotkey, Action)> = Vec::new();
        let mut rest = bindings;
        proof {
            lemma_unbound(s, hotkey);
        }
        while rest.len() > 0
            invariant
                rest@.len() <= s.len(),
                rest@ == s.subrange(s.len() - rest@.len(), s.len() as int),
                kept@ == unbound(s.subrange(0, s.len() - rest@.len()), hotkey),
            decreases rest@.len(),
        {
            let ghost n = s.len() - rest@.len();
            let e = rest.remove(0);
            proof {
                assert(e == s[n]);
                assert(rest@ =~= s.subrange(n + 1, s.len() as int));
                assert(s.subrange(0, n + 1).drop_last() =~= s.subrange(0, n));
            }
            if e.0 != hotkey {
                kept.push(e);
            }
        }
        proof {
            assert(s.subrange(0, s.len() as int) =~= s);
        }
        kept.push((hotkey, action));
        let r = BindingRegistry { bindings: kept };
        proof {
            let u = unbound(s, hotkey);
            assert(r.entries().drop_last() =~= u);
            assert forall|g: Hotkey| g != hotkey implies #[trigger] lookup(r.entries(), g) == lookup(
                s,
                g,
            ) by {
                assert(lookup(u, g) == lookup(s, g));
            }
            assert forall|a: int, b: int| 0 <= a < b < r.entries().len() implies #[trigger] r.entries()[a].0
                != #[trigger] r.entries()[b].0 by {
                if b == u.len() {
                    assert(r.entries()[a] == u[a]);
                } else {
                    assert(r.entries()[a] == u[a] && r.entries()[b] == u[b]);
                }
            }
        }
        r
    }

    /// The action bound to `hotkey`, if any.
    pub fn get_action(&self, hotkey: &Hotkey) -> (r: Option<&Action>)
        ensures
            match r {
                Some(a) => lookup(self.entries(), *hotkey) == Some(*a),
                None => lookup(self.entries(), *hotkey) is None,
            },
    {
        let mut i: usize = self.bindings.len();
        while i > 0
            invariant
                i <= self.bindings@.len(),
                forall|j: int| i <= j < self.bindings@.len() ==> #[trigger] self.bindings@[j].0 != *hotkey,
            decreases i,
        {
            if self.bindings[i - 1].0 == *hotkey {
                proof {
                    lemma_lookup_at(self.bindings@, *hotkey, i - 1);
                }
                return Some(&self.bindings[i - 1].1);
            }
            i = i - 1;
        }
        proof {
            lemma_lookup_none(self.bindings@, *hotkey);
        }
        None
    }

    /// Whether `hotkey` is bound.
    pub fn is_registered(&self, hotkey: &Hotkey) -> (r: bool)
        ensures
            r == lookup(self.entries(), *hotkey) is Some,
    {
        self.get_action(hotkey).is_some()
    }

    /// Number of bound hotkeys.
    pub fn len(&self) -> (r: usize)
        ensures
            r == self.entries().len(),
    {
        self.bindings.len()
    }

    /// The bound hotkeys that are equally specific rivals of `hotkey`, for a
    /// configuration warning; the most recent binding wins such a tie.
    pub fn ambiguous_with(&self, hotkey: &Hotkey) -> (r: Vec<Hotkey>)
        ensures
            r@ == rivals(self.entries(), *hotkey),
    {
        let n = hotkey.modifiers.count();
        let mut out: Vec<Hotkey> = Vec::new();
        let mut i: usize = 0;
        while i < self.bindings.len()
            invariant
                i <= self.bindings@.len(),
                n as nat == hotkey.modifiers.size(),
                out@ == rivals(self.bindings@.subrange(0, i as int), *hotkey),
            decreases self.bindings@.len() - i,
        {
            let g = self.bindings[i].0;
            if g.trigger == hotkey.trigger && g.modifiers != hotkey.modifiers && g.modifiers.count()
                == n {
                out.push(g);
            }
            proof {
                let t = self.bindings@.subrange(0, i + 1);
                assert(t.drop_last() =~= self.bindings@.subrange(0, i as int));
            }
            i = i + 1;
        }
        proof {
            assert(self.bindings@.subrange(0, i as int) =~= self.bindings@);
        }
        out
    }

    /// The bound hotkeys, oldest binding first.
    pub fn hotkeys(&self) -> (r: Vec<Hotkey>)
        ensures
            r@.len() == self.entries().len(),
            forall|i: int| 0 <= i < r@.len() ==> #[trigger] r@[i] == self.entries()[i].0,
    {
        let mut out: Vec<Hotkey> = Vec::new();
        let mut i: usize = 0;
        while i < self.bindings.len()
            invariant
                i <= self.bindings@.len(),
                out@.len() == i,
                forall|j: int| 0 <= j < i ==> #[trigger] out@[j] == self.bindings@[j].0,
            decreases self.bindings@.len() - i,
        {
            out.push(self.bindings[i].0);
            i = i + 1;
        }
        out
    }

    /// The hotkey selected by an event on `trigger` while the modifiers
    /// `active` are held: the matching binding with the most modifiers, and
    /// of equally specific ones the most recently bound.
    pub fn resolve(&self, trigger: &Trigger, active: &ModifierSet) -> (r: Option<Hotkey>)
        ensures
            r == resolution(self.entries(), *trigger, *active),
    {
        let s = &self.bindings;
        let mut best: Option<usize> = None;
        let mut i: usize = 0;
        while i < s.len()
            invariant
                i <= s@.len(),
                best is None ==> forall|j: int| 0 <= j < i ==> !#[trigger] hotkey_matches(
                    s@[j].0,
                    *trigger,
                    *active,
                ),
                best matches Some(b) ==> {
                    &&& b < i
                    &&& hotkey_matches(s@[b as int].0, *trigger, *active)
                    &&& forall|j: int|
                        0 <= j < i && #[trigger] hotkey_matches(s@[j].0, *trigger, *active) ==> {
                            &&& s@[j].0.modifiers.size() <= s@[b as int].0.modifiers.size()
                            &&& (j > b ==> s@[j].0.modifiers.size() < s@[b as int].0.modifiers.size())
                        }
                },
            decreases s@.len() - i,
        {
            let h = &s[i].0;
            if h.trigger == *trigger && h.modifiers.is_subset(active) {
                match best {
                    None => {
                        best = Some(i);
                    },
                    Some(b) => {
                        if h.modifiers.count() >= s[b].0.modifiers.count() {
                            best = Some(i);
                        }
                    },
                }
            }
            i = i + 1;
        }
        match best {
            None => {
                proof {
                    if exists|k: int| is_best(s@, *trigger, *active, k) {
                        let k = choose|k: int| is_best(s@, *trigger, *active, k);
                        assert(hotkey_matches(s@[k].0, *trigger, *active));
                    }
                }
                None
            },
            Some(b) => {
                proof {
                    assert(is_best(s@, *trigger, *active, b as int));
                    let k = choose|k: int| is_best(s@, *trigger, *active, k);
                    lemma_best_unique(s@, *trigger, *active, k, b as int);
                }
                Some(s[b].0)
            },
        }
    }
}

} // verus!
