//! Universe levels.
//!
//! A level is built from `0`, `+ k`, `max`, `imax` and universe variables.
//! Every level stored in the arena is kept in a normal form, reached by
//! rewriting at interning time, so that many equivalent spellings of one
//! level collapse onto one handle. Numeral arithmetic on levels saturates
//! at `u32::MAX`; the specification functions below state that same
//! saturating semantics, so the contracts are exact.

use vstd::prelude::*;

use crate::arena::Arena;

verus! {

/// A handle to an interned universe level.
#[derive(Clone, Copy, Debug, PartialEq, Eq, Structural)]
pub struct Level(pub usize);

/// A universe level node.
#[derive(Clone, Copy, Debug, PartialEq, Eq, Structural)]
pub enum Payload {
    /// The zero level (associated to `Prop`).
    Zero,
    /// A level plus a positive constant.
    Add(Level, u32),
    /// The maximum of two levels.
    Max(Level, Level),
    /// The impredicative maximum of two levels.
    IMax(Level, Level),
    /// A universe-polymorphic variable.
    Var(usize),
}

/// The level tree that a handle denotes. Used only in specifications.
pub enum LvlV {
    Zero,
    Add(Box<LvlV>, u32),
    Max(Box<LvlV>, Box<LvlV>),
    IMax(Box<LvlV>, Box<LvlV>),
    Var(usize),
}

pub open spec fn lv_is_add(v: LvlV) -> bool {
    match v {
        LvlV::Add(_, _) => true,
        _ => false,
    }
}

pub open spec fn lv_is_var(v: LvlV) -> bool {
    match v {
        LvlV::Var(_) => true,
        _ => false,
    }
}

pub open spec fn pay_is_add(p: Payload) -> bool {
    match p {
        Payload::Add(_, _) => true,
        _ => false,
    }
}

pub open spec fn pay_is_zero(p: Payload) -> bool {
    match p {
        Payload::Zero => true,
        _ => false,
    }
}

pub open spec fn pay_is_var(p: Payload) -> bool {
    match p {
        Payload::Var(_) => true,
        _ => false,
    }
}

/// Size of a level tree, the termination measure for normalization.
pub open spec fn lvl_sz(v: LvlV) -> nat
    decreases v,
{
    match v {
        LvlV::Zero => 1,
        LvlV::Var(_) => 1,
        LvlV::Add(u, _) => lvl_sz(*u) + 1,
        LvlV::Max(a, b) => lvl_sz(*a) + lvl_sz(*b) + 1,
        LvlV::IMax(a, b) => lvl_sz(*a) + lvl_sz(*b) + 1,
    }
}

/// Saturating addition on level numerals.
pub open spec fn sadd32(a: u32, b: u32) -> u32 {
    if a + b > u32::MAX {
        u32::MAX
    } else {
        (a + b) as u32
    }
}

/// A level tree is in normal form: numerals are positive and never nest,
/// a `max` is not trivial, and an `imax` is stuck on a variable.
pub open spec fn is_norm(v: LvlV) -> bool
    decreases v,
{
    match v {
        LvlV::Zero => true,
        LvlV::Var(_) => true,
        LvlV::Add(u, k) => k >= 1 && !lv_is_add(*u) && is_norm(*u),
        LvlV::Max(a, b) => is_norm(*a) && is_norm(*b) && *a != *b && *a != LvlV::Zero && *b
            != LvlV::Zero && !(lv_is_add(*a) && lv_is_add(*b)),
        LvlV::IMax(a, b) => is_norm(*a) && is_norm(*b) && lv_is_var(*b) && *a != *b,
    }
}

/// Normal form of `u + k`, for `u` normal: `u + 0 = u` and nested
/// numerals merge.
pub open spec fn norm_add(u: LvlV, k: u32) -> LvlV {
    if k == 0 {
        u
    } else {
        match u {
            LvlV::Add(u2, n) => LvlV::Add(u2, sadd32(n, k)),
            _ => LvlV::Add(Box::new(u), k),
        }
    }
}

/// Normal form of `max(a, b)`, for `a`, `b` normal: trivial maxima
/// collapse and a shared numeral offset is pulled outside.
pub open spec fn norm_max(a: LvlV, b: LvlV) -> LvlV
    decreases lvl_sz(a) + lvl_sz(b),
    via norm_max_dec
{
    if a == b {
        a
    } else if a == LvlV::Zero {
        b
    } else if b == LvlV::Zero {
        a
    } else {
        match (a, b) {
            (LvlV::Add(x, k1), LvlV::Add(y, k2)) => {
                let m = if k1 <= k2 {
                    k1
                } else {
                    k2
                };
                norm_add(norm_max(norm_add(*x, (k1 - m) as u32), norm_add(*y, (k2 - m) as u32)), m)
            },
            _ => LvlV::Max(Box::new(a), Box::new(b)),
        }
    }
}

/// Renormalizing `u + k` changes the size of the tree by at most one, and
/// keeps it unchanged when nothing is appended.
pub proof fn lemma_sz_norm_add(u: LvlV, k: u32)
    ensures
        k == 0 ==> norm_add(u, k) == u,
        k != 0 && lv_is_add(u) ==> lvl_sz(norm_add(u, k)) == lvl_sz(u),
        lvl_sz(norm_add(u, k)) <= lvl_sz(u) + 1,
{
    match u {
        LvlV::Add(x, n) => {
            assert(lvl_sz(u) == lvl_sz(*x) + 1);
            if k != 0 {
                assert(lvl_sz(norm_add(u, k)) == lvl_sz(*x) + 1);
            }
        },
        _ => {},
    }
}

#[via_fn]
proof fn norm_max_dec(a: LvlV, b: LvlV) {
    if a != b && a != LvlV::Zero && b != LvlV::Zero {
        match (a, b) {
            (LvlV::Add(x, k1), LvlV::Add(y, k2)) => {
                let m = if k1 <= k2 {
                    k1
                } else {
                    k2
                };
                lemma_sz_norm_add(*x, (k1 - m) as u32);
                lemma_sz_norm_add(*y, (k2 - m) as u32);
                assert(lvl_sz(a) == lvl_sz(*x) + 1);
                assert(lvl_sz(b) == lvl_sz(*y) + 1);
                if k1 <= k2 {
                    assert(norm_add(*x, (k1 - m) as u32) == *x);
                } else {
                    assert(norm_add(*y, (k2 - m) as u32) == *y);
                }
            },
            _ => {},
        }
    }
}

/// Normal form of `imax(a, b)`, for `a`, `b` normal: an `imax` whose right
/// side is zero vanishes, one whose right side is positive is a `max`, and
/// `imax` distributes over `max` and `imax` on the right, so that only
/// variables remain on the right of a stuck `imax`.
pub open spec fn norm_imax(a: LvlV, b: LvlV) -> LvlV
    decreases lvl_sz(b),
{
    if a == b {
        a
    } else {
        match b {
            LvlV::Zero => LvlV::Zero,
            LvlV::Add(_, _) => norm_max(a, b),
            LvlV::IMax(_, w) => norm_max(norm_imax(a, *w), b),
            LvlV::Max(v, w) => norm_max(norm_imax(a, *v), norm_imax(a, *w)),
            LvlV::Var(_) => LvlV::IMax(Box::new(a), Box::new(b)),
        }
    }
}

/// The tree denoted by the node stored at index `i`. Out-of-range links
/// read as zero; the arena invariant rules them out.
pub open spec fn lvl_view(lv: Seq<Payload>, i: int) -> LvlV
    decreases i,
{
    if 0 <= i < lv.len() {
        match lv[i] {
            Payload::Zero => LvlV::Zero,
            Payload::Add(u, k) => if u.0 < i {
                LvlV::Add(Box::new(lvl_view(lv, u.0 as int)), k)
            } else {
                LvlV::Zero
            },
            Payload::Max(u, v) => if u.0 < i && v.0 < i {
                LvlV::Max(Box::new(lvl_view(lv, u.0 as int)), Box::new(lvl_view(lv, v.0 as int)))
            } else {
                LvlV::Zero
            },
            Payload::IMax(u, v) => if u.0 < i && v.0 < i {
                LvlV::IMax(Box::new(lvl_view(lv, u.0 as int)), Box::new(lvl_view(lv, v.0 as int)))
            } else {
                LvlV::Zero
            },
            Payload::Var(n) => LvlV::Var(n),
        }
    } else {
        LvlV::Zero
    }
}

/// The stored node at `i` is well formed: links point strictly backwards
/// and the payload satisfies the normal-form conditions.
pub open spec fn lvl_wf_at(lv: Seq<Payload>, i: int) -> bool {
    match lv[i] {
        Payload::Zero => true,
        Payload::Var(_) => true,
        Payload::Add(u, k) => u.0 < i && k >= 1 && !pay_is_add(lv[u.0 as int]),
        Payload::Max(u, v) => u.0 < i && v.0 < i && u != v && !pay_is_zero(lv[u.0 as int])
            && !pay_is_zero(lv[v.0 as int]) && !(pay_is_add(lv[u.0 as int]) && pay_is_add(
            lv[v.0 as int],
        )),
        Payload::IMax(u, v) => u.0 < i && v.0 < i && u != v && pay_is_var(lv[v.0 as int]),
    }
}

/// Arena invariant for the level store: every node is well formed and no
/// payload is stored twice.
pub open spec fn lvl_wf(lv: Seq<Payload>) -> bool {
    &&& forall|i: int| 0 <= i < lv.len() ==> #[trigger] lvl_wf_at(lv, i)
    &&& forall|i: int, j: int|
        0 <= i < lv.len() && 0 <= j < lv.len() && i != j ==> #[trigger] lv[i] != #[trigger] lv[j]
}

/// Views of old nodes do not change when the store grows.
pub open spec fn lvl_stable(pre: Seq<Payload>, post: Seq<Payload>) -> bool {
    forall|i: int| 0 <= i < pre.len() ==> #[trigger] lvl_view(post, i) == lvl_view(pre, i)
}

pub proof fn lemma_lvl_view_prefix(a: Seq<Payload>, b: Seq<Payload>, i: int)
    requires
        a.is_prefix_of(b),
        0 <= i < a.len(),
    ensures
        lvl_view(b, i) == lvl_view(a, i),
    decreases i,
{
    assert(a[i] == b[i]);
    match a[i] {
        Payload::Add(u, _) => {
            if u.0 < i {
                lemma_lvl_view_prefix(a, b, u.0 as int);
            }
        },
        Payload::Max(u, v) => {
            if u.0 < i && v.0 < i {
                lemma_lvl_view_prefix(a, b, u.0 as int);
                lemma_lvl_view_prefix(a, b, v.0 as int);
            }
        },
        Payload::IMax(u, v) => {
            if u.0 < i && v.0 < i {
                lemma_lvl_view_prefix(a, b, u.0 as int);
                lemma_lvl_view_prefix(a, b, v.0 as int);
            }
        },
        _ => {},
    }
}

/// Interning is injective on trees: two live handles with the same view
/// are the same handle.
pub proof fn lemma_lvl_view_inj(lv: Seq<Payload>, i: int, j: int)
    requires
        lvl_wf(lv),
        0 <= i < lv.len(),
        0 <= j < lv.len(),
        lvl_view(lv, i) == lvl_view(lv, j),
    ensures
        i == j,
    decreases i + j,
{
    if i != j {
        match (lv[i], lv[j]) {
            (Payload::Add(u1, _), Payload::Add(u2, _)) => {
                assert(lvl_wf_at(lv, i));
                assert(lvl_wf_at(lv, j));
                lemma_lvl_view_inj(lv, u1.0 as int, u2.0 as int);
            },
            (Payload::Max(u1, v1), Payload::Max(u2, v2)) => {
                assert(lvl_wf_at(lv, i));
                assert(lvl_wf_at(lv, j));
                lemma_lvl_view_inj(lv, u1.0 as int, u2.0 as int);
                lemma_lvl_view_inj(lv, v1.0 as int, v2.0 as int);
            },
            (Payload::IMax(u1, v1), Payload::IMax(u2, v2)) => {
                assert(lvl_wf_at(lv, i));
                assert(lvl_wf_at(lv, j));
                lemma_lvl_view_inj(lv, u1.0 as int, u2.0 as int);
                lemma_lvl_view_inj(lv, v1.0 as int, v2.0 as int);
            },
            _ => {
                assert(lvl_wf_at(lv, i));
                assert(lvl_wf_at(lv, j));
            },
        }
    }
}

/// Conditions under which a raw payload may be interned directly: its
/// links are live and it already satisfies the normal-form conditions.
pub open spec fn pay_ok(lv: Seq<Payload>, p: Payload) -> bool {
    match p {
        Payload::Zero => true,
        Payload::Var(_) => true,
        Payload::Add(u, k) => u.0 < lv.len() && k >= 1 && !pay_is_add(lv[u.0 as int]),
        Payload::Max(u, v) => u.0 < lv.len() && v.0 < lv.len() && u != v && !pay_is_zero(
            lv[u.0 as int],
        ) && !pay_is_zero(lv[v.0 as int]) && !(pay_is_add(lv[u.0 as int]) && pay_is_add(
            lv[v.0 as int],
        )),
        Payload::IMax(u, v) => u.0 < lv.len() && v.0 < lv.len() && u != v && pay_is_var(
            lv[v.0 as int],
        ),
    }
}

/// The tree a raw payload denotes over the store `lv`.
pub open spec fn pay_sem(lv: Seq<Payload>, p: Payload) -> LvlV {
    match p {
        Payload::Zero => LvlV::Zero,
        Payload::Var(n) => LvlV::Var(n),
        Payload::Add(u, k) => LvlV::Add(Box::new(lvl_view(lv, u.0 as int)), k),
        Payload::Max(u, v) => LvlV::Max(
            Box::new(lvl_view(lv, u.0 as int)),
            Box::new(lvl_view(lv, v.0 as int)),
        ),
        Payload::IMax(u, v) => LvlV::IMax(
            Box::new(lvl_view(lv, u.0 as int)),
            Box::new(lvl_view(lv, v.0 as int)),
        ),
    }
}

impl Level {
    /// The level tree this handle denotes in `a`.
    pub open spec fn sem(self, a: &Arena) -> LvlV {
        lvl_view(a.levels@, self.0 as int)
    }

    /// The handle points into the store.
    pub open spec fn live(self, a: &Arena) -> bool {
        self.0 < a.levels@.len()
    }
}

impl Arena {
    /// Looks a payload up in the level store.
    fn find_level(&self, p: Payload) -> (r: Option<usize>)
        ensures
            match r {
                Some(j) => j < self.levels@.len() && self.levels@[j as int] == p,
                None => forall|j: int| 0 <= j < self.levels@.len() ==> self.levels@[j] != p,
            },
    {
        let mut idx: usize = 0;
        while idx < self.levels.len()
            invariant
                idx <= self.levels@.len(),
                forall|j: int| 0 <= j < idx ==> self.levels@[j] != p,
            decreases self.levels@.len() - idx,
        {
            if self.levels[idx] == p {
                return Some(idx);
            }
            idx += 1;
        }
        None
    }

    /// Interns a payload that is already in normal form, reusing the
    /// existing handle when one exists.
    fn intern_level(&mut self, p: Payload) -> (r: Level)
        requires
            old(self).wf(),
            pay_ok(old(self).levels@, p),
        ensures
            final(self).wf(),
            Arena::grows_only(old(self), final(self)),
            lvl_stable(old(self).levels@, final(self).levels@),
            final(self).terms@ == old(self).terms@,
            crate::term::tm_stable(
                old(self).terms@,
                old(self).levels@,
                final(self).terms@,
                final(self).levels@,
            ),
            r.live(final(self)),
            final(self).levels@[r.0 as int] == p,
            r.sem(final(self)) == pay_sem(old(self).levels@, p),
    {
        let ghost pre = self.levels@;
        match self.find_level(p) {
            Some(j) => {
                assert(pre.is_prefix_of(pre));
                assert forall|i: int| 0 <= i < pre.len() implies #[trigger] lvl_view(pre, i)
                    == lvl_view(pre, i) by {}
                proof {
                    assert(lvl_wf_at(pre, j as int));
                    assert(lvl_view(pre, j as int) == pay_sem(pre, p));
                    assert(crate::term::tm_stable(
                        self.terms@,
                        pre,
                        self.terms@,
                        pre,
                    ));
                }
                Level(j)
            },
            None => {
                let n = self.levels.len();
                self.levels.push(p);
                proof {
                    let post = self.levels@;
                    assert(post.len() == pre.len() + 1);
                    assert(post[n as int] == p);
                    assert(pre.is_prefix_of(post));
                    assert forall|i: int| 0 <= i < pre.len() implies #[trigger] lvl_view(post, i)
                        == lvl_view(pre, i) by {
                        lemma_lvl_view_prefix(pre, post, i);
                    }
                    assert forall|i: int| 0 <= i < post.len() implies #[trigger] lvl_wf_at(
                        post,
                        i,
                    ) by {
                        if i < n {
                            assert(lvl_wf_at(pre, i));
                        }
                    }
                    assert forall|i: int|
                        0 <= i < old(self).terms@.len() implies #[trigger] crate::term::tm_wf_at(
                        old(self).terms@,
                        post,
                        i,
                    ) by {
                        assert(crate::term::tm_wf_at(old(self).terms@, pre, i));
                    }
                    match p {
                        Payload::Add(u, _) => {
                            assert(lvl_view(post, u.0 as int) == lvl_view(pre, u.0 as int));
                        },
                        Payload::Max(u, v) => {
                            assert(lvl_view(post, u.0 as int) == lvl_view(pre, u.0 as int));
                            assert(lvl_view(post, v.0 as int) == lvl_view(pre, v.0 as int));
                        },
                        Payload::IMax(u, v) => {
                            assert(lvl_view(post, u.0 as int) == lvl_view(pre, u.0 as int));
                            assert(lvl_view(post, v.0 as int) == lvl_view(pre, v.0 as int));
                        },
                        _ => {},
                    }
                    assert(lvl_view(post, n as int) == pay_sem(pre, p));
                    crate::term::lemma_tm_stable_grow(old(self).terms@, pre, self.terms@, post);
                }
                Level(n)
            },
        }
    }
}

impl Level {
    /// Returns the zero level.
    pub(crate) fn zero(arena: &mut Arena) -> (r: Level)
        requires
            old(arena).wf(),
        ensures
            final(arena).wf(),
            Arena::grows_only(old(arena), final(arena)),
            lvl_stable(old(arena).levels@, final(arena).levels@),
            final(arena).terms@ == old(arena).terms@,
            crate::term::tm_stable(
                old(arena).terms@,
                old(arena).levels@,
                final(arena).terms@,
                final(arena).levels@,
            ),
            r.live(final(arena)),
            r.sem(final(arena)) == LvlV::Zero,
    {
        arena.intern_level(Payload::Zero)
    }

    /// Returns the level of the given universe variable.
    pub(crate) fn var(id: usize, arena: &mut Arena) -> (r: Level)
        requires
            old(arena).wf(),
        ensures
            final(arena).wf(),
            Arena::grows_only(old(arena), final(arena)),
            lvl_stable(old(arena).levels@, final(arena).levels@),
            final(arena).terms@ == old(arena).terms@,
            crate::term::tm_stable(
                old(arena).terms@,
                old(arena).levels@,
                final(arena).terms@,
                final(arena).levels@,
            ),
            r.live(final(arena)),
            r.sem(final(arena)) == LvlV::Var(id),
    {
        arena.intern_level(Payload::Var(id))
    }

    /// Returns `self + k`, normalized.
    pub(crate) fn add(self, k: u32, arena: &mut Arena) -> (r: Level)
        requires
            old(arena).wf(),
            self.live(old(arena)),
        ensures
            final(arena).wf(),
            Arena::grows_only(old(arena), final(arena)),
            lvl_stable(old(arena).levels@, final(arena).levels@),
            final(arena).terms@ == old(arena).terms@,
            crate::term::tm_stable(
                old(arena).terms@,
                old(arena).levels@,
                final(arena).terms@,
                final(arena).levels@,
            ),
            r.live(final(arena)),
            r.sem(final(arena)) == norm_add(self.sem(old(arena)), k),
    {
        if k == 0 {
            assert(lvl_stable(arena.levels@, arena.levels@));
            assert(crate::term::tm_stable(arena.terms@, arena.levels@, arena.terms@, arena.levels@));
            return self;
        }
        proof {
            assert(lvl_wf_at(arena.levels@, self.0 as int));
        }
        match arena.levels[self.0] {
            Payload::Add(u2, n) => arena.intern_level(Payload::Add(u2, n.saturating_add(k))),
            _ => arena.intern_level(Payload::Add(self, k)),
        }
    }

    /// Returns the successor of `self`.
    pub(crate) fn succ(self, arena: &mut Arena) -> (r: Level)
        requires
            old(arena).wf(),
            self.live(old(arena)),
        ensures
            final(arena).wf(),
            Arena::grows_only(old(arena), final(arena)),
            lvl_stable(old(arena).levels@, final(arena).levels@),
            final(arena).terms@ == old(arena).terms@,
            crate::term::tm_stable(
                old(arena).terms@,
                old(arena).levels@,
                final(arena).terms@,
                final(arena).levels@,
            ),
            r.live(final(arena)),
            r.sem(final(arena)) == norm_add(self.sem(old(arena)), 1),
    {
        self.add(1, arena)
    }

    /// Returns `max(self, rhs)`, normalized.
    pub(crate) fn max(self, rhs: Level, arena: &mut Arena) -> (r: Level)
        requires
            old(arena).wf(),
            self.live(old(arena)),
            rhs.live(old(arena)),
        ensures
            final(arena).wf(),
            Arena::grows_only(old(arena), final(arena)),
            lvl_stable(old(arena).levels@, final(arena).levels@),
            final(arena).terms@ == old(arena).terms@,
            crate::term::tm_stable(
                old(arena).terms@,
                old(arena).levels@,
                final(arena).terms@,
                final(arena).levels@,
            ),
            r.live(final(arena)),
            r.sem(final(arena)) == norm_max(self.sem(old(arena)), rhs.sem(old(arena))),
        decreases lvl_sz(self.sem(arena)) + lvl_sz(rhs.sem(arena)),
    {
        let ghost va = self.sem(arena);
        let ghost vb = rhs.sem(arena);
        if self == rhs {
            assert(lvl_stable(arena.levels@, arena.levels@));
            assert(crate::term::tm_stable(arena.terms@, arena.levels@, arena.terms@, arena.levels@));
            return self;
        }
        proof {
            if self.sem(arena) == rhs.sem(arena) {
                lemma_lvl_view_inj(arena.levels@, self.0 as int, rhs.0 as int);
            }
            assert(self.sem(arena) != rhs.sem(arena));
            assert(lvl_wf_at(arena.levels@, self.0 as int));
            assert(lvl_wf_at(arena.levels@, rhs.0 as int));
        }
        let pa = arena.levels[self.0];
        let pb = arena.levels[rhs.0];
        match (pa, pb) {
            (Payload::Zero, _) => {
                assert(lvl_stable(arena.levels@, arena.levels@));
                assert(crate::term::tm_stable(arena.terms@, arena.levels@, arena.terms@, arena.levels@));
                rhs
            },
            (_, Payload::Zero) => {
                assert(lvl_stable(arena.levels@, arena.levels@));
                assert(crate::term::tm_stable(arena.terms@, arena.levels@, arena.terms@, arena.levels@));
                self
            },
            (Payload::Add(x, k1), Payload::Add(y, k2)) => {
                let m = if k1 <= k2 {
                    k1
                } else {
                    k2
                };
                let a1 = x.add(k1 - m, arena);
                let b1 = y.add(k2 - m, arena);
                proof {
                    assert(a1.sem(arena) == norm_add(lvl_view(old(arena).levels@, x.0 as int), (k1
                        - m) as u32));
                    assert(lvl_sz(a1.sem(arena)) + lvl_sz(b1.sem(arena)) < lvl_sz(va) + lvl_sz(
                        vb,
                    ));
                }
                let c = a1.max(b1, arena);
                let r = c.add(m, arena);
                proof {
                    assert(r.sem(arena) == norm_max(va, vb));
                }
                r
            },
            _ => arena.intern_level(Payload::Max(self, rhs)),
        }
    }

    /// Returns `imax(self, rhs)`, normalized.
    pub(crate) fn imax(self, rhs: Level, arena: &mut Arena) -> (r: Level)
        requires
            old(arena).wf(),
            self.live(old(arena)),
            rhs.live(old(arena)),
        ensures
            final(arena).wf(),
            Arena::grows_only(old(arena), final(arena)),
            lvl_stable(old(arena).levels@, final(arena).levels@),
            final(arena).terms@ == old(arena).terms@,
            crate::term::tm_stable(
                old(arena).terms@,
                old(arena).levels@,
                final(arena).terms@,
                final(arena).levels@,
            ),
            r.live(final(arena)),
            r.sem(final(arena)) == norm_imax(self.sem(old(arena)), rhs.sem(old(arena))),
        decreases lvl_sz(rhs.sem(arena)),
    {
        let ghost va = self.sem(arena);
        let ghost vb = rhs.sem(arena);
        if self == rhs {
            assert(lvl_stable(arena.levels@, arena.levels@));
            assert(crate::term::tm_stable(arena.terms@, arena.levels@, arena.terms@, arena.levels@));
            return self;
        }
        proof {
            if self.sem(arena) == rhs.sem(arena) {
                lemma_lvl_view_inj(arena.levels@, self.0 as int, rhs.0 as int);
            }
            assert(self.sem(arena) != rhs.sem(arena));
            assert(lvl_wf_at(arena.levels@, self.0 as int));
            assert(lvl_wf_at(arena.levels@, rhs.0 as int));
        }
        match arena.levels[rhs.0] {
            Payload::Zero => {
                assert(lvl_stable(arena.levels@, arena.levels@));
                assert(crate::term::tm_stable(arena.terms@, arena.levels@, arena.terms@, arena.levels@));
                rhs
            },
            Payload::Add(_, _) => self.max(rhs, arena),
            Payload::IMax(_, w) => {
                let x = self.imax(w, arena);
                x.max(rhs, arena)
            },
            Payload::Max(v, w) => {
                let x = self.imax(v, arena);
                let y = self.imax(w, arena);
                x.max(y, arena)
            },
            Payload::Var(_) => arena.intern_level(Payload::IMax(self, rhs)),
        }
    }

    /// Builds a level from an integer.
    pub fn from(n: u32, arena: &mut Arena) -> (r: Level)
        requires
            old(arena).wf(),
        ensures
            final(arena).wf(),
            Arena::grows_only(old(arena), final(arena)),
            lvl_stable(old(arena).levels@, final(arena).levels@),
            final(arena).terms@ == old(arena).terms@,
            crate::term::tm_stable(
                old(arena).terms@,
                old(arena).levels@,
                final(arena).terms@,
                final(arena).levels@,
            ),
            r.live(final(arena)),
            r.sem(final(arena)) == norm_add(LvlV::Zero, n),
    {
        let z = Level::zero(arena);
        z.add(n, arena)
    }

    /// Converts a level to an integer, if it is a numeral.
    pub fn to_numeral(self, arena: &Arena) -> (r: Option<u32>)
        requires
            arena.wf(),
            self.live(arena),
        ensures
            r == to_num_spec(self.sem(arena)),
    {
        proof {
            assert(lvl_wf_at(arena.levels@, self.0 as int));
        }
        match arena.levels[self.0] {
            Payload::Zero => Some(0),
            Payload::Add(u, n) => {
                proof {
                    assert(lvl_wf_at(arena.levels@, u.0 as int));
                    assert(self.sem(arena) == LvlV::Add(
                        Box::new(lvl_view(arena.levels@, u.0 as int)),
                        n,
                    ));
                }
                match arena.levels[u.0] {
                    Payload::Zero => {
                        proof {
                            assert(lvl_view(arena.levels@, u.0 as int) == LvlV::Zero);
                        }
                        Some(n)
                    },
                    _ => {
                        proof {
                            assert(lvl_view(arena.levels@, u.0 as int) != LvlV::Zero);
                        }
                        None
                    },
                }
            },
            _ => None,
        }
    }
}

/// What `to_numeral` reads off a level tree.
pub open spec fn to_num_spec(v: LvlV) -> Option<u32> {
    match v {
        LvlV::Zero => Some(0),
        LvlV::Add(u, n) => if *u == LvlV::Zero {
            Some(n)
        } else {
            None
        },
        _ => None,
    }
}

/// One bottom-up renormalization step applied to a tree.
pub open spec fn renorm(v: LvlV) -> LvlV {
    match v {
        LvlV::Zero => LvlV::Zero,
        LvlV::Var(n) => LvlV::Var(n),
        LvlV::Add(u, k) => norm_add(*u, k),
        LvlV::Max(a, b) => norm_max(*a, *b),
        LvlV::IMax(a, b) => norm_imax(*a, *b),
    }
}

/// Every normal level is a fixed point of normalization: rebuilding a
/// stored level from its own parts returns the same tree, hence, by
/// interning, the same handle.
pub proof fn lemma_renorm_fixed(v: LvlV)
    requires
        is_norm(v),
    ensures
        renorm(v) == v,
{
    match v {
        LvlV::Add(u, k) => {
            assert(norm_add(*u, k) == v);
        },
        LvlV::Max(a, b) => {
            assert(norm_max(*a, *b) == v);
        },
        LvlV::IMax(a, b) => {
            assert(norm_imax(*a, *b) == v);
        },
        _ => {},
    }
}


/// Saturating addition on variable indices.
pub open spec fn sadd_us(a: usize, b: usize) -> usize {
    if a + b > usize::MAX {
        usize::MAX
    } else {
        (a + b) as usize
    }
}

/// The variable of the leftmost stuck `imax`, if any.
pub open spec fn first_stuck(v: LvlV) -> Option<usize>
    decreases v,
{
    match v {
        LvlV::Zero => None,
        LvlV::Var(_) => None,
        LvlV::Add(u, _) => first_stuck(*u),
        LvlV::Max(a, b) => match first_stuck(*a) {
            Some(i) => Some(i),
            None => first_stuck(*b),
        },
        LvlV::IMax(a, b) => match first_stuck(*a) {
            Some(i) => Some(i),
            None => match *b {
                LvlV::Var(i) => Some(i),
                _ => first_stuck(*b),
            },
        },
    }
}

/// The largest variable index occurring in the tree, or zero.
pub open spec fn max_uvar(v: LvlV) -> usize
    decreases v,
{
    match v {
        LvlV::Zero => 0,
        LvlV::Var(i) => i,
        LvlV::Add(u, _) => max_uvar(*u),
        LvlV::Max(a, b) => if max_uvar(*a) >= max_uvar(*b) {
            max_uvar(*a)
        } else {
            max_uvar(*b)
        },
        LvlV::IMax(a, b) => if max_uvar(*a) >= max_uvar(*b) {
            max_uvar(*a)
        } else {
            max_uvar(*b)
        },
    }
}

/// Substitution of a single universe variable, renormalizing bottom-up.
pub open spec fn lsubst1(v: LvlV, x: usize, r: LvlV) -> LvlV
    decreases v,
{
    match v {
        LvlV::Zero => LvlV::Zero,
        LvlV::Var(i) => if i == x {
            r
        } else {
            v
        },
        LvlV::Add(u, k) => norm_add(lsubst1(*u, x, r), k),
        LvlV::Max(a, b) => norm_max(lsubst1(*a, x, r), lsubst1(*b, x, r)),
        LvlV::IMax(a, b) => norm_imax(lsubst1(*a, x, r), lsubst1(*b, x, r)),
    }
}

/// The level equivalence decision: structural equality, and, on a stuck
/// `imax(_, u)`, a case split substituting `u := 0` and `u := w + 1` for a
/// fresh `w` on both sides. `None` means the step budget ran out.
pub open spec fn lvl_eq_spec(a: LvlV, b: LvlV, f: nat) -> Option<bool>
    decreases f,
{
    if f == 0 {
        None
    } else if a == b {
        Some(true)
    } else {
        let st = match first_stuck(a) {
            Some(i) => Some(i),
            None => first_stuck(b),
        };
        match st {
            None => Some(false),
            Some(i) => {
                let m = if max_uvar(a) >= max_uvar(b) {
                    max_uvar(a)
                } else {
                    max_uvar(b)
                };
                let fresh = sadd_us(m, 1);
                let rp = LvlV::Add(Box::new(LvlV::Var(fresh)), 1);
                match lvl_eq_spec(lsubst1(a, i, LvlV::Zero), lsubst1(b, i, LvlV::Zero), (f
                    - 1) as nat) {
                    None => None,
                    Some(false) => Some(false),
                    Some(true) => lvl_eq_spec(lsubst1(a, i, rp), lsubst1(b, i, rp), (f - 1) as nat),
                }
            },
        }
    }
}

impl Level {
    /// Finds the variable of the leftmost stuck `imax` under this handle.
    fn first_stuck_exec(self, arena: &Arena) -> (r: Option<usize>)
        requires
            arena.wf(),
            self.live(arena),
        ensures
            r == first_stuck(self.sem(arena)),
        decreases lvl_sz(self.sem(arena)),
    {
        proof {
            assert(lvl_wf_at(arena.levels@, self.0 as int));
        }
        match arena.levels[self.0] {
            Payload::Zero => None,
            Payload::Var(_) => None,
            Payload::Add(u, _) => u.first_stuck_exec(arena),
            Payload::Max(u, v) => {
                match u.first_stuck_exec(arena) {
                    Some(i) => Some(i),
                    None => v.first_stuck_exec(arena),
                }
            },
            Payload::IMax(u, v) => {
                match u.first_stuck_exec(arena) {
                    Some(i) => Some(i),
                    None => {
                        proof {
                            assert(lvl_wf_at(arena.levels@, v.0 as int));
                        }
                        match arena.levels[v.0] {
                            Payload::Var(i) => Some(i),
                            _ => v.first_stuck_exec(arena),
                        }
                    },
                }
            },
        }
    }

    /// The largest variable index under this handle, or zero.
    fn max_uvar_exec(self, arena: &Arena) -> (r: usize)
        requires
            arena.wf(),
            self.live(arena),
        ensures
            r == max_uvar(self.sem(arena)),
        decreases lvl_sz(self.sem(arena)),
    {
        proof {
            assert(lvl_wf_at(arena.levels@, self.0 as int));
        }
        match arena.levels[self.0] {
            Payload::Zero => 0,
            Payload::Var(i) => i,
            Payload::Add(u, _) => u.max_uvar_exec(arena),
            Payload::Max(u, v) => {
                let a = u.max_uvar_exec(arena);
                let b = v.max_uvar_exec(arena);
                if a >= b {
                    a
                } else {
                    b
                }
            },
            Payload::IMax(u, v) => {
                let a = u.max_uvar_exec(arena);
                let b = v.max_uvar_exec(arena);
                if a >= b {
                    a
                } else {
                    b
                }
            },
        }
    }

    /// Substitutes one universe variable by a level and renormalizes.
    fn subst_one(self, x: usize, rep: Level, arena: &mut Arena) -> (r: Level)
        requires
            old(arena).wf(),
            self.live(old(arena)),
            rep.live(old(arena)),
        ensures
            final(arena).wf(),
            Arena::grows_only(old(arena), final(arena)),
            lvl_stable(old(arena).levels@, final(arena).levels@),
            final(arena).terms@ == old(arena).terms@,
            crate::term::tm_stable(
                old(arena).terms@,
                old(arena).levels@,
                final(arena).terms@,
                final(arena).levels@,
            ),
            r.live(final(arena)),
            r.sem(final(arena)) == lsubst1(self.sem(old(arena)), x, rep.sem(old(arena))),
        decreases lvl_sz(self.sem(arena)),
    {
        proof {
            assert(lvl_wf_at(arena.levels@, self.0 as int));
        }
        match arena.levels[self.0] {
            Payload::Zero => {
                assert(lvl_stable(arena.levels@, arena.levels@));
                assert(crate::term::tm_stable(arena.terms@, arena.levels@, arena.terms@, arena.levels@));
                self
            },
            Payload::Var(i) => {
                assert(lvl_stable(arena.levels@, arena.levels@));
                assert(crate::term::tm_stable(arena.terms@, arena.levels@, arena.terms@, arena.levels@));
                if i == x {
                    rep
                } else {
                    self
                }
            },
            Payload::Add(u, k) => {
                let su = u.subst_one(x, rep, arena);
                su.add(k, arena)
            },
            Payload::Max(u, v) => {
                let su = u.subst_one(x, rep, arena);
                let sv = v.subst_one(x, rep, arena);
                su.max(sv, arena)
            },
            Payload::IMax(u, v) => {
                let su = u.subst_one(x, rep, arena);
                let sv = v.subst_one(x, rep, arena);
                su.imax(sv, arena)
            },
        }
    }

    /// Decides level equivalence within the given step budget.
    pub(crate) fn is_eq_rec(self, rhs: Level, fuel: u64, arena: &mut Arena) -> (r: Option<bool>)
        requires
            old(arena).wf(),
            self.live(old(arena)),
            rhs.live(old(arena)),
        ensures
            final(arena).wf(),
            Arena::grows_only(old(arena), final(arena)),
            lvl_stable(old(arena).levels@, final(arena).levels@),
            final(arena).terms@ == old(arena).terms@,
            crate::term::tm_stable(
                old(arena).terms@,
                old(arena).levels@,
                final(arena).terms@,
                final(arena).levels@,
            ),
            r == lvl_eq_spec(self.sem(old(arena)), rhs.sem(old(arena)), fuel as nat),
        decreases fuel,
    {
        if fuel == 0 {
            assert(lvl_stable(arena.levels@, arena.levels@));
            assert(crate::term::tm_stable(arena.terms@, arena.levels@, arena.terms@, arena.levels@));
            return None;
        }
        if self == rhs {
            assert(lvl_stable(arena.levels@, arena.levels@));
            assert(crate::term::tm_stable(arena.terms@, arena.levels@, arena.terms@, arena.levels@));
            return Some(true);
        }
        proof {
            if self.sem(arena) == rhs.sem(arena) {
                lemma_lvl_view_inj(arena.levels@, self.0 as int, rhs.0 as int);
            }
        }
        let st = match self.first_stuck_exec(arena) {
            Some(i) => Some(i),
            None => rhs.first_stuck_exec(arena),
        };
        match st {
            None => {
                assert(lvl_stable(arena.levels@, arena.levels@));
                assert(crate::term::tm_stable(arena.terms@, arena.levels@, arena.terms@, arena.levels@));
                Some(false)
            },
            Some(i) => {
                let ma = self.max_uvar_exec(arena);
                let mb = rhs.max_uvar_exec(arena);
                let m = if ma >= mb {
                    ma
                } else {
                    mb
                };
                let fresh = m.saturating_add(1);
                let z = Level::zero(arena);
                let fv = Level::var(fresh, arena);
                let rp = fv.add(1, arena);
                proof {
                    assert(rp.sem(arena) == LvlV::Add(Box::new(LvlV::Var(fresh)), 1));
                }
                let a0 = self.subst_one(i, z, arena);
                let b0 = rhs.subst_one(i, z, arena);
                match a0.is_eq_rec(b0, fuel - 1, arena) {
                    None => None,
                    Some(false) => Some(false),
                    Some(true) => {
                        let a1 = self.subst_one(i, rp, arena);
                        let b1 = rhs.subst_one(i, rp, arena);
                        a1.is_eq_rec(b1, fuel - 1, arena)
                    },
                }
            },
        }
    }

    /// Checks whether two levels denote the same universe, deciding the
    /// stuck-`imax` cases by substitution.
    pub fn is_eq(self, rhs: Level, arena: &mut Arena) -> (r: bool)
        requires
            old(arena).wf(),
            self.live(old(arena)),
            rhs.live(old(arena)),
        ensures
            final(arena).wf(),
            Arena::grows_only(old(arena), final(arena)),
            lvl_stable(old(arena).levels@, final(arena).levels@),
            final(arena).terms@ == old(arena).terms@,
            crate::term::tm_stable(
                old(arena).terms@,
                old(arena).levels@,
                final(arena).terms@,
                final(arena).levels@,
            ),
            r == (lvl_eq_spec(
                self.sem(old(arena)),
                rhs.sem(old(arena)),
                crate::type_checker::ENGINE_FUEL as nat,
            ) == Some(true)),
    {
        let r = self.is_eq_rec(rhs, crate::type_checker::ENGINE_FUEL, arena);
        match r {
            Some(true) => true,
            _ => false,
        }
    }
}


// The value of a level: what it denotes once every universe variable is
// given a concrete level. Normalization and substitution are proved to
// preserve this value, so the syntactic algebra above computes the right
// answers.

/// Saturating maximum is just the maximum.
pub open spec fn max32(a: u32, b: u32) -> u32 {
    if a >= b {
        a
    } else {
        b
    }
}

/// What an assignment gives a variable; one without an entry counts as
/// zero.
pub open spec fn lvl_assign(rho: Map<usize, u32>, i: usize) -> u32 {
    if rho.dom().contains(i) {
        rho[i]
    } else {
        0
    }
}

/// The concrete level a tree denotes under an assignment of its
/// variables.
pub open spec fn lvl_eval(v: LvlV, rho: Map<usize, u32>) -> u32
    decreases v,
{
    match v {
        LvlV::Zero => 0,
        LvlV::Var(i) => lvl_assign(rho, i),
        LvlV::Add(u, k) => sadd32(lvl_eval(*u, rho), k),
        LvlV::Max(a, b) => max32(lvl_eval(*a, rho), lvl_eval(*b, rho)),
        LvlV::IMax(a, b) => if lvl_eval(*b, rho) == 0 {
            0
        } else {
            max32(lvl_eval(*a, rho), lvl_eval(*b, rho))
        },
    }
}

proof fn lemma_sadd_assoc(a: u32, b: u32, c: u32)
    ensures
        sadd32(sadd32(a, b), c) == sadd32(a, sadd32(b, c)),
{
}

proof fn lemma_sadd_max(a: u32, b: u32, m: u32)
    ensures
        sadd32(max32(a, b), m) == max32(sadd32(a, m), sadd32(b, m)),
{
}

/// Renormalizing an addition preserves the level's value.
pub proof fn lemma_norm_add_eval(u: LvlV, k: u32, rho: Map<usize, u32>)
    ensures
        lvl_eval(norm_add(u, k), rho) == sadd32(lvl_eval(u, rho), k),
{
    match u {
        LvlV::Add(x, n) => {
            if k != 0 {
                lemma_sadd_assoc(lvl_eval(*x, rho), n, k);
            }
        },
        _ => {},
    }
}

/// Renormalizing a maximum preserves the level's value.
pub proof fn lemma_norm_max_eval(a: LvlV, b: LvlV, rho: Map<usize, u32>)
    ensures
        lvl_eval(norm_max(a, b), rho) == max32(lvl_eval(a, rho), lvl_eval(b, rho)),
    decreases lvl_sz(a) + lvl_sz(b),
{
    if a == b || a == LvlV::Zero || b == LvlV::Zero {
    } else {
        match (a, b) {
            (LvlV::Add(x, k1), LvlV::Add(y, k2)) => {
                let m = if k1 <= k2 {
                    k1
                } else {
                    k2
                };
                let ex = lvl_eval(*x, rho);
                let ey = lvl_eval(*y, rho);
                lemma_sz_norm_add(*x, (k1 - m) as u32);
                lemma_sz_norm_add(*y, (k2 - m) as u32);
                lemma_norm_add_eval(*x, (k1 - m) as u32, rho);
                lemma_norm_add_eval(*y, (k2 - m) as u32, rho);
                lemma_norm_max_eval(norm_add(*x, (k1 - m) as u32), norm_add(*y, (k2 - m) as u32), rho);
                lemma_norm_add_eval(
                    norm_max(norm_add(*x, (k1 - m) as u32), norm_add(*y, (k2 - m) as u32)),
                    m,
                    rho,
                );
                lemma_sadd_max(sadd32(ex, (k1 - m) as u32), sadd32(ey, (k2 - m) as u32), m);
                lemma_sadd_assoc(ex, (k1 - m) as u32, m);
                lemma_sadd_assoc(ey, (k2 - m) as u32, m);
                assert(sadd32((k1 - m) as u32, m) == k1);
                assert(sadd32((k2 - m) as u32, m) == k2);
            },
            _ => {},
        }
    }
}

/// Renormalizing an impredicative maximum preserves the level's value;
/// the right side must be normal, so that a positive constant really
/// makes it positive.
pub proof fn lemma_norm_imax_eval(a: LvlV, b: LvlV, rho: Map<usize, u32>)
    requires
        is_norm(b),
    ensures
        lvl_eval(norm_imax(a, b), rho) == (if lvl_eval(b, rho) == 0 {
            0u32
        } else {
            max32(lvl_eval(a, rho), lvl_eval(b, rho))
        }),
    decreases lvl_sz(b),
{
    if a == b {
    } else {
        match b {
            LvlV::Add(u, k) => {
                lemma_norm_max_eval(a, b, rho);
                assert(lvl_eval(b, rho) >= 1);
            },
            LvlV::IMax(v, w) => {
                lemma_norm_imax_eval(a, *w, rho);
                lemma_norm_max_eval(norm_imax(a, *w), b, rho);
            },
            LvlV::Max(v, w) => {
                lemma_norm_imax_eval(a, *v, rho);
                lemma_norm_imax_eval(a, *w, rho);
                lemma_norm_max_eval(norm_imax(a, *v), norm_imax(a, *w), rho);
            },
            _ => {},
        }
    }
}

/// Normalized additions stay normal.
pub proof fn lemma_norm_add_norm(u: LvlV, k: u32)
    requires
        is_norm(u),
    ensures
        is_norm(norm_add(u, k)),
{
}

/// Normalized maxima stay normal.
pub proof fn lemma_norm_max_norm(a: LvlV, b: LvlV)
    requires
        is_norm(a),
        is_norm(b),
    ensures
        is_norm(norm_max(a, b)),
    decreases lvl_sz(a) + lvl_sz(b),
{
    if a == b || a == LvlV::Zero || b == LvlV::Zero {
    } else {
        match (a, b) {
            (LvlV::Add(x, k1), LvlV::Add(y, k2)) => {
                let m = if k1 <= k2 {
                    k1
                } else {
                    k2
                };
                lemma_sz_norm_add(*x, (k1 - m) as u32);
                lemma_sz_norm_add(*y, (k2 - m) as u32);
                lemma_norm_add_norm(*x, (k1 - m) as u32);
                lemma_norm_add_norm(*y, (k2 - m) as u32);
                lemma_norm_max_norm(norm_add(*x, (k1 - m) as u32), norm_add(*y, (k2 - m) as u32));
                lemma_norm_add_norm(
                    norm_max(norm_add(*x, (k1 - m) as u32), norm_add(*y, (k2 - m) as u32)),
                    m,
                );
            },
            _ => {},
        }
    }
}

/// Normalized impredicative maxima stay normal.
pub proof fn lemma_norm_imax_norm(a: LvlV, b: LvlV)
    requires
        is_norm(a),
        is_norm(b),
    ensures
        is_norm(norm_imax(a, b)),
    decreases lvl_sz(b),
{
    if a == b {
    } else {
        match b {
            LvlV::Add(_, _) => {
                lemma_norm_max_norm(a, b);
            },
            LvlV::IMax(v, w) => {
                lemma_norm_imax_norm(a, *w);
                lemma_norm_max_norm(norm_imax(a, *w), b);
            },
            LvlV::Max(v, w) => {
                lemma_norm_imax_norm(a, *v);
                lemma_norm_imax_norm(a, *w);
                lemma_norm_max_norm(norm_imax(a, *v), norm_imax(a, *w));
            },
            _ => {},
        }
    }
}

/// Every level stored in a well-formed arena denotes a normal tree.
pub proof fn lemma_view_norm(lv: Seq<Payload>, i: int)
    requires
        lvl_wf(lv),
        0 <= i < lv.len(),
    ensures
        is_norm(lvl_view(lv, i)),
    decreases i,
{
    assert(lvl_wf_at(lv, i));
    match lv[i] {
        Payload::Add(u, k) => {
            lemma_view_norm(lv, u.0 as int);
            assert(lvl_wf_at(lv, u.0 as int));
        },
        Payload::Max(u, v) => {
            lemma_view_norm(lv, u.0 as int);
            lemma_view_norm(lv, v.0 as int);
            assert(lvl_wf_at(lv, u.0 as int));
            assert(lvl_wf_at(lv, v.0 as int));
            if lvl_view(lv, u.0 as int) == lvl_view(lv, v.0 as int) {
                lemma_lvl_view_inj(lv, u.0 as int, v.0 as int);
            }
        },
        Payload::IMax(u, v) => {
            lemma_view_norm(lv, u.0 as int);
            lemma_view_norm(lv, v.0 as int);
            assert(lvl_wf_at(lv, v.0 as int));
            if lvl_view(lv, u.0 as int) == lvl_view(lv, v.0 as int) {
                lemma_lvl_view_inj(lv, u.0 as int, v.0 as int);
            }
        },
        _ => {},
    }
}

/// Level canonicity at the handle level: every live level is a fixed
/// point of normalization, so rebuilding it from its own parts yields,
/// by interning uniqueness, the same handle.
pub proof fn lemma_stored_level_fixed(a: &Arena, l: Level)
    requires
        a.wf(),
        l.live(a),
    ensures
        is_norm(l.sem(a)),
        renorm(l.sem(a)) == l.sem(a),
{
    lemma_view_norm(a.levels@, l.0 as int);
    lemma_renorm_fixed(l.sem(a));
}


// Soundness of the level equivalence decision: whenever `is_eq` answers
// yes, the two levels take the same value under every assignment. The
// stuck-imax case split is justified by instantiating the stuck variable
// with zero and with one more than a fresh variable.

/// Substituting one variable keeps levels normal.
pub proof fn lemma_lsubst1_norm(v: LvlV, x: usize, r: LvlV)
    requires
        is_norm(r),
    ensures
        is_norm(lsubst1(v, x, r)),
    decreases v,
{
    match v {
        LvlV::Add(u, k) => {
            lemma_lsubst1_norm(*u, x, r);
            lemma_norm_add_norm(lsubst1(*u, x, r), k);
        },
        LvlV::Max(a, b) => {
            lemma_lsubst1_norm(*a, x, r);
            lemma_lsubst1_norm(*b, x, r);
            lemma_norm_max_norm(lsubst1(*a, x, r), lsubst1(*b, x, r));
        },
        LvlV::IMax(a, b) => {
            lemma_lsubst1_norm(*a, x, r);
            lemma_lsubst1_norm(*b, x, r);
            lemma_norm_imax_norm(lsubst1(*a, x, r), lsubst1(*b, x, r));
        },
        _ => {},
    }
}

/// Substituting one variable preserves a level's value: it equals
/// evaluating under the assignment updated at that variable.
pub proof fn lemma_lsubst1_eval(v: LvlV, x: usize, r: LvlV, rho: Map<usize, u32>)
    requires
        is_norm(r),
    ensures
        lvl_eval(lsubst1(v, x, r), rho) == lvl_eval(v, rho.insert(x, lvl_eval(r, rho))),
    decreases v,
{
    match v {
        LvlV::Add(u, k) => {
            lemma_lsubst1_eval(*u, x, r, rho);
            lemma_norm_add_eval(lsubst1(*u, x, r), k, rho);
        },
        LvlV::Max(a, b) => {
            lemma_lsubst1_eval(*a, x, r, rho);
            lemma_lsubst1_eval(*b, x, r, rho);
            lemma_norm_max_eval(lsubst1(*a, x, r), lsubst1(*b, x, r), rho);
        },
        LvlV::IMax(a, b) => {
            lemma_lsubst1_eval(*a, x, r, rho);
            lemma_lsubst1_eval(*b, x, r, rho);
            lemma_lsubst1_norm(*b, x, r);
            lemma_norm_imax_eval(lsubst1(*a, x, r), lsubst1(*b, x, r), rho);
        },
        _ => {},
    }
}

/// A level's value depends only on the variables it mentions.
pub proof fn lemma_eval_agree(v: LvlV, rho1: Map<usize, u32>, rho2: Map<usize, u32>)
    requires
        forall|i: usize| i <= max_uvar(v) ==> lvl_assign(rho1, i) == lvl_assign(rho2, i),
    ensures
        lvl_eval(v, rho1) == lvl_eval(v, rho2),
    decreases v,
{
    match v {
        LvlV::Add(u, _) => {
            lemma_eval_agree(*u, rho1, rho2);
        },
        LvlV::Max(a, b) => {
            lemma_eval_agree(*a, rho1, rho2);
            lemma_eval_agree(*b, rho1, rho2);
        },
        LvlV::IMax(a, b) => {
            lemma_eval_agree(*a, rho1, rho2);
            lemma_eval_agree(*b, rho1, rho2);
        },
        _ => {},
    }
}

/// The variable of a stuck `imax` occurs in the tree, so it is no larger
/// than the largest variable.
pub proof fn lemma_first_stuck_le(v: LvlV)
    ensures
        first_stuck(v) matches Some(i) ==> i <= max_uvar(v),
    decreases v,
{
    match v {
        LvlV::Add(u, _) => {
            lemma_first_stuck_le(*u);
            assert(max_uvar(v) == max_uvar(*u));
        },
        LvlV::Max(a, b) => {
            lemma_first_stuck_le(*a);
            lemma_first_stuck_le(*b);
            assert(max_uvar(*a) <= max_uvar(v) && max_uvar(*b) <= max_uvar(v));
        },
        LvlV::IMax(a, b) => {
            lemma_first_stuck_le(*a);
            lemma_first_stuck_le(*b);
            assert(max_uvar(*a) <= max_uvar(v) && max_uvar(*b) <= max_uvar(v));
            match *b {
                LvlV::Var(i) => {
                    assert(max_uvar(*b) == i);
                },
                _ => {},
            }
        },
        _ => {},
    }
}

/// Soundness of the equivalence decision: a yes answer means the two
/// levels take the same value under every assignment. The hypothesis that
/// the largest variable index leaves a step of room per unit of budget is
/// what keeps every fresh variable of the case split truly fresh; levels
/// whose variable indices crowd the top of the machine range are excluded.
#[verifier::rlimit(100)]
pub proof fn lemma_lvl_eq_sound(a: LvlV, b: LvlV, f: nat, rho: Map<usize, u32>)
    requires
        lvl_eq_spec(a, b, f) == Some(true),
        max_uvar(a) + f <= usize::MAX,
        max_uvar(b) + f <= usize::MAX,
    ensures
        lvl_eval(a, rho) == lvl_eval(b, rho),
    decreases f,
{
    if a == b {
    } else {
        let st = match first_stuck(a) {
            Some(i) => Some(i),
            None => first_stuck(b),
        };
        let i = st.unwrap();
        lemma_first_stuck_le(a);
        lemma_first_stuck_le(b);
        let m = if max_uvar(a) >= max_uvar(b) {
            max_uvar(a)
        } else {
            max_uvar(b)
        };
        assert(f >= 1);
        let fresh = sadd_us(m, 1);
        assert(fresh == m + 1);
        let rp = LvlV::Add(Box::new(LvlV::Var(fresh)), 1);
        assert(max_uvar(LvlV::Var(fresh)) == fresh);
        assert(max_uvar(rp) == fresh);
        assert(is_norm(LvlV::Var(fresh)));
        assert(is_norm(rp));
        let n = lvl_assign(rho, i);
        if n == 0 {
            let a0 = lsubst1(a, i, LvlV::Zero);
            let b0 = lsubst1(b, i, LvlV::Zero);
            lemma_lsubst1_uvar(a, i, LvlV::Zero);
            lemma_lsubst1_uvar(b, i, LvlV::Zero);
            assert(max_uvar(LvlV::Zero) == 0);
            assert(max_uvar(a0) + (f - 1) <= usize::MAX);
            assert(max_uvar(b0) + (f - 1) <= usize::MAX);
            lemma_lvl_eq_sound(a0, b0, (f - 1) as nat, rho);
            lemma_lsubst1_eval(a, i, LvlV::Zero, rho);
            lemma_lsubst1_eval(b, i, LvlV::Zero, rho);
            let rho0 = rho.insert(i, 0);
            assert forall|j: usize| j <= max_uvar(a) implies lvl_assign(rho0, j) == lvl_assign(
                rho,
                j,
            ) by {}
            assert forall|j: usize| j <= max_uvar(b) implies lvl_assign(rho0, j) == lvl_assign(
                rho,
                j,
            ) by {}
            lemma_eval_agree(a, rho0, rho);
            lemma_eval_agree(b, rho0, rho);
        } else {
            let rho2 = rho.insert(fresh, (n - 1) as u32);
            let a1 = lsubst1(a, i, rp);
            let b1 = lsubst1(b, i, rp);
            lemma_lsubst1_uvar(a, i, rp);
            lemma_lsubst1_uvar(b, i, rp);
            assert(max_uvar(a1) + (f - 1) <= usize::MAX);
            assert(max_uvar(b1) + (f - 1) <= usize::MAX);
            lemma_lvl_eq_sound(a1, b1, (f - 1) as nat, rho2);
            lemma_lsubst1_eval(a, i, rp, rho2);
            lemma_lsubst1_eval(b, i, rp, rho2);
            assert(lvl_assign(rho2, fresh) == (n - 1) as u32);
            assert(lvl_eval(LvlV::Var(fresh), rho2) == (n - 1) as u32);
            assert(lvl_eval(rp, rho2) == n);
            let rho3 = rho2.insert(i, n);
            assert forall|j: usize| j <= max_uvar(a) implies lvl_assign(rho3, j) == lvl_assign(
                rho,
                j,
            ) by {
                assert(j < fresh);
            }
            assert forall|j: usize| j <= max_uvar(b) implies lvl_assign(rho3, j) == lvl_assign(
                rho,
                j,
            ) by {
                assert(j < fresh);
            }
            lemma_eval_agree(a, rho3, rho);
            lemma_eval_agree(b, rho3, rho);
        }
    }
}

/// Substituting a variable cannot raise the largest variable beyond those
/// of the tree and of the replacement.
pub proof fn lemma_lsubst1_uvar(v: LvlV, x: usize, r: LvlV)
    ensures
        max_uvar(lsubst1(v, x, r)) <= max_uvar(v) || max_uvar(lsubst1(v, x, r)) <= max_uvar(r),
    decreases v,
{
    match v {
        LvlV::Add(u, k) => {
            lemma_lsubst1_uvar(*u, x, r);
            lemma_norm_uvar_add(lsubst1(*u, x, r), k);
        },
        LvlV::Max(a, b) => {
            lemma_lsubst1_uvar(*a, x, r);
            lemma_lsubst1_uvar(*b, x, r);
            lemma_norm_uvar_max(lsubst1(*a, x, r), lsubst1(*b, x, r));
        },
        LvlV::IMax(a, b) => {
            lemma_lsubst1_uvar(*a, x, r);
            lemma_lsubst1_uvar(*b, x, r);
            lemma_norm_uvar_imax(lsubst1(*a, x, r), lsubst1(*b, x, r));
        },
        _ => {},
    }
}

/// Renormalizing introduces no new variables: additions.
pub proof fn lemma_norm_uvar_add(u: LvlV, k: u32)
    ensures
        max_uvar(norm_add(u, k)) <= max_uvar(u),
{
}

/// Renormalizing introduces no new variables: maxima.
pub proof fn lemma_norm_uvar_max(a: LvlV, b: LvlV)
    ensures
        max_uvar(norm_max(a, b)) <= max_uvar(a) || max_uvar(norm_max(a, b)) <= max_uvar(b),
    decreases lvl_sz(a) + lvl_sz(b),
{
    if a == b || a == LvlV::Zero || b == LvlV::Zero {
    } else {
        match (a, b) {
            (LvlV::Add(x, k1), LvlV::Add(y, k2)) => {
                let m = if k1 <= k2 {
                    k1
                } else {
                    k2
                };
                lemma_sz_norm_add(*x, (k1 - m) as u32);
                lemma_sz_norm_add(*y, (k2 - m) as u32);
                lemma_norm_uvar_add(*x, (k1 - m) as u32);
                lemma_norm_uvar_add(*y, (k2 - m) as u32);
                lemma_norm_uvar_max(norm_add(*x, (k1 - m) as u32), norm_add(*y, (k2 - m) as u32));
                lemma_norm_uvar_add(
                    norm_max(norm_add(*x, (k1 - m) as u32), norm_add(*y, (k2 - m) as u32)),
                    m,
                );
            },
            _ => {},
        }
    }
}

/// Renormalizing introduces no new variables: impredicative maxima.
pub proof fn lemma_norm_uvar_imax(a: LvlV, b: LvlV)
    ensures
        max_uvar(norm_imax(a, b)) <= max_uvar(a) || max_uvar(norm_imax(a, b)) <= max_uvar(b),
    decreases lvl_sz(b),
{
    if a == b {
    } else {
        match b {
            LvlV::Add(_, _) => {
                lemma_norm_uvar_max(a, b);
            },
            LvlV::IMax(v, w) => {
                lemma_norm_uvar_imax(a, *w);
                lemma_norm_uvar_max(norm_imax(a, *w), b);
            },
            LvlV::Max(v, w) => {
                lemma_norm_uvar_imax(a, *v);
                lemma_norm_uvar_imax(a, *w);
                lemma_norm_uvar_max(norm_imax(a, *v), norm_imax(a, *w));
            },
            _ => {},
        }
    }
}

} // verus!
