//! De Bruijn shifting, capture-free substitution and universe substitution.
//!
//! Index arithmetic saturates at `usize::MAX`; the specification functions
//! state that same saturating semantics, so the contracts are exact.

use vstd::prelude::*;

use crate::arena::Arena;
use crate::level;
use crate::level::{Level, LvlV};
use crate::term;
use crate::term::{Payload, Term, TmV};

verus! {

/// Saturating addition on de Bruijn indices and depths.
pub open spec fn s_add(a: usize, b: usize) -> usize {
    if a + b > usize::MAX {
        usize::MAX
    } else {
        (a + b) as usize
    }
}

/// `shift_v(v, n, k)` increments every variable of `v` with index above
/// `k` by `n`; such a variable's cached type is shifted along, while a
/// bound variable is left untouched.
pub open spec fn shift_v(v: TmV, n: usize, k: usize) -> TmV
    decreases v,
{
    match v {
        TmV::Var(i, ty) => if i > k {
            TmV::Var(s_add(i, n), Box::new(shift_v(*ty, n, k)))
        } else {
            v
        },
        TmV::App(a, b) => TmV::App(Box::new(shift_v(*a, n, k)), Box::new(shift_v(*b, n, k))),
        TmV::Abs(a, b) => TmV::Abs(
            Box::new(shift_v(*a, n, k)),
            Box::new(shift_v(*b, n, s_add(k, 1))),
        ),
        TmV::Prod(a, b) => TmV::Prod(
            Box::new(shift_v(*a, n, k)),
            Box::new(shift_v(*b, n, s_add(k, 1))),
        ),
        _ => v,
    }
}

/// `subst_v(v, u, d)` replaces the variable with index `d` by `u`, shifted
/// so that `u`'s free variables still point past the binders it moved
/// under, and moves every variable above `d` down by one.
pub open spec fn subst_v(v: TmV, u: TmV, d: usize) -> TmV
    decreases v,
{
    match v {
        TmV::Var(i, ty) => if i == d {
            shift_v(u, (d - 1) as usize, 0)
        } else if i > d {
            TmV::Var((i - 1) as usize, ty)
        } else {
            v
        },
        TmV::App(a, b) => TmV::App(Box::new(subst_v(*a, u, d)), Box::new(subst_v(*b, u, d))),
        TmV::Abs(a, b) => TmV::Abs(
            Box::new(subst_v(*a, u, d)),
            Box::new(subst_v(*b, u, s_add(d, 1))),
        ),
        TmV::Prod(a, b) => TmV::Prod(
            Box::new(subst_v(*a, u, d)),
            Box::new(subst_v(*b, u, s_add(d, 1))),
        ),
        _ => v,
    }
}

/// Simultaneous substitution of universe variables in a level; a variable
/// without an entry is left in place, and the result is renormalized
/// bottom-up through the normalizing operations.
pub open spec fn lsubst(v: LvlV, s: Seq<LvlV>) -> LvlV
    decreases v,
{
    match v {
        LvlV::Zero => LvlV::Zero,
        LvlV::Var(i) => if i < s.len() {
            s[i as int]
        } else {
            LvlV::Var(i)
        },
        LvlV::Add(u, k) => level::norm_add(lsubst(*u, s), k),
        LvlV::Max(a, b) => level::norm_max(lsubst(*a, s), lsubst(*b, s)),
        LvlV::IMax(a, b) => level::norm_imax(lsubst(*a, s), lsubst(*b, s)),
    }
}

/// Universe substitution over a term: levels inside sorts, axiom
/// instantiations and declaration instantiations are substituted; the body
/// of an instantiated declaration keeps its own universe namespace.
pub open spec fn tsubst_univs(v: TmV, s: Seq<LvlV>) -> TmV
    decreases v,
{
    match v {
        TmV::Sort(l) => TmV::Sort(lsubst(l, s)),
        TmV::Var(i, ty) => TmV::Var(i, Box::new(tsubst_univs(*ty, s))),
        TmV::App(a, b) => TmV::App(Box::new(tsubst_univs(*a, s)), Box::new(tsubst_univs(*b, s))),
        TmV::Abs(a, b) => TmV::Abs(Box::new(tsubst_univs(*a, s)), Box::new(tsubst_univs(*b, s))),
        TmV::Prod(a, b) => TmV::Prod(Box::new(tsubst_univs(*a, s)), Box::new(tsubst_univs(*b, s))),
        TmV::Axiom(ax, ls) => TmV::Axiom(ax, ls.map(|_i: int, l: LvlV| lsubst(l, s))),
        TmV::Decl(t, a, ls) => TmV::Decl(t, a, ls.map(|_i: int, l: LvlV| lsubst(l, s))),
    }
}

/// What `unfold` yields: the body of an instantiated declaration with its
/// universes substituted, or the term itself.
pub open spec fn unfold_v(v: TmV) -> TmV {
    match v {
        TmV::Decl(t, _, ls) => tsubst_univs(*t, ls),
        _ => v,
    }
}

impl Level {
    /// Substitutes universe variables in `self` by the given levels and
    /// renormalizes.
    pub(crate) fn subst_univs(self, sigma: &Vec<Level>, arena: &mut Arena) -> (r: Level)
        requires
            old(arena).wf(),
            self.live(old(arena)),
            forall|k: int| 0 <= k < sigma@.len() ==> (#[trigger] sigma@[k]).live(old(arena)),
        ensures
            final(arena).wf(),
            Arena::grows_only(old(arena), final(arena)),
            level::lvl_stable(old(arena).levels@, final(arena).levels@),
            final(arena).terms@ == old(arena).terms@,
            term::tm_stable(
                old(arena).terms@,
                old(arena).levels@,
                final(arena).terms@,
                final(arena).levels@,
            ),
            r.live(final(arena)),
            r.sem(final(arena)) == lsubst(
                self.sem(old(arena)),
                term::lvls_sem(old(arena).levels@, sigma@),
            ),
        decreases level::lvl_sz(self.sem(arena)),
    {
        let ghost sv = term::lvls_sem(arena.levels@, sigma@);
        proof {
            assert(level::lvl_wf_at(arena.levels@, self.0 as int));
        }
        match arena.levels[self.0] {
            level::Payload::Zero => {
                assert(level::lvl_stable(arena.levels@, arena.levels@));
                assert(term::tm_stable(arena.terms@, arena.levels@, arena.terms@, arena.levels@));
                self
            },
            level::Payload::Var(i) => {
                if i < sigma.len() {
                    proof {
                        assert(sv[i as int] == sigma@[i as int].sem(arena));
                    }
                    assert(level::lvl_stable(arena.levels@, arena.levels@));
                assert(term::tm_stable(arena.terms@, arena.levels@, arena.terms@, arena.levels@));
                    sigma[i]
                } else {
                    assert(level::lvl_stable(arena.levels@, arena.levels@));
                assert(term::tm_stable(arena.terms@, arena.levels@, arena.terms@, arena.levels@));
                    self
                }
            },
            level::Payload::Add(u, k) => {
                let su = u.subst_univs(sigma, arena);
                proof {
                    assert(term::lvls_sem(arena.levels@, sigma@) =~= sv);
                }
                su.add(k, arena)
            },
            level::Payload::Max(u, v) => {
                let su = u.subst_univs(sigma, arena);
                proof {
                    assert(term::lvls_sem(arena.levels@, sigma@) =~= sv);
                }
                let sv2 = v.subst_univs(sigma, arena);
                su.max(sv2, arena)
            },
            level::Payload::IMax(u, v) => {
                let su = u.subst_univs(sigma, arena);
                proof {
                    assert(term::lvls_sem(arena.levels@, sigma@) =~= sv);
                }
                let sv2 = v.subst_univs(sigma, arena);
                su.imax(sv2, arena)
            },
        }
    }
}

impl Term {
    /// Increments the free variables of `self` (those with index above
    /// `k`) by `n`.
    pub fn shift(self, n: usize, k: usize, arena: &mut Arena) -> (r: Term)
        requires
            old(arena).wf(),
            self.live(old(arena)),
        ensures
            final(arena).wf(),
            Arena::grows_only(old(arena), final(arena)),
            term::tm_stable(
                old(arena).terms@,
                old(arena).levels@,
                final(arena).terms@,
                final(arena).levels@,
            ),
            level::lvl_stable(old(arena).levels@, final(arena).levels@),
            r.live(final(arena)),
            r.sem(final(arena)) == shift_v(self.sem(old(arena)), n, k),
        decreases term::tm_sz(self.sem(arena)),
    {
        proof {
            assert(term::tm_wf_at(arena.terms@, arena.levels@, self.0 as int));
        }
        let tag = self.read_shape(arena);
        match tag {
            Shape::Var(i, ty) => {
                if i > k {
                    let sty = ty.shift(n, k, arena);
                    Term::var(i.saturating_add(n), sty, arena)
                } else {
                    assert(term::tm_stable(arena.terms@, arena.levels@, arena.terms@, arena.levels@));
                    self
                }
            },
            Shape::App(a, b) => {
                let sa = a.shift(n, k, arena);
                let sb = b.shift(n, k, arena);
                sa.app(sb, arena)
            },
            Shape::Abs(a, b) => {
                let sa = a.shift(n, k, arena);
                let sb = b.shift(n, k.saturating_add(1), arena);
                sa.abs(sb, arena)
            },
            Shape::Prod(a, b) => {
                let sa = a.shift(n, k, arena);
                let sb = b.shift(n, k.saturating_add(1), arena);
                sa.prod(sb, arena)
            },
            _ => {
                assert(term::tm_stable(arena.terms@, arena.levels@, arena.terms@, arena.levels@));
                assert(level::lvl_stable(arena.levels@, arena.levels@));
                assert(term::tm_stable(arena.terms@, arena.levels@, arena.terms@, arena.levels@));
                self
            },
        }
    }

    /// Substitutes the variable bound at `depth` in `self` by `sub`.
    pub fn substitute(self, sub: Term, depth: usize, arena: &mut Arena) -> (r: Term)
        requires
            old(arena).wf(),
            self.live(old(arena)),
            sub.live(old(arena)),
            depth >= 1,
        ensures
            final(arena).wf(),
            Arena::grows_only(old(arena), final(arena)),
            term::tm_stable(
                old(arena).terms@,
                old(arena).levels@,
                final(arena).terms@,
                final(arena).levels@,
            ),
            level::lvl_stable(old(arena).levels@, final(arena).levels@),
            r.live(final(arena)),
            r.sem(final(arena)) == subst_v(self.sem(old(arena)), sub.sem(old(arena)), depth),
        decreases term::tm_sz(self.sem(arena)),
    {
        proof {
            assert(term::tm_wf_at(arena.terms@, arena.levels@, self.0 as int));
        }
        let tag = self.read_shape(arena);
        match tag {
            Shape::Var(i, ty) => {
                if i == depth {
                    sub.shift(depth - 1, 0, arena)
                } else if i > depth {
                    Term::var(i - 1, ty, arena)
                } else {
                    assert(term::tm_stable(arena.terms@, arena.levels@, arena.terms@, arena.levels@));
                    self
                }
            },
            Shape::App(a, b) => {
                let sa = a.substitute(sub, depth, arena);
                let sb = b.substitute(sub, depth, arena);
                sa.app(sb, arena)
            },
            Shape::Abs(a, b) => {
                let sa = a.substitute(sub, depth, arena);
                let sb = b.substitute(sub, depth.saturating_add(1), arena);
                sa.abs(sb, arena)
            },
            Shape::Prod(a, b) => {
                let sa = a.substitute(sub, depth, arena);
                let sb = b.substitute(sub, depth.saturating_add(1), arena);
                sa.prod(sb, arena)
            },
            _ => {
                assert(term::tm_stable(arena.terms@, arena.levels@, arena.terms@, arena.levels@));
                assert(level::lvl_stable(arena.levels@, arena.levels@));
                assert(term::tm_stable(arena.terms@, arena.levels@, arena.terms@, arena.levels@));
                self
            },
        }
    }
}

/// The shape of a term node, with the handles and level vectors copied
/// out, so that the arena is free to be borrowed mutably while recursing.
pub enum Shape {
    Sort(Level),
    Var(usize, Term),
    App(Term, Term),
    Abs(Term, Term),
    Prod(Term, Term),
    Axiom(crate::builtin::Axiom, Vec<Level>),
    Decl(Term, usize, Vec<Level>),
}

/// Copies a level vector out of a borrowed one.
fn copy_levels(a: &Vec<Level>) -> (r: Vec<Level>)
    ensures
        r@ == a@,
{
    let mut r: Vec<Level> = Vec::new();
    let mut i: usize = 0;
    while i < a.len()
        invariant
            i <= a@.len(),
            r@ == a@.subrange(0, i as int),
        decreases a@.len() - i,
    {
        r.push(a[i]);
        proof {
            assert(r@ =~= a@.subrange(0, i + 1 as int));
        }
        i += 1;
    }
    proof {
        assert(r@ =~= a@);
    }
    r
}

impl Term {
    /// Reads the structural shape of this node.
    pub(crate) fn read_shape(self, arena: &Arena) -> (r: Shape)
        requires
            arena.wf(),
            self.live(arena),
        ensures
            match r {
                Shape::Sort(l) => l.live(arena) && self.sem(arena) == TmV::Sort(l.sem(arena)),
                Shape::Var(i, ty) => ty.live(arena) && i >= 1 && self.sem(arena) == TmV::Var(
                    i,
                    Box::new(ty.sem(arena)),
                ),
                Shape::App(a, b) => a.live(arena) && b.live(arena) && self.sem(arena) == TmV::App(
                    Box::new(a.sem(arena)),
                    Box::new(b.sem(arena)),
                ),
                Shape::Abs(a, b) => a.live(arena) && b.live(arena) && self.sem(arena) == TmV::Abs(
                    Box::new(a.sem(arena)),
                    Box::new(b.sem(arena)),
                ),
                Shape::Prod(a, b) => a.live(arena) && b.live(arena) && self.sem(arena) == TmV::Prod(
                    Box::new(a.sem(arena)),
                    Box::new(b.sem(arena)),
                ),
                Shape::Axiom(ax, ls) => (forall|k: int|
                    0 <= k < ls@.len() ==> (#[trigger] ls@[k]).live(arena)) && self.sem(arena)
                    == TmV::Axiom(ax, term::lvls_sem(arena.levels@, ls@)),
                Shape::Decl(t, a, ls) => t.live(arena) && (forall|k: int|
                    0 <= k < ls@.len() ==> (#[trigger] ls@[k]).live(arena)) && self.sem(arena)
                    == TmV::Decl(Box::new(t.sem(arena)), a, term::lvls_sem(arena.levels@, ls@)),
            },
    {
        proof {
            assert(term::tm_wf_at(arena.terms@, arena.levels@, self.0 as int));
        }
        match &arena.terms[self.0] {
            Payload::Sort(l) => Shape::Sort(*l),
            Payload::Var(i, ty) => Shape::Var(*i, *ty),
            Payload::App(a, b) => Shape::App(*a, *b),
            Payload::Abs(a, b) => Shape::Abs(*a, *b),
            Payload::Prod(a, b) => Shape::Prod(*a, *b),
            Payload::Axiom(ax, ls) => {
                let c = copy_levels(ls);
                proof {
                    assert(term::lvls_sem(arena.levels@, c@) =~= term::lvls_sem(
                        arena.levels@,
                        match arena.terms@[self.0 as int] {
                            Payload::Axiom(_, ls0) => ls0@,
                            _ => c@,
                        },
                    ));
                }
                Shape::Axiom(*ax, c)
            },
            Payload::Decl(t, a, ls) => {
                let c = copy_levels(ls);
                proof {
                    assert(term::lvls_sem(arena.levels@, c@) =~= term::lvls_sem(
                        arena.levels@,
                        match arena.terms@[self.0 as int] {
                            Payload::Decl(_, _, ls0) => ls0@,
                            _ => c@,
                        },
                    ));
                }
                Shape::Decl(*t, *a, c)
            },
        }
    }

    /// Substitutes universe variables by the given levels throughout the
    /// term, renormalizing every level it touches.
    #[verifier::rlimit(50)]
    pub fn subst_univs(self, sigma: &Vec<Level>, arena: &mut Arena) -> (r: Term)
        requires
            old(arena).wf(),
            self.live(old(arena)),
            forall|k: int| 0 <= k < sigma@.len() ==> (#[trigger] sigma@[k]).live(old(arena)),
        ensures
            final(arena).wf(),
            Arena::grows_only(old(arena), final(arena)),
            term::tm_stable(
                old(arena).terms@,
                old(arena).levels@,
                final(arena).terms@,
                final(arena).levels@,
            ),
            level::lvl_stable(old(arena).levels@, final(arena).levels@),
            r.live(final(arena)),
            r.sem(final(arena)) == tsubst_univs(
                self.sem(old(arena)),
                term::lvls_sem(old(arena).levels@, sigma@),
            ),
        decreases term::tm_sz(self.sem(arena)),
    {
        let ghost sv = term::lvls_sem(arena.levels@, sigma@);
        let tag = self.read_shape(arena);
        match tag {
            Shape::Sort(l) => {
                let sl = l.subst_univs(sigma, arena);
                Term::sort(sl, arena)
            },
            Shape::Var(i, ty) => {
                let sty = ty.subst_univs(sigma, arena);
                proof {
                    assert(term::lvls_sem(arena.levels@, sigma@) =~= sv);
                }
                Term::var(i, sty, arena)
            },
            Shape::App(a, b) => {
                let sa = a.subst_univs(sigma, arena);
                proof {
                    assert(term::lvls_sem(arena.levels@, sigma@) =~= sv);
                }
                let sb = b.subst_univs(sigma, arena);
                sa.app(sb, arena)
            },
            Shape::Abs(a, b) => {
                let sa = a.subst_univs(sigma, arena);
                proof {
                    assert(term::lvls_sem(arena.levels@, sigma@) =~= sv);
                }
                let sb = b.subst_univs(sigma, arena);
                sa.abs(sb, arena)
            },
            Shape::Prod(a, b) => {
                let sa = a.subst_univs(sigma, arena);
                proof {
                    assert(term::lvls_sem(arena.levels@, sigma@) =~= sv);
                }
                let sb = b.subst_univs(sigma, arena);
                sa.prod(sb, arena)
            },
            Shape::Axiom(ax, ls) => {
                let sls = subst_level_vec(&ls, sigma, arena);
                let r = Term::axiom_term(ax, &sls, arena);
                proof {
                    assert(term::lvls_sem(old(arena).levels@, ls@).map(
                        |_i: int, l: LvlV| lsubst(l, sv),
                    ) =~= term::lvls_sem(arena.levels@, sls@));
                }
                r
            },
            Shape::Decl(t, a, ls) => {
                let sls = subst_level_vec(&ls, sigma, arena);
                let r = Term::decl(term::Declaration(t, a), &sls, arena);
                proof {
                    assert(term::lvls_sem(old(arena).levels@, ls@).map(
                        |_i: int, l: LvlV| lsubst(l, sv),
                    ) =~= term::lvls_sem(arena.levels@, sls@));
                }
                r
            },
        }
    }

    /// Unfolds an instantiated declaration into its body with the
    /// instantiation's universes substituted; any other term is returned
    /// unchanged.
    pub fn unfold(self, arena: &mut Arena) -> (r: Term)
        requires
            old(arena).wf(),
            self.live(old(arena)),
        ensures
            final(arena).wf(),
            Arena::grows_only(old(arena), final(arena)),
            term::tm_stable(
                old(arena).terms@,
                old(arena).levels@,
                final(arena).terms@,
                final(arena).levels@,
            ),
            level::lvl_stable(old(arena).levels@, final(arena).levels@),
            r.live(final(arena)),
            r.sem(final(arena)) == unfold_v(self.sem(old(arena))),
    {
        let tag = self.read_shape(arena);
        match tag {
            Shape::Decl(t, _, ls) => t.subst_univs(&ls, arena),
            _ => {
                assert(term::tm_stable(arena.terms@, arena.levels@, arena.terms@, arena.levels@));
                assert(level::lvl_stable(arena.levels@, arena.levels@));
                assert(term::tm_stable(arena.terms@, arena.levels@, arena.terms@, arena.levels@));
                self
            },
        }
    }
}

/// Substitutes universe variables in each level of a vector.
fn subst_level_vec(ls: &Vec<Level>, sigma: &Vec<Level>, arena: &mut Arena) -> (r: Vec<Level>)
    requires
        old(arena).wf(),
        forall|k: int| 0 <= k < ls@.len() ==> (#[trigger] ls@[k]).live(old(arena)),
        forall|k: int| 0 <= k < sigma@.len() ==> (#[trigger] sigma@[k]).live(old(arena)),
    ensures
        final(arena).wf(),
        Arena::grows_only(old(arena), final(arena)),
        level::lvl_stable(old(arena).levels@, final(arena).levels@),
        final(arena).terms@ == old(arena).terms@,
        term::tm_stable(
            old(arena).terms@,
            old(arena).levels@,
            final(arena).terms@,
            final(arena).levels@,
        ),
        forall|k: int| 0 <= k < r@.len() ==> (#[trigger] r@[k]).live(final(arena)),
        term::lvls_sem(final(arena).levels@, r@) == term::lvls_sem(old(arena).levels@, ls@).map(
            |_i: int, l: LvlV| lsubst(l, term::lvls_sem(old(arena).levels@, sigma@)),
        ),
{
    let ghost pre = arena.levels@;
    let ghost sv = term::lvls_sem(pre, sigma@);
    let ghost goal = term::lvls_sem(pre, ls@).map(|_i: int, l: LvlV| lsubst(l, sv));
    let mut r: Vec<Level> = Vec::new();
    let mut i: usize = 0;
    while i < ls.len()
        invariant
            arena.wf(),
            i <= ls@.len(),
            pre.is_prefix_of(arena.levels@),
            level::lvl_stable(pre, arena.levels@),
            arena.terms@ == old(arena).terms@,
            term::tm_stable(old(arena).terms@, pre, arena.terms@, arena.levels@),
            arena.named_terms@ == old(arena).named_terms@,
            arena.named_decls@ == old(arena).named_decls@,
            forall|k: int| 0 <= k < ls@.len() ==> (#[trigger] ls@[k]).0 < pre.len(),
            forall|k: int| 0 <= k < sigma@.len() ==> (#[trigger] sigma@[k]).0 < pre.len(),
            sv == term::lvls_sem(pre, sigma@),
            goal == term::lvls_sem(pre, ls@).map(|_i: int, l: LvlV| lsubst(l, sv)),
            goal.len() == ls@.len(),
            r@.len() == i,
            forall|k: int| 0 <= k < i ==> (#[trigger] r@[k]).0 < arena.levels@.len(),
            forall|k: int|
                0 <= k < i ==> level::lvl_view(arena.levels@, (#[trigger] r@[k]).0 as int)
                    == goal[k],
        decreases ls@.len() - i,
    {
        proof {
            assert(term::lvls_sem(arena.levels@, sigma@) =~= sv);
        }
        let sl = ls[i].subst_univs(sigma, arena);
        proof {
            assert(goal[i as int] == lsubst(level::lvl_view(pre, ls@[i as int].0 as int), sv));
        }
        r.push(sl);
        i += 1;
    }
    proof {
        assert(term::lvls_sem(arena.levels@, r@) =~= goal);
    }
    r
}


// What universe substitution does to a level's value and to its shape:
// it computes the same level as evaluating under the substituted
// assignment, it lands on normal trees, and on a stored node it is the
// normalizing operation applied to the substituted parts.

/// The assignment obtained by reading each substituted variable off the
/// substitution under `rho`; variables past the vector keep their `rho`
/// entry.
pub open spec fn subst_env(s: Seq<LvlV>, rho: Map<usize, u32>) -> Map<usize, u32> {
    Map::new(
        |i: usize| i < s.len() || rho.dom().contains(i),
        |i: usize|
            if i < s.len() {
                level::lvl_eval(s[i as int], rho)
            } else {
                rho[i]
            },
    )
}

/// Universe substitution keeps levels normal.
pub proof fn lemma_lsubst_norm(v: LvlV, s: Seq<LvlV>)
    requires
        forall|k: int| 0 <= k < s.len() ==> level::is_norm(#[trigger] s[k]),
    ensures
        level::is_norm(lsubst(v, s)),
    decreases v,
{
    match v {
        LvlV::Add(u, k) => {
            lemma_lsubst_norm(*u, s);
            level::lemma_norm_add_norm(lsubst(*u, s), k);
        },
        LvlV::Max(a, b) => {
            lemma_lsubst_norm(*a, s);
            lemma_lsubst_norm(*b, s);
            level::lemma_norm_max_norm(lsubst(*a, s), lsubst(*b, s));
        },
        LvlV::IMax(a, b) => {
            lemma_lsubst_norm(*a, s);
            lemma_lsubst_norm(*b, s);
            level::lemma_norm_imax_norm(lsubst(*a, s), lsubst(*b, s));
        },
        _ => {},
    }
}

/// Universe substitution preserves a level's value: substituting and then
/// evaluating equals evaluating under the substituted assignment.
pub proof fn lemma_lsubst_eval(v: LvlV, s: Seq<LvlV>, rho: Map<usize, u32>)
    requires
        forall|k: int| 0 <= k < s.len() ==> level::is_norm(#[trigger] s[k]),
    ensures
        level::lvl_eval(lsubst(v, s), rho) == level::lvl_eval(v, subst_env(s, rho)),
    decreases v,
{
    match v {
        LvlV::Add(u, k) => {
            lemma_lsubst_eval(*u, s, rho);
            level::lemma_norm_add_eval(lsubst(*u, s), k, rho);
        },
        LvlV::Max(a, b) => {
            lemma_lsubst_eval(*a, s, rho);
            lemma_lsubst_eval(*b, s, rho);
            level::lemma_norm_max_eval(lsubst(*a, s), lsubst(*b, s), rho);
        },
        LvlV::IMax(a, b) => {
            lemma_lsubst_eval(*a, s, rho);
            lemma_lsubst_eval(*b, s, rho);
            lemma_lsubst_norm(*b, s);
            level::lemma_norm_imax_eval(lsubst(*a, s), lsubst(*b, s), rho);
        },
        _ => {},
    }
}

/// Universe substitution distributes over the level constructors: on a
/// stored addition, maximum or impredicative maximum it is the
/// corresponding normalizing operation applied to the substituted parts.
pub proof fn lemma_subst_univs_distributes(a: &Arena, l: Level, s: Seq<LvlV>)
    requires
        a.wf(),
        l.live(a),
    ensures
        a.levels@[l.0 as int] matches level::Payload::Add(u, k) ==> lsubst(l.sem(a), s)
            == level::norm_add(lsubst(u.sem(a), s), k),
        a.levels@[l.0 as int] matches level::Payload::Max(u, v) ==> lsubst(l.sem(a), s)
            == level::norm_max(lsubst(u.sem(a), s), lsubst(v.sem(a), s)),
        a.levels@[l.0 as int] matches level::Payload::IMax(u, v) ==> lsubst(l.sem(a), s)
            == level::norm_imax(lsubst(u.sem(a), s), lsubst(v.sem(a), s)),
{
    assert(level::lvl_wf_at(a.levels@, l.0 as int));
}

/// Universe substitution commutes with normalization on stored levels:
/// its result is already normal, so renormalizing it changes nothing.
pub proof fn lemma_subst_univs_normal(a: &Arena, l: Level, s: Seq<LvlV>)
    requires
        a.wf(),
        l.live(a),
        forall|k: int| 0 <= k < s.len() ==> level::is_norm(#[trigger] s[k]),
    ensures
        level::is_norm(lsubst(l.sem(a), s)),
        level::renorm(lsubst(l.sem(a), s)) == lsubst(l.sem(a), s),
{
    lemma_lsubst_norm(l.sem(a), s);
    level::lemma_renorm_fixed(lsubst(l.sem(a), s));
}

} // verus!
