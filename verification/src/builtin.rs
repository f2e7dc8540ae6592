//! Built-in axiom constants.
//!
//! Each schema contributes a finite set of constants with a universe arity
//! and a declared type; the equality schema also contributes a reduction
//! rule for its recursor, applied during weak-head normalization. The
//! natural-number schema of the surrounding project is not wired in here.

use vstd::prelude::*;

use crate::arena::Arena;
use crate::level::{Level, LvlV};
use crate::term::{Declaration, Term, TmV};

verus! {

/// Axioms regarding equality.
#[derive(Clone, Copy, Debug, PartialEq, Eq, Structural)]
pub enum Equality {
    /// The equality type: `Eq.{u} : (A : Sort u) -> A -> A -> Prop`.
    Eq_,
    /// The recursor over the equality type.
    EqRec,
    /// The reflexivity predicate for the equality type.
    Refl,
}

/// Axioms regarding falsity.
#[derive(Clone, Copy, Debug, PartialEq, Eq, Structural)]
pub enum False {
    /// The empty proposition: `False : Prop`.
    False,
    /// The eliminator of falsity: `False_rec.{u} : (C : Sort u) -> False -> C`.
    FalseRec,
}

/// The built-in constants known to the kernel.
#[derive(Clone, Copy, Debug, PartialEq, Eq, Structural)]
pub enum Axiom {
    /// An axiom of the equality schema.
    Equality(Equality),
    /// An axiom of the falsity schema.
    False(False),
}

impl Axiom {
    /// The number of universe variables the constant abstracts over.
    pub open spec fn spec_arity(self) -> nat {
        match self {
            Axiom::Equality(Equality::Eq_) => 1,
            Axiom::Equality(Equality::Refl) => 1,
            Axiom::Equality(Equality::EqRec) => 2,
            Axiom::False(False::False) => 0,
            Axiom::False(False::FalseRec) => 1,
        }
    }
}

// Shorthand for writing term trees in specifications.

pub open spec fn v_sort(l: LvlV) -> TmV {
    TmV::Sort(l)
}

pub open spec fn v_var(i: usize, t: TmV) -> TmV {
    TmV::Var(i, Box::new(t))
}

pub open spec fn v_app(a: TmV, b: TmV) -> TmV {
    TmV::App(Box::new(a), Box::new(b))
}

pub open spec fn v_abs(a: TmV, b: TmV) -> TmV {
    TmV::Abs(Box::new(a), Box::new(b))
}

pub open spec fn v_prod(a: TmV, b: TmV) -> TmV {
    TmV::Prod(Box::new(a), Box::new(b))
}

pub open spec fn uv(i: usize) -> LvlV {
    LvlV::Var(i)
}

/// The tree of the `Eq` constant instantiated with universe variable 0.
pub open spec fn eq_ax() -> TmV {
    TmV::Axiom(Axiom::Equality(Equality::Eq_), seq![uv(0)])
}

/// The tree of the `Refl` constant instantiated with universe variable 0.
pub open spec fn refl_ax() -> TmV {
    TmV::Axiom(Axiom::Equality(Equality::Refl), seq![uv(0)])
}

/// The tree of the `False` constant.
pub open spec fn false_ax() -> TmV {
    TmV::Axiom(Axiom::False(False::False), Seq::empty())
}

/// `Eq.{u} : (A : Sort u) -> A -> A -> Prop`.
pub open spec fn eq_ty() -> TmV {
    v_prod(
        v_sort(uv(0)),
        v_prod(v_var(1, v_sort(uv(0))), v_prod(v_var(2, v_sort(uv(0))), v_sort(LvlV::Zero))),
    )
}

/// `Refl.{u} : (A : Sort u) -> (a : A) -> Eq A a a`.
pub open spec fn refl_ty() -> TmV {
    v_prod(
        v_sort(uv(0)),
        v_prod(
            v_var(1, v_sort(uv(0))),
            v_app(
                v_app(
                    v_app(eq_ax(), v_var(2, v_sort(uv(0)))),
                    v_var(1, v_sort(uv(0))),
                ),
                v_var(1, v_sort(uv(0))),
            ),
        ),
    )
}

/// The motive of the equality recursor: `(b : A) -> Eq A a b -> Sort v`.
pub open spec fn eq_rec_motive() -> TmV {
    v_prod(
        v_var(2, v_sort(uv(0))),
        v_prod(
            v_app(
                v_app(v_app(eq_ax(), v_var(3, v_sort(uv(0)))), v_var(2, v_sort(uv(0)))),
                v_var(1, v_sort(uv(0))),
            ),
            v_sort(uv(1)),
        ),
    )
}

/// `motive a (Refl A a)`, the minor premise of the equality recursor.
pub open spec fn eq_rec_minor() -> TmV {
    v_app(
        v_app(v_var(1, eq_rec_motive()), v_var(2, v_sort(uv(0)))),
        v_app(v_app(refl_ax(), v_var(3, v_sort(uv(0)))), v_var(2, v_sort(uv(0)))),
    )
}

/// `(b : A) -> (p : Eq A a b) -> motive b p`, the conclusion of the
/// equality recursor.
pub open spec fn eq_rec_conc() -> TmV {
    v_prod(
        v_var(4, v_sort(uv(0))),
        v_prod(
            v_app(
                v_app(v_app(eq_ax(), v_var(5, v_sort(uv(0)))), v_var(4, v_sort(uv(0)))),
                v_var(1, v_sort(uv(0))),
            ),
            v_app(
                v_app(v_var(4, eq_rec_motive()), v_var(2, v_sort(uv(0)))),
                v_var(
                    1,
                    v_app(
                        v_app(v_app(eq_ax(), v_var(6, v_sort(uv(0)))), v_var(5, v_sort(uv(0)))),
                        v_var(2, v_sort(uv(0))),
                    ),
                ),
            ),
        ),
    )
}

/// `Eq_rec.{u,v} : (A : Sort u) -> (a : A) -> (motive : (b : A) ->
/// Eq A a b -> Sort v) -> motive a (Refl A a) -> (b : A) ->
/// (p : Eq A a b) -> motive b p`.
pub open spec fn eq_rec_ty() -> TmV {
    v_prod(
        v_sort(uv(0)),
        v_prod(
            v_var(1, v_sort(uv(0))),
            v_prod(eq_rec_motive(), v_prod(eq_rec_minor(), eq_rec_conc())),
        ),
    )
}

/// `False : Prop`.
pub open spec fn false_ty() -> TmV {
    v_sort(LvlV::Zero)
}

/// `False_rec.{u} : (C : Sort u) -> False -> C`.
pub open spec fn false_rec_ty() -> TmV {
    v_prod(v_sort(uv(0)), v_prod(false_ax(), v_var(2, v_sort(uv(0)))))
}

/// The declared type of each built-in constant, as a closed tree over the
/// schema's universe variables.
pub open spec fn ax_type_v(a: Axiom) -> TmV {
    match a {
        Axiom::Equality(Equality::Eq_) => eq_ty(),
        Axiom::Equality(Equality::Refl) => refl_ty(),
        Axiom::Equality(Equality::EqRec) => eq_rec_ty(),
        Axiom::False(False::False) => false_ty(),
        Axiom::False(False::FalseRec) => false_rec_ty(),
    }
}

/// Builds the constant `ax` applied to universe variable 0.
fn mk_ax_u0(ax: Axiom, arena: &mut Arena) -> (r: Term)
    requires
        old(arena).wf(),
    ensures
        final(arena).wf(),
        Arena::grows_only(old(arena), final(arena)),
        crate::term::tm_stable(
            old(arena).terms@,
            old(arena).levels@,
            final(arena).terms@,
            final(arena).levels@,
        ),
        crate::level::lvl_stable(old(arena).levels@, final(arena).levels@),
        r.live(final(arena)),
        r.sem(final(arena)) == TmV::Axiom(ax, seq![uv(0)]),
{
    let u0 = Level::var(0, arena);
    let ghost lv1 = arena.levels@;
    let mut ls: Vec<Level> = Vec::new();
    ls.push(u0);
    let r = Term::axiom_term(ax, &ls, arena);
    proof {
        assert(crate::term::lvls_sem(lv1, ls@) =~= seq![uv(0)]);
    }
    r
}

impl Equality {
    /// The declared type of the `Eq` constant.
    pub(crate) fn type_eq(arena: &mut Arena) -> (r: Term)
        requires
            old(arena).wf(),
        ensures
            final(arena).wf(),
            Arena::grows_only(old(arena), final(arena)),
            crate::term::tm_stable(
                old(arena).terms@,
                old(arena).levels@,
                final(arena).terms@,
                final(arena).levels@,
            ),
            crate::level::lvl_stable(old(arena).levels@, final(arena).levels@),
            r.live(final(arena)),
            r.sem(final(arena)) == eq_ty(),
    {
        let u0 = Level::var(0, arena);
        let su = Term::sort(u0, arena);
        let prop = Term::prop(arena);
        let v2 = Term::var(2, su, arena);
        let v1 = Term::var(1, su, arena);
        let p1 = v2.prod(prop, arena);
        let p2 = v1.prod(p1, arena);
        su.prod(p2, arena)
    }

    /// The declared type of the `Refl` constant.
    pub(crate) fn type_refl(arena: &mut Arena) -> (r: Term)
        requires
            old(arena).wf(),
        ensures
            final(arena).wf(),
            Arena::grows_only(old(arena), final(arena)),
            crate::term::tm_stable(
                old(arena).terms@,
                old(arena).levels@,
                final(arena).terms@,
                final(arena).levels@,
            ),
            crate::level::lvl_stable(old(arena).levels@, final(arena).levels@),
            r.live(final(arena)),
            r.sem(final(arena)) == refl_ty(),
    {
        let u0 = Level::var(0, arena);
        let su = Term::sort(u0, arena);
        let eq = mk_ax_u0(Axiom::Equality(Equality::Eq_), arena);
        let v2 = Term::var(2, su, arena);
        let v1 = Term::var(1, su, arena);
        let a1 = eq.app(v2, arena);
        let a2 = a1.app(v1, arena);
        let a3 = a2.app(v1, arena);
        let p1 = v1.prod(a3, arena);
        su.prod(p1, arena)
    }

    /// The motive of the equality recursor, as a term.
    #[verifier::rlimit(50)]
    fn motive_term(arena: &mut Arena) -> (r: Term)
        requires
            old(arena).wf(),
        ensures
            final(arena).wf(),
            Arena::grows_only(old(arena), final(arena)),
            crate::term::tm_stable(
                old(arena).terms@,
                old(arena).levels@,
                final(arena).terms@,
                final(arena).levels@,
            ),
            crate::level::lvl_stable(old(arena).levels@, final(arena).levels@),
            r.live(final(arena)),
            r.sem(final(arena)) == eq_rec_motive(),
    {
        let u0 = Level::var(0, arena);
        let su = Term::sort(u0, arena);
        let u1 = Level::var(1, arena);
        let sv = Term::sort(u1, arena);
        let eq = mk_ax_u0(Axiom::Equality(Equality::Eq_), arena);
        let v3 = Term::var(3, su, arena);
        let v2 = Term::var(2, su, arena);
        let v1 = Term::var(1, su, arena);
        let m1 = eq.app(v3, arena);
        let m2 = m1.app(v2, arena);
        let m3 = m2.app(v1, arena);
        let m4 = m3.prod(sv, arena);
        v2.prod(m4, arena)
    }

    /// The minor premise `motive a (Refl A a)` of the equality recursor,
    /// as a term.
    #[verifier::rlimit(50)]
    fn minor_term(arena: &mut Arena) -> (r: Term)
        requires
            old(arena).wf(),
        ensures
            final(arena).wf(),
            Arena::grows_only(old(arena), final(arena)),
            crate::term::tm_stable(
                old(arena).terms@,
                old(arena).levels@,
                final(arena).terms@,
                final(arena).levels@,
            ),
            crate::level::lvl_stable(old(arena).levels@, final(arena).levels@),
            r.live(final(arena)),
            r.sem(final(arena)) == eq_rec_minor(),
    {
        let u0 = Level::var(0, arena);
        let su = Term::sort(u0, arena);
        let refl = mk_ax_u0(Axiom::Equality(Equality::Refl), arena);
        let motive = Equality::motive_term(arena);
        let v3 = Term::var(3, su, arena);
        let v2 = Term::var(2, su, arena);
        let r1 = refl.app(v3, arena);
        let refl_a = r1.app(v2, arena);
        let vm1 = Term::var(1, motive, arena);
        let q1 = vm1.app(v2, arena);
        q1.app(refl_a, arena)
    }

    /// The hypothesis `p : Eq A a b` as cached on the last bound variable
    /// of the recursor's conclusion.
    #[verifier::rlimit(60)]
    fn conc_hyp_term(arena: &mut Arena) -> (r: Term)
        requires
            old(arena).wf(),
        ensures
            final(arena).wf(),
            Arena::grows_only(old(arena), final(arena)),
            crate::term::tm_stable(
                old(arena).terms@,
                old(arena).levels@,
                final(arena).terms@,
                final(arena).levels@,
            ),
            crate::level::lvl_stable(old(arena).levels@, final(arena).levels@),
            r.live(final(arena)),
            r.sem(final(arena)) == v_app(
                v_app(v_app(eq_ax(), v_var(6, v_sort(uv(0)))), v_var(5, v_sort(uv(0)))),
                v_var(2, v_sort(uv(0))),
            ),
    {
        let u0 = Level::var(0, arena);
        let su = Term::sort(u0, arena);
        let eq = mk_ax_u0(Axiom::Equality(Equality::Eq_), arena);
        let v2 = Term::var(2, su, arena);
        let v5 = Term::var(5, su, arena);
        let v6 = Term::var(6, su, arena);
        let d1 = eq.app(v6, arena);
        let d2 = d1.app(v5, arena);
        d2.app(v2, arena)
    }

    /// The domain `Eq A a b` of the recursor's conclusion, under its two
    /// binders.
    #[verifier::rlimit(60)]
    fn conc_dom_term(arena: &mut Arena) -> (r: Term)
        requires
            old(arena).wf(),
        ensures
            final(arena).wf(),
            Arena::grows_only(old(arena), final(arena)),
            crate::term::tm_stable(
                old(arena).terms@,
                old(arena).levels@,
                final(arena).terms@,
                final(arena).levels@,
            ),
            crate::level::lvl_stable(old(arena).levels@, final(arena).levels@),
            r.live(final(arena)),
            r.sem(final(arena)) == v_app(
                v_app(v_app(eq_ax(), v_var(5, v_sort(uv(0)))), v_var(4, v_sort(uv(0)))),
                v_var(1, v_sort(uv(0))),
            ),
    {
        let u0 = Level::var(0, arena);
        let su = Term::sort(u0, arena);
        let eq = mk_ax_u0(Axiom::Equality(Equality::Eq_), arena);
        let v1 = Term::var(1, su, arena);
        let v4 = Term::var(4, su, arena);
        let v5 = Term::var(5, su, arena);
        let c1 = eq.app(v5, arena);
        let c2 = c1.app(v4, arena);
        c2.app(v1, arena)
    }

    /// The conclusion `(b : A) -> (p : Eq A a b) -> motive b p` of the
    /// equality recursor, as a term.
    #[verifier::rlimit(100)]
    fn conc_term(arena: &mut Arena) -> (r: Term)
        requires
            old(arena).wf(),
        ensures
            final(arena).wf(),
            Arena::grows_only(old(arena), final(arena)),
            crate::term::tm_stable(
                old(arena).terms@,
                old(arena).levels@,
                final(arena).terms@,
                final(arena).levels@,
            ),
            crate::level::lvl_stable(old(arena).levels@, final(arena).levels@),
            r.live(final(arena)),
            r.sem(final(arena)) == eq_rec_conc(),
    {
        let u0 = Level::var(0, arena);
        let su = Term::sort(u0, arena);
        let motive = Equality::motive_term(arena);
        let v2 = Term::var(2, su, arena);
        let v4 = Term::var(4, su, arena);
        let c3 = Equality::conc_dom_term(arena);
        let d3 = Equality::conc_hyp_term(arena);
        let vp = Term::var(1, d3, arena);
        let vm4 = Term::var(4, motive, arena);
        let e1 = vm4.app(v2, arena);
        let e2 = e1.app(vp, arena);
        let f1 = c3.prod(e2, arena);
        v4.prod(f1, arena)
    }

    /// The declared type of the `Eq_rec` constant.
    #[verifier::rlimit(50)]
    pub(crate) fn type_eq_rec(arena: &mut Arena) -> (r: Term)
        requires
            old(arena).wf(),
        ensures
            final(arena).wf(),
            Arena::grows_only(old(arena), final(arena)),
            crate::term::tm_stable(
                old(arena).terms@,
                old(arena).levels@,
                final(arena).terms@,
                final(arena).levels@,
            ),
            crate::level::lvl_stable(old(arena).levels@, final(arena).levels@),
            r.live(final(arena)),
            r.sem(final(arena)) == eq_rec_ty(),
    {
        let u0 = Level::var(0, arena);
        let su = Term::sort(u0, arena);
        let v1 = Term::var(1, su, arena);
        let motive = Equality::motive_term(arena);
        let minor = Equality::minor_term(arena);
        let conc = Equality::conc_term(arena);
        let g1 = minor.prod(conc, arena);
        let g2 = motive.prod(g1, arena);
        let g3 = v1.prod(g2, arena);
        su.prod(g3, arena)
    }
}

impl Axiom {
    /// The declared type of the constant.
    pub(crate) fn get_type(self, arena: &mut Arena) -> (r: Term)
        requires
            old(arena).wf(),
        ensures
            final(arena).wf(),
            Arena::grows_only(old(arena), final(arena)),
            crate::term::tm_stable(
                old(arena).terms@,
                old(arena).levels@,
                final(arena).terms@,
                final(arena).levels@,
            ),
            crate::level::lvl_stable(old(arena).levels@, final(arena).levels@),
            r.live(final(arena)),
            r.sem(final(arena)) == ax_type_v(self),
    {
        match self {
            Axiom::Equality(Equality::Eq_) => Equality::type_eq(arena),
            Axiom::Equality(Equality::Refl) => Equality::type_refl(arena),
            Axiom::Equality(Equality::EqRec) => Equality::type_eq_rec(arena),
            Axiom::False(False::False) => Term::prop(arena),
            Axiom::False(False::FalseRec) => {
                let u0 = Level::var(0, arena);
                let su = Term::sort(u0, arena);
                let ghost lv1 = arena.levels@;
                let ls: Vec<Level> = Vec::new();
                let fa = Term::axiom_term(Axiom::False(False::False), &ls, arena);
                proof {
                    assert(crate::term::lvls_sem(lv1, ls@) =~= Seq::<LvlV>::empty());
                }
                let v2 = Term::var(2, su, arena);
                let p1 = fa.prod(v2, arena);
                su.prod(p1, arena)
            },
        }
    }

    /// Binds every built-in constant, as a universe-polymorphic
    /// declaration, under its name.
    pub fn add_named_axioms(arena: &mut Arena)
        requires
            old(arena).wf(),
        ensures
            final(arena).wf(),
            Arena::extends(old(arena), final(arena)),
            axioms_bound(final(arena)),
    {
        let u0 = Level::var(0, arena);
        let u1 = Level::var(1, arena);

        let t_eq = mk_ax_u0(Axiom::Equality(Equality::Eq_), arena);
        arena.bind_decl("Eq", Declaration(t_eq, 1));

        let ghost lv2 = arena.levels@;
        let mut ls: Vec<Level> = Vec::new();
        ls.push(u0);
        ls.push(u1);
        let t_rec = Term::axiom_term(Axiom::Equality(Equality::EqRec), &ls, arena);
        proof {
            assert(crate::term::lvls_sem(lv2, ls@) =~= seq![uv(0), uv(1)]);
        }
        arena.bind_decl("Eq_rec", Declaration(t_rec, 2));

        let t_refl = mk_ax_u0(Axiom::Equality(Equality::Refl), arena);
        arena.bind_decl("Refl", Declaration(t_refl, 1));

        let ghost lvh = arena.levels@;
        let nls: Vec<Level> = Vec::new();
        let t_false = Term::axiom_term(Axiom::False(False::False), &nls, arena);
        proof {
            assert(crate::term::lvls_sem(lvh, nls@) =~= Seq::<LvlV>::empty());
        }
        arena.bind_decl("False", Declaration(t_false, 0));

        let t_frec = mk_ax_u0(Axiom::False(False::FalseRec), arena);
        arena.bind_decl("False_rec", Declaration(t_frec, 1));

        proof {
            reveal_strlit("Eq");
            reveal_strlit("Eq_rec");
            reveal_strlit("Refl");
            reveal_strlit("False");
            reveal_strlit("False_rec");
            assert("Eq"@.len() == 2 && "Eq_rec"@.len() == 6 && "Refl"@.len() == 4 && "False"@.len()
                == 5 && "False_rec"@.len() == 9);
            assert(crate::arena::lookup_decl(arena.named_decls@, "Eq"@) == Some(
                Declaration(t_eq, 1),
            ));
            assert(crate::arena::lookup_decl(arena.named_decls@, "Eq_rec"@) == Some(
                Declaration(t_rec, 2),
            ));
            assert(crate::arena::lookup_decl(arena.named_decls@, "Refl"@) == Some(
                Declaration(t_refl, 1),
            ));
            assert(crate::arena::lookup_decl(arena.named_decls@, "False"@) == Some(
                Declaration(t_false, 0),
            ));
            assert(crate::arena::lookup_decl(arena.named_decls@, "False_rec"@) == Some(
                Declaration(t_frec, 1),
            ));
            assert(crate::arena::lookup_term(arena.named_terms@, "False"@) == Some(t_false));
            assert(t_eq.sem(arena) == TmV::Axiom(Axiom::Equality(Equality::Eq_), seq![uv(0)]));
            assert(t_rec.sem(arena) == TmV::Axiom(
                Axiom::Equality(Equality::EqRec),
                seq![uv(0), uv(1)],
            ));
            assert(t_refl.sem(arena) == TmV::Axiom(Axiom::Equality(Equality::Refl), seq![uv(0)]));
            assert(t_false.sem(arena) == TmV::Axiom(
                Axiom::False(False::False),
                Seq::<LvlV>::empty(),
            ));
            assert(t_frec.sem(arena) == TmV::Axiom(Axiom::False(False::FalseRec), seq![uv(0)]));
        }
    }
}

/// The name under `n` resolves to a declaration of the given arity whose
/// body is the constant `ax` applied to the given levels.
pub open spec fn decl_bound(a: &Arena, n: Seq<char>, ax: Axiom, ls: Seq<LvlV>, arity: nat) -> bool {
    match crate::arena::lookup_decl(a.named_decls@, n) {
        Some(d) => d.1 == arity && d.0.live(a) && d.0.sem(a) == TmV::Axiom(ax, ls),
        None => false,
    }
}

/// Every built-in constant is bound under its name: `Eq`, `Eq_rec` and
/// `Refl` for the equality schema, `False` and `False_rec` for falsity,
/// each with its universe arity; `False`, having no universe parameters,
/// is also bound as a term.
pub open spec fn axioms_bound(a: &Arena) -> bool {
    &&& decl_bound(a, "Eq"@, Axiom::Equality(Equality::Eq_), seq![uv(0)], 1)
    &&& decl_bound(a, "Eq_rec"@, Axiom::Equality(Equality::EqRec), seq![uv(0), uv(1)], 2)
    &&& decl_bound(a, "Refl"@, Axiom::Equality(Equality::Refl), seq![uv(0)], 1)
    &&& decl_bound(a, "False"@, Axiom::False(False::False), Seq::empty(), 0)
    &&& decl_bound(a, "False_rec"@, Axiom::False(False::FalseRec), seq![uv(0)], 1)
    &&& match crate::arena::lookup_term(a.named_terms@, "False"@) {
        Some(t) => t.live(a) && t.sem(a) == TmV::Axiom(Axiom::False(False::False), Seq::empty()),
        None => false,
    }
}

impl Arena {
    /// Creates a fresh arena with the built-in axioms bound.
    pub fn new_with_axioms() -> (r: Arena)
        ensures
            r.wf(),
            axioms_bound(&r),
    {
        let mut a = Arena::new();
        Axiom::add_named_axioms(&mut a);
        a
    }
}

} // verus!
