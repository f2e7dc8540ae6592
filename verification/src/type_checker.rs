//! Type checking: weak-head reduction, conversion and inference.
//!
//! The logical core of the kernel. Reduction, conversion and inference are
//! mutually recursive; each carries a step budget, and every public entry
//! point runs with the fixed budget [`ENGINE_FUEL`]. The specification
//! functions mirror the algorithm over the trees that handles denote, so
//! each executable function is proved to compute exactly its
//! specification's answer.

use vstd::prelude::*;

use crate::arena::Arena;
use crate::error::{ErrV, Error, Kind, KindV, Trace};
use crate::builtin::{Axiom, Equality};
use crate::level::LvlV;
use crate::term::{Term, TmV};

verus! {

/// The step budget every public entry point runs with. Reduction of a
/// well-founded term never comes close; a term whose reduction would need
/// more steps is reported, not chased.
pub const ENGINE_FUEL: u64 = 1000000;

/// A pair of terms, where the second is the type of the first.
#[derive(Clone, Copy, Debug, PartialEq, Eq, Structural)]
pub struct TypedTerm(pub Term, pub Term);

/// Errors that can occur, at runtime, during type checking.
#[derive(Clone, Copy, Debug, PartialEq, Eq, Structural)]
pub enum ErrorKind {
    /// This term is not a universe.
    NotUniverse(Term),
    /// These two terms are not definitionally equal.
    NotDefEq(Term, Term),
    /// This function expected an argument of the one type and received an
    /// argument of the other.
    WrongArgumentType(Term, Term, TypedTerm),
    /// This is not a function, so it cannot be applied.
    NotAFunction(TypedTerm, Term),
    /// The inferred type does not convert into the expected one.
    TypeMismatch(Term, Term),
    /// The engine's step budget ran out before an answer was reached.
    DepthExceeded,
}

/// The tree-level reading of a type-checking error kind.
pub open spec fn kind_sem(k: ErrorKind, a: &Arena) -> KindV {
    match k {
        ErrorKind::NotUniverse(t) => KindV::NotUniverse(t.sem(a)),
        ErrorKind::NotDefEq(t, u) => KindV::NotDefEq(t.sem(a), u.sem(a)),
        ErrorKind::WrongArgumentType(f, exp, TypedTerm(u, tu)) => KindV::WrongArgumentType(
            f.sem(a),
            exp.sem(a),
            u.sem(a),
            tu.sem(a),
        ),
        ErrorKind::NotAFunction(TypedTerm(t, tt), u) => KindV::NotAFunction(
            t.sem(a),
            tt.sem(a),
            u.sem(a),
        ),
        ErrorKind::TypeMismatch(t, u) => KindV::TypeMismatch(t.sem(a), u.sem(a)),
        ErrorKind::DepthExceeded => KindV::DepthExceeded,
    }
}


// The algorithm over trees. Every function takes a step budget `f`; `None`
// means the budget ran out before an answer was reached. Each executable
// function below is proved to return exactly what its specification
// returns.

/// Weak-head normal form: head beta steps, unfolding of a declaration in
/// head position, and the equality recursor's iota rule, applied until the
/// head is stable.
pub open spec fn whnf_spec(v: TmV, f: nat) -> Option<TmV>
    decreases f, 0int,
{
    if f == 0 {
        None
    } else {
        match v {
            TmV::App(f1, a) => match whnf_spec(*f1, (f - 1) as nat) {
                None => None,
                Some(w) => match w {
                    TmV::Abs(_, body) => whnf_spec(
                        crate::calculus::subst_v(*body, *a, 1),
                        (f - 1) as nat,
                    ),
                    _ => match ireduce_spec(v, (f - 1) as nat) {
                        None => None,
                        Some(Some(r)) => whnf_spec(r, (f - 1) as nat),
                        Some(None) => Some(v),
                    },
                },
            },
            TmV::Decl(_, _, _) => whnf_spec(crate::calculus::unfold_v(v), (f - 1) as nat),
            _ => Some(v),
        }
    }
}

/// The iota rule of the equality recursor: an application spine
/// `Eq_rec A a m r b p` whose final argument reduces to a `Refl` rewrites
/// to `r`, provided `b` converts into `a`. `Some(None)` means no rule
/// applies; the term is stuck.
pub open spec fn ireduce_spec(v: TmV, f: nat) -> Option<Option<TmV>>
    decreases f, 0int,
{
    if f == 0 {
        None
    } else {
        match v {
            TmV::App(f1, p) => match whnf_spec(*f1, (f - 1) as nat) {
                None => None,
                Some(w1) => match w1 {
                    TmV::App(f2, b) => match whnf_spec(*f2, (f - 1) as nat) {
                        None => None,
                        Some(w2) => ireduce_mid_spec(w2, *p, *b, (f - 1) as nat),
                    },
                    _ => Some(None),
                },
            },
            _ => Some(None),
        }
    }
}

/// The middle of the iota rule: peels the minor premise, the motive and
/// the reflexive index off the spine.
pub open spec fn ireduce_mid_spec(w2: TmV, p: TmV, b: TmV, f: nat) -> Option<Option<TmV>>
    decreases f, 2int,
{
    match w2 {
        TmV::App(f3, minor) => match whnf_spec(*f3, f) {
            None => None,
            Some(w3) => match w3 {
                TmV::App(f4, _m) => match whnf_spec(*f4, f) {
                    None => None,
                    Some(w4) => match w4 {
                        TmV::App(f5, a) => match whnf_spec(*f5, f) {
                            None => None,
                            Some(w5) => match w5 {
                                TmV::App(f6, _aty) => ireduce_head_spec(*f6, p, b, *minor, *a, f),
                                _ => Some(None),
                            },
                        },
                        _ => Some(None),
                    },
                },
                _ => Some(None),
            },
        },
        _ => Some(None),
    }
}

/// The tail of the iota rule, once the six-argument spine is peeled: the
/// head must unfold to `Eq_rec`, `b` must convert into `a`, and the proof
/// `p` must reduce to an application of `Refl`.
pub open spec fn ireduce_head_spec(f6: TmV, p: TmV, b: TmV, minor: TmV, a: TmV, f: nat) -> Option<
    Option<TmV>,
>
    decreases f, 1int,
{
    match whnf_spec(crate::calculus::unfold_v(f6), f) {
        None => None,
        Some(w6) => match w6 {
            TmV::Axiom(Axiom::Equality(Equality::EqRec), _) => match conv_spec(b, a, f) {
                None => None,
                Some(false) => Some(None),
                Some(true) => match whnf_spec(p, f) {
                    None => None,
                    Some(wp) => match wp {
                        TmV::App(g1, _) => match *g1 {
                            TmV::App(g2, _) => match whnf_spec(
                                crate::calculus::unfold_v(*g2),
                                f,
                            ) {
                                None => None,
                                Some(w8) => match w8 {
                                    TmV::Axiom(Axiom::Equality(Equality::Refl), _) => Some(
                                        Some(minor),
                                    ),
                                    _ => Some(None),
                                },
                            },
                            _ => Some(None),
                        },
                        _ => Some(None),
                    },
                },
            },
            _ => Some(None),
        },
    }
}

/// Definitional equality: handle equality, proof irrelevance, weak-head
/// reduction of both sides and structural comparison, unfolding a
/// declaration when exactly one side is one.
pub open spec fn conv_spec(a: TmV, b: TmV, f: nat) -> Option<bool>
    decreases f, 0int,
{
    if f == 0 {
        None
    } else if a == b {
        Some(true)
    } else {
        match relevant_spec(a, (f - 1) as nat) {
            None => None,
            Some(false) => Some(true),
            Some(true) => match (whnf_spec(a, (f - 1) as nat), whnf_spec(b, (f - 1) as nat)) {
                (Some(wa), Some(wb)) => {
                    if wa == wb {
                        Some(true)
                    } else {
                        match (wa, wb) {
                            (TmV::Sort(l1), TmV::Sort(l2)) => crate::level::lvl_eq_spec(
                                l1,
                                l2,
                                (f - 1) as nat,
                            ),
                            (TmV::Var(i, _), TmV::Var(j, _)) => Some(i == j),
                            (TmV::Prod(a1, b1), TmV::Prod(a2, b2)) => match conv_spec(
                                *a1,
                                *a2,
                                (f - 1) as nat,
                            ) {
                                None => None,
                                Some(false) => Some(false),
                                Some(true) => conv_spec(*b1, *b2, (f - 1) as nat),
                            },
                            (TmV::Abs(_, t), TmV::Abs(_, u)) => conv_spec(*t, *u, (f - 1) as nat),
                            (TmV::App(t1, u1), TmV::App(t2, u2)) => match conv_spec(
                                *t1,
                                *t2,
                                (f - 1) as nat,
                            ) {
                                None => None,
                                Some(false) => Some(false),
                                Some(true) => conv_spec(*u1, *u2, (f - 1) as nat),
                            },
                            (TmV::Decl(t, _, ls), _) => conv_spec(
                                crate::calculus::tsubst_univs(*t, ls),
                                wb,
                                (f - 1) as nat,
                            ),
                            (_, TmV::Decl(t, _, ls)) => conv_spec(
                                crate::calculus::tsubst_univs(*t, ls),
                                wa,
                                (f - 1) as nat,
                            ),
                            _ => Some(false),
                        }
                    }
                },
                _ => None,
            },
        }
    }
}

/// Whether a term is relevant: a term whose type is a proposition (its
/// type's inferred sort reduces to `Prop`) is proof-irrelevant; a term
/// that does not type-check is treated as relevant.
pub open spec fn relevant_spec(v: TmV, f: nat) -> Option<bool>
    decreases f, 1int,
{
    match infer_spec(v, f) {
        None => None,
        Some(Err(_)) => Some(true),
        Some(Ok(ty)) => match infer_spec(ty, f) {
            None => None,
            Some(Err(_)) => Some(true),
            Some(Ok(sty)) => match whnf_spec(sty, f) {
                None => None,
                Some(w) => Some(w != TmV::Sort(LvlV::Zero)),
            },
        },
    }
}

/// Bidirectional type inference over trees, with traced errors.
pub open spec fn infer_spec(v: TmV, f: nat) -> Option<Result<TmV, ErrV>>
    decreases f, 0int,
{
    if f == 0 {
        None
    } else {
        match v {
            TmV::Sort(l) => Some(Ok(TmV::Sort(crate::level::norm_add(l, 1)))),
            TmV::Var(_, ty) => Some(Ok(*ty)),
            TmV::Axiom(ax, ls) => Some(
                Ok(crate::calculus::tsubst_univs(crate::builtin::ax_type_v(ax), ls)),
            ),
            TmV::Prod(t, u) => match infer_spec(*t, (f - 1) as nat) {
                None => None,
                Some(Err(e)) => Some(Err(e.push(Trace::Left))),
                Some(Ok(tt)) => match infer_spec(*u, (f - 1) as nat) {
                    None => None,
                    Some(Err(e)) => Some(Err(e.push(Trace::Right))),
                    Some(Ok(tu)) => match (whnf_spec(tt, (f - 1) as nat), whnf_spec(
                        tu,
                        (f - 1) as nat,
                    )) {
                        (Some(wt), Some(wu)) => match (wt, wu) {
                            (TmV::Sort(l1), TmV::Sort(l2)) => Some(
                                Ok(TmV::Sort(crate::level::norm_imax(l1, l2))),
                            ),
                            (TmV::Sort(l1), _) => Some(
                                Err(
                                    ErrV {
                                        kind: KindV::NotUniverse(wu),
                                        trace: seq![Trace::Right],
                                    },
                                ),
                            ),
                            _ => Some(
                                Err(ErrV { kind: KindV::NotUniverse(wt), trace: seq![Trace::Left] }),
                            ),
                        },
                        _ => None,
                    },
                },
            },
            TmV::Abs(t, u) => match infer_spec(*t, (f - 1) as nat) {
                None => None,
                Some(Err(e)) => Some(Err(e.push(Trace::Left))),
                Some(Ok(tt)) => match tt {
                    TmV::Sort(_) => match infer_spec(*u, (f - 1) as nat) {
                        None => None,
                        Some(Err(e)) => Some(Err(e.push(Trace::Right))),
                        Some(Ok(tu)) => Some(Ok(TmV::Prod(t, Box::new(tu)))),
                    },
                    _ => Some(
                        Err(ErrV { kind: KindV::NotUniverse(tt), trace: seq![Trace::Left] }),
                    ),
                },
            },
            TmV::App(t, u) => match infer_spec(*t, (f - 1) as nat) {
                None => None,
                Some(Err(e)) => Some(Err(e.push(Trace::Left))),
                Some(Ok(tt)) => match whnf_spec(tt, (f - 1) as nat) {
                    None => None,
                    Some(wt) => match wt {
                        TmV::Prod(arg_ty, cls) => match infer_spec(*u, (f - 1) as nat) {
                            None => None,
                            Some(Err(e)) => Some(Err(e.push(Trace::Right))),
                            Some(Ok(tu)) => match conv_spec(tu, *arg_ty, (f - 1) as nat) {
                                None => None,
                                Some(true) => Some(
                                    Ok(crate::calculus::subst_v(*cls, *u, 1)),
                                ),
                                Some(false) => Some(
                                    Err(
                                        ErrV {
                                            kind: KindV::WrongArgumentType(*t, *arg_ty, *u, tu),
                                            trace: Seq::empty(),
                                        },
                                    ),
                                ),
                            },
                        },
                        _ => Some(
                            Err(
                                ErrV {
                                    kind: KindV::NotAFunction(*t, wt, *u),
                                    trace: seq![Trace::Left],
                                },
                            ),
                        ),
                    },
                },
            },
            TmV::Decl(t, _, ls) => match infer_spec(*t, (f - 1) as nat) {
                None => None,
                Some(Err(e)) => Some(Err(e)),
                Some(Ok(ty)) => Some(Ok(crate::calculus::tsubst_univs(ty, ls))),
            },
        }
    }
}

/// Checking a term against a type: infer, then convert.
pub open spec fn check_spec(v: TmV, tyv: TmV, f: nat) -> Option<Result<(), ErrV>> {
    match infer_spec(v, f) {
        None => None,
        Some(Err(e)) => Some(Err(e)),
        Some(Ok(tt)) => match conv_spec(tt, tyv, f) {
            None => None,
            Some(true) => Some(Ok(())),
            Some(false) => Some(
                Err(ErrV { kind: KindV::TypeMismatch(tt, tyv), trace: Seq::empty() }),
            ),
        },
    }
}

/// What the public `whnf` returns: the weak-head normal form, or the term
/// itself when the step budget would run out.
pub open spec fn whnf_full(v: TmV) -> TmV {
    match whnf_spec(v, ENGINE_FUEL as nat) {
        Some(r) => r,
        None => v,
    }
}


/// One growth step of the arena: the invariant holds, nothing stored is
/// lost, and every old handle keeps its tree.
pub open spec fn steps(pre: &Arena, post: &Arena) -> bool {
    &&& post.wf()
    &&& Arena::grows_only(pre, post)
    &&& crate::term::tm_stable(pre.terms@, pre.levels@, post.terms@, post.levels@)
    &&& crate::level::lvl_stable(pre.levels@, post.levels@)
}

pub proof fn lemma_steps_refl(a: &Arena)
    requires
        a.wf(),
    ensures
        steps(a, a),
{
    assert(a.levels@.subrange(0, a.levels@.len() as int) =~= a.levels@);
    assert(a.terms@.subrange(0, a.terms@.len() as int) =~= a.terms@);
}

impl Term {
    /// Weak-head reduction within the given step budget.
    fn whnf_rec(self, fuel: u64, arena: &mut Arena) -> (r: Option<Term>)
        requires
            old(arena).wf(),
            self.live(old(arena)),
        ensures
            steps(old(arena), final(arena)),
            match r {
                None => whnf_spec(self.sem(old(arena)), fuel as nat) is None,
                Some(w) => w.live(final(arena)) && whnf_spec(self.sem(old(arena)), fuel as nat)
                    == Some(w.sem(final(arena))),
            },
        decreases fuel, 0int,
    {
        proof {
            lemma_steps_refl(arena);
        }
        if fuel == 0 {
            return None;
        }
        let tag = self.read_shape(arena);
        match tag {
            crate::calculus::Shape::App(f1, a) => {
                match f1.whnf_rec(fuel - 1, arena) {
                    None => None,
                    Some(w) => {
                        let wtag = w.read_shape(arena);
                        match wtag {
                            crate::calculus::Shape::Abs(_, body) => {
                                let sub = body.substitute(a, 1, arena);
                                sub.whnf_rec(fuel - 1, arena)
                            },
                            _ => {
                                match self.ireduce_rec(fuel - 1, arena) {
                                    None => None,
                                    Some(Some(red)) => red.whnf_rec(fuel - 1, arena),
                                    Some(None) => Some(self),
                                }
                            },
                        }
                    },
                }
            },
            crate::calculus::Shape::Decl(_, _, _) => {
                let u = self.unfold(arena);
                u.whnf_rec(fuel - 1, arena)
            },
            _ => Some(self),
        }
    }

    /// Attempts the equality recursor's iota rule within the budget.
    #[verifier::rlimit(100)]
    fn ireduce_rec(self, fuel: u64, arena: &mut Arena) -> (r: Option<Option<Term>>)
        requires
            old(arena).wf(),
            self.live(old(arena)),
        ensures
            steps(old(arena), final(arena)),
            match r {
                None => ireduce_spec(self.sem(old(arena)), fuel as nat) is None,
                Some(None) => ireduce_spec(self.sem(old(arena)), fuel as nat) == Some(
                    Option::<TmV>::None,
                ),
                Some(Some(t)) => t.live(final(arena)) && ireduce_spec(
                    self.sem(old(arena)),
                    fuel as nat,
                ) == Some(Some(t.sem(final(arena)))),
            },
        decreases fuel, 0int,
    {
        proof {
            lemma_steps_refl(arena);
        }
        if fuel == 0 {
            return None;
        }
        let tag = self.read_shape(arena);
        let (f1, p) = match tag {
            crate::calculus::Shape::App(f1, p) => (f1, p),
            _ => {
                return Some(None);
            },
        };
        let w1 = match f1.whnf_rec(fuel - 1, arena) {
            None => {
                return None;
            },
            Some(w) => w,
        };
        let (f2, b) = match w1.read_shape(arena) {
            crate::calculus::Shape::App(f2, b) => (f2, b),
            _ => {
                return Some(None);
            },
        };
        let w2 = match f2.whnf_rec(fuel - 1, arena) {
            None => {
                return None;
            },
            Some(w) => w,
        };
        w2.ireduce_mid_rec(p, b, fuel - 1, arena)
    }

    /// The middle of the iota rule over handles.
    #[verifier::rlimit(100)]
    fn ireduce_mid_rec(self, p: Term, b: Term, fuel: u64, arena: &mut Arena) -> (r: Option<
        Option<Term>,
    >)
        requires
            old(arena).wf(),
            self.live(old(arena)),
            p.live(old(arena)),
            b.live(old(arena)),
        ensures
            steps(old(arena), final(arena)),
            match r {
                None => ireduce_mid_spec(
                    self.sem(old(arena)),
                    p.sem(old(arena)),
                    b.sem(old(arena)),
                    fuel as nat,
                ) is None,
                Some(None) => ireduce_mid_spec(
                    self.sem(old(arena)),
                    p.sem(old(arena)),
                    b.sem(old(arena)),
                    fuel as nat,
                ) == Some(Option::<TmV>::None),
                Some(Some(t)) => t.live(final(arena)) && ireduce_mid_spec(
                    self.sem(old(arena)),
                    p.sem(old(arena)),
                    b.sem(old(arena)),
                    fuel as nat,
                ) == Some(Some(t.sem(final(arena)))),
            },
        decreases fuel, 2int,
    {
        proof {
            lemma_steps_refl(arena);
        }
        let (f3, minor) = match self.read_shape(arena) {
            crate::calculus::Shape::App(f3, minor) => (f3, minor),
            _ => {
                return Some(None);
            },
        };
        let w3 = match f3.whnf_rec(fuel, arena) {
            None => {
                return None;
            },
            Some(w) => w,
        };
        let f4 = match w3.read_shape(arena) {
            crate::calculus::Shape::App(f4, _) => f4,
            _ => {
                return Some(None);
            },
        };
        let w4 = match f4.whnf_rec(fuel, arena) {
            None => {
                return None;
            },
            Some(w) => w,
        };
        let (f5, aa) = match w4.read_shape(arena) {
            crate::calculus::Shape::App(f5, aa) => (f5, aa),
            _ => {
                return Some(None);
            },
        };
        let w5 = match f5.whnf_rec(fuel, arena) {
            None => {
                return None;
            },
            Some(w) => w,
        };
        let f6 = match w5.read_shape(arena) {
            crate::calculus::Shape::App(f6, _) => f6,
            _ => {
                return Some(None);
            },
        };
        f6.ireduce_head_rec(p, b, minor, aa, fuel, arena)
    }

    /// The tail of the iota rule: checks the head, the index conversion
    /// and the shape of the equality proof.
    #[verifier::rlimit(100)]
    fn ireduce_head_rec(
        self,
        p: Term,
        b: Term,
        minor: Term,
        aa: Term,
        fuel: u64,
        arena: &mut Arena,
    ) -> (r: Option<Option<Term>>)
        requires
            old(arena).wf(),
            self.live(old(arena)),
            p.live(old(arena)),
            b.live(old(arena)),
            minor.live(old(arena)),
            aa.live(old(arena)),
        ensures
            steps(old(arena), final(arena)),
            match r {
                None => ireduce_head_spec(
                    self.sem(old(arena)),
                    p.sem(old(arena)),
                    b.sem(old(arena)),
                    minor.sem(old(arena)),
                    aa.sem(old(arena)),
                    fuel as nat,
                ) is None,
                Some(None) => ireduce_head_spec(
                    self.sem(old(arena)),
                    p.sem(old(arena)),
                    b.sem(old(arena)),
                    minor.sem(old(arena)),
                    aa.sem(old(arena)),
                    fuel as nat,
                ) == Some(Option::<TmV>::None),
                Some(Some(t)) => t.live(final(arena)) && ireduce_head_spec(
                    self.sem(old(arena)),
                    p.sem(old(arena)),
                    b.sem(old(arena)),
                    minor.sem(old(arena)),
                    aa.sem(old(arena)),
                    fuel as nat,
                ) == Some(Some(t.sem(final(arena)))),
            },
        decreases fuel, 1int,
    {
        proof {
            lemma_steps_refl(arena);
        }
        // The head must unfold to the equality recursor.
        let uf6 = self.unfold(arena);
        let w6 = match uf6.whnf_rec(fuel, arena) {
            None => {
                return None;
            },
            Some(w) => w,
        };
        match w6.read_shape(arena) {
            crate::calculus::Shape::Axiom(Axiom::Equality(Equality::EqRec), _) => {},
            _ => {
                return Some(None);
            },
        }
        // The instantiated index must convert into the reflexive one.
        match b.conv_rec(aa, fuel, arena) {
            None => {
                return None;
            },
            Some(false) => {
                return Some(None);
            },
            Some(true) => {},
        }
        // The proof must reduce to an application of `Refl`.
        let wp = match p.whnf_rec(fuel, arena) {
            None => {
                return None;
            },
            Some(w) => w,
        };
        let g1 = match wp.read_shape(arena) {
            crate::calculus::Shape::App(g1, _) => g1,
            _ => {
                return Some(None);
            },
        };
        let g2 = match g1.read_shape(arena) {
            crate::calculus::Shape::App(g2, _) => g2,
            _ => {
                return Some(None);
            },
        };
        let ug2 = g2.unfold(arena);
        let w8 = match ug2.whnf_rec(fuel, arena) {
            None => {
                return None;
            },
            Some(w) => w,
        };
        match w8.read_shape(arena) {
            crate::calculus::Shape::Axiom(Axiom::Equality(Equality::Refl), _) => Some(Some(minor)),
            _ => Some(None),
        }
    }

    /// Conversion within the given step budget.
    #[verifier::rlimit(100)]
    fn conv_rec(self, rhs: Term, fuel: u64, arena: &mut Arena) -> (r: Option<bool>)
        requires
            old(arena).wf(),
            self.live(old(arena)),
            rhs.live(old(arena)),
        ensures
            steps(old(arena), final(arena)),
            r == conv_spec(self.sem(old(arena)), rhs.sem(old(arena)), fuel as nat),
        decreases fuel, 0int,
    {
        proof {
            lemma_steps_refl(arena);
        }
        if fuel == 0 {
            return None;
        }
        if self == rhs {
            return Some(true);
        }
        proof {
            if self.sem(arena) == rhs.sem(arena) {
                crate::term::lemma_tm_view_inj(arena.terms@, arena.levels@, self.0 as int, rhs.0 as int);
            }
        }
        match self.relevant_rec(fuel - 1, arena) {
            None => {
                return None;
            },
            Some(false) => {
                return Some(true);
            },
            Some(true) => {},
        }
        let wa = match self.whnf_rec(fuel - 1, arena) {
            None => {
                return None;
            },
            Some(w) => w,
        };
        let wb = match rhs.whnf_rec(fuel - 1, arena) {
            None => {
                return None;
            },
            Some(w) => w,
        };
        if wa == wb {
            return Some(true);
        }
        proof {
            if wa.sem(arena) == wb.sem(arena) {
                crate::term::lemma_tm_view_inj(arena.terms@, arena.levels@, wa.0 as int, wb.0 as int);
            }
        }
        let ta = wa.read_shape(arena);
        let tb = wb.read_shape(arena);
        match (ta, tb) {
            (crate::calculus::Shape::Sort(l1), crate::calculus::Shape::Sort(l2)) => l1.is_eq_rec(
                l2,
                fuel - 1,
                arena,
            ),
            (crate::calculus::Shape::Var(i, _), crate::calculus::Shape::Var(j, _)) => Some(
                i == j,
            ),
            (crate::calculus::Shape::Prod(a1, b1), crate::calculus::Shape::Prod(a2, b2)) => {
                match a1.conv_rec(a2, fuel - 1, arena) {
                    None => None,
                    Some(false) => Some(false),
                    Some(true) => b1.conv_rec(b2, fuel - 1, arena),
                }
            },
            (crate::calculus::Shape::Abs(_, t), crate::calculus::Shape::Abs(_, u)) => t.conv_rec(
                u,
                fuel - 1,
                arena,
            ),
            (crate::calculus::Shape::App(t1, u1), crate::calculus::Shape::App(t2, u2)) => {
                match t1.conv_rec(t2, fuel - 1, arena) {
                    None => None,
                    Some(false) => Some(false),
                    Some(true) => u1.conv_rec(u2, fuel - 1, arena),
                }
            },
            (crate::calculus::Shape::Decl(_, _, _), _) => {
                let u = wa.unfold(arena);
                u.conv_rec(wb, fuel - 1, arena)
            },
            (_, crate::calculus::Shape::Decl(_, _, _)) => {
                let u = wb.unfold(arena);
                u.conv_rec(wa, fuel - 1, arena)
            },
            _ => Some(false),
        }
    }

    /// Whether this term is relevant, that is, not a proof of a
    /// proposition, within the given step budget.
    fn relevant_rec(self, fuel: u64, arena: &mut Arena) -> (r: Option<bool>)
        requires
            old(arena).wf(),
            self.live(old(arena)),
        ensures
            steps(old(arena), final(arena)),
            r == relevant_spec(self.sem(old(arena)), fuel as nat),
        decreases fuel, 1int,
    {
        proof {
            lemma_steps_refl(arena);
        }
        let ty = match self.infer_rec(fuel, arena) {
            None => {
                return None;
            },
            Some(Err(_)) => {
                return Some(true);
            },
            Some(Ok(ty)) => ty,
        };
        let sty = match ty.infer_rec(fuel, arena) {
            None => {
                return None;
            },
            Some(Err(_)) => {
                return Some(true);
            },
            Some(Ok(sty)) => sty,
        };
        let w = match sty.whnf_rec(fuel, arena) {
            None => {
                return None;
            },
            Some(w) => w,
        };
        match w.read_shape(arena) {
            crate::calculus::Shape::Sort(l) => {
                proof {
                    assert(crate::level::lvl_wf_at(arena.levels@, l.0 as int));
                }
                match arena.levels[l.0] {
                    crate::level::Payload::Zero => Some(false),
                    _ => {
                        proof {
                            assert(l.sem(arena) != LvlV::Zero);
                        }
                        Some(true)
                    },
                }
            },
            _ => Some(true),
        }
    }

    /// Type inference within the given step budget.
    #[verifier::rlimit(100)]
    fn infer_rec(self, fuel: u64, arena: &mut Arena) -> (r: Option<Result<Term, Error>>)
        requires
            old(arena).wf(),
            self.live(old(arena)),
        ensures
            steps(old(arena), final(arena)),
            match r {
                None => infer_spec(self.sem(old(arena)), fuel as nat) is None,
                Some(Ok(ty)) => ty.live(final(arena)) && infer_spec(
                    self.sem(old(arena)),
                    fuel as nat,
                ) == Some(Result::<TmV, ErrV>::Ok(ty.sem(final(arena)))),
                Some(Err(e)) => infer_spec(self.sem(old(arena)), fuel as nat) == Some(
                    Result::<TmV, ErrV>::Err(e.sem(final(arena))),
                ),
            },
        decreases fuel, 0int,
    {
        proof {
            lemma_steps_refl(arena);
        }
        if fuel == 0 {
            return None;
        }
        let tag = self.read_shape(arena);
        match tag {
            crate::calculus::Shape::Sort(l) => {
                let l1 = l.succ(arena);
                let ty = Term::sort(l1, arena);
                Some(Ok(ty))
            },
            crate::calculus::Shape::Var(_, ty) => {
                Some(Ok(ty))
            },
            crate::calculus::Shape::Axiom(ax, ls) => {
                let ghost lv0 = arena.levels@;
                let ty = ax.get_type(arena);
                proof {
                    assert(crate::term::lvls_sem(arena.levels@, ls@) =~= crate::term::lvls_sem(
                        lv0,
                        ls@,
                    ));
                }
                let st = ty.subst_univs(&ls, arena);
                Some(Ok(st))
            },
            crate::calculus::Shape::Prod(t, u) => {
                let univ_t = match t.infer_rec(fuel - 1, arena) {
                    None => {
                        return None;
                    },
                    Some(Err(mut e)) => {
                        e.trace_err(Trace::Left);
                        return Some(Err(e));
                    },
                    Some(Ok(ty)) => ty,
                };
                let univ_u = match u.infer_rec(fuel - 1, arena) {
                    None => {
                        return None;
                    },
                    Some(Err(mut e)) => {
                        e.trace_err(Trace::Right);
                        return Some(Err(e));
                    },
                    Some(Ok(ty)) => ty,
                };
                let wt = match univ_t.whnf_rec(fuel - 1, arena) {
                    None => {
                        return None;
                    },
                    Some(w) => w,
                };
                let wu = match univ_u.whnf_rec(fuel - 1, arena) {
                    None => {
                        return None;
                    },
                    Some(w) => w,
                };
                match wt.read_shape(arena) {
                    crate::calculus::Shape::Sort(l1) => {
                        match wu.read_shape(arena) {
                            crate::calculus::Shape::Sort(l2) => {
                                let l = l1.imax(l2, arena);
                                let ty = Term::sort(l, arena);
                                Some(Ok(ty))
                            },
                            _ => {
                                let mut e = Error::new_tc(ErrorKind::NotUniverse(wu));
                                e.trace_err(Trace::Right);
                                Some(Err(e))
                            },
                        }
                    },
                    _ => {
                        let mut e = Error::new_tc(ErrorKind::NotUniverse(wt));
                        e.trace_err(Trace::Left);
                        Some(Err(e))
                    },
                }
            },
            crate::calculus::Shape::Abs(t, u) => {
                let type_t = match t.infer_rec(fuel - 1, arena) {
                    None => {
                        return None;
                    },
                    Some(Err(mut e)) => {
                        e.trace_err(Trace::Left);
                        return Some(Err(e));
                    },
                    Some(Ok(ty)) => ty,
                };
                match type_t.read_shape(arena) {
                    crate::calculus::Shape::Sort(_) => {
                        let type_u = match u.infer_rec(fuel - 1, arena) {
                            None => {
                                return None;
                            },
                            Some(Err(mut e)) => {
                                e.trace_err(Trace::Right);
                                return Some(Err(e));
                            },
                            Some(Ok(ty)) => ty,
                        };
                        let ty = t.prod(type_u, arena);
                        Some(Ok(ty))
                    },
                    _ => {
                        let mut e = Error::new_tc(ErrorKind::NotUniverse(type_t));
                        e.trace_err(Trace::Left);
                        Some(Err(e))
                    },
                }
            },
            crate::calculus::Shape::App(t, u) => {
                let type_t = match t.infer_rec(fuel - 1, arena) {
                    None => {
                        return None;
                    },
                    Some(Err(mut e)) => {
                        e.trace_err(Trace::Left);
                        return Some(Err(e));
                    },
                    Some(Ok(ty)) => ty,
                };
                let wt = match type_t.whnf_rec(fuel - 1, arena) {
                    None => {
                        return None;
                    },
                    Some(w) => w,
                };
                match wt.read_shape(arena) {
                    crate::calculus::Shape::Prod(arg_ty, cls) => {
                        let type_u = match u.infer_rec(fuel - 1, arena) {
                            None => {
                                return None;
                            },
                            Some(Err(mut e)) => {
                                e.trace_err(Trace::Right);
                                return Some(Err(e));
                            },
                            Some(Ok(ty)) => ty,
                        };
                        match type_u.conv_rec(arg_ty, fuel - 1, arena) {
                            None => None,
                            Some(true) => {
                                let ty = cls.substitute(u, 1, arena);
                                Some(Ok(ty))
                            },
                            Some(false) => {
                                let e = Error::new_tc(
                                    ErrorKind::WrongArgumentType(t, arg_ty, TypedTerm(u, type_u)),
                                );
                                Some(Err(e))
                            },
                        }
                    },
                    _ => {
                        let mut e = Error::new_tc(ErrorKind::NotAFunction(TypedTerm(t, wt), u));
                        e.trace_err(Trace::Left);
                        Some(Err(e))
                    },
                }
            },
            crate::calculus::Shape::Decl(t, _, ls) => {
                let ghost lv0 = arena.levels@;
                let ty = match t.infer_rec(fuel - 1, arena) {
                    None => {
                        return None;
                    },
                    Some(Err(e)) => {
                        return Some(Err(e));
                    },
                    Some(Ok(ty)) => ty,
                };
                proof {
                    assert(crate::term::lvls_sem(arena.levels@, ls@) =~= crate::term::lvls_sem(
                        lv0,
                        ls@,
                    ));
                }
                let st = ty.subst_univs(&ls, arena);
                Some(Ok(st))
            },
        }
    }
}


impl Term {
    /// Computes the weak-head normal form of this term. A term whose
    /// reduction exceeds the engine's step budget is returned unchanged.
    pub fn whnf(self, arena: &mut Arena) -> (r: Term)
        requires
            old(arena).wf(),
            self.live(old(arena)),
        ensures
            steps(old(arena), final(arena)),
            r.live(final(arena)),
            r.sem(final(arena)) == whnf_full(self.sem(old(arena))),
    {
        match self.whnf_rec(ENGINE_FUEL, arena) {
            Some(w) => w,
            None => self,
        }
    }

    /// Conversion: decides whether two terms are definitionally equal. The
    /// check is untyped and should only be used on terms already known to
    /// share a type; a comparison that exceeds the step budget counts as
    /// not convertible.
    pub fn conversion(self, rhs: Term, arena: &mut Arena) -> (r: bool)
        requires
            old(arena).wf(),
            self.live(old(arena)),
            rhs.live(old(arena)),
        ensures
            steps(old(arena), final(arena)),
            r == (conv_spec(self.sem(old(arena)), rhs.sem(old(arena)), ENGINE_FUEL as nat)
                == Some(true)),
    {
        match self.conv_rec(rhs, ENGINE_FUEL, arena) {
            Some(true) => true,
            _ => false,
        }
    }

    /// Checks whether two terms are definitionally equal, reporting an
    /// error when they are not.
    pub fn is_def_eq(self, rhs: Term, arena: &mut Arena) -> (r: Result<(), Error>)
        requires
            old(arena).wf(),
            self.live(old(arena)),
            rhs.live(old(arena)),
        ensures
            steps(old(arena), final(arena)),
            match r {
                Ok(_) => conv_spec(self.sem(old(arena)), rhs.sem(old(arena)), ENGINE_FUEL as nat)
                    == Some(true),
                Err(e) => e.trace@ =~= Seq::<Trace>::empty() && ((conv_spec(
                    self.sem(old(arena)),
                    rhs.sem(old(arena)),
                    ENGINE_FUEL as nat,
                ) == Some(false) && e.kind == Kind::TypeChecker(ErrorKind::NotDefEq(self, rhs)))
                    || (conv_spec(
                    self.sem(old(arena)),
                    rhs.sem(old(arena)),
                    ENGINE_FUEL as nat,
                ) is None && e.kind == Kind::TypeChecker(ErrorKind::DepthExceeded))),
            },
    {
        match self.conv_rec(rhs, ENGINE_FUEL, arena) {
            Some(true) => Ok(()),
            Some(false) => Err(Error::new_tc(ErrorKind::NotDefEq(self, rhs))),
            None => Err(Error::new_tc(ErrorKind::DepthExceeded)),
        }
    }

    /// Infers the type of this term, or reports where typing fails.
    pub fn infer(self, arena: &mut Arena) -> (r: Result<Term, Error>)
        requires
            old(arena).wf(),
            self.live(old(arena)),
        ensures
            steps(old(arena), final(arena)),
            match r {
                Ok(ty) => ty.live(final(arena)) && infer_spec(
                    self.sem(old(arena)),
                    ENGINE_FUEL as nat,
                ) == Some(Result::<TmV, ErrV>::Ok(ty.sem(final(arena)))),
                Err(e) => (infer_spec(self.sem(old(arena)), ENGINE_FUEL as nat) == Some(
                    Result::<TmV, ErrV>::Err(e.sem(final(arena))),
                )) || (infer_spec(self.sem(old(arena)), ENGINE_FUEL as nat) is None && e.kind
                    == Kind::TypeChecker(ErrorKind::DepthExceeded)),
            },
    {
        match self.infer_rec(ENGINE_FUEL, arena) {
            Some(r) => r,
            None => Err(Error::new_tc(ErrorKind::DepthExceeded)),
        }
    }

    /// Checks this term against the given type, reporting a mismatch when
    /// the inferred type does not convert into it.
    pub fn check(self, ty: Term, arena: &mut Arena) -> (r: Result<(), Error>)
        requires
            old(arena).wf(),
            self.live(old(arena)),
            ty.live(old(arena)),
        ensures
            steps(old(arena), final(arena)),
            match r {
                Ok(_) => check_spec(self.sem(old(arena)), ty.sem(old(arena)), ENGINE_FUEL as nat)
                    == Some(Result::<(), ErrV>::Ok(())),
                Err(e) => (check_spec(self.sem(old(arena)), ty.sem(old(arena)), ENGINE_FUEL as nat)
                    == Some(Result::<(), ErrV>::Err(e.sem(final(arena))))) || (check_spec(
                    self.sem(old(arena)),
                    ty.sem(old(arena)),
                    ENGINE_FUEL as nat,
                ) is None && e.kind == Kind::TypeChecker(ErrorKind::DepthExceeded)),
            },
    {
        let tty = match self.infer_rec(ENGINE_FUEL, arena) {
            None => {
                return Err(Error::new_tc(ErrorKind::DepthExceeded));
            },
            Some(Err(e)) => {
                return Err(e);
            },
            Some(Ok(ty)) => ty,
        };
        match tty.conv_rec(ty, ENGINE_FUEL, arena) {
            None => Err(Error::new_tc(ErrorKind::DepthExceeded)),
            Some(true) => Ok(()),
            Some(false) => Err(Error::new_tc(ErrorKind::TypeMismatch(tty, ty))),
        }
    }
}

impl crate::term::Declaration {
    /// Infers the type of the declaration's body, as a well-formedness
    /// check; the type itself is not exposed.
    pub fn infer(self, arena: &mut Arena) -> (r: Result<(), Error>)
        requires
            old(arena).wf(),
            self.0.live(old(arena)),
        ensures
            steps(old(arena), final(arena)),
            match r {
                Ok(_) => (infer_spec(self.0.sem(old(arena)), ENGINE_FUEL as nat) matches Some(
                    Result::<TmV, ErrV>::Ok(_),
                )),
                Err(e) => (infer_spec(self.0.sem(old(arena)), ENGINE_FUEL as nat) == Some(
                    Result::<TmV, ErrV>::Err(e.sem(final(arena))),
                )) || (infer_spec(self.0.sem(old(arena)), ENGINE_FUEL as nat) is None && e.kind
                    == Kind::TypeChecker(ErrorKind::DepthExceeded)),
            },
    {
        match self.0.infer(arena) {
            Ok(_) => Ok(()),
            Err(e) => Err(e),
        }
    }

    /// Checks the declaration's body against another declaration's body,
    /// read as its type.
    pub fn check(self, ty: crate::term::Declaration, arena: &mut Arena) -> (r: Result<(), Error>)
        requires
            old(arena).wf(),
            self.0.live(old(arena)),
            ty.0.live(old(arena)),
        ensures
            steps(old(arena), final(arena)),
            match r {
                Ok(_) => check_spec(self.0.sem(old(arena)), ty.0.sem(old(arena)), ENGINE_FUEL as nat)
                    == Some(Result::<(), ErrV>::Ok(())),
                Err(e) => (check_spec(
                    self.0.sem(old(arena)),
                    ty.0.sem(old(arena)),
                    ENGINE_FUEL as nat,
                ) == Some(Result::<(), ErrV>::Err(e.sem(final(arena))))) || (check_spec(
                    self.0.sem(old(arena)),
                    ty.0.sem(old(arena)),
                    ENGINE_FUEL as nat,
                ) is None && e.kind == Kind::TypeChecker(ErrorKind::DepthExceeded)),
            },
    {
        self.0.check(ty.0, arena)
    }
}


// Laws of conversion that follow from the algorithm by unfolding one
// step: reflexivity, proof irrelevance, and congruence under binders.

/// Conversion is reflexive: a term converts into itself as soon as the
/// budget allows one step.
pub proof fn lemma_conv_refl(t: TmV, f: nat)
    requires
        f >= 1,
    ensures
        conv_spec(t, t, f) == Some(true),
{
}

/// Proof irrelevance: a term whose type is a proposition — its inferred
/// type's inferred sort reduces to `Prop` — converts into anything.
pub proof fn lemma_proof_irrelevance(t: TmV, u: TmV, ty: TmV, sty: TmV, f: nat)
    requires
        f >= 1,
        infer_spec(t, (f - 1) as nat) == Some(Result::<TmV, ErrV>::Ok(ty)),
        infer_spec(ty, (f - 1) as nat) == Some(Result::<TmV, ErrV>::Ok(sty)),
        whnf_spec(sty, (f - 1) as nat) == Some(TmV::Sort(LvlV::Zero)),
    ensures
        conv_spec(t, u, f) == Some(true),
{
    assert(relevant_spec(t, (f - 1) as nat) == Some(false));
}

/// Conversion is a congruence under abstraction: equal bodies make equal
/// abstractions, provided the relevance of the left side settles within
/// the budget.
pub proof fn lemma_conv_congruence_abs(a1: TmV, b1: TmV, a2: TmV, b2: TmV, f: nat)
    requires
        f >= 2,
        conv_spec(b1, b2, (f - 1) as nat) == Some(true),
        relevant_spec(crate::builtin::v_abs(a1, b1), (f - 1) as nat) is Some,
    ensures
        conv_spec(crate::builtin::v_abs(a1, b1), crate::builtin::v_abs(a2, b2), f) == Some(true),
{
    let va = crate::builtin::v_abs(a1, b1);
    let vb = crate::builtin::v_abs(a2, b2);
    if va != vb {
        assert(whnf_spec(va, (f - 1) as nat) == Some(va));
        assert(whnf_spec(vb, (f - 1) as nat) == Some(vb));
    }
}

/// Conversion is a congruence under products: equal binder types and
/// equal bodies make equal products, provided the relevance of the left
/// side settles within the budget.
pub proof fn lemma_conv_congruence_prod(a1: TmV, b1: TmV, a2: TmV, b2: TmV, f: nat)
    requires
        f >= 2,
        conv_spec(a1, a2, (f - 1) as nat) == Some(true),
        conv_spec(b1, b2, (f - 1) as nat) == Some(true),
        relevant_spec(crate::builtin::v_prod(a1, b1), (f - 1) as nat) is Some,
    ensures
        conv_spec(crate::builtin::v_prod(a1, b1), crate::builtin::v_prod(a2, b2), f) == Some(
            true,
        ),
{
    let va = crate::builtin::v_prod(a1, b1);
    let vb = crate::builtin::v_prod(a2, b2);
    if va != vb {
        assert(whnf_spec(va, (f - 1) as nat) == Some(va));
        assert(whnf_spec(vb, (f - 1) as nat) == Some(vb));
    }
}

} // verus!
