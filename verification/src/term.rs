//! Interned de Bruijn terms.
//!
//! A term handle denotes a tree over sorts, variables, applications,
//! abstractions, products, built-in axiom constants and instantiated
//! declarations. Variables are de Bruijn indices starting at 1 and carry
//! the type they were declared with, as a hint for inference; conversion
//! ignores it.

use vstd::prelude::*;

use crate::arena::Arena;
use crate::builtin::Axiom;
use crate::level;
use crate::level::{Level, LvlV};

verus! {

/// A handle to an interned term.
#[derive(Clone, Copy, Debug, PartialEq, Eq, Structural)]
pub struct Term(pub usize);

/// A universe-polymorphic declaration: a body together with the number of
/// universe variables it abstracts over.
#[derive(Clone, Copy, Debug, PartialEq, Eq, Structural)]
pub struct Declaration(pub Term, pub usize);

/// A term node.
#[derive(Clone, Debug)]
pub enum Payload {
    /// The universe at the given level; `Prop` is `Sort(0)`.
    Sort(Level),
    /// A de Bruijn variable (index at least 1) with its declared type.
    Var(usize, Term),
    /// An application.
    App(Term, Term),
    /// A lambda abstraction: binder type and body.
    Abs(Term, Term),
    /// A dependent product: binder type and body.
    Prod(Term, Term),
    /// A built-in constant instantiated with a level vector.
    Axiom(Axiom, Vec<Level>),
    /// An instantiated declaration: body, universe arity, level vector.
    Decl(Term, usize, Vec<Level>),
}

/// The term tree that a handle denotes. Used only in specifications.
#[verifier::ext_equal]
pub enum TmV {
    Sort(LvlV),
    Var(usize, Box<TmV>),
    App(Box<TmV>, Box<TmV>),
    Abs(Box<TmV>, Box<TmV>),
    Prod(Box<TmV>, Box<TmV>),
    Axiom(Axiom, Seq<LvlV>),
    Decl(Box<TmV>, usize, Seq<LvlV>),
}

/// Size of a term tree, the measure for structural recursion.
pub open spec fn tm_sz(v: TmV) -> nat
    decreases v,
{
    match v {
        TmV::Sort(_) => 1,
        TmV::Var(_, t) => tm_sz(*t) + 1,
        TmV::App(a, b) => tm_sz(*a) + tm_sz(*b) + 1,
        TmV::Abs(a, b) => tm_sz(*a) + tm_sz(*b) + 1,
        TmV::Prod(a, b) => tm_sz(*a) + tm_sz(*b) + 1,
        TmV::Axiom(_, _) => 1,
        TmV::Decl(t, _, _) => tm_sz(*t) + 1,
    }
}

/// The level trees denoted by a stored level vector.
pub open spec fn lvls_sem(lv: Seq<level::Payload>, ls: Seq<Level>) -> Seq<LvlV> {
    ls.map(|_i: int, l: Level| level::lvl_view(lv, l.0 as int))
}

/// The tree denoted by the term node stored at index `i`. Out-of-range
/// links read as `Prop`; the arena invariant rules them out.
pub open spec fn tm_view(tm: Seq<Payload>, lv: Seq<level::Payload>, i: int) -> TmV
    decreases i,
{
    if 0 <= i < tm.len() {
        match tm[i] {
            Payload::Sort(l) => TmV::Sort(level::lvl_view(lv, l.0 as int)),
            Payload::Var(n, t) => if t.0 < i {
                TmV::Var(n, Box::new(tm_view(tm, lv, t.0 as int)))
            } else {
                TmV::Sort(LvlV::Zero)
            },
            Payload::App(a, b) => if a.0 < i && b.0 < i {
                TmV::App(
                    Box::new(tm_view(tm, lv, a.0 as int)),
                    Box::new(tm_view(tm, lv, b.0 as int)),
                )
            } else {
                TmV::Sort(LvlV::Zero)
            },
            Payload::Abs(a, b) => if a.0 < i && b.0 < i {
                TmV::Abs(
                    Box::new(tm_view(tm, lv, a.0 as int)),
                    Box::new(tm_view(tm, lv, b.0 as int)),
                )
            } else {
                TmV::Sort(LvlV::Zero)
            },
            Payload::Prod(a, b) => if a.0 < i && b.0 < i {
                TmV::Prod(
                    Box::new(tm_view(tm, lv, a.0 as int)),
                    Box::new(tm_view(tm, lv, b.0 as int)),
                )
            } else {
                TmV::Sort(LvlV::Zero)
            },
            Payload::Axiom(ax, ls) => TmV::Axiom(ax, lvls_sem(lv, ls@)),
            Payload::Decl(t, a, ls) => if t.0 < i {
                TmV::Decl(Box::new(tm_view(tm, lv, t.0 as int)), a, lvls_sem(lv, ls@))
            } else {
                TmV::Sort(LvlV::Zero)
            },
        }
    } else {
        TmV::Sort(LvlV::Zero)
    }
}

/// Structural equality of two term payloads; handles compare as handles.
pub open spec fn pay_eq(p: Payload, q: Payload) -> bool {
    match (p, q) {
        (Payload::Sort(l1), Payload::Sort(l2)) => l1 == l2,
        (Payload::Var(n1, t1), Payload::Var(n2, t2)) => n1 == n2 && t1 == t2,
        (Payload::App(a1, b1), Payload::App(a2, b2)) => a1 == a2 && b1 == b2,
        (Payload::Abs(a1, b1), Payload::Abs(a2, b2)) => a1 == a2 && b1 == b2,
        (Payload::Prod(a1, b1), Payload::Prod(a2, b2)) => a1 == a2 && b1 == b2,
        (Payload::Axiom(x1, l1), Payload::Axiom(x2, l2)) => x1 == x2 && l1@ == l2@,
        (Payload::Decl(t1, a1, l1), Payload::Decl(t2, a2, l2)) => t1 == t2 && a1 == a2 && l1@
            == l2@,
        _ => false,
    }
}

/// The stored term node at `i` is well formed: links point strictly
/// backwards into the stores and de Bruijn indices are positive.
pub open spec fn tm_wf_at(tm: Seq<Payload>, lv: Seq<level::Payload>, i: int) -> bool {
    match tm[i] {
        Payload::Sort(l) => l.0 < lv.len(),
        Payload::Var(n, t) => n >= 1 && t.0 < i,
        Payload::App(a, b) => a.0 < i && b.0 < i,
        Payload::Abs(a, b) => a.0 < i && b.0 < i,
        Payload::Prod(a, b) => a.0 < i && b.0 < i,
        Payload::Axiom(_, ls) => forall|k: int| 0 <= k < ls@.len() ==> (#[trigger] ls@[k]).0
            < lv.len(),
        Payload::Decl(t, _, ls) => t.0 < i && forall|k: int|
            0 <= k < ls@.len() ==> (#[trigger] ls@[k]).0 < lv.len(),
    }
}

/// Arena invariant for the term store: every node is well formed and no
/// payload is stored twice.
pub open spec fn tm_wf(tm: Seq<Payload>, lv: Seq<level::Payload>) -> bool {
    &&& forall|i: int| 0 <= i < tm.len() ==> #[trigger] tm_wf_at(tm, lv, i)
    &&& forall|i: int, j: int|
        0 <= i < tm.len() && 0 <= j < tm.len() && i != j ==> !pay_eq(#[trigger] tm[i], #[trigger] tm[j])
}

/// Views of old term nodes do not change when the stores grow.
pub open spec fn tm_stable(
    tm0: Seq<Payload>,
    lv0: Seq<level::Payload>,
    tm1: Seq<Payload>,
    lv1: Seq<level::Payload>,
) -> bool {
    forall|i: int| 0 <= i < tm0.len() ==> #[trigger] tm_view(tm1, lv1, i) == tm_view(tm0, lv0, i)
}

pub proof fn lemma_lvls_sem_prefix(lv0: Seq<level::Payload>, lv1: Seq<level::Payload>, ls: Seq<Level>)
    requires
        lv0.is_prefix_of(lv1),
        forall|k: int| 0 <= k < ls.len() ==> (#[trigger] ls[k]).0 < lv0.len(),
    ensures
        lvls_sem(lv1, ls) == lvls_sem(lv0, ls),
{
    assert forall|k: int| 0 <= k < ls.len() implies #[trigger] lvls_sem(lv1, ls)[k] == lvls_sem(
        lv0,
        ls,
    )[k] by {
        level::lemma_lvl_view_prefix(lv0, lv1, ls[k].0 as int);
    }
    assert(lvls_sem(lv1, ls) =~= lvls_sem(lv0, ls));
}

pub proof fn lemma_tm_view_prefix(
    tm0: Seq<Payload>,
    lv0: Seq<level::Payload>,
    tm1: Seq<Payload>,
    lv1: Seq<level::Payload>,
    i: int,
)
    requires
        tm0.is_prefix_of(tm1),
        lv0.is_prefix_of(lv1),
        tm_wf(tm0, lv0),
        0 <= i < tm0.len(),
    ensures
        tm_view(tm1, lv1, i) == tm_view(tm0, lv0, i),
    decreases i,
{
    assert(tm0[i] == tm1[i]);
    assert(tm_wf_at(tm0, lv0, i));
    match tm0[i] {
        Payload::Sort(l) => {
            level::lemma_lvl_view_prefix(lv0, lv1, l.0 as int);
        },
        Payload::Var(_, t) => {
            lemma_tm_view_prefix(tm0, lv0, tm1, lv1, t.0 as int);
        },
        Payload::App(a, b) => {
            lemma_tm_view_prefix(tm0, lv0, tm1, lv1, a.0 as int);
            lemma_tm_view_prefix(tm0, lv0, tm1, lv1, b.0 as int);
        },
        Payload::Abs(a, b) => {
            lemma_tm_view_prefix(tm0, lv0, tm1, lv1, a.0 as int);
            lemma_tm_view_prefix(tm0, lv0, tm1, lv1, b.0 as int);
        },
        Payload::Prod(a, b) => {
            lemma_tm_view_prefix(tm0, lv0, tm1, lv1, a.0 as int);
            lemma_tm_view_prefix(tm0, lv0, tm1, lv1, b.0 as int);
        },
        Payload::Axiom(_, ls) => {
            lemma_lvls_sem_prefix(lv0, lv1, ls@);
        },
        Payload::Decl(t, _, ls) => {
            lemma_tm_view_prefix(tm0, lv0, tm1, lv1, t.0 as int);
            lemma_lvls_sem_prefix(lv0, lv1, ls@);
        },
    }
}

/// Term views survive any growth of the two stores.
pub proof fn lemma_tm_stable_grow(
    tm0: Seq<Payload>,
    lv0: Seq<level::Payload>,
    tm1: Seq<Payload>,
    lv1: Seq<level::Payload>,
)
    requires
        tm0.is_prefix_of(tm1),
        lv0.is_prefix_of(lv1),
        tm_wf(tm0, lv0),
    ensures
        tm_stable(tm0, lv0, tm1, lv1),
{
    assert forall|i: int| 0 <= i < tm0.len() implies #[trigger] tm_view(tm1, lv1, i) == tm_view(
        tm0,
        lv0,
        i,
    ) by {
        lemma_tm_view_prefix(tm0, lv0, tm1, lv1, i);
    }
}

/// Interning is injective on term trees: two live handles with the same
/// view are the same handle.
pub proof fn lemma_tm_view_inj(tm: Seq<Payload>, lv: Seq<level::Payload>, i: int, j: int)
    requires
        tm_wf(tm, lv),
        level::lvl_wf(lv),
        0 <= i < tm.len(),
        0 <= j < tm.len(),
        tm_view(tm, lv, i) == tm_view(tm, lv, j),
    ensures
        i == j,
    decreases i + j,
{
    if i != j {
        assert(tm_wf_at(tm, lv, i));
        assert(tm_wf_at(tm, lv, j));
        assert(!pay_eq(tm[i], tm[j]));
        match (tm[i], tm[j]) {
            (Payload::Sort(l1), Payload::Sort(l2)) => {
                level::lemma_lvl_view_inj(lv, l1.0 as int, l2.0 as int);
            },
            (Payload::Var(_, t1), Payload::Var(_, t2)) => {
                lemma_tm_view_inj(tm, lv, t1.0 as int, t2.0 as int);
            },
            (Payload::App(a1, b1), Payload::App(a2, b2)) => {
                lemma_tm_view_inj(tm, lv, a1.0 as int, a2.0 as int);
                lemma_tm_view_inj(tm, lv, b1.0 as int, b2.0 as int);
            },
            (Payload::Abs(a1, b1), Payload::Abs(a2, b2)) => {
                lemma_tm_view_inj(tm, lv, a1.0 as int, a2.0 as int);
                lemma_tm_view_inj(tm, lv, b1.0 as int, b2.0 as int);
            },
            (Payload::Prod(a1, b1), Payload::Prod(a2, b2)) => {
                lemma_tm_view_inj(tm, lv, a1.0 as int, a2.0 as int);
                lemma_tm_view_inj(tm, lv, b1.0 as int, b2.0 as int);
            },
            (Payload::Axiom(_, l1), Payload::Axiom(_, l2)) => {
                lemma_lvls_sem_inj(lv, l1@, l2@);
            },
            (Payload::Decl(t1, _, l1), Payload::Decl(t2, _, l2)) => {
                lemma_tm_view_inj(tm, lv, t1.0 as int, t2.0 as int);
                lemma_lvls_sem_inj(lv, l1@, l2@);
            },
            _ => {},
        }
    }
}

/// Two live level vectors with the same denotation are handle-wise equal.
pub proof fn lemma_lvls_sem_inj(lv: Seq<level::Payload>, l1: Seq<Level>, l2: Seq<Level>)
    requires
        level::lvl_wf(lv),
        forall|k: int| 0 <= k < l1.len() ==> (#[trigger] l1[k]).0 < lv.len(),
        forall|k: int| 0 <= k < l2.len() ==> (#[trigger] l2[k]).0 < lv.len(),
        lvls_sem(lv, l1) == lvls_sem(lv, l2),
    ensures
        l1 == l2,
{
    assert(lvls_sem(lv, l1).len() == l1.len());
    assert(lvls_sem(lv, l2).len() == l2.len());
    assert forall|k: int| 0 <= k < l1.len() implies #[trigger] l1[k] == l2[k] by {
        assert(lvls_sem(lv, l1)[k] == level::lvl_view(lv, l1[k].0 as int));
        assert(lvls_sem(lv, l2)[k] == level::lvl_view(lv, l2[k].0 as int));
        assert(lvls_sem(lv, l1)[k] == lvls_sem(lv, l2)[k]);
        level::lemma_lvl_view_inj(lv, l1[k].0 as int, l2[k].0 as int);
    }
    assert(l1 =~= l2);
}

impl Term {
    /// The term tree this handle denotes in `a`.
    pub open spec fn sem(self, a: &Arena) -> TmV {
        tm_view(a.terms@, a.levels@, self.0 as int)
    }

    /// The handle points into the store.
    pub open spec fn live(self, a: &Arena) -> bool {
        self.0 < a.terms@.len()
    }
}


/// `lnum(k)` is the normal numeral level `k`.
pub open spec fn lnum(k: u32) -> LvlV {
    if k == 0 {
        LvlV::Zero
    } else {
        LvlV::Add(Box::new(LvlV::Zero), k)
    }
}

/// Conditions under which a raw term payload may be interned: its links
/// are live and point into the stores.
pub open spec fn tpay_ok(tm: Seq<Payload>, lv: Seq<level::Payload>, p: Payload) -> bool {
    match p {
        Payload::Sort(l) => l.0 < lv.len(),
        Payload::Var(n, t) => n >= 1 && t.0 < tm.len(),
        Payload::App(a, b) => a.0 < tm.len() && b.0 < tm.len(),
        Payload::Abs(a, b) => a.0 < tm.len() && b.0 < tm.len(),
        Payload::Prod(a, b) => a.0 < tm.len() && b.0 < tm.len(),
        Payload::Axiom(_, ls) => forall|k: int| 0 <= k < ls@.len() ==> (#[trigger] ls@[k]).0
            < lv.len(),
        Payload::Decl(t, _, ls) => t.0 < tm.len() && forall|k: int|
            0 <= k < ls@.len() ==> (#[trigger] ls@[k]).0 < lv.len(),
    }
}

/// The tree a raw term payload denotes over the stores.
pub open spec fn tpay_sem(tm: Seq<Payload>, lv: Seq<level::Payload>, p: Payload) -> TmV {
    match p {
        Payload::Sort(l) => TmV::Sort(level::lvl_view(lv, l.0 as int)),
        Payload::Var(n, t) => TmV::Var(n, Box::new(tm_view(tm, lv, t.0 as int))),
        Payload::App(a, b) => TmV::App(
            Box::new(tm_view(tm, lv, a.0 as int)),
            Box::new(tm_view(tm, lv, b.0 as int)),
        ),
        Payload::Abs(a, b) => TmV::Abs(
            Box::new(tm_view(tm, lv, a.0 as int)),
            Box::new(tm_view(tm, lv, b.0 as int)),
        ),
        Payload::Prod(a, b) => TmV::Prod(
            Box::new(tm_view(tm, lv, a.0 as int)),
            Box::new(tm_view(tm, lv, b.0 as int)),
        ),
        Payload::Axiom(ax, ls) => TmV::Axiom(ax, lvls_sem(lv, ls@)),
        Payload::Decl(t, a, ls) => TmV::Decl(Box::new(tm_view(tm, lv, t.0 as int)), a, lvls_sem(lv, ls@)),
    }
}

/// Compares two level vectors element-wise.
fn lvlvec_eq(a: &Vec<Level>, b: &Vec<Level>) -> (r: bool)
    ensures
        r == (a@ == b@),
{
    if a.len() != b.len() {
        assert(a@ != b@);
        return false;
    }
    let mut i: usize = 0;
    while i < a.len()
        invariant
            i <= a@.len(),
            a@.len() == b@.len(),
            forall|j: int| 0 <= j < i ==> a@[j] == b@[j],
        decreases a@.len() - i,
    {
        if a[i].0 != b[i].0 {
            assert(a@[i as int] != b@[i as int]);
            return false;
        }
        i += 1;
    }
    proof {
        assert(a@ =~= b@);
    }
    true
}

/// Decides structural equality of two term payloads.
fn pay_eq_exec(p: &Payload, q: &Payload) -> (r: bool)
    ensures
        r == pay_eq(*p, *q),
{
    match (p, q) {
        (Payload::Sort(l1), Payload::Sort(l2)) => l1.0 == l2.0,
        (Payload::Var(n1, t1), Payload::Var(n2, t2)) => *n1 == *n2 && t1.0 == t2.0,
        (Payload::App(a1, b1), Payload::App(a2, b2)) => a1.0 == a2.0 && b1.0 == b2.0,
        (Payload::Abs(a1, b1), Payload::Abs(a2, b2)) => a1.0 == a2.0 && b1.0 == b2.0,
        (Payload::Prod(a1, b1), Payload::Prod(a2, b2)) => a1.0 == a2.0 && b1.0 == b2.0,
        (Payload::Axiom(x1, l1), Payload::Axiom(x2, l2)) => *x1 == *x2 && lvlvec_eq(l1, l2),
        (Payload::Decl(t1, a1, l1), Payload::Decl(t2, a2, l2)) => t1.0 == t2.0 && *a1 == *a2
            && lvlvec_eq(l1, l2),
        _ => false,
    }
}

/// Copies a level vector.
fn copy_levels(a: &Vec<Level>) -> (r: Vec<Level>)
    ensures
        r@ == a@,
{
    let mut r: Vec<Level> = Vec::new();
    let mut i: usize = 0;
    while i < a.len()
        invariant
            i <= a@.len(),
            r@ == a@.subrange(0, i as int),
        decreases a@.len() - i,
    {
        r.push(a[i]);
        proof {
            assert(r@ =~= a@.subrange(0, i + 1 as int));
        }
        i += 1;
    }
    proof {
        assert(r@ =~= a@);
    }
    r
}

impl Arena {
    /// Looks a payload up in the term store.
    fn find_term(&self, p: &Payload) -> (r: Option<usize>)
        ensures
            match r {
                Some(j) => j < self.terms@.len() && pay_eq(self.terms@[j as int], *p),
                None => forall|j: int| 0 <= j < self.terms@.len() ==> !pay_eq(self.terms@[j], *p),
            },
    {
        let mut idx: usize = 0;
        while idx < self.terms.len()
            invariant
                idx <= self.terms@.len(),
                forall|j: int| 0 <= j < idx ==> !pay_eq(self.terms@[j], *p),
            decreases self.terms@.len() - idx,
        {
            if pay_eq_exec(&self.terms[idx], p) {
                return Some(idx);
            }
            idx += 1;
        }
        None
    }

    /// Interns a term payload, reusing the existing handle when one exists.
    fn intern_term(&mut self, p: Payload) -> (r: Term)
        requires
            old(self).wf(),
            tpay_ok(old(self).terms@, old(self).levels@, p),
        ensures
            final(self).wf(),
            Arena::grows_only(old(self), final(self)),
            crate::term::tm_stable(
                old(self).terms@,
                old(self).levels@,
                final(self).terms@,
                final(self).levels@,
            ),
            final(self).levels@ == old(self).levels@,
            level::lvl_stable(old(self).levels@, final(self).levels@),
            r.live(final(self)),
            pay_eq(final(self).terms@[r.0 as int], p),
            r.sem(final(self)) == tpay_sem(old(self).terms@, old(self).levels@, p),
    {
        let ghost pre = self.terms@;
        let ghost lv = self.levels@;
        match self.find_term(&p) {
            Some(j) => {
                proof {
                    assert(tm_wf_at(pre, lv, j as int));
                    lemma_pay_eq_sem(pre, lv, j as int, p);
                }
                Term(j)
            },
            None => {
                let n = self.terms.len();
                self.terms.push(p);
                proof {
                    let post = self.terms@;
                    assert(post.len() == pre.len() + 1);
                    assert(pre.is_prefix_of(post));
                    assert forall|i: int| 0 <= i < pre.len() implies #[trigger] tm_view(post, lv, i)
                        == tm_view(pre, lv, i) by {
                        lemma_tm_view_prefix(pre, lv, post, lv, i);
                    }
                    assert forall|i: int| 0 <= i < post.len() implies #[trigger] tm_wf_at(
                        post,
                        lv,
                        i,
                    ) by {
                        if i < n {
                            assert(tm_wf_at(pre, lv, i));
                        }
                    }
                    assert forall|i: int, j: int|
                        0 <= i < post.len() && 0 <= j < post.len() && i != j implies !pay_eq(
                        #[trigger] post[i],
                        #[trigger] post[j],
                    ) by {
                        if i < n && j < n {
                            assert(!pay_eq(pre[i], pre[j]));
                        } else if i == n && j < n {
                            assert(!pay_eq(pre[j], post[i]));
                            lemma_pay_eq_sym(pre[j], post[i]);
                        } else if j == n && i < n {
                            assert(!pay_eq(pre[i], post[j]));
                        }
                    }
                    match post[n as int] {
                        Payload::Var(_, t) => {
                            assert(tm_view(post, lv, t.0 as int) == tm_view(pre, lv, t.0 as int));
                        },
                        Payload::App(a, b) => {
                            assert(tm_view(post, lv, a.0 as int) == tm_view(pre, lv, a.0 as int));
                            assert(tm_view(post, lv, b.0 as int) == tm_view(pre, lv, b.0 as int));
                        },
                        Payload::Abs(a, b) => {
                            assert(tm_view(post, lv, a.0 as int) == tm_view(pre, lv, a.0 as int));
                            assert(tm_view(post, lv, b.0 as int) == tm_view(pre, lv, b.0 as int));
                        },
                        Payload::Prod(a, b) => {
                            assert(tm_view(post, lv, a.0 as int) == tm_view(pre, lv, a.0 as int));
                            assert(tm_view(post, lv, b.0 as int) == tm_view(pre, lv, b.0 as int));
                        },
                        Payload::Decl(t, _, _) => {
                            assert(tm_view(post, lv, t.0 as int) == tm_view(pre, lv, t.0 as int));
                        },
                        _ => {},
                    }
                    assert(tm_view(post, lv, n as int) == tpay_sem(pre, lv, p));
                }
                Term(n)
            },
        }
    }
}

/// Payload equality is symmetric.
proof fn lemma_pay_eq_sym(p: Payload, q: Payload)
    ensures
        pay_eq(p, q) == pay_eq(q, p),
{
}

/// A stored node structurally equal to a payload denotes the payload's tree.
proof fn lemma_pay_eq_sem(tm: Seq<Payload>, lv: Seq<level::Payload>, j: int, p: Payload)
    requires
        0 <= j < tm.len(),
        tm_wf_at(tm, lv, j),
        pay_eq(tm[j], p),
    ensures
        tm_view(tm, lv, j) == tpay_sem(tm, lv, p),
{
    match (tm[j], p) {
        (Payload::Axiom(_, l1), Payload::Axiom(_, l2)) => {
            assert(lvls_sem(lv, l1@) =~= lvls_sem(lv, l2@));
        },
        (Payload::Decl(_, _, l1), Payload::Decl(_, _, l2)) => {
            assert(lvls_sem(lv, l1@) =~= lvls_sem(lv, l2@));
        },
        _ => {},
    }
}

impl Term {
    /// Returns the sort at the given level.
    pub fn sort(l: Level, arena: &mut Arena) -> (r: Term)
        requires
            old(arena).wf(),
            l.live(old(arena)),
        ensures
            final(arena).wf(),
            Arena::grows_only(old(arena), final(arena)),
            tm_stable(old(arena).terms@, old(arena).levels@, final(arena).terms@, final(arena).levels@),
            final(arena).levels@ == old(arena).levels@,
            level::lvl_stable(old(arena).levels@, final(arena).levels@),
            r.live(final(arena)),
            r.sem(final(arena)) == TmV::Sort(l.sem(old(arena))),
    {
        arena.intern_term(Payload::Sort(l))
    }

    /// Returns `Prop`, the sort at level zero.
    pub fn prop(arena: &mut Arena) -> (r: Term)
        requires
            old(arena).wf(),
        ensures
            final(arena).wf(),
            Arena::grows_only(old(arena), final(arena)),
            tm_stable(old(arena).terms@, old(arena).levels@, final(arena).terms@, final(arena).levels@),
            level::lvl_stable(old(arena).levels@, final(arena).levels@),
            r.live(final(arena)),
            r.sem(final(arena)) == TmV::Sort(LvlV::Zero),
    {
        let z = Level::zero(arena);
        Term::sort(z, arena)
    }

    /// Returns `Type k`, the sort at level `k + 1`.
    pub fn type_usize(k: u32, arena: &mut Arena) -> (r: Term)
        requires
            old(arena).wf(),
        ensures
            final(arena).wf(),
            Arena::grows_only(old(arena), final(arena)),
            tm_stable(old(arena).terms@, old(arena).levels@, final(arena).terms@, final(arena).levels@),
            level::lvl_stable(old(arena).levels@, final(arena).levels@),
            r.live(final(arena)),
            r.sem(final(arena)) == TmV::Sort(lnum(crate::level::sadd32(k, 1))),
    {
        let l = Level::from(k, arena);
        let l1 = l.succ(arena);
        proof {
            assert(l1.sem(arena) == crate::level::norm_add(crate::level::norm_add(LvlV::Zero, k), 1));
        }
        Term::sort(l1, arena)
    }

    /// Returns the sort at numeral level `k`.
    pub fn sort_usize(k: u32, arena: &mut Arena) -> (r: Term)
        requires
            old(arena).wf(),
        ensures
            final(arena).wf(),
            Arena::grows_only(old(arena), final(arena)),
            tm_stable(old(arena).terms@, old(arena).levels@, final(arena).terms@, final(arena).levels@),
            level::lvl_stable(old(arena).levels@, final(arena).levels@),
            r.live(final(arena)),
            r.sem(final(arena)) == TmV::Sort(lnum(k)),
    {
        let l = Level::from(k, arena);
        Term::sort(l, arena)
    }

    /// Returns the variable with the given de Bruijn index and declared type.
    pub fn var(index: usize, ty: Term, arena: &mut Arena) -> (r: Term)
        requires
            old(arena).wf(),
            ty.live(old(arena)),
            index >= 1,
        ensures
            final(arena).wf(),
            Arena::grows_only(old(arena), final(arena)),
            tm_stable(old(arena).terms@, old(arena).levels@, final(arena).terms@, final(arena).levels@),
            final(arena).levels@ == old(arena).levels@,
            level::lvl_stable(old(arena).levels@, final(arena).levels@),
            r.live(final(arena)),
            r.sem(final(arena)) == TmV::Var(index, Box::new(ty.sem(old(arena)))),
    {
        arena.intern_term(Payload::Var(index, ty))
    }

    /// Returns the application of `self` to `arg`.
    pub fn app(self, arg: Term, arena: &mut Arena) -> (r: Term)
        requires
            old(arena).wf(),
            self.live(old(arena)),
            arg.live(old(arena)),
        ensures
            final(arena).wf(),
            Arena::grows_only(old(arena), final(arena)),
            tm_stable(old(arena).terms@, old(arena).levels@, final(arena).terms@, final(arena).levels@),
            final(arena).levels@ == old(arena).levels@,
            level::lvl_stable(old(arena).levels@, final(arena).levels@),
            r.live(final(arena)),
            r.sem(final(arena)) == TmV::App(
                Box::new(self.sem(old(arena))),
                Box::new(arg.sem(old(arena))),
            ),
    {
        arena.intern_term(Payload::App(self, arg))
    }

    /// Returns the abstraction with binder type `self` and body `body`.
    pub fn abs(self, body: Term, arena: &mut Arena) -> (r: Term)
        requires
            old(arena).wf(),
            self.live(old(arena)),
            body.live(old(arena)),
        ensures
            final(arena).wf(),
            Arena::grows_only(old(arena), final(arena)),
            tm_stable(old(arena).terms@, old(arena).levels@, final(arena).terms@, final(arena).levels@),
            final(arena).levels@ == old(arena).levels@,
            level::lvl_stable(old(arena).levels@, final(arena).levels@),
            r.live(final(arena)),
            r.sem(final(arena)) == TmV::Abs(
                Box::new(self.sem(old(arena))),
                Box::new(body.sem(old(arena))),
            ),
    {
        arena.intern_term(Payload::Abs(self, body))
    }

    /// Returns the product with binder type `self` and body `body`.
    pub fn prod(self, body: Term, arena: &mut Arena) -> (r: Term)
        requires
            old(arena).wf(),
            self.live(old(arena)),
            body.live(old(arena)),
        ensures
            final(arena).wf(),
            Arena::grows_only(old(arena), final(arena)),
            tm_stable(old(arena).terms@, old(arena).levels@, final(arena).terms@, final(arena).levels@),
            final(arena).levels@ == old(arena).levels@,
            level::lvl_stable(old(arena).levels@, final(arena).levels@),
            r.live(final(arena)),
            r.sem(final(arena)) == TmV::Prod(
                Box::new(self.sem(old(arena))),
                Box::new(body.sem(old(arena))),
            ),
    {
        arena.intern_term(Payload::Prod(self, body))
    }

    /// Returns the given built-in constant instantiated with the levels.
    pub fn axiom_term(ax: Axiom, levels: &Vec<Level>, arena: &mut Arena) -> (r: Term)
        requires
            old(arena).wf(),
            forall|k: int| 0 <= k < levels@.len() ==> (#[trigger] levels@[k]).live(old(arena)),
        ensures
            final(arena).wf(),
            Arena::grows_only(old(arena), final(arena)),
            tm_stable(old(arena).terms@, old(arena).levels@, final(arena).terms@, final(arena).levels@),
            final(arena).levels@ == old(arena).levels@,
            level::lvl_stable(old(arena).levels@, final(arena).levels@),
            r.live(final(arena)),
            r.sem(final(arena)) == TmV::Axiom(ax, lvls_sem(old(arena).levels@, levels@)),
    {
        let ls = copy_levels(levels);
        arena.intern_term(Payload::Axiom(ax, ls))
    }

    /// Returns the term standing for a declaration instantiated with the
    /// given levels.
    pub fn decl(d: Declaration, levels: &Vec<Level>, arena: &mut Arena) -> (r: Term)
        requires
            old(arena).wf(),
            d.0.live(old(arena)),
            forall|k: int| 0 <= k < levels@.len() ==> (#[trigger] levels@[k]).live(old(arena)),
        ensures
            final(arena).wf(),
            Arena::grows_only(old(arena), final(arena)),
            tm_stable(old(arena).terms@, old(arena).levels@, final(arena).terms@, final(arena).levels@),
            final(arena).levels@ == old(arena).levels@,
            level::lvl_stable(old(arena).levels@, final(arena).levels@),
            r.live(final(arena)),
            r.sem(final(arena)) == TmV::Decl(
                Box::new(d.0.sem(old(arena))),
                d.1,
                lvls_sem(old(arena).levels@, levels@),
            ),
    {
        let ls = copy_levels(levels);
        arena.intern_term(Payload::Decl(d.0, d.1, ls))
    }
}

/// Interning uniqueness: two live terms with structurally equal trees are
/// one and the same handle.
pub proof fn lemma_interning_unique(a: &Arena, t1: Term, t2: Term)
    requires
        a.wf(),
        t1.live(a),
        t2.live(a),
        t1.sem(a) == t2.sem(a),
    ensures
        t1 == t2,
{
    lemma_tm_view_inj(a.terms@, a.levels@, t1.0 as int, t2.0 as int);
}

} // verus!
