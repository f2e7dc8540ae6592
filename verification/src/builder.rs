//! Building terms from named syntax.
//!
//! A builder is a description of a term over names: binders introduce
//! names, a variable refers to the closest enclosing binder with its name
//! or, failing that, to the arena's name table, and a free name fails with
//! a `ConstNotFound` error. Building resolves names into de Bruijn indices
//! and interns the resulting term.

use vstd::prelude::*;

use crate::arena::{lookup_decl, lookup_term, Arena};
use crate::calculus::{s_add, shift_v};
use crate::error::{ErrV, Error, Kind, KindV, Trace};
use crate::level;
use crate::level::{Level, LvlV};
use crate::term;
use crate::term::{lnum, Term, TmV};

verus! {

/// The kind of errors that can occur when building a term.
#[derive(Clone, Debug, PartialEq, Eq)]
pub enum ErrorKind {
    /// An identifier that no binder and no arena binding knows.
    ConstNotFound(String),
}

/// A description of a universe level over raw variable indices.
#[derive(Debug)]
pub enum LevelBuilder {
    /// The zero level.
    Zero,
    /// The successor of a level.
    Succ(Box<LevelBuilder>),
    /// A level plus a constant.
    Plus(Box<LevelBuilder>, u32),
    /// The maximum of two levels.
    Max(Box<LevelBuilder>, Box<LevelBuilder>),
    /// The impredicative maximum of two levels.
    IMax(Box<LevelBuilder>, Box<LevelBuilder>),
    /// A universe variable.
    Var(usize),
    /// A numeral level.
    Num(u32),
}

/// The normalized level a level builder denotes.
pub open spec fn lbuild_sp(b: LevelBuilder) -> LvlV
    decreases b,
{
    match b {
        LevelBuilder::Zero => LvlV::Zero,
        LevelBuilder::Succ(u) => level::norm_add(lbuild_sp(*u), 1),
        LevelBuilder::Plus(u, k) => level::norm_add(lbuild_sp(*u), k),
        LevelBuilder::Max(a, b2) => level::norm_max(lbuild_sp(*a), lbuild_sp(*b2)),
        LevelBuilder::IMax(a, b2) => level::norm_imax(lbuild_sp(*a), lbuild_sp(*b2)),
        LevelBuilder::Var(i) => LvlV::Var(i),
        LevelBuilder::Num(k) => lnum(k),
    }
}

/// A description of a term over names.
#[derive(Debug)]
pub enum Builder {
    /// A named variable or constant.
    Var(String),
    /// The `Prop` sort.
    Prop,
    /// The sort above the given level.
    Type(LevelBuilder),
    /// The sort at the given level.
    Sort(LevelBuilder),
    /// The sort above the given numeral level.
    TypeUsize(u32),
    /// The sort at the given numeral level.
    SortUsize(u32),
    /// An application.
    App(Box<Builder>, Box<Builder>),
    /// An abstraction; the name binds inside the body.
    Abs(String, Box<Builder>, Box<Builder>),
    /// A product; the name binds inside the body.
    Prod(String, Box<Builder>, Box<Builder>),
    /// A named declaration instantiated with levels.
    Decl(String, Vec<LevelBuilder>),
}

/// Returns a builder for a variable with the given name.
pub fn var(name: &str) -> (r: Builder)
    ensures
        r matches Builder::Var(n) && n@ == name@,
{
    Builder::Var(name.to_owned())
}

/// Returns a builder for the `Prop` sort.
pub fn prop() -> (r: Builder)
    ensures
        r == Builder::Prop,
{
    Builder::Prop
}

/// Returns a builder for the `Type level` sort.
pub fn type_(level: LevelBuilder) -> (r: Builder)
    ensures
        r == Builder::Type(level),
{
    Builder::Type(level)
}

/// Returns a builder for the `Type level` sort, from an integer.
pub fn type_usize(level: u32) -> (r: Builder)
    ensures
        r == Builder::TypeUsize(level),
{
    Builder::TypeUsize(level)
}

/// Returns a builder for the `Sort level` sort.
pub fn sort(level: LevelBuilder) -> (r: Builder)
    ensures
        r == Builder::Sort(level),
{
    Builder::Sort(level)
}

/// Returns a builder for the `Sort level` sort, from an integer.
pub fn sort_usize(level: u32) -> (r: Builder)
    ensures
        r == Builder::SortUsize(level),
{
    Builder::SortUsize(level)
}

/// Returns a builder for the application of two builders.
pub fn app(u1: Builder, u2: Builder) -> (r: Builder)
    ensures
        r == Builder::App(Box::new(u1), Box::new(u2)),
{
    Builder::App(Box::new(u1), Box::new(u2))
}

/// Returns a builder for an abstraction; the name `"_"` binds nothing.
pub fn abs(name: &str, arg_type: Builder, body: Builder) -> (r: Builder)
    ensures
        r matches Builder::Abs(n, a, b) && n@ == name@ && *a == arg_type && *b == body,
{
    Builder::Abs(name.to_owned(), Box::new(arg_type), Box::new(body))
}

/// Returns a builder for a product; the name `"_"` binds nothing.
pub fn prod(name: &str, arg_type: Builder, body: Builder) -> (r: Builder)
    ensures
        r matches Builder::Prod(n, a, b) && n@ == name@ && *a == arg_type && *b == body,
{
    Builder::Prod(name.to_owned(), Box::new(arg_type), Box::new(body))
}

/// Returns a builder for a named declaration instantiated with levels.
pub fn decl(name: &str, levels: Vec<LevelBuilder>) -> (r: Builder)
    ensures
        r matches Builder::Decl(n, ls) && n@ == name@ && ls == levels,
{
    Builder::Decl(name.to_owned(), levels)
}

/// The number of binders on the deepest path of a builder; the builder's
/// nesting must fit in the machine's depth counter.
pub open spec fn binder_depth(b: Builder) -> nat
    decreases b,
{
    match b {
        Builder::App(b1, b2) => if binder_depth(*b1) >= binder_depth(*b2) {
            binder_depth(*b1)
        } else {
            binder_depth(*b2)
        },
        Builder::Abs(_, b1, b2) => 1 + if binder_depth(*b1) >= binder_depth(*b2) {
            binder_depth(*b1)
        } else {
            binder_depth(*b2)
        },
        Builder::Prod(_, b1, b2) => 1 + if binder_depth(*b1) >= binder_depth(*b2) {
            binder_depth(*b1)
        } else {
            binder_depth(*b2)
        },
        _ => 0,
    }
}

/// The local environment's reading: names to binding depth and binder type.
pub open spec fn env_sem(
    env: Seq<(String, (usize, Term))>,
    tm: Seq<term::Payload>,
    lv: Seq<level::Payload>,
) -> Seq<(Seq<char>, (usize, TmV))> {
    env.map(|_i: int, p: (String, (usize, Term))| (p.0@, (p.1.0, term::tm_view(tm, lv, p.1.1.0 as int))))
}

/// The binding a name resolves to in the local environment: the latest
/// entry wins.
pub open spec fn env_lookup(env: Seq<(Seq<char>, (usize, TmV))>, n: Seq<char>) -> Option<
    (usize, TmV),
>
    decreases env.len(),
{
    if env.len() == 0 {
        None
    } else if env.last().0 == n {
        Some(env.last().1)
    } else {
        env_lookup(env.drop_last(), n)
    }
}

/// What building a term denotes: resolution of names to de Bruijn indices
/// against the local environment and the arena's name tables, and the
/// tree of the interned result.
pub open spec fn build_sp(
    b: Builder,
    env: Seq<(Seq<char>, (usize, TmV))>,
    nt: Seq<(String, Term)>,
    nd: Seq<(String, term::Declaration)>,
    tm: Seq<term::Payload>,
    lv: Seq<level::Payload>,
    depth: usize,
) -> Result<TmV, ErrV>
    decreases b,
{
    match b {
        Builder::Var(n) => match env_lookup(env, n@) {
            Some((bind_depth, ty)) => {
                let i = (depth - bind_depth) as usize;
                Ok(TmV::Var(i, Box::new(shift_v(ty, i, 0))))
            },
            None => match lookup_term(nt, n@) {
                Some(t) => Ok(term::tm_view(tm, lv, t.0 as int)),
                None => Err(ErrV { kind: KindV::ConstNotFound(n@), trace: Seq::empty() }),
            },
        },
        Builder::Prop => Ok(TmV::Sort(LvlV::Zero)),
        Builder::Type(lb) => Ok(TmV::Sort(level::norm_add(lbuild_sp(lb), 1))),
        Builder::Sort(lb) => Ok(TmV::Sort(lbuild_sp(lb))),
        Builder::TypeUsize(k) => Ok(TmV::Sort(lnum(level::sadd32(k, 1)))),
        Builder::SortUsize(k) => Ok(TmV::Sort(lnum(k))),
        Builder::App(b1, b2) => match build_sp(*b1, env, nt, nd, tm, lv, depth) {
            Err(e) => Err(e.push(Trace::Left)),
            Ok(t1) => match build_sp(*b2, env, nt, nd, tm, lv, depth) {
                Err(e) => Err(e.push(Trace::Right)),
                Ok(t2) => Ok(TmV::App(Box::new(t1), Box::new(t2))),
            },
        },
        Builder::Abs(n, b1, b2) => match build_sp(*b1, env, nt, nd, tm, lv, depth) {
            Err(e) => Err(e.push(Trace::Left)),
            Ok(t1) => {
                let env2 = if n@ == "_"@ {
                    env
                } else {
                    env.push((n@, (depth, t1)))
                };
                match build_sp(*b2, env2, nt, nd, tm, lv, s_add(depth, 1)) {
                    Err(e) => Err(e.push(Trace::Right)),
                    Ok(t2) => Ok(TmV::Abs(Box::new(t1), Box::new(t2))),
                }
            },
        },
        Builder::Prod(n, b1, b2) => match build_sp(*b1, env, nt, nd, tm, lv, depth) {
            Err(e) => Err(e.push(Trace::Left)),
            Ok(t1) => {
                let env2 = if n@ == "_"@ {
                    env
                } else {
                    env.push((n@, (depth, t1)))
                };
                match build_sp(*b2, env2, nt, nd, tm, lv, s_add(depth, 1)) {
                    Err(e) => Err(e.push(Trace::Right)),
                    Ok(t2) => Ok(TmV::Prod(Box::new(t1), Box::new(t2))),
                }
            },
        },
        Builder::Decl(n, ls) => match lookup_decl(nd, n@) {
            None => Err(ErrV { kind: KindV::ConstNotFound(n@), trace: Seq::empty() }),
            Some(d) => Ok(
                TmV::Decl(
                    Box::new(term::tm_view(tm, lv, d.0.0 as int)),
                    d.1,
                    ls@.map(|_i: int, x: LevelBuilder| lbuild_sp(x)),
                ),
            ),
        },
    }
}

impl Arena {
    /// Builds a level from its description, interning it normalized.
    pub fn build_level(&mut self, b: &LevelBuilder) -> (r: Level)
        requires
            old(self).wf(),
        ensures
            crate::type_checker::steps(old(self), final(self)),
            r.live(final(self)),
            r.sem(final(self)) == lbuild_sp(*b),
        decreases *b,
    {
        match b {
            LevelBuilder::Zero => Level::zero(self),
            LevelBuilder::Succ(u) => {
                let lu = self.build_level(u);
                lu.add(1, self)
            },
            LevelBuilder::Plus(u, k) => {
                let lu = self.build_level(u);
                lu.add(*k, self)
            },
            LevelBuilder::Max(a, b2) => {
                let la = self.build_level(a);
                let lb = self.build_level(b2);
                la.max(lb, self)
            },
            LevelBuilder::IMax(a, b2) => {
                let la = self.build_level(a);
                let lb = self.build_level(b2);
                la.imax(lb, self)
            },
            LevelBuilder::Var(i) => Level::var(*i, self),
            LevelBuilder::Num(k) => Level::from(*k, self),
        }
    }

    /// Builds a term from its description in an empty context, at depth 0.
    pub fn build(&mut self, b: &Builder) -> (r: Result<Term, Error>)
        requires
            old(self).wf(),
            binder_depth(*b) <= usize::MAX,
        ensures
            crate::type_checker::steps(old(self), final(self)),
            match r {
                Ok(t) => t.live(final(self)) && build_sp(
                    *b,
                    Seq::empty(),
                    old(self).named_terms@,
                    old(self).named_decls@,
                    old(self).terms@,
                    old(self).levels@,
                    0,
                ) == Result::<TmV, ErrV>::Ok(t.sem(final(self))),
                Err(e) => build_sp(
                    *b,
                    Seq::empty(),
                    old(self).named_terms@,
                    old(self).named_decls@,
                    old(self).terms@,
                    old(self).levels@,
                    0,
                ) == Result::<TmV, ErrV>::Err(e.sem(final(self))),
            },
    {
        let mut env: Vec<(String, (usize, Term))> = Vec::new();
        proof {
            assert(env_sem(env@, old(self).terms@, old(self).levels@) =~= Seq::<(
                Seq<char>,
                (usize, TmV),
            )>::empty());
        }
        self.build_rec(b, &mut env, 0)
    }

    /// Builds a term under a local environment of named binders.
    #[verifier::rlimit(100)]
    fn build_rec(
        &mut self,
        b: &Builder,
        env: &mut Vec<(String, (usize, Term))>,
        depth: usize,
    ) -> (r: Result<Term, Error>)
        requires
            old(self).wf(),
            depth + binder_depth(*b) <= usize::MAX,
            forall|k: int|
                0 <= k < old(env)@.len() ==> (#[trigger] old(env)@[k]).1.1.live(old(self))
                    && old(env)@[k].1.0 < depth,
        ensures
            crate::type_checker::steps(old(self), final(self)),
            final(env)@ == old(env)@,
            match r {
                Ok(t) => t.live(final(self)) && build_sp(
                    *b,
                    env_sem(old(env)@, old(self).terms@, old(self).levels@),
                    old(self).named_terms@,
                    old(self).named_decls@,
                    old(self).terms@,
                    old(self).levels@,
                    depth,
                ) == Result::<TmV, ErrV>::Ok(t.sem(final(self))),
                Err(e) => build_sp(
                    *b,
                    env_sem(old(env)@, old(self).terms@, old(self).levels@),
                    old(self).named_terms@,
                    old(self).named_decls@,
                    old(self).terms@,
                    old(self).levels@,
                    depth,
                ) == Result::<TmV, ErrV>::Err(e.sem(final(self))),
            },
        decreases *b,
    {
        let ghost genv = env_sem(env@, self.terms@, self.levels@);
        proof {
            crate::type_checker::lemma_steps_refl(self);
        }
        match b {
            Builder::Var(n) => {
                match find_local(env, n) {
                    Some(k) => {
                        let (bind_depth, ty) = (env[k].1.0, env[k].1.1);
                        proof {
                            assert(genv[k as int] == (
                                env@[k as int].0@,
                                (bind_depth, term::tm_view(self.terms@, self.levels@, ty.0 as int)),
                            ));
                            assert forall|j: int| k < j < genv.len() implies (#[trigger] genv[j]).0
                                != n@ by {
                                assert(genv[j].0 == env@[j].0@);
                            }
                            lemma_env_lookup_at(genv, n@, k as int);
                        }
                        let i = depth - bind_depth;
                        let sty = ty.shift(i, 0, self);
                        let t = Term::var(i, sty, self);
                        Ok(t)
                    },
                    None => {
                        proof {
                            assert forall|j: int| 0 <= j < genv.len() implies (#[trigger] genv[j]).0
                                != n@ by {
                                assert(genv[j].0 == env@[j].0@);
                            }
                            lemma_env_lookup_none(genv, n@);
                        }
                        match self.get_binding(n.as_str()) {
                            Some(t) => Ok(t),
                            None => {
                                let e = Error {
                                    kind: Kind::Builder(ErrorKind::ConstNotFound(n.clone())),
                                    trace: Vec::new(),
                                };
                                proof {
                                    assert(e.trace@ =~= Seq::<Trace>::empty());
                                }
                                Err(e)
                            },
                        }
                    },
                }
            },
            Builder::Prop => Ok(Term::prop(self)),
            Builder::Type(lb) => {
                let l = self.build_level(lb);
                let l1 = l.succ(self);
                Ok(Term::sort(l1, self))
            },
            Builder::Sort(lb) => {
                let l = self.build_level(lb);
                Ok(Term::sort(l, self))
            },
            Builder::TypeUsize(k) => Ok(Term::type_usize(*k, self)),
            Builder::SortUsize(k) => Ok(Term::sort_usize(*k, self)),
            Builder::App(b1, b2) => {
                let t1 = match self.build_rec(b1, env, depth) {
                    Err(mut e) => {
                        e.trace_err(Trace::Left);
                        return Err(e);
                    },
                    Ok(t) => t,
                };
                proof {
                    assert(env_sem(env@, self.terms@, self.levels@) =~= genv);
                    lemma_build_sp_stable(
                        **b2,
                        genv,
                        old(self).named_terms@,
                        old(self).named_decls@,
                        old(self).terms@,
                        old(self).levels@,
                        self.terms@,
                        self.levels@,
                        depth,
                    );
                }
                let t2 = match self.build_rec(b2, env, depth) {
                    Err(mut e) => {
                        e.trace_err(Trace::Right);
                        return Err(e);
                    },
                    Ok(t) => t,
                };
                Ok(t1.app(t2, self))
            },
            Builder::Abs(n, b1, b2) => {
                let t1 = match self.build_rec(b1, env, depth) {
                    Err(mut e) => {
                        e.trace_err(Trace::Left);
                        return Err(e);
                    },
                    Ok(t) => t,
                };
                let anonymous = string_is_hole(n);
                if !anonymous {
                    env.push((n.clone(), (depth, t1)));
                }
                let ghost t1v = term::tm_view(self.terms@, self.levels@, t1.0 as int);
                let ghost genv2 = if anonymous {
                    genv
                } else {
                    genv.push((n@, (depth, t1v)))
                };
                proof {
                    assert(env_sem(env@, self.terms@, self.levels@) =~= genv2);
                    lemma_build_sp_stable(
                        **b2,
                        genv2,
                        old(self).named_terms@,
                        old(self).named_decls@,
                        old(self).terms@,
                        old(self).levels@,
                        self.terms@,
                        self.levels@,
                        (depth + 1) as usize,
                    );
                }
                let t2 = match self.build_rec(b2, env, depth.saturating_add(1)) {
                    Err(mut e) => {
                        if !anonymous {
                            let _ = env.pop();
                        }
                        e.trace_err(Trace::Right);
                        proof {
                            assert(env@ =~= old(env)@);
                        }
                        return Err(e);
                    },
                    Ok(t) => t,
                };
                if !anonymous {
                    let _ = env.pop();
                }
                proof {
                    assert(env@ =~= old(env)@);
                }
                Ok(t1.abs(t2, self))
            },
            Builder::Prod(n, b1, b2) => {
                let t1 = match self.build_rec(b1, env, depth) {
                    Err(mut e) => {
                        e.trace_err(Trace::Left);
                        return Err(e);
                    },
                    Ok(t) => t,
                };
                let anonymous = string_is_hole(n);
                if !anonymous {
                    env.push((n.clone(), (depth, t1)));
                }
                let ghost t1v = term::tm_view(self.terms@, self.levels@, t1.0 as int);
                let ghost genv2 = if anonymous {
                    genv
                } else {
                    genv.push((n@, (depth, t1v)))
                };
                proof {
                    assert(env_sem(env@, self.terms@, self.levels@) =~= genv2);
                    lemma_build_sp_stable(
                        **b2,
                        genv2,
                        old(self).named_terms@,
                        old(self).named_decls@,
                        old(self).terms@,
                        old(self).levels@,
                        self.terms@,
                        self.levels@,
                        (depth + 1) as usize,
                    );
                }
                let t2 = match self.build_rec(b2, env, depth.saturating_add(1)) {
                    Err(mut e) => {
                        if !anonymous {
                            let _ = env.pop();
                        }
                        e.trace_err(Trace::Right);
                        proof {
                            assert(env@ =~= old(env)@);
                        }
                        return Err(e);
                    },
                    Ok(t) => t,
                };
                if !anonymous {
                    let _ = env.pop();
                }
                proof {
                    assert(env@ =~= old(env)@);
                }
                Ok(t1.prod(t2, self))
            },
            Builder::Decl(n, ls) => {
                match self.get_binding_decl(n.as_str()) {
                    None => {
                        let e = Error {
                            kind: Kind::Builder(ErrorKind::ConstNotFound(n.clone())),
                            trace: Vec::new(),
                        };
                        proof {
                            assert(e.trace@ =~= Seq::<Trace>::empty());
                        }
                        Err(e)
                    },
                    Some(d) => {
                        let lvls = self.build_level_vec(ls);
                        let t = Term::decl(d, &lvls, self);
                        proof {
                            assert(term::lvls_sem(self.levels@, lvls@) =~= ls@.map(
                                |_i: int, x: LevelBuilder| lbuild_sp(x),
                            ));
                        }
                        Ok(t)
                    },
                }
            },
        }
    }

    /// Builds each level of a vector of level descriptions.
    fn build_level_vec(&mut self, ls: &Vec<LevelBuilder>) -> (r: Vec<Level>)
        requires
            old(self).wf(),
        ensures
            crate::type_checker::steps(old(self), final(self)),
            final(self).named_terms@ == old(self).named_terms@,
            final(self).named_decls@ == old(self).named_decls@,
            r@.len() == ls@.len(),
            forall|k: int| 0 <= k < r@.len() ==> (#[trigger] r@[k]).live(final(self)),
            forall|k: int|
                0 <= k < r@.len() ==> level::lvl_view(final(self).levels@, (#[trigger] r@[k]).0 as int)
                    == lbuild_sp(ls@[k]),
    {
        let mut r: Vec<Level> = Vec::new();
        let mut i: usize = 0;
        proof {
            crate::type_checker::lemma_steps_refl(self);
        }
        while i < ls.len()
            invariant
                self.wf(),
                i <= ls@.len(),
                crate::type_checker::steps(old(self), self),
                self.named_terms@ == old(self).named_terms@,
                self.named_decls@ == old(self).named_decls@,
                r@.len() == i,
                forall|k: int| 0 <= k < i ==> (#[trigger] r@[k]).live(self),
                forall|k: int|
                    0 <= k < i ==> level::lvl_view(self.levels@, (#[trigger] r@[k]).0 as int)
                        == lbuild_sp(ls@[k]),
            decreases ls@.len() - i,
        {
            let l = self.build_level(&ls[i]);
            r.push(l);
            i += 1;
        }
        r
    }
}

/// The innermost matching entry is what the environment lookup returns.
proof fn lemma_env_lookup_at(env: Seq<(Seq<char>, (usize, TmV))>, n: Seq<char>, k: int)
    requires
        0 <= k < env.len(),
        env[k].0 == n,
        forall|j: int| k < j < env.len() ==> (#[trigger] env[j]).0 != n,
    ensures
        env_lookup(env, n) == Some(env[k].1),
    decreases env.len(),
{
    if k == env.len() - 1 {
    } else {
        assert(env.last().0 != n);
        lemma_env_lookup_at(env.drop_last(), n, k);
    }
}

/// An environment without a matching entry resolves the name to nothing.
proof fn lemma_env_lookup_none(env: Seq<(Seq<char>, (usize, TmV))>, n: Seq<char>)
    requires
        forall|j: int| 0 <= j < env.len() ==> (#[trigger] env[j]).0 != n,
    ensures
        env_lookup(env, n) is None,
    decreases env.len(),
{
    if env.len() > 0 {
        lemma_env_lookup_none(env.drop_last(), n);
    }
}

/// What a builder denotes does not change when the stores grow: name
/// resolution reads only live nodes, whose trees are stable.
pub proof fn lemma_build_sp_stable(
    b: Builder,
    env: Seq<(Seq<char>, (usize, TmV))>,
    nt: Seq<(String, Term)>,
    nd: Seq<(String, term::Declaration)>,
    tm1: Seq<term::Payload>,
    lv1: Seq<level::Payload>,
    tm2: Seq<term::Payload>,
    lv2: Seq<level::Payload>,
    depth: usize,
)
    requires
        tm1.is_prefix_of(tm2),
        lv1.is_prefix_of(lv2),
        term::tm_wf(tm1, lv1),
        forall|i: int| 0 <= i < nt.len() ==> (#[trigger] nt[i]).1.0 < tm1.len(),
        forall|i: int| 0 <= i < nd.len() ==> ((#[trigger] nd[i]).1).0.0 < tm1.len(),
    ensures
        build_sp(b, env, nt, nd, tm2, lv2, depth) == build_sp(b, env, nt, nd, tm1, lv1, depth),
    decreases b,
{
    match b {
        Builder::Var(n) => {
            if env_lookup(env, n@) is None {
                lemma_lookup_term_live(nt, n@);
                match lookup_term(nt, n@) {
                    Some(t) => {
                        term::lemma_tm_view_prefix(tm1, lv1, tm2, lv2, t.0 as int);
                    },
                    None => {},
                }
            }
        },
        Builder::App(b1, b2) => {
            lemma_build_sp_stable(*b1, env, nt, nd, tm1, lv1, tm2, lv2, depth);
            lemma_build_sp_stable(*b2, env, nt, nd, tm1, lv1, tm2, lv2, depth);
        },
        Builder::Abs(n, b1, b2) => {
            lemma_build_sp_stable(*b1, env, nt, nd, tm1, lv1, tm2, lv2, depth);
            match build_sp(*b1, env, nt, nd, tm1, lv1, depth) {
                Ok(t1) => {
                    let env2 = if n@ == "_"@ {
                        env
                    } else {
                        env.push((n@, (depth, t1)))
                    };
                    lemma_build_sp_stable(*b2, env2, nt, nd, tm1, lv1, tm2, lv2, s_add(depth, 1));
                },
                Err(_) => {},
            }
        },
        Builder::Prod(n, b1, b2) => {
            lemma_build_sp_stable(*b1, env, nt, nd, tm1, lv1, tm2, lv2, depth);
            match build_sp(*b1, env, nt, nd, tm1, lv1, depth) {
                Ok(t1) => {
                    let env2 = if n@ == "_"@ {
                        env
                    } else {
                        env.push((n@, (depth, t1)))
                    };
                    lemma_build_sp_stable(*b2, env2, nt, nd, tm1, lv1, tm2, lv2, s_add(depth, 1));
                },
                Err(_) => {},
            }
        },
        Builder::Decl(n, ls) => {
            lemma_lookup_decl_live(nd, n@);
            match lookup_decl(nd, n@) {
                Some(d) => {
                    term::lemma_tm_view_prefix(tm1, lv1, tm2, lv2, d.0.0 as int);
                },
                None => {},
            }
        },
        _ => {},
    }
}

/// A name-table lookup only ever returns a live handle.
proof fn lemma_lookup_term_live(nt: Seq<(String, Term)>, n: Seq<char>)
    requires
        forall|i: int| 0 <= i < nt.len() ==> (#[trigger] nt[i]).1.0 < usize::MAX as nat + 1,
    ensures
        match lookup_term(nt, n) {
            Some(t) => exists|i: int| 0 <= i < nt.len() && #[trigger] nt[i].1 == t,
            None => true,
        },
    decreases nt.len(),
{
    if nt.len() > 0 && nt.last().0@ != n {
        lemma_lookup_term_live(nt.drop_last(), n);
        match lookup_term(nt.drop_last(), n) {
            Some(t) => {
                let i = choose|i: int| 0 <= i < nt.drop_last().len() && #[trigger] nt.drop_last()[i].1 == t;
                assert(nt[i].1 == t);
            },
            None => {},
        }
    }
}

/// A declaration lookup only ever returns a live handle.
proof fn lemma_lookup_decl_live(nd: Seq<(String, term::Declaration)>, n: Seq<char>)
    ensures
        match lookup_decl(nd, n) {
            Some(d) => exists|i: int| 0 <= i < nd.len() && #[trigger] nd[i].1 == d,
            None => true,
        },
    decreases nd.len(),
{
    if nd.len() > 0 && nd.last().0@ != n {
        lemma_lookup_decl_live(nd.drop_last(), n);
        match lookup_decl(nd.drop_last(), n) {
            Some(d) => {
                let i = choose|i: int| 0 <= i < nd.drop_last().len() && #[trigger] nd.drop_last()[i].1 == d;
                assert(nd[i].1 == d);
            },
            None => {},
        }
    }
}

/// Finds the innermost binder with this name, if any.
fn find_local(env: &Vec<(String, (usize, Term))>, n: &String) -> (r: Option<usize>)
    ensures
        match r {
            Some(k) => k < env@.len() && env@[k as int].0@ == n@ && forall|j: int|
                k < j < env@.len() ==> (#[trigger] env@[j]).0@ != n@,
            None => forall|j: int| 0 <= j < env@.len() ==> (#[trigger] env@[j]).0@ != n@,
        },
{
    let mut i: usize = env.len();
    while i > 0
        invariant
            i <= env@.len(),
            forall|j: int| i <= j < env@.len() ==> (#[trigger] env@[j]).0@ != n@,
        decreases i,
    {
        i -= 1;
        if env[i].0 == *n {
            return Some(i);
        }
    }
    None
}

/// Whether a binder name is the hole `"_"`, which binds nothing.
fn string_is_hole(n: &String) -> (r: bool)
    ensures
        r == (n@ == "_"@),
{
    let h: String = "_".to_owned();
    *n == h
}

} // verus!
