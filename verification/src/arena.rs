//! The memory management unit for terms and universe levels.
//!
//! An arena is an append-only store in which every level, term and
//! declaration payload is interned: structurally equal payloads share one
//! handle, so equality of handles decides syntactic equality of the trees
//! they denote. Handles are plain indices into the arena's vectors; a node
//! only ever points at nodes stored before it, which keeps the store acyclic.

use vstd::prelude::*;

use crate::level;
use crate::term;
use crate::term::{Declaration, Term};

verus! {

/// The store that owns every interned node for one kernel session.
pub struct Arena {
    /// Interned universe levels; every entry is in normal form.
    pub levels: Vec<level::Payload>,
    /// Interned terms.
    pub terms: Vec<term::Payload>,
    /// Name bindings for terms; a later entry shadows an earlier one.
    pub named_terms: Vec<(String, Term)>,
    /// Name bindings for declarations; a later entry shadows an earlier one.
    pub named_decls: Vec<(String, Declaration)>,
}

impl Arena {
    /// The arena's invariant: links point backwards, stored levels are
    /// normalized, no payload is stored twice, and every name binding
    /// points at a live node.
    pub open spec fn wf(&self) -> bool {
        &&& level::lvl_wf(self.levels@)
        &&& term::tm_wf(self.terms@, self.levels@)
        &&& forall|i: int|
            0 <= i < self.named_terms@.len() ==> (#[trigger] self.named_terms@[i]).1.0
                < self.terms@.len()
        &&& forall|i: int|
            0 <= i < self.named_decls@.len() ==> ((#[trigger] self.named_decls@[i]).1).0.0
                < self.terms@.len()
    }

    /// Everything stored in `pre` is still stored, unchanged, in `post`.
    pub open spec fn extends(pre: &Arena, post: &Arena) -> bool {
        &&& pre.levels@.is_prefix_of(post.levels@)
        &&& pre.terms@.is_prefix_of(post.terms@)
    }

    /// As `extends`, and the name tables are untouched.
    pub open spec fn grows_only(pre: &Arena, post: &Arena) -> bool {
        &&& Arena::extends(pre, post)
        &&& pre.named_terms@ == post.named_terms@
        &&& pre.named_decls@ == post.named_decls@
    }

    /// Creates a fresh, empty arena, with no axioms bound.
    pub fn new() -> (r: Arena)
        ensures
            r.wf(),
            r.levels@.len() == 0,
            r.terms@.len() == 0,
            r.named_terms@.len() == 0,
            r.named_decls@.len() == 0,
    {
        Arena { levels: Vec::new(), terms: Vec::new(), named_terms: Vec::new(), named_decls: Vec::new() }
    }
}

/// The binding a name resolves to: the latest entry wins.
pub open spec fn lookup_term(s: Seq<(String, Term)>, n: Seq<char>) -> Option<Term>
    decreases s.len(),
{
    if s.len() == 0 {
        None
    } else if s.last().0@ == n {
        Some(s.last().1)
    } else {
        lookup_term(s.drop_last(), n)
    }
}

/// The declaration binding a name resolves to: the latest entry wins.
pub open spec fn lookup_decl(s: Seq<(String, Declaration)>, n: Seq<char>) -> Option<Declaration>
    decreases s.len(),
{
    if s.len() == 0 {
        None
    } else if s.last().0@ == n {
        Some(s.last().1)
    } else {
        lookup_decl(s.drop_last(), n)
    }
}

impl Arena {
    /// Binds a term to a given name, shadowing any earlier binding.
    pub fn bind(&mut self, name: &str, t: Term)
        requires
            old(self).wf(),
            t.live(old(self)),
        ensures
            final(self).wf(),
            Arena::extends(old(self), final(self)),
            final(self).levels@ == old(self).levels@,
            final(self).terms@ == old(self).terms@,
            final(self).named_decls@ == old(self).named_decls@,
            lookup_term(final(self).named_terms@, name@) == Some(t),
            forall|n: Seq<char>|
                n != name@ ==> #[trigger] lookup_term(final(self).named_terms@, n) == lookup_term(
                    old(self).named_terms@,
                    n,
                ),
    {
        let key = name.to_owned();
        self.named_terms.push((key, t));
        proof {
            assert(self.named_terms@.drop_last() =~= old(self).named_terms@);
        }
    }

    /// Binds a declaration to a given name, shadowing any earlier binding.
    /// A declaration without universe parameters is also bound as a term.
    pub fn bind_decl(&mut self, name: &str, decl: Declaration)
        requires
            old(self).wf(),
            decl.0.live(old(self)),
        ensures
            final(self).wf(),
            Arena::extends(old(self), final(self)),
            final(self).levels@ == old(self).levels@,
            final(self).terms@ == old(self).terms@,
            lookup_decl(final(self).named_decls@, name@) == Some(decl),
            forall|n: Seq<char>|
                n != name@ ==> #[trigger] lookup_decl(final(self).named_decls@, n) == lookup_decl(
                    old(self).named_decls@,
                    n,
                ),
            decl.1 == 0 ==> lookup_term(final(self).named_terms@, name@) == Some(decl.0),
            decl.1 != 0 ==> final(self).named_terms@ == old(self).named_terms@,
    {
        let key = name.to_owned();
        self.named_decls.push((key, decl));
        proof {
            assert(self.named_decls@.drop_last() =~= old(self).named_decls@);
        }
        if decl.1 == 0 {
            let Declaration(t, _) = decl;
            self.bind(name, t);
        }
    }

    /// Retrieves the term bound to a given name, if one exists.
    pub fn get_binding(&self, name: &str) -> (r: Option<Term>)
        requires
            self.wf(),
        ensures
            r == lookup_term(self.named_terms@, name@),
            r is Some ==> r.unwrap().live(self),
    {
        let key = name.to_owned();
        let ghost full = self.named_terms@;
        let mut i: usize = self.named_terms.len();
        proof {
            assert(full.take(full.len() as int) =~= full);
        }
        while i > 0
            invariant
                i <= full.len(),
                self.wf(),
                full == self.named_terms@,
                key@ == name@,
                lookup_term(full, name@) == lookup_term(full.take(i as int), name@),
            decreases i,
        {
            i -= 1;
            proof {
                assert(full.take(i + 1).last() == full[i as int]);
                assert(full.take(i + 1).drop_last() =~= full.take(i as int));
            }
            if self.named_terms[i].0 == key {
                proof {
                    assert(lookup_term(full.take(i + 1), name@) == Some(full[i as int].1));
                }
                return Some(self.named_terms[i].1);
            }
        }
        proof {
            assert(full.take(0) =~= Seq::<(String, Term)>::empty());
        }
        None
    }

    /// Retrieves the declaration bound to a given name, if one exists.
    pub fn get_binding_decl(&self, name: &str) -> (r: Option<Declaration>)
        requires
            self.wf(),
        ensures
            r == lookup_decl(self.named_decls@, name@),
            r is Some ==> r.unwrap().0.live(self),
    {
        let key = name.to_owned();
        let ghost full = self.named_decls@;
        let mut i: usize = self.named_decls.len();
        proof {
            assert(full.take(full.len() as int) =~= full);
        }
        while i > 0
            invariant
                i <= full.len(),
                self.wf(),
                full == self.named_decls@,
                key@ == name@,
                lookup_decl(full, name@) == lookup_decl(full.take(i as int), name@),
            decreases i,
        {
            i -= 1;
            proof {
                assert(full.take(i + 1).last() == full[i as int]);
                assert(full.take(i + 1).drop_last() =~= full.take(i as int));
            }
            if self.named_decls[i].0 == key {
                proof {
                    assert(lookup_decl(full.take(i + 1), name@) == Some(full[i as int].1));
                }
                return Some(self.named_decls[i].1);
            }
        }
        proof {
            assert(full.take(0) =~= Seq::<(String, Declaration)>::empty());
        }
        None
    }
}

/// `extends` is reflexive and transitive, so growth steps compose.
pub proof fn lemma_extends_trans(a: &Arena, b: &Arena, c: &Arena)
    requires
        Arena::extends(a, b),
        Arena::extends(b, c),
    ensures
        Arena::extends(a, c),
{
}

} // verus!
