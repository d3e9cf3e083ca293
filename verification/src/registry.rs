//! The declarations of one session, by the name of the callee.

use vstd::prelude::*;
use crate::decl::{kwarg_decl, spec_declaration, DeclView, KWargDecl};
use crate::diagnostic::{Diagnostic, DiagnosticView};
use crate::expand::spec_expand;
use crate::search::{lemma_first, spec_first};
use crate::token::{get_span_from_tt, Span, TokenTree, TreeView};

verus! {

/// What a registry does with a declaration of a name that it holds already.
#[derive(Clone, Copy, Debug, PartialEq, Eq, Structural)]
pub enum Redeclare {
    /// The new declaration takes the place of the old one.
    Overwrite,
    /// The new declaration is refused and the old one stays.
    Reject,
}

/// The index of the first declaration of `name`, if there is one.
pub open spec fn spec_find(decls: Seq<DeclView>, name: Seq<char>) -> Option<int> {
    spec_first(decls, |d: DeclView| d.name == name)
}

/// `spec_find` finds a declaration exactly where one has the name, and then
/// the first such.
pub proof fn lemma_find(decls: Seq<DeclView>, name: Seq<char>)
    ensures
        match spec_find(decls, name) {
            Some(i) => {
                &&& 0 <= i < decls.len()
                &&& decls[i].name == name
                &&& forall|j: int| 0 <= j < i ==> (#[trigger] decls[j]).name != name
            },
            None => forall|j: int| 0 <= j < decls.len() ==> (#[trigger] decls[j]).name != name,
        },
{
    lemma_first(decls, |d: DeclView| d.name == name);
}

/// The declarations as a map from the name of the callee.
pub open spec fn spec_table(decls: Seq<DeclView>) -> Map<Seq<char>, DeclView> {
    Map::new(
        |name: Seq<char>| spec_find(decls, name).is_some(),
        |name: Seq<char>| decls[spec_find(decls, name).unwrap()],
    )
}

/// A declaration added at the end of the sequence is one more entry of the map.
proof fn lemma_table_push(decls: Seq<DeclView>, decl: DeclView)
    requires
        spec_find(decls, decl.name).is_none(),
    ensures
        spec_table(decls.push(decl)) == spec_table(decls).insert(decl.name, decl),
{
    let after = decls.push(decl);
    let last = decls.len() as int;
    assert forall|name: Seq<char>| #[trigger]
        spec_find(after, name) == if name == decl.name {
            Some(last)
        } else {
            spec_find(decls, name)
        } && (spec_find(decls, name) is Some ==> 0 <= spec_find(decls, name)->Some_0 < last) by {
        lemma_find(decls, name);
        lemma_find(after, name);
        assert(after[last] == decl);
        if spec_find(decls, name) is Some {
            assert(after[spec_find(decls, name)->Some_0].name == name);
        }
        if spec_find(after, name) is Some && spec_find(after, name)->Some_0 < last {
            assert(decls[spec_find(after, name)->Some_0].name == name);
        }
    }
    assert(spec_table(after) =~= spec_table(decls).insert(decl.name, decl));
}

/// A declaration put in the place of the one of its name changes that entry
/// of the map and no other.
proof fn lemma_table_update(decls: Seq<DeclView>, i: int, decl: DeclView)
    requires
        spec_find(decls, decl.name) == Some(i),
    ensures
        spec_table(decls.update(i, decl)) == spec_table(decls).insert(decl.name, decl),
{
    lemma_find(decls, decl.name);
    let after = decls.update(i, decl);
    assert forall|name: Seq<char>| #[trigger]
        spec_find(after, name) == spec_find(decls, name) && (spec_find(decls, name) is Some ==> {
            &&& 0 <= spec_find(decls, name)->Some_0 < decls.len()
            &&& (spec_find(decls, name)->Some_0 == i) == (name == decl.name)
        }) by {
        lemma_find(decls, name);
        lemma_find(after, name);
        if spec_find(decls, name) is Some {
            assert(after[spec_find(decls, name)->Some_0].name == name);
        }
        if spec_find(after, name) is Some {
            assert(decls[spec_find(after, name)->Some_0].name == name);
        }
    }
    assert(spec_table(after) =~= spec_table(decls).insert(decl.name, decl));
}

/// The declarations made so far in one session. A name has at most one
/// declaration in it, and nothing is ever removed from it.
#[derive(Debug)]
pub struct Registry {
    decls: Vec<KWargDecl>,
    policy: Redeclare,
}

impl View for Registry {
    type V = Map<Seq<char>, DeclView>;

    closed spec fn view(&self) -> Map<Seq<char>, DeclView> {
        spec_table(self.decls.deep_view())
    }
}

impl Registry {
    /// What the registry does with a second declaration of a name.
    pub closed spec fn spec_policy(&self) -> Redeclare {
        self.policy
    }

    /// A registry without declarations.
    pub fn new(policy: Redeclare) -> (r: Registry)
        ensures
            r@ == Map::<Seq<char>, DeclView>::empty(),
            r.spec_policy() == policy,
    {
        let r = Registry { decls: Vec::new(), policy };
        assert(r@ =~= Map::<Seq<char>, DeclView>::empty());
        r
    }

    /// What the registry does with a second declaration of a name.
    pub fn policy(&self) -> (p: Redeclare)
        ensures
            p == self.spec_policy(),
    {
        self.policy
    }

    fn find(&self, name: &String) -> (r: Option<usize>)
        ensures
            match r {
                Some(i) => spec_find(self.decls.deep_view(), name@) == Some(i as int),
                None => spec_find(self.decls.deep_view(), name@).is_none(),
            },
    {
        let mut i: usize = 0;
        while i < self.decls.len()
            invariant
                i <= self.decls@.len(),
                forall|j: int| 0 <= j < i ==> (#[trigger] self.decls.deep_view()[j]).name != name@,
            decreases self.decls@.len() - i,
        {
            assert(self.decls.deep_view()[i as int] == self.decls@[i as int]@);
            if *self.decls[i].name() == *name {
                proof {
                    lemma_find(self.decls.deep_view(), name@);
                }
                return Some(i);
            }
            i += 1;
        }
        proof {
            lemma_find(self.decls.deep_view(), name@);
        }
        None
    }

    /// The declaration of `name`, if there is one.
    pub fn lookup(&self, name: &String) -> (r: Option<&KWargDecl>)
        ensures
            match r {
                Some(decl) => self@.contains_key(name@) && self@[name@] == decl@,
                None => !self@.contains_key(name@),
            },
    {
        match self.find(name) {
            Some(i) => {
                proof {
                    lemma_find(self.decls.deep_view(), name@);
                }
                Some(&self.decls[i])
            },
            None => None,
        }
    }

    /// Puts `decl` under the name of its callee, in the place of any earlier
    /// declaration of that name.
    pub fn insert(&mut self, decl: KWargDecl)
        ensures
            final(self)@ == old(self)@.insert(decl@.name, decl@),
            final(self).spec_policy() == old(self).spec_policy(),
    {
        let ghost before = self.decls.deep_view();
        match self.find(decl.name()) {
            Some(i) => {
                proof {
                    lemma_find(before, decl@.name);
                    lemma_table_update(before, i as int, decl@);
                }
                self.decls.set(i, decl);
                proof {
                    assert(self.decls.deep_view() =~= before.update(i as int, decl@));
                }
            },
            None => {
                proof {
                    lemma_find(before, decl@.name);
                    lemma_table_push(before, decl@);
                }
                self.decls.push(decl);
                proof {
                    assert(self.decls.deep_view() =~= before.push(decl@));
                }
            },
        }
    }

    /// Reads the declaration statement `tts` at `sp` and registers it.
    ///
    /// Where the name is declared already, a registry that overwrites takes
    /// the new declaration, and one that rejects keeps the old one and reports
    /// the name at its token. A statement with an error changes nothing.
    pub fn declare(&mut self, sp: Span, tts: &[TokenTree]) -> (r: Result<(), Diagnostic>)
        ensures
            final(self).spec_policy() == old(self).spec_policy(),
            match spec_declaration(sp, tts.deep_view()) {
                Err(e) => {
                    &&& r matches Err(got)
                    &&& got@ == e
                    &&& final(self)@ == old(self)@
                },
                Ok(decl) => if old(self).spec_policy() == Redeclare::Reject && old(
                    self,
                )@.contains_key(decl.name) {
                    &&& r matches Err(got)
                    &&& got@ == DiagnosticView::Redeclaration {
                        span: tts.deep_view()[0].span(),
                        name: decl.name,
                    }
                    &&& final(self)@ == old(self)@
                } else {
                    &&& r is Ok
                    &&& final(self)@ == old(self)@.insert(decl.name, decl)
                },
            },
    {
        let decl = match kwarg_decl(sp, tts) {
            Ok(decl) => decl,
            Err(e) => {
                return Err(e);
            },
        };
        match self.policy {
            Redeclare::Reject => {
                if self.lookup(decl.name()).is_some() {
                    let span = get_span_from_tt(&tts[0]);
                    return Err(Diagnostic::Redeclaration { span, name: decl.name().clone() });
                }
            },
            Redeclare::Overwrite => {},
        }
        self.insert(decl);
        Ok(())
    }

    /// Rewrites the invocation `tts` at `sp` of the callee `name` by the
    /// declaration of that name. Returns `None` where `name` is not declared.
    pub fn expand(&self, name: &String, sp: Span, tts: &[TokenTree]) -> (r: Option<
        Result<Vec<TokenTree>, Diagnostic>,
    >)
        ensures
            r.is_some() == self@.contains_key(name@),
            match r {
                Some(Ok(call)) => spec_expand(self@[name@], sp, tts.deep_view()) == Ok::<
                    Seq<TreeView>,
                    DiagnosticView,
                >(call.deep_view()),
                Some(Err(e)) => spec_expand(self@[name@], sp, tts.deep_view()) == Err::<
                    Seq<TreeView>,
                    DiagnosticView,
                >(e@),
                None => true,
            },
    {
        match self.lookup(name) {
            Some(decl) => Some(decl.expand(sp, tts)),
            None => None,
        }
    }
}

} // verus!
