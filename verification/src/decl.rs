//! Declarations: a callee's name and its parameters in order, each with an
//! optional default, and the parser that reads one from tokens.

use vstd::prelude::*;
use crate::cursor::TTLookAhead;
use crate::diagnostic::{DeclarationFault, Diagnostic, DiagnosticView};
use crate::search::{lemma_first, spec_first};
use crate::token::{
    clone_tts, get_span_from_tt, lemma_arg_end_is_first_comma, lemma_delimited_view, spec_arg_end,
    spec_arg_next, DelimToken, Span, TokenTree, TreeView,
};

verus! {

/// One parameter of a declaration.
#[derive(Debug, PartialEq, Eq)]
pub struct Parameter {
    /// The name by which a keyword argument binds the parameter.
    pub name: String,
    /// The tokens that stand for the parameter where a call leaves it out.
    pub default: Option<Vec<TokenTree>>,
}

/// The mathematical value of a [`Parameter`].
pub struct ParameterView {
    pub name: Seq<char>,
    pub default: Option<Seq<TreeView>>,
}

impl DeepView for Parameter {
    type V = ParameterView;

    open spec fn deep_view(&self) -> ParameterView {
        ParameterView { name: self.name@, default: self.default.deep_view() }
    }
}

impl View for Parameter {
    type V = ParameterView;

    open spec fn view(&self) -> ParameterView {
        self.deep_view()
    }
}

impl Clone for Parameter {
    fn clone(&self) -> (r: Self)
        ensures
            r@ == self@,
    {
        let default = match &self.default {
            Some(tts) => Some(clone_tts(tts.as_slice())),
            None => None,
        };
        Parameter { name: self.name.clone(), default }
    }
}

/// The mathematical value of a [`KWargDecl`].
pub struct DeclView {
    pub name: Seq<char>,
    pub params: Seq<ParameterView>,
}

/// The index of the first parameter called `name`, if there is one.
pub open spec fn spec_position(params: Seq<ParameterView>, name: Seq<char>) -> Option<int> {
    spec_first(params, |p: ParameterView| p.name == name)
}

/// No two parameters have the same name.
pub open spec fn spec_distinct_names(params: Seq<ParameterView>) -> bool {
    forall|i: int, j: int|
        0 <= i < j < params.len() ==> (#[trigger] params[i]).name != (#[trigger] params[j]).name
}

/// `spec_position` finds a parameter exactly where one has the name, and then
/// the first such.
pub proof fn lemma_position(params: Seq<ParameterView>, name: Seq<char>)
    ensures
        match spec_position(params, name) {
            Some(i) => {
                &&& 0 <= i < params.len()
                &&& params[i].name == name
                &&& forall|j: int| 0 <= j < i ==> (#[trigger] params[j]).name != name
            },
            None => forall|j: int| 0 <= j < params.len() ==> (#[trigger] params[j]).name != name,
        },
{
    lemma_first(params, |p: ParameterView| p.name == name);
}

/// The parameters that the tokens of `group` declare from `pos` on, after
/// those in `acc`, or the first error in them.
///
/// An entry is a name, or a name, `=` and the tokens up to the next comma or
/// the end of the group; a comma may follow an entry.
pub open spec fn spec_params(group: Seq<TreeView>, pos: int, acc: Seq<ParameterView>) -> Result<
    Seq<ParameterView>,
    DiagnosticView,
>
    decreases group.len() - pos,
{
    if pos < 0 || pos >= group.len() {
        Ok(acc)
    } else if !group[pos].is_ident() {
        Err(
            DiagnosticView::DeclarationSyntaxError {
                span: group[pos].span(),
                fault: DeclarationFault::MalformedParameter,
            },
        )
    } else if spec_position(acc, group[pos].ident()).is_some() {
        Err(
            DiagnosticView::DeclarationSyntaxError {
                span: group[pos].span(),
                fault: DeclarationFault::DuplicateParameter,
            },
        )
    } else if pos + 1 < group.len() && group[pos + 1].is_eq() {
        let end = spec_arg_end(group, pos + 2);
        proof {
            lemma_arg_end_is_first_comma(group, pos + 2);
        }
        spec_params(
            group,
            spec_arg_next(group, pos + 2),
            acc.push(
                ParameterView {
                    name: group[pos].ident(),
                    default: Some(group.subrange(pos + 2, end)),
                },
            ),
        )
    } else if pos + 1 < group.len() && group[pos + 1].is_comma() {
        spec_params(
            group,
            pos + 2,
            acc.push(ParameterView { name: group[pos].ident(), default: None }),
        )
    } else {
        spec_params(
            group,
            pos + 1,
            acc.push(ParameterView { name: group[pos].ident(), default: None }),
        )
    }
}

/// The declaration that the tokens `tts` of a statement at `sp` make, or the
/// first error in them. The statement is a name and a parenthesised group,
/// and nothing more.
pub open spec fn spec_declaration(sp: Span, tts: Seq<TreeView>) -> Result<
    DeclView,
    DiagnosticView,
> {
    if tts.len() == 0 {
        Err(
            DiagnosticView::DeclarationSyntaxError {
                span: sp,
                fault: DeclarationFault::MissingName,
            },
        )
    } else if !tts[0].is_ident() {
        Err(
            DiagnosticView::DeclarationSyntaxError {
                span: tts[0].span(),
                fault: DeclarationFault::MissingName,
            },
        )
    } else if tts.len() == 1 {
        Err(
            DiagnosticView::DeclarationSyntaxError {
                span: sp,
                fault: DeclarationFault::MissingParameters,
            },
        )
    } else {
        match tts[1] {
            TreeView::Delimited(_, DelimToken::Paren, group) => {
                match spec_params(group, 0, Seq::empty()) {
                    Err(e) => Err(e),
                    Ok(params) => if tts.len() > 2 {
                        Err(
                            DiagnosticView::DeclarationSyntaxError {
                                span: tts[2].span(),
                                fault: DeclarationFault::TrailingTokens,
                            },
                        )
                    } else {
                        Ok(DeclView { name: tts[0].ident(), params })
                    },
                }
            },
            _ => Err(
                DiagnosticView::DeclarationSyntaxError {
                    span: tts[1].span(),
                    fault: DeclarationFault::MissingParameters,
                },
            ),
        }
    }
}

/// What `spec_params` accepts has distinct names if `acc` had.
pub proof fn lemma_params_distinct(group: Seq<TreeView>, pos: int, acc: Seq<ParameterView>)
    requires
        spec_distinct_names(acc),
    ensures
        spec_params(group, pos, acc) matches Ok(params) ==> spec_distinct_names(params),
    decreases group.len() - pos,
{
    if 0 <= pos < group.len() && group[pos].is_ident() && spec_position(
        acc,
        group[pos].ident(),
    ).is_none() {
        let name = group[pos].ident();
        lemma_position(acc, name);
        if pos + 1 < group.len() && group[pos + 1].is_eq() {
            let end = spec_arg_end(group, pos + 2);
            let next = acc.push(
                ParameterView { name, default: Some(group.subrange(pos + 2, end)) },
            );
            lemma_arg_end_is_first_comma(group, pos + 2);
            lemma_params_distinct(group, spec_arg_next(group, pos + 2), next);
        } else if pos + 1 < group.len() && group[pos + 1].is_comma() {
            lemma_params_distinct(group, pos + 2, acc.push(ParameterView { name, default: None }));
        } else {
            lemma_params_distinct(group, pos + 1, acc.push(ParameterView { name, default: None }));
        }
    }
}

/// The index of the first of `params` called `name`, if there is one.
pub fn position(params: &[Parameter], name: &String) -> (r: Option<usize>)
    ensures
        match r {
            Some(i) => spec_position(params.deep_view(), name@) == Some(i as int),
            None => spec_position(params.deep_view(), name@).is_none(),
        },
{
    let mut i: usize = 0;
    while i < params.len()
        invariant
            i <= params@.len(),
            forall|j: int| 0 <= j < i ==> (#[trigger] params.deep_view()[j]).name != name@,
        decreases params@.len() - i,
    {
        assert(params.deep_view()[i as int].name == params@[i as int].name@);
        if params[i].name == *name {
            proof {
                lemma_position(params.deep_view(), name@);
            }
            return Some(i);
        }
        i += 1;
    }
    proof {
        lemma_position(params.deep_view(), name@);
    }
    None
}

fn syntax_error(span: Span, fault: DeclarationFault) -> (e: Diagnostic)
    ensures
        e@ == (DiagnosticView::DeclarationSyntaxError { span, fault }),
{
    Diagnostic::DeclarationSyntaxError { span, fault }
}

/// Reads the parameters that a parenthesised group declares.
pub fn parse_params(group: &[TokenTree]) -> (r: Result<Vec<Parameter>, Diagnostic>)
    ensures
        match r {
            Ok(params) => {
                &&& spec_params(group.deep_view(), 0, Seq::empty()) == Ok::<
                    Seq<ParameterView>,
                    DiagnosticView,
                >(params.deep_view())
                &&& spec_distinct_names(params.deep_view())
            },
            Err(e) => spec_params(group.deep_view(), 0, Seq::empty()) == Err::<
                Seq<ParameterView>,
                DiagnosticView,
            >(e@),
        },
{
    let ghost g = group.deep_view();
    let ghost goal = spec_params(g, 0, Seq::empty());
    let mut cur = TTLookAhead::new(group);
    let mut params: Vec<Parameter> = Vec::new();
    assert(params.deep_view() =~= Seq::empty());
    loop
        invariant
            g == group.deep_view(),
            goal == spec_params(g, 0, Seq::empty()),
            cur.trees() == g,
            0 <= cur.position() <= g.len(),
            spec_params(g, cur.position(), params.deep_view()) == goal,
            spec_distinct_names(params.deep_view()),
        decreases g.len() - cur.position(),
    {
        let ghost pos = cur.position();
        let ghost acc = params.deep_view();
        let tt = match cur.cur_tt() {
            Some(tt) => tt,
            None => {
                return Ok(params);
            },
        };
        let name = match tt.ident() {
            Some(name) => name,
            None => {
                return Err(
                    syntax_error(get_span_from_tt(tt), DeclarationFault::MalformedParameter),
                );
            },
        };
        if position(params.as_slice(), name).is_some() {
            return Err(syntax_error(get_span_from_tt(tt), DeclarationFault::DuplicateParameter));
        }
        let has_default = match cur.next_tt() {
            Some(next) => next.is_eq(),
            None => false,
        };
        let default = if has_default {
            cur.bump();
            cur.bump();
            let tokens = cur.collect_until_comma();
            cur.bump();
            Some(tokens)
        } else {
            match cur.bump() {
                Some(next) => {
                    if next.is_comma() {
                        cur.bump();
                    }
                },
                None => {},
            }
            None
        };
        params.push(Parameter { name: name.clone(), default });
        proof {
            let next = ParameterView { name: name@, default: default.deep_view() };
            assert(params.deep_view() =~= acc.push(next));
            lemma_position(acc, name@);
        }
    }
}

/// A callee's name and its parameters in their positional order.
///
/// The order of the parameters is the order in which a rewritten call passes
/// its arguments. No two parameters have the same name. A declaration is made
/// by [`kwarg_decl`] from the tokens of a statement and never changes, so its
/// names are the texts of identifier tokens.
#[derive(Debug, PartialEq, Eq)]
pub struct KWargDecl {
    pub(crate) name: String,
    pub(crate) params: Vec<Parameter>,
}

impl View for KWargDecl {
    type V = DeclView;

    closed spec fn view(&self) -> DeclView {
        DeclView { name: self.name@, params: self.params.deep_view() }
    }
}

impl DeepView for KWargDecl {
    type V = DeclView;

    open spec fn deep_view(&self) -> DeclView {
        self@
    }
}

impl KWargDecl {
    #[verifier::type_invariant]
    spec fn distinct(&self) -> bool {
        spec_distinct_names(self.params.deep_view())
    }

    /// The name of the callee.
    pub fn name(&self) -> (r: &String)
        ensures
            r@ == self@.name,
    {
        &self.name
    }

    /// The parameters in their positional order.
    pub fn params(&self) -> (r: &Vec<Parameter>)
        ensures
            r.deep_view() == self@.params,
            spec_distinct_names(self@.params),
    {
        proof {
            use_type_invariant(self);
        }
        &self.params
    }

    /// How many parameters the declaration has.
    pub fn arity(&self) -> (n: usize)
        ensures
            n == self@.params.len(),
    {
        self.params.len()
    }
}

impl Clone for KWargDecl {
    fn clone(&self) -> (r: Self)
        ensures
            r@ == self@,
    {
        proof {
            use_type_invariant(self);
        }
        let mut params: Vec<Parameter> = Vec::new();
        let mut i: usize = 0;
        while i < self.params.len()
            invariant
                i <= self.params@.len(),
                params@.len() == i,
                forall|j: int| 0 <= j < i ==> params@[j]@ == self.params@[j]@,
            decreases self.params@.len() - i,
        {
            params.push(self.params[i].clone());
            i += 1;
        }
        proof {
            assert(params.deep_view() =~= self.params.deep_view());
        }
        KWargDecl { name: self.name.clone(), params }
    }
}

/// Reads a declaration statement: the name of the callee, then its parameters
/// in a parenthesised group. `sp` is the span of the statement, which an error
/// carries where no token is at fault.
pub fn kwarg_decl(sp: Span, tts: &[TokenTree]) -> (r: Result<KWargDecl, Diagnostic>)
    ensures
        match r {
            Ok(decl) => spec_declaration(sp, tts.deep_view()) == Ok::<DeclView, DiagnosticView>(
                decl@,
            ),
            Err(e) => spec_declaration(sp, tts.deep_view()) == Err::<DeclView, DiagnosticView>(
                e@,
            ),
        },
{
    let mut cur = TTLookAhead::new(tts);
    let first = match cur.cur_tt() {
        Some(tt) => tt,
        None => {
            return Err(syntax_error(sp, DeclarationFault::MissingName));
        },
    };
    let name = match first.ident() {
        Some(name) => name,
        None => {
            return Err(syntax_error(get_span_from_tt(first), DeclarationFault::MissingName));
        },
    };
    let second = match cur.bump() {
        Some(tt) => tt,
        None => {
            return Err(syntax_error(sp, DeclarationFault::MissingParameters));
        },
    };
    let group = match second {
        TokenTree::Delimited(_, DelimToken::Paren, group) => group,
        _ => {
            return Err(
                syntax_error(get_span_from_tt(second), DeclarationFault::MissingParameters),
            );
        },
    };
    proof {
        lemma_delimited_view(*second);
    }
    let params = match parse_params(group.as_slice()) {
        Ok(params) => params,
        Err(e) => {
            return Err(e);
        },
    };
    match cur.bump() {
        Some(tt) => {
            return Err(syntax_error(get_span_from_tt(tt), DeclarationFault::TrailingTokens));
        },
        None => {},
    }
    Ok(KWargDecl { name: name.clone(), params })
}

} // verus!
