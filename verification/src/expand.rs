//! Expansion: from a declaration and the tokens of one invocation to the
//! arguments of a positional call, in the order of the declaration.

use vstd::prelude::*;
use crate::cursor::TTLookAhead;
use crate::decl::{lemma_position, position, spec_position, DeclView, KWargDecl};
use crate::diagnostic::{Diagnostic, DiagnosticView, EmptyValue};
use crate::search::{lemma_first, spec_first};
use crate::token::{
    clone_tts, get_span_from_tt, lemma_arg_end, lemma_arg_end_is_first_comma,
    lemma_delimited_view, spec_arg_end, spec_arg_next, DelimToken, Span, Token, TokenTree,
    TokenView, TreeView,
};

verus! {

/// What a scan of an invocation has settled so far.
pub struct ScanState {
    /// For each parameter, the tokens bound to it: its default at first, then
    /// what the call gives it. `None` where there is neither.
    pub slots: Seq<Option<Seq<TreeView>>>,
    /// Whether a keyword argument has been seen.
    pub found_keyword: bool,
    /// How many positional arguments have been seen.
    pub positional: int,
}

/// The state before the first argument: every slot holds its parameter's
/// default.
pub open spec fn spec_initial(decl: DeclView) -> ScanState {
    ScanState {
        slots: Seq::new(decl.params.len(), |i: int| decl.params[i].default),
        found_keyword: false,
        positional: 0,
    }
}

/// Whether `tokens` begin with a name and `=`, as a keyword argument does.
pub open spec fn spec_keyword_head(tokens: Seq<TreeView>) -> bool {
    &&& tokens.len() >= 2
    &&& tokens[0].is_ident()
    &&& tokens[1].is_eq()
}

/// One argument of an invocation, as it is written.
pub struct ArgumentView {
    /// Its tokens: those up to the comma that ends it, or to the end of the
    /// invocation.
    pub tokens: Seq<TreeView>,
    /// The comma that ends it, if one does.
    pub comma: Option<TreeView>,
}

impl ArgumentView {
    /// Whether the argument begins with a name and `=`.
    pub open spec fn is_keyword(self) -> bool {
        spec_keyword_head(self.tokens)
    }

    /// The tokens that the argument passes: those after the `=` of a keyword
    /// argument, all those of any other.
    pub open spec fn value(self) -> Seq<TreeView> {
        if self.is_keyword() {
            self.tokens.skip(2)
        } else {
            self.tokens
        }
    }

    /// The first token of what is written: of the argument, or the comma
    /// that ends it where it has no token of its own.
    pub open spec fn first(self) -> TreeView {
        if self.tokens.len() > 0 {
            self.tokens[0]
        } else {
            self.comma.unwrap()
        }
    }
}

/// The arguments of the invocation `tts` from the token at `from` on.
///
/// Each comma of `tts` ends one argument, which may be empty, and the tokens
/// after the last comma are one more if there are any. A comma inside a
/// group is not in `tts`: a group is one token of the argument it stands in.
pub open spec fn spec_arguments(tts: Seq<TreeView>, from: int) -> Seq<ArgumentView>
    decreases tts.len() - from,
{
    if from < 0 || from >= tts.len() {
        Seq::empty()
    } else {
        let end = spec_arg_end(tts, from);
        proof {
            lemma_arg_end_is_first_comma(tts, from);
        }
        seq![
            ArgumentView {
                tokens: tts.subrange(from, end),
                comma: if end < tts.len() {
                    Some(tts[end])
                } else {
                    None
                },
            },
        ] + spec_arguments(tts, spec_arg_next(tts, from))
    }
}

/// The state after the argument `arg`, met in state `st`, or the error that
/// it is refused with.
///
/// An argument that begins with a name and `=` binds the parameter of that
/// name to the tokens after the `=`, of which there must be one at least:
/// where there is none, the error is at the comma that ends the argument, or
/// at the `=` if the invocation ends there.
/// Any other may not follow a keyword argument, needs a parameter that no
/// positional argument has taken, and binds the first such to its tokens, of
/// which there must be one at least; the three are tested in this order.
pub open spec fn spec_bind(decl: DeclView, sp: Span, st: ScanState, arg: ArgumentView) -> Result<
    ScanState,
    DiagnosticView,
> {
    if arg.is_keyword() {
        match spec_position(decl.params, arg.tokens[0].ident()) {
            None => Err(DiagnosticView::UnknownArgumentName { span: arg.tokens[0].span() }),
            Some(i) => if arg.tokens.len() == 2 {
                Err(
                    match arg.comma {
                        Some(comma) => DiagnosticView::EmptyArgumentValue {
                            span: comma.span(),
                            found: EmptyValue::Comma,
                        },
                        None => DiagnosticView::EmptyArgumentValue {
                            span: arg.tokens[1].span(),
                            found: EmptyValue::End,
                        },
                    },
                )
            } else {
                Ok(
                    ScanState {
                        slots: st.slots.update(i, Some(arg.value())),
                        found_keyword: true,
                        positional: st.positional,
                    },
                )
            },
        }
    } else if st.found_keyword {
        Err(DiagnosticView::OrderingViolation { span: arg.first().span() })
    } else if st.positional >= decl.params.len() {
        Err(
            DiagnosticView::ArityExceeded {
                span: sp,
                target: decl.name,
                expected: decl.params.len(),
            },
        )
    } else if arg.tokens.len() == 0 {
        Err(
            DiagnosticView::EmptyArgumentValue {
                span: arg.first().span(),
                found: EmptyValue::Comma,
            },
        )
    } else {
        Ok(
            ScanState {
                slots: st.slots.update(st.positional, Some(arg.value())),
                found_keyword: false,
                positional: st.positional + 1,
            },
        )
    }
}

/// The state after the arguments `args` in their order, begun in state `st`,
/// or the error of the first that is refused.
pub open spec fn spec_bind_all(
    decl: DeclView,
    sp: Span,
    st: ScanState,
    args: Seq<ArgumentView>,
) -> Result<ScanState, DiagnosticView>
    decreases args.len(),
{
    if args.len() == 0 {
        Ok(st)
    } else {
        match spec_bind(decl, sp, st, args[0]) {
            Err(e) => Err(e),
            Ok(next) => spec_bind_all(decl, sp, next, args.skip(1)),
        }
    }
}

/// The index of the first slot that holds nothing, if there is one.
pub open spec fn spec_first_unbound(slots: Seq<Option<Seq<TreeView>>>) -> Option<int> {
    spec_first(slots, |slot: Option<Seq<TreeView>>| slot.is_none())
}

/// `spec_first_unbound` finds a slot exactly where one is empty, and then the
/// first such.
pub proof fn lemma_first_unbound(slots: Seq<Option<Seq<TreeView>>>)
    ensures
        match spec_first_unbound(slots) {
            Some(i) => {
                &&& 0 <= i < slots.len()
                &&& slots[i].is_none()
                &&& forall|j: int| 0 <= j < i ==> (#[trigger] slots[j]).is_some()
            },
            None => forall|j: int| 0 <= j < slots.len() ==> (#[trigger] slots[j]).is_some(),
        },
{
    lemma_first(slots, |slot: Option<Seq<TreeView>>| slot.is_none());
}

/// The arguments of the positional call that the invocation `tts` at `sp`
/// stands for, one for each parameter and in the order of the declaration,
/// or the error that the invocation is refused with.
///
/// The error is that of the first argument that is refused. A parameter that
/// is left with neither a value nor a default is found after all arguments,
/// and of several such the first in the declaration is named.
pub open spec fn spec_resolve(decl: DeclView, sp: Span, tts: Seq<TreeView>) -> Result<
    Seq<Seq<TreeView>>,
    DiagnosticView,
> {
    match spec_bind_all(decl, sp, spec_initial(decl), spec_arguments(tts, 0)) {
        Err(e) => Err(e),
        Ok(st) => match spec_first_unbound(st.slots) {
            Some(i) => Err(
                DiagnosticView::MissingRequiredArgument { span: sp, name: decl.params[i].name },
            ),
            None => Ok(Seq::new(st.slots.len(), |i: int| st.slots[i].unwrap())),
        },
    }
}

/// A comma at `sp`.
pub open spec fn spec_comma(sp: Span) -> TreeView {
    TreeView::Token(sp, TokenView::Comma)
}

/// The arguments with a comma between each two of them. Each comma carries
/// the span `sp`.
pub open spec fn spec_join(sp: Span, args: Seq<Seq<TreeView>>) -> Seq<TreeView>
    decreases args.len(),
{
    if args.len() == 0 {
        Seq::empty()
    } else if args.len() == 1 {
        args[0]
    } else {
        args[0] + seq![spec_comma(sp)] + spec_join(sp, args.skip(1))
    }
}

/// One more argument at the end is joined on with a comma.
pub proof fn lemma_join_push(sp: Span, args: Seq<Seq<TreeView>>, arg: Seq<TreeView>)
    ensures
        spec_join(sp, args.push(arg)) == if args.len() == 0 {
            arg
        } else {
            spec_join(sp, args) + seq![spec_comma(sp)] + arg
        },
    decreases args.len(),
{
    let all = args.push(arg);
    if args.len() == 0 {
        assert(all[0] == arg);
    } else {
        lemma_join_push(sp, args.skip(1), arg);
        assert(all.skip(1) =~= args.skip(1).push(arg));
        assert(all[0] == args[0]);
        assert(spec_join(sp, all) =~= spec_join(sp, args) + seq![spec_comma(sp)] + arg);
    }
}

/// The positional call of `name` with `args`: the name, then the arguments in
/// parentheses with commas between them. What is not taken from `args` carries
/// the span `sp`.
pub open spec fn spec_call(name: Seq<char>, sp: Span, args: Seq<Seq<TreeView>>) -> Seq<TreeView> {
    seq![
        TreeView::Token(sp, TokenView::Ident(name)),
        TreeView::Delimited(sp, DelimToken::Paren, spec_join(sp, args)),
    ]
}

/// The positional call that the invocation `tts` at `sp` is rewritten to, or
/// the error that it is refused with.
pub open spec fn spec_expand(decl: DeclView, sp: Span, tts: Seq<TreeView>) -> Result<
    Seq<TreeView>,
    DiagnosticView,
> {
    match spec_resolve(decl, sp, tts) {
        Err(e) => Err(e),
        Ok(args) => Ok(spec_call(decl.name, sp, args)),
    }
}

/// A group of `tts` in the brackets `delim`, at `sp`.
pub fn new_delimited(sp: Span, delim: DelimToken, tts: Vec<TokenTree>) -> (r: TokenTree)
    ensures
        r@ == TreeView::Delimited(sp, delim, tts.deep_view()),
{
    let r = TokenTree::Delimited(sp, delim, tts);
    proof {
        lemma_delimited_view(r);
    }
    r
}

/// The positional call of `name` with `args`.
pub fn build_call(name: &String, sp: Span, args: Vec<Vec<TokenTree>>) -> (r: Vec<TokenTree>)
    ensures
        r.deep_view() == spec_call(name@, sp, args.deep_view()),
{
    let ghost all = args.deep_view();
    let mut arg_tts: Vec<TokenTree> = Vec::new();
    let n = args.len();
    let mut args = args;
    let mut ii: usize = 0;
    assert(arg_tts.deep_view() =~= spec_join(sp, all.take(0)));
    while ii < n
        invariant
            ii <= n,
            n == all.len(),
            args@.len() == n,
            forall|j: int| ii <= j < n ==> (#[trigger] args@[j]).deep_view() == all[j],
            arg_tts.deep_view() == spec_join(sp, all.take(ii as int)),
        decreases n - ii,
    {
        let ghost before = arg_tts.deep_view();
        let mut arg: Vec<TokenTree> = Vec::new();
        args.set_and_swap(ii, &mut arg);
        if ii > 0 {
            arg_tts.push(TokenTree::Token(sp, Token::Comma));
        }
        let ghost middle = arg_tts.deep_view();
        arg_tts.append(&mut arg);
        proof {
            let prefix = all.take(ii + 1);
            assert(prefix =~= all.take(ii as int).push(all[ii as int]));
            lemma_join_push(sp, all.take(ii as int), all[ii as int]);
            if ii > 0 {
                assert(middle =~= before + seq![spec_comma(sp)]);
            }
            assert(arg_tts.deep_view() =~= middle + all[ii as int]);
        }
        ii += 1;
    }
    let mut call_tts: Vec<TokenTree> = Vec::new();
    call_tts.push(TokenTree::Token(sp, Token::Ident(name.clone())));
    call_tts.push(new_delimited(sp, DelimToken::Paren, arg_tts));
    proof {
        assert(all.take(n as int) =~= all);
        assert(call_tts.deep_view() =~= spec_call(name@, sp, all));
    }
    call_tts
}

impl KWargDecl {
    /// Resolves one invocation: binds the arguments in `tts` to the
    /// parameters, fills in the defaults, and returns the arguments of the
    /// positional call in the order of the declaration. `sp` is the span of
    /// the invocation, which an error carries where no token is at fault.
    pub fn resolve(&self, sp: Span, tts: &[TokenTree]) -> (r: Result<
        Vec<Vec<TokenTree>>,
        Diagnostic,
    >)
        ensures
            match r {
                Ok(args) => spec_resolve(self@, sp, tts.deep_view()) == Ok::<
                    Seq<Seq<TreeView>>,
                    DiagnosticView,
                >(args.deep_view()),
                Err(e) => spec_resolve(self@, sp, tts.deep_view()) == Err::<
                    Seq<Seq<TreeView>>,
                    DiagnosticView,
                >(e@),
            },
    {
        let ghost decl = self@;
        let ghost trees = tts.deep_view();
        let params = self.params();
        let n = params.len();

        let mut arg_vals: Vec<Option<Vec<TokenTree>>> = Vec::new();
        let mut k: usize = 0;
        while k < n
            invariant
                k <= n,
                n == params@.len(),
                params.deep_view() == decl.params,
                arg_vals@.len() == k,
                forall|j: int|
                    0 <= j < k ==> (#[trigger] arg_vals@[j]).deep_view() == decl.params[j].default,
            decreases n - k,
        {
            let default = match &params[k].default {
                Some(d) => Some(clone_tts(d.as_slice())),
                None => None,
            };
            assert(params.deep_view()[k as int].default == params@[k as int].default.deep_view());
            arg_vals.push(default);
            k += 1;
        }
        assert(arg_vals.deep_view() =~= spec_initial(decl).slots);

        let ghost goal = spec_bind_all(decl, sp, spec_initial(decl), spec_arguments(trees, 0));
        let mut cur = TTLookAhead::new(tts);
        let mut found_kwarg = false;
        let mut pos_arg_idx: usize = 0;
        loop
            invariant
                decl == self@,
                trees == tts.deep_view(),
                params.deep_view() == decl.params,
                n == params@.len(),
                goal == spec_bind_all(decl, sp, spec_initial(decl), spec_arguments(trees, 0)),
                cur.trees() == trees,
                0 <= cur.position() <= trees.len(),
                arg_vals@.len() == n,
                pos_arg_idx <= n,
                goal == spec_bind_all(
                    decl,
                    sp,
                    ScanState {
                        slots: arg_vals.deep_view(),
                        found_keyword: found_kwarg,
                        positional: pos_arg_idx as int,
                    },
                    spec_arguments(trees, cur.position()),
                ),
            ensures
                arg_vals@.len() == n,
                goal == Ok::<ScanState, DiagnosticView>(
                    ScanState {
                        slots: arg_vals.deep_view(),
                        found_keyword: found_kwarg,
                        positional: pos_arg_idx as int,
                    },
                ),
            decreases trees.len() - cur.position(),
        {
            let ghost pos = cur.position();
            let ghost slots = arg_vals.deep_view();
            let ghost st = ScanState {
                slots,
                found_keyword: found_kwarg,
                positional: pos_arg_idx as int,
            };
            let tt = match cur.cur_tt() {
                Some(tt) => tt,
                None => {
                    break ;
                },
            };
            let ghost end = spec_arg_end(trees, pos);
            let ghost arg = ArgumentView {
                tokens: trees.subrange(pos, end),
                comma: if end < trees.len() {
                    Some(trees[end])
                } else {
                    None
                },
            };
            let ghost rest = spec_arguments(trees, spec_arg_next(trees, pos));
            proof {
                lemma_arg_end_is_first_comma(trees, pos);
                let args = spec_arguments(trees, pos);
                assert(args[0] == arg);
                assert(args.skip(1) =~= rest);
                assert(goal == match spec_bind(decl, sp, st, arg) {
                    Err(e) => Err(e),
                    Ok(next) => spec_bind_all(decl, sp, next, rest),
                });
            }
            let keyword = match tt.ident() {
                Some(name) => match cur.next_tt() {
                    Some(next) => if next.is_eq() {
                        Some(name)
                    } else {
                        None
                    },
                    None => None,
                },
                None => None,
            };
            proof {
                if keyword.is_some() {
                    assert(!trees[pos].is_comma() && !trees[pos + 1].is_comma());
                    assert(end >= pos + 2);
                    lemma_arg_end(trees, pos + 2, end);
                }
                assert(keyword.is_some() == arg.is_keyword());
                assert(arg.first() == trees[pos]);
            }
            let mut eq_span = sp;
            let arg_idx = match keyword {
                Some(name) => {
                    match position(params.as_slice(), name) {
                        Some(arg_idx) => {
                            found_kwarg = true;
                            // Skip the name and the `=`.
                            match cur.bump() {
                                Some(eq) => {
                                    eq_span = get_span_from_tt(eq);
                                },
                                None => {},
                            }
                            cur.bump();
                            arg_idx
                        },
                        None => {
                            return Err(
                                Diagnostic::UnknownArgumentName { span: get_span_from_tt(tt) },
                            );
                        },
                    }
                },
                None => {
                    if found_kwarg {
                        return Err(Diagnostic::OrderingViolation { span: get_span_from_tt(tt) });
                    }
                    if pos_arg_idx == n {
                        return Err(
                            Diagnostic::ArityExceeded {
                                span: sp,
                                target: self.name().clone(),
                                expected: n,
                            },
                        );
                    }
                    pos_arg_idx += 1;
                    pos_arg_idx - 1
                },
            };
            proof {
                lemma_position(decl.params, trees[pos].ident());
            }
            let ghost start = cur.position();
            let value = cur.collect_until_comma();
            proof {
                assert(spec_arg_end(trees, start) == end);
                assert(value.deep_view().len() == value@.len());
                if keyword.is_some() {
                    assert(start == pos + 2);
                    assert(eq_span == arg.tokens[1].span());
                    assert(value.deep_view() =~= arg.tokens.skip(2));
                } else {
                    assert(start == pos);
                }
            }
            if value.len() == 0 {
                return Err(
                    match cur.cur_tt() {
                        Some(comma) => Diagnostic::EmptyArgumentValue {
                            span: get_span_from_tt(comma),
                            found: EmptyValue::Comma,
                        },
                        None => Diagnostic::EmptyArgumentValue {
                            span: eq_span,
                            found: EmptyValue::End,
                        },
                    },
                );
            }
            arg_vals.set(arg_idx, Some(value));
            cur.bump();
            proof {
                assert(arg_vals.deep_view() =~= slots.update(
                    arg_idx as int,
                    Some(trees.subrange(start, end)),
                ));
                assert(cur.position() == spec_arg_next(trees, pos));
            }
        }

        // Every parameter needs a value by now.
        let ghost slots = arg_vals.deep_view();
        let ghost wanted = spec_resolve(decl, sp, trees);
        let mut args: Vec<Vec<TokenTree>> = Vec::new();
        let mut ii: usize = 0;
        while ii < n
            invariant
                wanted == spec_resolve(self@, sp, tts.deep_view()),
                wanted == match spec_first_unbound(slots) {
                    Some(i) => Err::<Seq<Seq<TreeView>>, DiagnosticView>(
                        DiagnosticView::MissingRequiredArgument {
                            span: sp,
                            name: decl.params[i].name,
                        },
                    ),
                    None => Ok(Seq::new(slots.len(), |i: int| slots[i].unwrap())),
                },
                ii <= n,
                n == params@.len(),
                decl == self@,
                params.deep_view() == decl.params,
                slots.len() == n,
                arg_vals@.len() == n,
                args@.len() == ii,
                forall|j: int| ii <= j < n ==> (#[trigger] arg_vals@[j]).deep_view() == slots[j],
                forall|j: int| 0 <= j < ii ==> slots[j] == Some((#[trigger] args@[j]).deep_view()),
            decreases n - ii,
        {
            let mut taken: Option<Vec<TokenTree>> = None;
            arg_vals.set_and_swap(ii, &mut taken);
            match taken {
                Some(tt) => {
                    args.push(tt);
                },
                None => {
                    proof {
                        lemma_first_unbound(slots);
                        assert(slots[ii as int].is_none());
                        assert forall|j: int| 0 <= j < ii implies (#[trigger] slots[j]).is_some() by {
                            assert(slots[j] == Some(args@[j].deep_view()));
                        }
                        assert(spec_first_unbound(slots) == Some(ii as int));
                        assert(params.deep_view()[ii as int].name == params@[ii as int].name@);
                    }
                    return Err(
                        Diagnostic::MissingRequiredArgument {
                            span: sp,
                            name: params[ii].name.clone(),
                        },
                    );
                },
            }
            ii += 1;
        }
        proof {
            lemma_first_unbound(slots);
            assert forall|j: int| 0 <= j < n implies (#[trigger] slots[j]).is_some() by {
                assert(slots[j] == Some(args@[j].deep_view()));
            }
            assert(spec_first_unbound(slots).is_none());
            assert(args.deep_view() =~= Seq::new(slots.len(), |i: int| slots[i].unwrap()));
        }
        Ok(args)
    }

    /// Rewrites one invocation to the positional call that it stands for: the
    /// name of the callee and, in parentheses, an argument for each parameter
    /// in the order of the declaration.
    pub fn expand(&self, sp: Span, tts: &[TokenTree]) -> (r: Result<Vec<TokenTree>, Diagnostic>)
        ensures
            match r {
                Ok(call) => spec_expand(self@, sp, tts.deep_view()) == Ok::<
                    Seq<TreeView>,
                    DiagnosticView,
                >(call.deep_view()),
                Err(e) => spec_expand(self@, sp, tts.deep_view()) == Err::<
                    Seq<TreeView>,
                    DiagnosticView,
                >(e@),
            },
    {
        match self.resolve(sp, tts) {
            Ok(args) => Ok(build_call(self.name(), sp, args)),
            Err(e) => Err(e),
        }
    }
}

} // verus!
